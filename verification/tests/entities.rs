use generator::color::Rgba8;
use generator::entities::entity_spans;
use generator::entities::entity_spans_checked;
use generator::entities::styled;
use generator::entities::text_layer_plan;
use generator::entities::RangedStyle;
use generator::entities::StyleOp;
use generator::json::JsonNumber;
use generator::json::JsonValue;
use generator::parser::Alignment;
use generator::parser::TextEntity;
use generator::parser::TextMessage;
use generator::parser::VAlignment;
use generator::primitives::TextAlign;

const LINK: Rgba8 = Rgba8 { r: 80, g: 150, b: 240, a: 255 };

fn entity(ty: &str, offset: u64, length: u64) -> JsonValue {
    JsonValue::Object(vec![
        ("type".to_string(), JsonValue::String(ty.to_string())),
        ("offset".to_string(), JsonValue::Number(JsonNumber::PosInt(offset))),
        ("length".to_string(), JsonValue::Number(JsonNumber::PosInt(length))),
    ])
}

fn spans_for(content: &str, ty: &str, offset: u64, length: u64) -> Vec<generator::entities::EntitySpan> {
    entity_spans(content, content, &vec![entity(ty, offset, length)], LINK, "monospace")
}

#[test]
fn render_with_entities_bold() {
    let spans = spans_for("Hello bold world", "bold", 6, 4);
    assert!(!spans.is_empty());
    assert!(spans[0].bold);
    assert_eq!((spans[0].start, spans[0].end), (6, 10));
}

#[test]
fn render_with_entities_italic() {
    let spans = spans_for("hi there", "italic", 0, 2);
    assert_eq!(spans[0].italic, Some(true));
}

#[test]
fn render_with_entities_link() {
    let spans = spans_for("click here", "text_link", 6, 4);
    assert_eq!(spans[0].underline, Some(true));
    assert!(spans[0].color.is_some());
}

#[test]
fn render_with_entities_underline() {
    let spans = spans_for("hello", "underline", 0, 5);
    assert_eq!(spans[0].underline, Some(true));
}

#[test]
fn render_with_entities_strikethrough() {
    let spans = spans_for("hello", "strikethrough", 0, 5);
    assert_eq!(spans[0].strikethrough, Some(true));
}

#[test]
fn render_with_entities_code() {
    let spans = spans_for("hello", "code", 0, 5);
    assert_eq!(spans[0].font_family.as_deref(), Some("monospace"));
}

#[test]
fn render_with_entities_bot_command() {
    let spans = spans_for("/start", "bot_command", 0, 6);
    assert!(spans[0].color.is_some());
    assert_ne!(spans[0].underline, Some(true));
}

#[test]
fn render_with_entities_url() {
    let spans = spans_for("http://a.com", "url", 0, 12);
    assert!(spans[0].color.is_some());
    assert_eq!(spans[0].underline, Some(true));
}

#[test]
fn render_with_entities_mention() {
    let spans = spans_for("@user", "mention", 0, 5);
    assert!(spans[0].color.is_some());
    assert_eq!(spans[0].underline, Some(true));
}

#[test]
fn spans_are_shifted_to_where_the_content_occurs() {
    let spans = entity_spans("Quote: Hello bold", "Hello bold", &vec![entity("bold", 6, 4)], LINK, "mono");
    assert_eq!((spans[0].start, spans[0].end), (13, 17));
    let far = entity_spans("ü Hello", "Hello", &vec![entity("italic", 0, 5)], LINK, "mono");
    // `ü` takes two bytes, so the content starts at byte 3.
    assert_eq!((far[0].start, far[0].end), (3, 8));
}

#[test]
fn no_spans_when_the_content_is_missing() {
    let spans = entity_spans("something else", "Hello", &vec![entity("bold", 0, 5)], LINK, "mono");
    assert!(spans.is_empty());
}

#[test]
fn unknown_kinds_and_missing_fields() {
    let spans = entity_spans(
        "abc",
        "abc",
        &vec![entity("spoiler", 0, 3), JsonValue::Object(vec![])],
        LINK,
        "mono",
    );
    assert_eq!(spans.len(), 2);
    assert!(!spans[0].bold && spans[0].color.is_none() && spans[0].underline.is_none());
    assert_eq!((spans[1].start, spans[1].end), (0, 0));
}

#[test]
fn overflowing_ranges_are_refused() {
    let r = entity_spans_checked("abc", "abc", &vec![entity("bold", u64::MAX, 1)], LINK, "mono");
    assert!(r.is_none());
}

#[test]
fn styled_uses_the_code_family_and_link_colour() {
    let s = styled("pre", 1, 2, LINK, "Fira Code");
    assert_eq!(s.font_family.as_deref(), Some("Fira Code"));
    let l = styled("email", 1, 2, LINK, "Fira Code");
    assert_eq!(l.color, Some(LINK));
}

fn layer(text: &str) -> TextMessage {
    TextMessage {
        x: 0,
        y: 0,
        wrap_width: 300,
        alignment: Alignment::Center,
        valignment: VAlignment::Baseline,
        font_family: "Inter".to_string(),
        font_size: "16".to_string(),
        font_weight: 400,
        color: "#FF0000".to_string(),
        bg_color: Some("#00000080".to_string()),
        monospace_color: Some("#00FF00".to_string()),
        link_color: None,
        entities_key: None,
        text: text.to_string(),
    }
}

fn te(ty: &str, offset: usize, length: usize) -> TextEntity {
    TextEntity { ty: ty.to_string(), offset, length }
}

#[test]
fn text_layer_plan_settings() {
    let plan = text_layer_plan(&layer("Hello"), &vec![]);
    assert_eq!(plan.color, Rgba8::rgba(255, 0, 0, 255));
    assert_eq!(plan.max_width, Some(300));
    assert_eq!(plan.align, TextAlign::Center);
    assert!(plan.baseline);
    assert_eq!(plan.background, Some(Rgba8::rgba(0, 0, 0, 128)));
    assert!(plan.styles.is_empty());
}

#[test]
fn text_layer_plan_without_wrap() {
    let mut l = layer("x");
    l.wrap_width = 0;
    l.bg_color = None;
    l.alignment = Alignment::Right;
    l.valignment = VAlignment::Top;
    let plan = text_layer_plan(&l, &vec![]);
    assert_eq!(plan.max_width, None);
    assert_eq!(plan.background, None);
    assert_eq!(plan.align, TextAlign::End);
    assert!(!plan.baseline);
}

#[test]
fn text_layer_plan_entity_styles() {
    let entities = vec![te("bold", 0, 2), te("code", 2, 100), te("url", 1, 1), te("spoiler", 0, 1)];
    let plan = text_layer_plan(&layer("Hello"), &entities);
    assert_eq!(
        plan.styles,
        vec![
            RangedStyle { start: 0, end: 2, op: StyleOp::Bold },
            RangedStyle { start: 2, end: 5, op: StyleOp::Monospace },
            RangedStyle { start: 2, end: 5, op: StyleOp::Brush(Rgba8::rgba(0, 255, 0, 255)) },
            RangedStyle { start: 1, end: 2, op: StyleOp::Underline },
        ]
    );
}

#[test]
fn make_text_with_entities() {
    let text = "Hello bold world";
    let entities = vec![
        entity("bold", 6, 4),
        entity("italic", 0, 5),
        entity("underline", 0, 5),
        entity("strikethrough", 0, 5),
        entity("code", 0, 5),
        entity("text_link", 0, 5),
        entity("bot_command", 0, 5),
        entity("unknown_type", 0, 5),
    ];
    let spans = entity_spans(text, text, &entities, LINK, "monospace");
    assert!(!spans.is_empty());
    assert_eq!(spans.len(), 8);
}
