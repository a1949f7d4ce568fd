use generator::json::JsonNumber;
use generator::json::JsonValue;
use generator::parser::parse;
use generator::parser::parse_alignment;
use generator::parser::parse_checked;
use generator::parser::parse_entities;
use generator::parser::parse_entities_map;
use generator::parser::parse_float;
use generator::parser::parse_int;
use generator::parser::parse_text;
use generator::parser::read_until;
use generator::parser::Alignment;
use generator::parser::ParseError;
use generator::parser::VAlignment;

fn segment(ty: u32, data: &str) -> String {
    format!("{};{};{}", ty, data.len(), data)
}

fn obj(entries: Vec<(&str, JsonValue)>) -> JsonValue {
    JsonValue::Object(entries.into_iter().map(|(k, v)| (k.to_string(), v)).collect())
}

fn entity(ty: &str, offset: u64, length: u64) -> JsonValue {
    obj(vec![
        ("type", JsonValue::String(ty.to_string())),
        ("offset", JsonValue::Number(JsonNumber::PosInt(offset))),
        ("length", JsonValue::Number(JsonNumber::PosInt(length))),
    ])
}

#[test]
fn read_until_splits_at_first_delimiter() {
    let mut input = "ab;cd;ef";
    assert_eq!(read_until(&mut input, ';').unwrap(), "ab");
    assert_eq!(input, "cd;ef");
    assert_eq!(read_until(&mut input, ';').unwrap(), "cd");
    assert_eq!(read_until(&mut input, ';').unwrap(), "ef");
    assert_eq!(input, "");
    assert!(matches!(read_until(&mut input, ';'), Err(ParseError::UnexpectedEnd)));
}

#[test]
fn read_until_empty_token_before_delimiter() {
    let mut input = ";x";
    assert_eq!(read_until(&mut input, ';').unwrap(), "");
    assert_eq!(input, "x");
}

#[test]
fn parse_int_trims_and_checks_range() {
    assert_eq!(parse_int(" 42 ").unwrap(), 42);
    assert_eq!(parse_int("-7").unwrap(), -7);
    assert_eq!(parse_int("+7").unwrap(), 7);
    assert_eq!(parse_int("-2147483648").unwrap(), i32::MIN);
    assert!(matches!(parse_int("2147483648"), Err(ParseError::InvalidInt(s)) if s == "2147483648"));
    assert!(matches!(parse_int(" x "), Err(ParseError::InvalidInt(s)) if s == " x "));
    assert!(matches!(parse_int(""), Err(ParseError::InvalidInt(_))));
    assert!(matches!(parse_int("-"), Err(ParseError::InvalidInt(_))));
}

#[test]
fn parse_float_keeps_the_trimmed_literal() {
    assert_eq!(parse_float(" 16 ").unwrap(), "16");
    assert_eq!(parse_float("1.5e3").unwrap(), "1.5e3");
    assert_eq!(parse_float(".5").unwrap(), ".5");
    assert_eq!(parse_float("inf").unwrap(), "inf");
    assert!(matches!(parse_float("big"), Err(ParseError::InvalidFloat(s)) if s == "big"));
    assert!(matches!(parse_float("1e"), Err(ParseError::InvalidFloat(_))));
}

#[test]
fn alignment_digits() {
    assert_eq!(parse_alignment(0), (Alignment::Left, VAlignment::Top));
    assert_eq!(parse_alignment(1), (Alignment::Center, VAlignment::Top));
    assert_eq!(parse_alignment(2), (Alignment::Right, VAlignment::Top));
    assert_eq!(parse_alignment(10), (Alignment::Left, VAlignment::Baseline));
    assert_eq!(parse_alignment(12), (Alignment::Right, VAlignment::Baseline));
    assert_eq!(parse_alignment(11), (Alignment::Center, VAlignment::Baseline));
    assert_eq!(parse_alignment(7), (Alignment::Left, VAlignment::Top));
    assert_eq!(parse_alignment(-1), (Alignment::Left, VAlignment::Top));
}

#[test]
fn parse_text_all_fields() {
    let t = parse_text("10;-20;200;12;Inter; 16 ;700;#FF0000;#000000;#00FF00;#0000FF;key;Hello; World").unwrap();
    assert_eq!(t.x, 10);
    assert_eq!(t.y, -20);
    assert_eq!(t.wrap_width, 200);
    assert_eq!(t.alignment, Alignment::Right);
    assert_eq!(t.valignment, VAlignment::Baseline);
    assert_eq!(t.font_family, "Inter");
    assert_eq!(t.font_size, "16");
    assert_eq!(t.font_weight, 700);
    assert_eq!(t.color, "#FF0000");
    assert_eq!(t.bg_color.as_deref(), Some("#000000"));
    assert_eq!(t.monospace_color.as_deref(), Some("#00FF00"));
    assert_eq!(t.link_color.as_deref(), Some("#0000FF"));
    assert_eq!(t.entities_key.as_deref(), Some("key"));
    assert_eq!(t.text, "Hello; World");
}

#[test]
fn parse_text_empty_optionals() {
    let t = parse_text("0;0;0;0;sans-serif;15;400;#FFFFFF;;;;;Hi").unwrap();
    assert!(t.bg_color.is_none());
    assert!(t.monospace_color.is_none());
    assert!(t.link_color.is_none());
    assert!(t.entities_key.is_none());
    assert_eq!(t.text, "Hi");
}

#[test]
fn parse_text_ends_after_color() {
    let t = parse_text("0;0;0;0;f;15;400;#FFFFFF").unwrap();
    assert!(t.bg_color.is_none());
    assert_eq!(t.text, "");
}

#[test]
fn parse_text_errors() {
    assert!(matches!(parse_text("1;2"), Err(ParseError::UnexpectedEnd)));
    assert!(matches!(parse_text("a;0;0;0;f;15;400;c"), Err(ParseError::InvalidInt(s)) if s == "a"));
    assert!(matches!(parse_text("0;0;0;0;f;big;400;c"), Err(ParseError::InvalidFloat(s)) if s == "big"));
    assert!(matches!(parse_text("0;0;0;0;f;15;70000;c"), Err(ParseError::InvalidInt(s)) if s == "70000"));
}

#[test]
fn parse_whole_message() {
    let text = "10;20;0;1;sans-serif;16;400;#FF0000;;;;;Hello World";
    let input = format!("{},{},{}", segment(0, "<svg></svg>"), segment(1, text), segment(2, "1234567890"));
    let msg = parse(&input).unwrap();
    assert_eq!(msg.svg.data, "<svg></svg>");
    assert_eq!(msg.header, "1234567890");
    assert_eq!(msg.texts.len(), 1);
    assert_eq!(msg.texts[0].text, "Hello World");
    assert_eq!(msg.texts[0].alignment, Alignment::Center);
}

#[test]
fn parse_lengths_count_bytes() {
    let input = format!("{},{}", segment(0, "<svg>é😀</svg>"), segment(2, "ü"));
    let msg = parse(&input).unwrap();
    assert_eq!(msg.svg.data, "<svg>é😀</svg>");
    assert_eq!(msg.header, "ü");
}

#[test]
fn parse_later_segments_replace_earlier_ones() {
    let input = format!("{},{},{}", segment(0, "a"), segment(0, "b"), segment(2, "h"));
    let msg = parse(&input).unwrap();
    assert_eq!(msg.svg.data, "b");
    assert_eq!(msg.header, "h");
}

#[test]
fn parse_without_commas() {
    let input = format!("{}{}", segment(0, "ab"), segment(2, "cd"));
    let msg = parse(&input).unwrap();
    assert_eq!(msg.svg.data, "ab");
    assert_eq!(msg.header, "cd");
}

#[test]
fn parse_empty_input() {
    let msg = parse("").unwrap();
    assert_eq!(msg.svg.data, "");
    assert_eq!(msg.header, "");
    assert!(msg.texts.is_empty());
}

#[test]
fn parse_errors() {
    assert!(matches!(parse("0"), Err(ParseError::UnexpectedEnd)));
    assert!(matches!(parse("x;1;a"), Err(ParseError::InvalidInt(s)) if s == "x"));
    assert!(matches!(parse("0;y;a"), Err(ParseError::InvalidInt(s)) if s == "y"));
    assert!(matches!(parse("0;10;abc"), Err(ParseError::PayloadTooShort { expected: 10, got: 3 })));
    assert!(matches!(parse("7;1;a"), Err(ParseError::UnknownType(7))));
    assert!(matches!(parse("1;3;5;6"), Err(ParseError::UnexpectedEnd)));
}

#[test]
fn parse_checked_tells_apart_a_cut_character() {
    // One byte of the two-byte `é` would be cut off.
    assert!(parse_checked("0;1;é").is_none());
    assert!(matches!(parse_checked("0;2;é"), Some(Ok(m)) if m.svg.data == "é"));
}

#[test]
fn entities_from_json_array() {
    let arr = JsonValue::Array(vec![
        entity("bold", 0, 4),
        obj(vec![("type", JsonValue::String("italic".to_string()))]),
        entity("url", 6, 10),
        JsonValue::Null,
    ]);
    let es = parse_entities(&arr);
    assert_eq!(es.len(), 2);
    assert_eq!(es[0].ty, "bold");
    assert_eq!((es[0].offset, es[0].length), (0, 4));
    assert_eq!(es[1].ty, "url");
    assert_eq!((es[1].offset, es[1].length), (6, 10));
    assert!(parse_entities(&JsonValue::Null).is_empty());
}

#[test]
fn entities_map_by_key() {
    let json = obj(vec![
        ("content", JsonValue::Array(vec![entity("bold", 1, 2)])),
        ("status", JsonValue::Bool(true)),
    ]);
    let map = parse_entities_map(Some(&json));
    assert_eq!(map.len(), 2);
    assert_eq!(map[0].0, "content");
    assert_eq!(map[0].1.len(), 1);
    assert_eq!(map[1].0, "status");
    assert!(map[1].1.is_empty());
    assert!(parse_entities_map(None).is_empty());
    assert!(parse_entities_map(Some(&JsonValue::Null)).is_empty());
}
