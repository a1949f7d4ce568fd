use generator::parser::parse;
use generator::parser::Alignment;
use generator::parser::VAlignment;

fn segment(ty: u32, data: &str) -> String {
    format!("{};{};{}", ty, data.len(), data)
}

#[test]
fn written_parts_read_back() {
    let layer = "-5;7;120;11;Times New Roman;12.5;700;#112233;#445566;;#778899;k;a;b,c";
    let parts = [segment(2, "42"), segment(0, "<svg/>"), segment(1, layer), segment(1, layer)];
    let msg = parse(&parts.join(",")).unwrap();
    assert_eq!(msg.header, "42");
    assert_eq!(msg.svg.data, "<svg/>");
    assert_eq!(msg.texts.len(), 2);
    let t = &msg.texts[1];
    assert_eq!((t.x, t.y, t.wrap_width), (-5, 7, 120));
    assert_eq!((t.alignment, t.valignment), (Alignment::Center, VAlignment::Baseline));
    assert_eq!(t.font_family, "Times New Roman");
    assert_eq!(t.font_size, "12.5");
    assert_eq!(t.font_weight, 700);
    assert_eq!(t.color, "#112233");
    assert_eq!(t.bg_color.as_deref(), Some("#445566"));
    assert!(t.monospace_color.is_none());
    assert_eq!(t.link_color.as_deref(), Some("#778899"));
    assert_eq!(t.entities_key.as_deref(), Some("k"));
    assert_eq!(t.text, "a;b,c");
}

#[test]
fn data_may_hold_the_separators() {
    let svg = "<svg>;,;</svg>";
    let msg = parse(&format!("{},{}", segment(0, svg), segment(2, ",,"))).unwrap();
    assert_eq!(msg.svg.data, svg);
    assert_eq!(msg.header, ",,");
}
