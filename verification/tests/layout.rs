use generator::layout::extract_content_font;
use generator::layout::layout_dimensions;
use generator::layout::wrap_width_for;
use generator::layout::LayoutDimensions;

#[test]
fn content_font_from_the_content_block() {
    let template = "0;5;<svg>,\n1;0;0;0;0;0;Inter; 17 ;500;#000;content_text";
    let f = extract_content_font(template);
    assert_eq!(f.family, "Inter");
    assert_eq!(f.size, "17");
    assert_eq!(f.weight, "500");
}

#[test]
fn content_font_defaults() {
    let f = extract_content_font("0;5;<svg>");
    assert_eq!(f.family, "sans-serif");
    assert_eq!(f.size, "15");
    assert_eq!(f.weight, "400");
}

#[test]
fn content_font_bad_numbers_fall_back() {
    let f = extract_content_font("1;a;b;c;d;e;Mono;big;bold;x;the content,");
    assert_eq!(f.family, "Mono");
    assert_eq!(f.size, "15");
    assert_eq!(f.weight, "400");
}

#[test]
fn content_font_skips_blocks_without_content() {
    let template = "1;0;0;0;0;0;A;10;100;x;header,\n1;0;0;0;0;0;B;20;200;x;content";
    let f = extract_content_font(template);
    assert_eq!(f.family, "B");
    assert_eq!(f.size, "20");
}

#[test]
fn wrap_width_is_clamped() {
    assert_eq!(wrap_width_for(10), 100);
    assert_eq!(wrap_width_for(250), 250);
    assert_eq!(wrap_width_for(1000), 450);
    assert_eq!(wrap_width_for(-5), 100);
}

#[test]
fn dimensions_of_a_bubble() {
    let d = layout_dimensions(200, 40);
    assert_eq!(
        d,
        LayoutDimensions {
            wrap_width: 200,
            bubble_width: 225,
            svg_width: 325,
            bubble_height: 75,
            svg_height: 90,
            status_x: 265,
        }
    );
}

#[test]
fn dimensions_cap_the_canvas_width() {
    let d = layout_dimensions(450, 0);
    assert_eq!(d.bubble_width, 475);
    assert_eq!(d.svg_width, 550);
    assert_eq!(d.status_x, 490);
}
