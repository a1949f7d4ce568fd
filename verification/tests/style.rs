use generator::primitives::TextAlign;
use generator::style::AlignItems;
use generator::style::Dimension;
use generator::style::DisplayMode;
use generator::style::FlexDirection;
use generator::style::JustifyContent;
use generator::style::LengthPercentage;
use generator::style::LengthPercentageAuto;
use generator::style::Position;
use generator::style::SchemeDimension;
use generator::style::Side;
use generator::style::StyleMod;
use generator::style::StyleSettings;
use generator::style::display_or_flex;
use generator::style::direction_or_row;
use generator::style::fn_align_items;
use generator::style::fn_direction;
use generator::style::fn_display;
use generator::style::fn_justify_content;
use generator::style::fn_position;
use generator::style::fn_text_align;
use generator::style::make_style;
use generator::style::position_or_relative;

fn px(v: f32) -> SchemeDimension {
    SchemeDimension::Length(v.to_bits())
}

fn len(v: f32) -> Dimension {
    Dimension::Length(v.to_bits())
}

fn lp(v: f32) -> LengthPercentage {
    LengthPercentage::Length(v.to_bits())
}

fn lpa(v: f32) -> LengthPercentageAuto {
    LengthPercentageAuto::Length(v.to_bits())
}

#[test]
fn direction_all_variants() {
    for (sym, expected) in [
        ("row", FlexDirection::Row),
        ("column", FlexDirection::Column),
        ("row-reverse", FlexDirection::RowReverse),
        ("column-reverse", FlexDirection::ColumnReverse),
    ] {
        let result = fn_direction(sym).unwrap();
        assert!(matches!(result, StyleMod::Direction(d) if d == expected));
    }
}

#[test]
fn direction_error() {
    assert!(fn_direction("diagonal").is_err());
}

#[test]
fn align_items_all_variants() {
    for sym in ["start", "flex-start", "end", "flex-end", "center", "stretch", "baseline"] {
        assert!(fn_align_items(sym).is_ok());
    }
}

#[test]
fn align_items_error() {
    assert!(fn_align_items("middle").is_err());
}

#[test]
fn justify_content_all_variants() {
    for sym in [
        "start",
        "flex-start",
        "end",
        "flex-end",
        "center",
        "space-between",
        "space-around",
        "space-evenly",
    ] {
        assert!(fn_justify_content(sym).is_ok());
    }
}

#[test]
fn justify_content_error() {
    assert!(fn_justify_content("spread").is_err());
}

#[test]
fn display_flex() {
    assert!(matches!(fn_display("flex").unwrap(), StyleMod::Display(DisplayMode::Flex)));
}

#[test]
fn display_none() {
    assert!(matches!(fn_display("none").unwrap(), StyleMod::Display(DisplayMode::Hidden)));
}

#[test]
fn display_error() {
    assert!(fn_display("grid").is_err());
}

#[test]
fn position_absolute() {
    assert!(matches!(fn_position("absolute").unwrap(), StyleMod::Position(Position::Absolute)));
}

#[test]
fn position_relative() {
    assert!(matches!(fn_position("relative").unwrap(), StyleMod::Position(Position::Relative)));
}

#[test]
fn position_error() {
    assert!(fn_position("fixed").is_err());
}

#[test]
fn text_align_all_variants() {
    for (sym, expected) in [
        ("start", TextAlign::Start),
        ("left", TextAlign::Start),
        ("center", TextAlign::Center),
        ("end", TextAlign::End),
        ("right", TextAlign::End),
        ("justify", TextAlign::Justify),
    ] {
        let result = fn_text_align(sym).unwrap();
        assert_eq!(result, expected);
    }
}

#[test]
fn text_align_error() {
    assert!(fn_text_align("middle").is_err());
}

#[test]
fn make_style_empty() {
    let result = make_style(&vec![]);
    assert_eq!(f32::from_bits(result.opacity_bits()), 1.0);
    assert_eq!(f64::from_bits(result.rotation_bits()), 0.0);
    assert_eq!(result, StyleSettings::new());
}

#[test]
fn make_style_with_mods() {
    let mods = vec![StyleMod::Opacity(0.5f32.to_bits()), StyleMod::Rotate(90.0f64.to_bits())];
    let result = make_style(&mods);
    assert!((f32::from_bits(result.opacity_bits()) - 0.5).abs() < 0.0001);
    assert_eq!(f64::from_bits(result.rotation_bits()), 90.0);
}

#[test]
fn dimension_length_to_dimension() {
    assert_eq!(px(42.0).to_dimension(), len(42.0));
}

#[test]
fn dimension_percent_to_dimension() {
    let d = SchemeDimension::Percent(0.5f32.to_bits());
    assert_eq!(d.to_dimension(), Dimension::Percent(0.5f32.to_bits()));
}

#[test]
fn dimension_auto_to_dimension() {
    assert_eq!(SchemeDimension::Auto.to_dimension(), Dimension::Auto);
}

#[test]
fn dimension_length_to_length_percentage() {
    assert_eq!(px(10.0).to_length_percentage(), lp(10.0));
}

#[test]
fn dimension_percent_to_length_percentage() {
    let d = SchemeDimension::Percent(0.75f32.to_bits());
    assert_eq!(d.to_length_percentage(), LengthPercentage::Percent(0.75f32.to_bits()));
}

#[test]
fn dimension_auto_to_length_percentage_is_zero() {
    assert_eq!(SchemeDimension::Auto.to_length_percentage(), lp(0.0));
}

#[test]
fn dimension_to_length_percentage_auto() {
    assert_eq!(px(5.0).to_length_percentage_auto(), lpa(5.0));
    assert_eq!(
        SchemeDimension::Percent(0.3f32.to_bits()).to_length_percentage_auto(),
        LengthPercentageAuto::Percent(0.3f32.to_bits())
    );
    assert_eq!(SchemeDimension::Auto.to_length_percentage_auto(), LengthPercentageAuto::Auto);
}

#[test]
fn style_mod_direction() {
    let mut style = StyleSettings::new();
    StyleMod::Direction(FlexDirection::Column).apply(&mut style);
    assert_eq!(style.flex_direction, Some(FlexDirection::Column));
}

#[test]
fn style_mod_align_items() {
    let mut style = StyleSettings::new();
    StyleMod::AlignItems(Some(AlignItems::Center)).apply(&mut style);
    assert_eq!(style.align_items, Some(Some(AlignItems::Center)));
}

#[test]
fn style_mod_justify_content() {
    let mut style = StyleSettings::new();
    StyleMod::JustifyContent(Some(JustifyContent::SpaceBetween)).apply(&mut style);
    assert_eq!(style.justify_content, Some(Some(JustifyContent::SpaceBetween)));
}

#[test]
fn style_mod_display() {
    let mut style = StyleSettings::new();
    StyleMod::Display(DisplayMode::Hidden).apply(&mut style);
    assert_eq!(style.display, Some(DisplayMode::Hidden));
}

#[test]
fn style_mod_position() {
    let mut style = StyleSettings::new();
    StyleMod::Position(Position::Absolute).apply(&mut style);
    assert_eq!(style.position, Some(Position::Absolute));
}

#[test]
fn style_mod_width_height() {
    let mut style = StyleSettings::new();
    StyleMod::Width(px(100.0)).apply(&mut style);
    StyleMod::Height(px(50.0)).apply(&mut style);
    assert_eq!(style.width, Some(len(100.0)));
    assert_eq!(style.height, Some(len(50.0)));
}

#[test]
fn style_mod_max_min_size() {
    let mut style = StyleSettings::new();
    StyleMod::MaxWidth(px(500.0)).apply(&mut style);
    StyleMod::MaxHeight(px(300.0)).apply(&mut style);
    StyleMod::MinWidth(px(10.0)).apply(&mut style);
    StyleMod::MinHeight(px(5.0)).apply(&mut style);
    assert_eq!(style.max_width, Some(len(500.0)));
    assert_eq!(style.max_height, Some(len(300.0)));
    assert_eq!(style.min_width, Some(len(10.0)));
    assert_eq!(style.min_height, Some(len(5.0)));
}

#[test]
fn style_mod_padding_uniform() {
    let mut style = StyleSettings::new();
    StyleMod::PaddingUniform(px(8.0)).apply(&mut style);
    let p = Some(lp(8.0));
    assert_eq!(style.padding.top, p);
    assert_eq!(style.padding.right, p);
    assert_eq!(style.padding.bottom, p);
    assert_eq!(style.padding.left, p);
}

#[test]
fn style_mod_padding_xy() {
    let mut style = StyleSettings::new();
    StyleMod::PaddingXY(px(10.0), px(5.0)).apply(&mut style);
    assert_eq!(style.padding.left, Some(lp(10.0)));
    assert_eq!(style.padding.right, Some(lp(10.0)));
    assert_eq!(style.padding.top, Some(lp(5.0)));
    assert_eq!(style.padding.bottom, Some(lp(5.0)));
}

#[test]
fn style_mod_padding_trbl() {
    let mut style = StyleSettings::new();
    StyleMod::PaddingTRBL(px(1.0), px(2.0), px(3.0), px(4.0)).apply(&mut style);
    assert_eq!(style.padding.top, Some(lp(1.0)));
    assert_eq!(style.padding.right, Some(lp(2.0)));
    assert_eq!(style.padding.bottom, Some(lp(3.0)));
    assert_eq!(style.padding.left, Some(lp(4.0)));
}

#[test]
fn style_mod_margin_uniform() {
    let mut style = StyleSettings::new();
    StyleMod::MarginUniform(px(12.0)).apply(&mut style);
    let m = Some(lpa(12.0));
    assert_eq!(style.margin.top, m);
    assert_eq!(style.margin.right, m);
}

#[test]
fn style_mod_margin_sides() {
    let mut style = StyleSettings::new();
    StyleMod::MarginSide { side: Side::Top, dim: px(1.0) }.apply(&mut style);
    StyleMod::MarginSide { side: Side::Right, dim: px(2.0) }.apply(&mut style);
    StyleMod::MarginSide { side: Side::Bottom, dim: px(3.0) }.apply(&mut style);
    StyleMod::MarginSide { side: Side::Left, dim: px(4.0) }.apply(&mut style);
    assert_eq!(style.margin.top, Some(lpa(1.0)));
    assert_eq!(style.margin.right, Some(lpa(2.0)));
    assert_eq!(style.margin.bottom, Some(lpa(3.0)));
    assert_eq!(style.margin.left, Some(lpa(4.0)));
}

#[test]
fn style_mod_gap() {
    let mut style = StyleSettings::new();
    StyleMod::GapUniform(px(6.0)).apply(&mut style);
    assert_eq!(style.gap_width, Some(lp(6.0)));
    assert_eq!(style.gap_height, Some(lp(6.0)));
}

#[test]
fn style_mod_inset_all() {
    let mut style = StyleSettings::new();
    StyleMod::InsetAll(px(1.0), px(2.0), px(3.0), px(4.0)).apply(&mut style);
    assert_eq!(style.inset.top, Some(lpa(1.0)));
    assert_eq!(style.inset.right, Some(lpa(2.0)));
}

#[test]
fn style_mod_inset_sides() {
    let mut style = StyleSettings::new();
    StyleMod::InsetSide { side: Side::Top, dim: px(10.0) }.apply(&mut style);
    assert_eq!(style.inset.top, Some(lpa(10.0)));
}

#[test]
fn style_mod_opacity() {
    let mut style = StyleSettings::new();
    StyleMod::Opacity(0.42f32.to_bits()).apply(&mut style);
    assert!((f32::from_bits(style.opacity_bits()) - 0.42).abs() < 0.001);
}

#[test]
fn style_mod_rotate() {
    let mut style = StyleSettings::new();
    StyleMod::Rotate(90.0f64.to_bits()).apply(&mut style);
    assert_eq!(f64::from_bits(style.rotation_bits()), 90.0);
}

#[test]
fn later_modifier_of_a_kind_wins() {
    let a = make_style(&vec![StyleMod::Width(px(10.0)), StyleMod::Width(px(20.0))]);
    let b = make_style(&vec![StyleMod::Width(px(20.0))]);
    assert_eq!(a, b);
    let c = make_style(&vec![StyleMod::PaddingUniform(px(1.0)), StyleMod::PaddingXY(px(2.0), px(3.0))]);
    let d = make_style(&vec![StyleMod::PaddingXY(px(2.0), px(3.0))]);
    assert_eq!(c, d);
}

#[test]
fn modifier_applied_twice_acts_once() {
    let m = StyleMod::MarginSide { side: Side::Left, dim: px(7.0) };
    let once = make_style(&vec![m]);
    let twice = make_style(&vec![m, m]);
    assert_eq!(once, twice);
}

#[test]
fn make_style_applies_in_order() {
    let mods = vec![StyleMod::MarginUniform(px(1.0)), StyleMod::MarginSide { side: Side::Top, dim: px(9.0) }];
    let s = make_style(&mods);
    assert_eq!(s.margin.top, Some(lpa(9.0)));
    assert_eq!(s.margin.bottom, Some(lpa(1.0)));
}

#[test]
fn error_messages_name_the_symbol() {
    let e = fn_direction("diagonal").unwrap_err();
    assert!(e.contains("diagonal"));
}

#[test]
fn defaults_for_unknown_symbols() {
    assert_eq!(display_or_flex("grid"), DisplayMode::Flex);
    assert_eq!(display_or_flex("none"), DisplayMode::Hidden);
    assert_eq!(direction_or_row("diagonal"), FlexDirection::Row);
    assert_eq!(direction_or_row("column"), FlexDirection::Column);
    assert_eq!(position_or_relative("fixed"), Position::Relative);
    assert_eq!(position_or_relative("absolute"), Position::Absolute);
}
