use generator::dsl::circle_size;
use generator::dsl::linear_gradient_plan;
use generator::dsl::make_padding;
use generator::dsl::node_plan;
use generator::dsl::radial_gradient_plan;
use generator::dsl::rect_size;
use generator::dsl::rounded_rect_radii;
use generator::dsl::shape_mods_plan;
use generator::dsl::sweep_gradient_plan;
use generator::dsl::text_mods_plan;
use generator::dsl::CornerRadii;
use generator::dsl::DimArg;
use generator::dsl::GradientArg;
use generator::dsl::GradientPlan;
use generator::dsl::NodeArg;
use generator::dsl::ShapeModArg;
use generator::dsl::ShapeSize;
use generator::dsl::TextModArg;
use generator::style::SchemeDimension;
use generator::style::StyleMod;

fn px(v: f32) -> SchemeDimension {
    SchemeDimension::Length(v.to_bits())
}

fn dims(vs: &[f32]) -> Vec<(DimArg, String)> {
    vs.iter().map(|v| (DimArg::Dimension(px(*v)), format!("(px {})", v))).collect()
}

fn args<T: Copy>(kinds: &[T]) -> Vec<(T, String)> {
    kinds.iter().enumerate().map(|(i, k)| (*k, format!("#{}", i))).collect()
}

#[test]
fn make_padding_uniform() {
    assert_eq!(make_padding(&dims(&[10.0])).unwrap(), StyleMod::PaddingUniform(px(10.0)));
}

#[test]
fn make_padding_trbl() {
    assert_eq!(
        make_padding(&dims(&[1.0, 2.0, 3.0, 4.0])).unwrap(),
        StyleMod::PaddingTRBL(px(1.0), px(2.0), px(3.0), px(4.0))
    );
}

#[test]
fn make_padding_error_bad_count() {
    assert_eq!(make_padding(&dims(&[1.0, 2.0])).unwrap_err(), "padding: expected 1 or 4 arguments, got 2");
}

#[test]
fn make_padding_error_messages() {
    let one = vec![(DimArg::Other, "42".to_string())];
    assert_eq!(make_padding(&one).unwrap_err(), "padding: expected dimension, got 42");
    let mut four = dims(&[1.0, 2.0, 3.0, 4.0]);
    four[2] = (DimArg::Other, "x".to_string());
    four[3] = (DimArg::Other, "y".to_string());
    assert_eq!(make_padding(&four).unwrap_err(), "padding: expected 3rd arg to be dimension");
    assert_eq!(make_padding(&dims(&[])).unwrap_err(), "padding: expected 1 or 4 arguments, got 0");
    assert_eq!(make_padding(&dims(&[0.0; 12])).unwrap_err(), "padding: expected 1 or 4 arguments, got 12");
}

#[test]
fn make_circle_no_args() {
    assert_eq!(circle_size(&dims(&[])).unwrap(), ShapeSize::Unsized);
}

#[test]
fn make_circle_one_arg() {
    assert_eq!(circle_size(&dims(&[50.0])).unwrap(), ShapeSize::Square(px(50.0)));
}

#[test]
fn make_circle_two_args() {
    assert_eq!(circle_size(&dims(&[80.0, 60.0])).unwrap(), ShapeSize::Sized(px(80.0), px(60.0)));
}

#[test]
fn make_circle_error_too_many_args() {
    assert_eq!(
        circle_size(&dims(&[1.0, 2.0, 3.0])).unwrap_err(),
        "circle: expected 0, 1, or 2 arguments, got 3"
    );
}

#[test]
fn make_rect_no_args() {
    assert_eq!(rect_size(&dims(&[])).unwrap(), ShapeSize::Unsized);
}

#[test]
fn make_rect_one_arg() {
    assert_eq!(rect_size(&dims(&[100.0])).unwrap(), ShapeSize::Square(px(100.0)));
}

#[test]
fn make_rect_two_args() {
    assert_eq!(rect_size(&dims(&[100.0, 50.0])).unwrap(), ShapeSize::Sized(px(100.0), px(50.0)));
}

#[test]
fn make_rect_error_too_many() {
    assert!(rect_size(&dims(&[1.0, 2.0, 3.0])).is_err());
}

#[test]
fn shape_size_error_messages() {
    let one = vec![(DimArg::Other, "\"big\"".to_string())];
    assert_eq!(rect_size(&one).unwrap_err(), "rect: expected dimension, got \"big\"");
    let two = vec![(DimArg::Dimension(px(1.0)), "a".to_string()), (DimArg::Other, "b".to_string())];
    assert_eq!(circle_size(&two).unwrap_err(), "circle: expected 2nd arg to be dimension");
}

#[test]
fn make_rounded_rect_four_args() {
    assert_eq!(
        rounded_rect_radii(&dims(&[5.0, 10.0, 15.0, 20.0])).unwrap(),
        CornerRadii::Each(px(5.0), px(10.0), px(15.0), px(20.0))
    );
}

#[test]
fn make_rounded_rect_error_bad_count() {
    assert_eq!(
        rounded_rect_radii(&dims(&[1.0, 2.0])).unwrap_err(),
        "rounded-rect: expected 1 or 4 arguments, got 2"
    );
}

#[test]
fn rounded_rect_one_radius() {
    assert_eq!(rounded_rect_radii(&dims(&[8.0])).unwrap(), CornerRadii::All(px(8.0)));
    let mut four = dims(&[1.0, 2.0, 3.0, 4.0]);
    four[0] = (DimArg::Other, "z".to_string());
    assert_eq!(rounded_rect_radii(&four).unwrap_err(), "rounded-rect: expected 1st arg to be dimension");
}

#[test]
fn linear_gradient_with_angle_and_stops() {
    let plan = linear_gradient_plan(&args(&[GradientArg::Angle, GradientArg::Stop, GradientArg::Stop])).unwrap();
    assert!(matches!(plan, GradientPlan::Stops { angle: Some(0), ref stops } if *stops == vec![1, 2]));
}

#[test]
fn linear_gradient_error_too_few_stops() {
    let r = linear_gradient_plan(&args(&[GradientArg::Angle, GradientArg::Stop]));
    assert_eq!(r.unwrap_err(), "linear-gradient: need exactly 2 colors OR at least 2 stops");
}

#[test]
fn linear_gradient_error_bad_argument() {
    let r = linear_gradient_plan(&vec![(GradientArg::Other, "\"bad\"".to_string())]);
    assert_eq!(r.unwrap_err(), "linear-gradient: unexpected argument: \"bad\"");
}

#[test]
fn linear_gradient_two_colors_and_last_angle() {
    let two = linear_gradient_plan(&args(&[GradientArg::Color, GradientArg::Color])).unwrap();
    assert!(matches!(two, GradientPlan::TwoColors));
    let three = linear_gradient_plan(&args(&[GradientArg::Color, GradientArg::Color, GradientArg::Stop]));
    assert_eq!(three.unwrap_err(), "linear-gradient: unexpected argument: #0");
    let turned = linear_gradient_plan(&args(&[
        GradientArg::Angle,
        GradientArg::Stop,
        GradientArg::Angle,
        GradientArg::Stop,
    ]))
    .unwrap();
    assert!(matches!(turned, GradientPlan::Stops { angle: Some(2), ref stops } if *stops == vec![1, 3]));
}

#[test]
fn radial_gradient_with_stops() {
    let plan = radial_gradient_plan(&args(&[GradientArg::Stop, GradientArg::Stop, GradientArg::Stop])).unwrap();
    assert!(matches!(plan, GradientPlan::Stops { angle: None, ref stops } if *stops == vec![0, 1, 2]));
}

#[test]
fn radial_gradient_error_too_few_stops() {
    let r = radial_gradient_plan(&args(&[GradientArg::Stop]));
    assert_eq!(r.unwrap_err(), "radial-gradient: need exactly 2 colors OR at least 2 stops");
}

#[test]
fn radial_gradient_error_bad_argument() {
    let r = radial_gradient_plan(&vec![(GradientArg::Other, "42".to_string())]);
    assert_eq!(r.unwrap_err(), "radial-gradient: unexpected argument: 42");
    let angle = radial_gradient_plan(&args(&[GradientArg::Stop, GradientArg::Angle, GradientArg::Stop]));
    assert_eq!(angle.unwrap_err(), "radial-gradient: unexpected argument: #1");
}

#[test]
fn sweep_gradient_with_angles_and_stops() {
    let plan = sweep_gradient_plan(&args(&[
        GradientArg::Angle,
        GradientArg::Angle,
        GradientArg::Stop,
        GradientArg::Stop,
    ]))
    .unwrap();
    assert_eq!(plan.start_angle, Some(0));
    assert_eq!(plan.end_angle, Some(1));
    assert_eq!(plan.stops, vec![2, 3]);
}

#[test]
fn sweep_gradient_error_too_few_stops() {
    let r = sweep_gradient_plan(&args(&[GradientArg::Stop]));
    assert_eq!(r.unwrap_err(), "sweep-gradient: need at least 2 stops");
}

#[test]
fn sweep_gradient_error_bad_argument() {
    let r = sweep_gradient_plan(&vec![(GradientArg::Other, "\"nope\"".to_string())]);
    assert_eq!(r.unwrap_err(), "sweep-gradient: unexpected argument: \"nope\"");
}

#[test]
fn sweep_gradient_default_angles() {
    let plan = sweep_gradient_plan(&args(&[GradientArg::Stop, GradientArg::Stop])).unwrap();
    assert_eq!((plan.start_angle, plan.end_angle), (None, None));
    let one = sweep_gradient_plan(&args(&[GradientArg::Stop, GradientArg::Angle, GradientArg::Stop])).unwrap();
    assert_eq!((one.start_angle, one.end_angle), (Some(1), None));
}

#[test]
fn make_node_empty() {
    let plan = node_plan(&vec![]).unwrap();
    assert!(plan.style.is_none());
    assert!(plan.children.is_empty());
}

#[test]
fn make_node_with_style_and_child() {
    let plan = node_plan(&args(&[NodeArg::Style, NodeArg::Child])).unwrap();
    assert_eq!(plan.style, Some(0));
    assert_eq!(plan.children, vec![1]);
}

#[test]
fn make_node_with_multiple_children() {
    let plan = node_plan(&args(&[NodeArg::Child, NodeArg::Child])).unwrap();
    assert_eq!(plan.children, vec![0, 1]);
}

#[test]
fn make_node_skips_void() {
    let plan = node_plan(&args(&[NodeArg::Empty, NodeArg::Child])).unwrap();
    assert_eq!(plan.children, vec![1]);
}

#[test]
fn make_node_error_bad_arg() {
    let r = node_plan(&vec![(NodeArg::Other, "IntV(42)".to_string())]);
    assert_eq!(r.unwrap_err(), "node: unexpected argument type: IntV(42)");
}

#[test]
fn make_node_last_style_wins() {
    let plan = node_plan(&args(&[NodeArg::Style, NodeArg::Child, NodeArg::Style])).unwrap();
    assert_eq!(plan.style, Some(2));
}

#[test]
fn make_shape_with_fill() {
    let plan = shape_mods_plan(&args(&[ShapeModArg::Fill])).unwrap();
    assert_eq!(plan.fill, Some(0));
    assert_eq!(plan.stroke, None);
}

#[test]
fn make_shape_with_stroke() {
    let plan = shape_mods_plan(&args(&[ShapeModArg::Stroke])).unwrap();
    assert_eq!(plan.stroke, Some(0));
    assert_eq!(plan.fill, None);
}

#[test]
fn shape_mods_last_wins_and_errors() {
    let plan = shape_mods_plan(&args(&[ShapeModArg::Fill, ShapeModArg::Stroke, ShapeModArg::Fill])).unwrap();
    assert_eq!((plan.fill, plan.stroke), (Some(2), Some(1)));
    let r = shape_mods_plan(&vec![(ShapeModArg::Invalid, "1 (bad)".to_string())]);
    assert_eq!(r.unwrap_err(), "shape: expected fill or stroke modifier, got 1 (bad)");
}

#[test]
fn make_text_with_link_color_and_code_family() {
    let plan = text_mods_plan(&args(&[TextModArg::LinkColor, TextModArg::CodeFamily])).unwrap();
    assert_eq!(plan.link_color, Some(0));
    assert_eq!(plan.code_family, Some(1));
}

#[test]
fn make_text_with_mods() {
    let plan = text_mods_plan(&args(&[TextModArg::Other])).unwrap();
    assert_eq!((plan.link_color, plan.code_family), (None, None));
    let r = text_mods_plan(&vec![(TextModArg::Invalid, "7 (no)".to_string())]);
    assert_eq!(r.unwrap_err(), "text: expected text modifier, got 7 (no)");
}
