//! The argument lists of the template DSL's constructors (`padding`,
//! `circle`, `rect`, `rounded-rect`, the gradients, `node`, `shape`,
//! `text`): how many arguments of which kind each accepts, which argument
//! ends up where, and the error each refusal reports. An argument is given
//! by its kind and by the text with which an error shows it; results name
//! arguments by their index.
use vstd::prelude::*;
use vstd::string::StringExecFns;
use crate::lexical::decimal;
use crate::lexical::push_decimal;
use crate::lexical::string_of;
use crate::style::SchemeDimension;
use crate::style::StyleMod;

verus! {

// ---------------------------------------------------------------------------
// Messages
// ---------------------------------------------------------------------------

/// `1st`, `2nd`, `3rd` or `4th` for the argument with index 0 to 3.
pub open spec fn ordinal(i: int) -> Seq<char> {
    if i == 0 {
        "1st"@
    } else if i == 1 {
        "2nd"@
    } else if i == 2 {
        "3rd"@
    } else {
        "4th"@
    }
}

fn ordinal_str(i: usize) -> (r: &'static str)
    requires
        i < 4,
    ensures
        r@ == ordinal(i as int),
{
    if i == 0 {
        "1st"
    } else if i == 1 {
        "2nd"
    } else if i == 2 {
        "3rd"
    } else {
        "4th"
    }
}

/// `"<name>: expected <ordinal> arg to be dimension"`.
pub open spec fn not_dimension_message(name: Seq<char>, i: int) -> Seq<char> {
    name + ": expected "@ + ordinal(i) + " arg to be dimension"@
}

/// `"<name>: expected dimension, got <shown>"`.
pub open spec fn expected_dimension_message(name: Seq<char>, shown: Seq<char>) -> Seq<char> {
    name + ": expected dimension, got "@ + shown
}

/// `"<name>: expected <counts> arguments, got <n>"`.
pub open spec fn count_message(name: Seq<char>, counts: Seq<char>, n: int) -> Seq<char> {
    name + ": expected "@ + counts + " arguments, got "@ + decimal(n as nat)
}

/// `"node: unexpected argument type: <shown>"`.
pub open spec fn node_argument_message(shown: Seq<char>) -> Seq<char> {
    "node: unexpected argument type: "@ + shown
}

/// `"<name>: unexpected argument: <shown>"`.
pub open spec fn unexpected_message(name: Seq<char>, shown: Seq<char>) -> Seq<char> {
    name + ": unexpected argument: "@ + shown
}

fn concat2(a: &str, b: &str) -> (r: String)
    ensures
        r@ == a@ + b@,
{
    let mut r = string_of(a);
    r.append(b);
    r
}

fn not_dimension(name: &str, i: usize) -> (r: String)
    requires
        i < 4,
    ensures
        r@ == not_dimension_message(name@, i as int),
{
    let mut r = concat2(name, ": expected ");
    r.append(ordinal_str(i));
    r.append(" arg to be dimension");
    r
}

fn expected_dimension(name: &str, shown: &str) -> (r: String)
    ensures
        r@ == expected_dimension_message(name@, shown@),
{
    let mut r = concat2(name, ": expected dimension, got ");
    r.append(shown);
    r
}

fn wrong_count(name: &str, counts: &str, n: usize) -> (r: String)
    ensures
        r@ == count_message(name@, counts@, n as int),
{
    let mut r = concat2(name, ": expected ");
    r.append(counts);
    r.append(" arguments, got ");
    push_decimal(&mut r, n);
    r
}

fn unexpected(name: &str, shown: &str) -> (r: String)
    ensures
        r@ == unexpected_message(name@, shown@),
{
    let mut r = concat2(name, ": unexpected argument: ");
    r.append(shown);
    r
}

// ---------------------------------------------------------------------------
// Dimension arguments
// ---------------------------------------------------------------------------

/// An argument that should be a dimension.
#[derive(Debug, Clone, Copy, PartialEq, Eq, Structural)]
pub enum DimArg {
    Dimension(SchemeDimension),
    Other,
}

/// The dimension of an argument (`Auto` for one that is none).
pub open spec fn dim_of(a: DimArg) -> SchemeDimension {
    match a {
        DimArg::Dimension(d) => d,
        DimArg::Other => SchemeDimension::Auto,
    }
}

/// The index of the first of the first `n` arguments that is no dimension.
pub open spec fn first_non_dimension(args: Seq<(DimArg, String)>, n: int) -> Option<int>
    decreases n,
{
    if n <= 0 {
        None
    } else {
        match first_non_dimension(args, n - 1) {
            Some(i) => Some(i),
            None => if args[n - 1].0 is Other {
                Some(n - 1)
            } else {
                None
            },
        }
    }
}

/// Checks that the first `n` arguments are dimensions, reporting the first
/// that is not by its position.
fn check_dimensions(name: &str, args: &Vec<(DimArg, String)>, n: usize) -> (r: Result<(), String>)
    requires
        n <= 4,
        n <= args.len(),
    ensures
        match first_non_dimension(args@, n as int) {
            None => r is Ok,
            Some(i) => r matches Err(m) && m@ == not_dimension_message(name@, i),
        },
{
    let mut i: usize = 0;
    while i < n
        invariant
            n <= 4,
            n <= args.len(),
            0 <= i <= n,
            first_non_dimension(args@, i as int) is None,
        decreases n - i,
    {
        match args[i].0 {
            DimArg::Dimension(_) => {},
            DimArg::Other => {
                assert(first_non_dimension(args@, i + 1) == Some(i as int));
                proof {
                    lemma_first_non_dimension_stays(args@, i + 1, n as int);
                }
                return Err(not_dimension(name, i));
            },
        }
        i += 1;
    }
    Ok(())
}

proof fn lemma_first_non_dimension_stays(args: Seq<(DimArg, String)>, k: int, n: int)
    requires
        0 <= k <= n,
        first_non_dimension(args, k) is Some,
    ensures
        first_non_dimension(args, n) == first_non_dimension(args, k),
    decreases n - k,
{
    if k < n {
        lemma_first_non_dimension_stays(args, k, n - 1);
    }
}

/// The DSL's `padding`: one dimension for all four sides, or four for top,
/// right, bottom and left.
pub open spec fn spec_padding(args: Seq<(DimArg, String)>) -> Result<StyleMod, Seq<char>> {
    if args.len() == 1 {
        match args[0].0 {
            DimArg::Dimension(d) => Ok(StyleMod::PaddingUniform(d)),
            DimArg::Other => Err(expected_dimension_message("padding"@, args[0].1@)),
        }
    } else if args.len() == 4 {
        match first_non_dimension(args, 4) {
            None => Ok(
                StyleMod::PaddingTRBL(
                    dim_of(args[0].0),
                    dim_of(args[1].0),
                    dim_of(args[2].0),
                    dim_of(args[3].0),
                ),
            ),
            Some(i) => Err(not_dimension_message("padding"@, i)),
        }
    } else {
        Err(count_message("padding"@, "1 or 4"@, args.len() as int))
    }
}

pub open spec fn result_view<T>(r: Result<T, String>) -> Result<T, Seq<char>> {
    match r {
        Ok(v) => Ok(v),
        Err(m) => Err(m@),
    }
}

/// The padding modifier that `padding` makes of its arguments.
pub fn make_padding(args: &Vec<(DimArg, String)>) -> (r: Result<StyleMod, String>)
    ensures
        result_view(r) == spec_padding(args@),
{
    if args.len() == 1 {
        match args[0].0 {
            DimArg::Dimension(d) => Ok(StyleMod::PaddingUniform(d)),
            DimArg::Other => Err(expected_dimension("padding", args[0].1.as_str())),
        }
    } else if args.len() == 4 {
        match check_dimensions("padding", args, 4) {
            Err(m) => Err(m),
            Ok(()) => {
                proof {
                    reveal_with_fuel(first_non_dimension, 5);
                }
                Ok(
                    StyleMod::PaddingTRBL(
                        dim_value(&args[0].0),
                        dim_value(&args[1].0),
                        dim_value(&args[2].0),
                        dim_value(&args[3].0),
                    ),
                )
            },
        }
    } else {
        Err(wrong_count("padding", "1 or 4", args.len()))
    }
}

fn dim_value(a: &DimArg) -> (d: SchemeDimension)
    ensures
        d == dim_of(*a),
{
    match a {
        DimArg::Dimension(d) => *d,
        DimArg::Other => SchemeDimension::Auto,
    }
}

/// The size that a shape constructor gives its shape.
#[derive(Debug, Clone, Copy, PartialEq, Eq, Structural)]
pub enum ShapeSize {
    /// No size: the shape fills its node.
    Unsized,
    /// Width and height both this dimension.
    Square(SchemeDimension),
    /// This width and this height.
    Sized(SchemeDimension, SchemeDimension),
}

/// The size that `circle` or `rect` (`name`) reads from its arguments:
/// none, one dimension for both sides, or a width and a height.
pub open spec fn spec_shape_size(name: Seq<char>, args: Seq<(DimArg, String)>) -> Result<
    ShapeSize,
    Seq<char>,
> {
    if args.len() == 0 {
        Ok(ShapeSize::Unsized)
    } else if args.len() == 1 {
        match args[0].0 {
            DimArg::Dimension(d) => Ok(ShapeSize::Square(d)),
            DimArg::Other => Err(expected_dimension_message(name, args[0].1@)),
        }
    } else if args.len() == 2 {
        match first_non_dimension(args, 2) {
            None => Ok(ShapeSize::Sized(dim_of(args[0].0), dim_of(args[1].0))),
            Some(i) => Err(not_dimension_message(name, i)),
        }
    } else {
        Err(count_message(name, "0, 1, or 2"@, args.len() as int))
    }
}

fn shape_size(name: &str, args: &Vec<(DimArg, String)>) -> (r: Result<ShapeSize, String>)
    ensures
        result_view(r) == spec_shape_size(name@, args@),
{
    if args.len() == 0 {
        Ok(ShapeSize::Unsized)
    } else if args.len() == 1 {
        match args[0].0 {
            DimArg::Dimension(d) => Ok(ShapeSize::Square(d)),
            DimArg::Other => Err(expected_dimension(name, args[0].1.as_str())),
        }
    } else if args.len() == 2 {
        match check_dimensions(name, args, 2) {
            Err(m) => Err(m),
            Ok(()) => {
                proof {
                    reveal_with_fuel(first_non_dimension, 3);
                }
                Ok(ShapeSize::Sized(dim_value(&args[0].0), dim_value(&args[1].0)))
            },
        }
    } else {
        Err(wrong_count(name, "0, 1, or 2", args.len()))
    }
}

/// The size of the DSL's `circle`.
pub fn circle_size(args: &Vec<(DimArg, String)>) -> (r: Result<ShapeSize, String>)
    ensures
        result_view(r) == spec_shape_size("circle"@, args@),
{
    shape_size("circle", args)
}

/// The size of the DSL's `rect`.
pub fn rect_size(args: &Vec<(DimArg, String)>) -> (r: Result<ShapeSize, String>)
    ensures
        result_view(r) == spec_shape_size("rect"@, args@),
{
    shape_size("rect", args)
}

/// The corner radii of a rounded rectangle.
#[derive(Debug, Clone, Copy, PartialEq, Eq, Structural)]
pub enum CornerRadii {
    /// One radius for all four corners.
    All(SchemeDimension),
    /// Top-left, top-right, bottom-right and bottom-left.
    Each(SchemeDimension, SchemeDimension, SchemeDimension, SchemeDimension),
}

/// The DSL's `rounded-rect`: one radius, or four.
pub open spec fn spec_rounded_rect(args: Seq<(DimArg, String)>) -> Result<CornerRadii, Seq<char>> {
    if args.len() == 1 {
        match args[0].0 {
            DimArg::Dimension(d) => Ok(CornerRadii::All(d)),
            DimArg::Other => Err(expected_dimension_message("rounded-rect"@, args[0].1@)),
        }
    } else if args.len() == 4 {
        match first_non_dimension(args, 4) {
            None => Ok(
                CornerRadii::Each(
                    dim_of(args[0].0),
                    dim_of(args[1].0),
                    dim_of(args[2].0),
                    dim_of(args[3].0),
                ),
            ),
            Some(i) => Err(not_dimension_message("rounded-rect"@, i)),
        }
    } else {
        Err(count_message("rounded-rect"@, "1 or 4"@, args.len() as int))
    }
}

/// The corner radii that `rounded-rect` reads from its arguments.
pub fn rounded_rect_radii(args: &Vec<(DimArg, String)>) -> (r: Result<CornerRadii, String>)
    ensures
        result_view(r) == spec_rounded_rect(args@),
{
    if args.len() == 1 {
        match args[0].0 {
            DimArg::Dimension(d) => Ok(CornerRadii::All(d)),
            DimArg::Other => Err(expected_dimension("rounded-rect", args[0].1.as_str())),
        }
    } else if args.len() == 4 {
        match check_dimensions("rounded-rect", args, 4) {
            Err(m) => Err(m),
            Ok(()) => {
                proof {
                    reveal_with_fuel(first_non_dimension, 5);
                }
                Ok(
                    CornerRadii::Each(
                        dim_value(&args[0].0),
                        dim_value(&args[1].0),
                        dim_value(&args[2].0),
                        dim_value(&args[3].0),
                    ),
                )
            },
        }
    } else {
        Err(wrong_count("rounded-rect", "1 or 4", args.len()))
    }
}

// ---------------------------------------------------------------------------
// Gradients
// ---------------------------------------------------------------------------

/// An argument of a gradient constructor.
#[derive(Debug, Clone, Copy, PartialEq, Eq, Structural)]
pub enum GradientArg {
    Color,
    Angle,
    Stop,
    Other,
}

pub open spec fn indices_view(v: Seq<usize>) -> Seq<int> {
    v.map_values(|i: usize| i as int)
}

/// The indices of the angles and of the stops among the first `n`
/// arguments, in order, or the index of the first argument that is neither
/// (an angle counts as neither where `angles` is false).
pub open spec fn gradient_scan(args: Seq<(GradientArg, String)>, n: int, angles: bool) -> Result<
    (Seq<int>, Seq<int>),
    int,
>
    decreases n,
{
    if n <= 0 {
        Ok((Seq::empty(), Seq::empty()))
    } else {
        match gradient_scan(args, n - 1, angles) {
            Err(i) => Err(i),
            Ok((a, st)) => match args[n - 1].0 {
                GradientArg::Angle => if angles {
                    Ok((a.push(n - 1), st))
                } else {
                    Err(n - 1)
                },
                GradientArg::Stop => Ok((a, st.push(n - 1))),
                _ => Err(n - 1),
            },
        }
    }
}

proof fn lemma_scan_err_stays(args: Seq<(GradientArg, String)>, k: int, n: int, angles: bool)
    requires
        0 <= k <= n,
        gradient_scan(args, k, angles) is Err,
    ensures
        gradient_scan(args, n, angles) == gradient_scan(args, k, angles),
    decreases n - k,
{
    if k < n {
        lemma_scan_err_stays(args, k, n - 1, angles);
    }
}

fn scan_gradient(args: &Vec<(GradientArg, String)>, angles: bool) -> (r: Result<
    (Vec<usize>, Vec<usize>),
    usize,
>)
    ensures
        match gradient_scan(args@, args.len() as int, angles) {
            Ok((a, st)) => r matches Ok((ra, rs)) && indices_view(ra@) == a && indices_view(rs@)
                == st,
            Err(i) => r matches Err(k) && k == i,
        },
        r matches Err(i) ==> i < args.len(),
{
    let mut found_angles: Vec<usize> = Vec::new();
    let mut stops: Vec<usize> = Vec::new();
    let mut i: usize = 0;
    assert(indices_view(found_angles@) =~= Seq::<int>::empty());
    assert(indices_view(stops@) =~= Seq::<int>::empty());
    while i < args.len()
        invariant
            0 <= i <= args.len(),
            gradient_scan(args@, i as int, angles) == Ok::<(Seq<int>, Seq<int>), int>(
                (indices_view(found_angles@), indices_view(stops@)),
            ),
        decreases args.len() - i,
    {
        let ghost a0 = found_angles@;
        let ghost s0 = stops@;
        match args[i].0 {
            GradientArg::Angle => {
                if angles {
                    found_angles.push(i);
                    assert(indices_view(found_angles@) =~= indices_view(a0).push(i as int));
                } else {
                    proof {
                        lemma_scan_err_stays(args@, i + 1, args.len() as int, angles);
                    }
                    return Err(i);
                }
            },
            GradientArg::Stop => {
                stops.push(i);
                assert(indices_view(stops@) =~= indices_view(s0).push(i as int));
            },
            _ => {
                proof {
                    lemma_scan_err_stays(args@, i + 1, args.len() as int, angles);
                }
                return Err(i);
            },
        }
        i += 1;
    }
    Ok((found_angles, stops))
}

/// How a linear or radial gradient is made: from two colours (the first
/// argument at the top or centre), or from its stops in order, turned by
/// the last angle given, if any.
#[derive(Debug)]
pub enum GradientPlan {
    TwoColors,
    Stops { angle: Option<usize>, stops: Vec<usize> },
}

pub open spec fn plan_view(p: GradientPlan) -> Option<(Option<int>, Seq<int>)> {
    match p {
        GradientPlan::TwoColors => None,
        GradientPlan::Stops { angle, stops } => Some(
            (
                match angle {
                    Some(a) => Some(a as int),
                    None => None,
                },
                indices_view(stops@),
            ),
        ),
    }
}

pub open spec fn two_colors(args: Seq<(GradientArg, String)>) -> bool {
    args.len() == 2 && args[0].0 == GradientArg::Color && args[1].0 == GradientArg::Color
}

/// `linear-gradient` (`angles`) or `radial-gradient` (no angles): two
/// colours; or stops (and for the linear one, angles), at least two stops,
/// the last angle counting.
pub open spec fn spec_gradient(name: Seq<char>, args: Seq<(GradientArg, String)>, angles: bool) -> Result<
    Option<(Option<int>, Seq<int>)>,
    Seq<char>,
> {
    if two_colors(args) {
        Ok(None)
    } else {
        match gradient_scan(args, args.len() as int, angles) {
            Err(i) => Err(unexpected_message(name, args[i].1@)),
            Ok((a, st)) => if st.len() < 2 {
                Err(name + ": need exactly 2 colors OR at least 2 stops"@)
            } else {
                Ok(
                    Some(
                        (
                            if a.len() > 0 {
                                Some(a.last())
                            } else {
                                None
                            },
                            st,
                        ),
                    ),
                )
            },
        }
    }
}

pub open spec fn plan_result_view(r: Result<GradientPlan, String>) -> Result<
    Option<(Option<int>, Seq<int>)>,
    Seq<char>,
> {
    match r {
        Ok(p) => Ok(plan_view(p)),
        Err(m) => Err(m@),
    }
}

fn gradient_plan(name: &str, args: &Vec<(GradientArg, String)>, angles: bool) -> (r: Result<
    GradientPlan,
    String,
>)
    ensures
        plan_result_view(r) == spec_gradient(name@, args@, angles),
{
    if args.len() == 2 && args[0].0 == GradientArg::Color && args[1].0 == GradientArg::Color {
        return Ok(GradientPlan::TwoColors);
    }
    match scan_gradient(args, angles) {
        Err(i) => Err(unexpected(name, args[i].1.as_str())),
        Ok((found_angles, stops)) => {
            assert(indices_view(stops@).len() == stops.len());
            assert(indices_view(found_angles@).len() == found_angles.len());
            if stops.len() < 2 {
                Err(concat2(name, ": need exactly 2 colors OR at least 2 stops"))
            } else {
                let angle = if found_angles.len() > 0 {
                    assert(indices_view(found_angles@).last() == found_angles@.last() as int);
                    Some(found_angles[found_angles.len() - 1])
                } else {
                    None
                };
                Ok(GradientPlan::Stops { angle, stops })
            }
        },
    }
}

/// The plan of the DSL's `linear-gradient`.
pub fn linear_gradient_plan(args: &Vec<(GradientArg, String)>) -> (r: Result<GradientPlan, String>)
    ensures
        plan_result_view(r) == spec_gradient("linear-gradient"@, args@, true),
{
    gradient_plan("linear-gradient", args, true)
}

/// The plan of the DSL's `radial-gradient`, which takes no angle.
pub fn radial_gradient_plan(args: &Vec<(GradientArg, String)>) -> (r: Result<GradientPlan, String>)
    ensures
        plan_result_view(r) == spec_gradient("radial-gradient"@, args@, false),
{
    gradient_plan("radial-gradient", args, false)
}

/// How a sweep gradient is made: its stops in order, the first angle given
/// as its start and the second as its end (0 and 360 degrees where absent).
#[derive(Debug)]
pub struct SweepPlan {
    pub start_angle: Option<usize>,
    pub end_angle: Option<usize>,
    pub stops: Vec<usize>,
}

pub open spec fn spec_sweep(args: Seq<(GradientArg, String)>) -> Result<
    (Option<int>, Option<int>, Seq<int>),
    Seq<char>,
> {
    match gradient_scan(args, args.len() as int, true) {
        Err(i) => Err(unexpected_message("sweep-gradient"@, args[i].1@)),
        Ok((a, st)) => if st.len() < 2 {
            Err("sweep-gradient: need at least 2 stops"@)
        } else {
            Ok(
                (
                    if a.len() > 0 {
                        Some(a[0])
                    } else {
                        None
                    },
                    if a.len() > 1 {
                        Some(a[1])
                    } else {
                        None
                    },
                    st,
                ),
            )
        },
    }
}

pub open spec fn opt_index(o: Option<usize>) -> Option<int> {
    match o {
        Some(i) => Some(i as int),
        None => None,
    }
}

/// The plan of the DSL's `sweep-gradient`.
pub fn sweep_gradient_plan(args: &Vec<(GradientArg, String)>) -> (r: Result<SweepPlan, String>)
    ensures
        match r {
            Ok(p) => spec_sweep(args@) == Ok::<(Option<int>, Option<int>, Seq<int>), Seq<char>>(
                (opt_index(p.start_angle), opt_index(p.end_angle), indices_view(p.stops@)),
            ),
            Err(m) => spec_sweep(args@) == Err::<(Option<int>, Option<int>, Seq<int>), Seq<char>>(
                m@,
            ),
        },
{
    match scan_gradient(args, true) {
        Err(i) => Err(unexpected("sweep-gradient", args[i].1.as_str())),
        Ok((found_angles, stops)) => {
            assert(indices_view(stops@).len() == stops.len());
            assert(indices_view(found_angles@).len() == found_angles.len());
            if stops.len() < 2 {
                Err(string_of("sweep-gradient: need at least 2 stops"))
            } else {
                assert(found_angles.len() > 0 ==> indices_view(found_angles@)[0] == found_angles@[0] as int);
                assert(found_angles.len() > 1 ==> indices_view(found_angles@)[1] == found_angles@[1] as int);
                let start_angle = if found_angles.len() > 0 {
                    Some(found_angles[0])
                } else {
                    None
                };
                let end_angle = if found_angles.len() > 1 {
                    Some(found_angles[1])
                } else {
                    None
                };
                Ok(SweepPlan { start_angle, end_angle, stops })
            }
        },
    }
}

// ---------------------------------------------------------------------------
// Nodes, shapes and texts
// ---------------------------------------------------------------------------

/// An argument of `node`: a style, a child (a node or a text), nothing
/// (void, an empty list or `#f`, which are skipped), or something else.
#[derive(Debug, Clone, Copy, PartialEq, Eq, Structural)]
pub enum NodeArg {
    Style,
    Child,
    Empty,
    Other,
}

/// What `node` makes of its arguments: the last style given, if any, and
/// its children in order.
#[derive(Debug)]
pub struct NodePlan {
    pub style: Option<usize>,
    pub children: Vec<usize>,
}

pub open spec fn node_scan(args: Seq<(NodeArg, String)>, n: int) -> Result<(Option<int>, Seq<int>), int>
    decreases n,
{
    if n <= 0 {
        Ok((None, Seq::empty()))
    } else {
        match node_scan(args, n - 1) {
            Err(i) => Err(i),
            Ok((st, ch)) => match args[n - 1].0 {
                NodeArg::Style => Ok((Some(n - 1), ch)),
                NodeArg::Child => Ok((st, ch.push(n - 1))),
                NodeArg::Empty => Ok((st, ch)),
                NodeArg::Other => Err(n - 1),
            },
        }
    }
}

proof fn lemma_node_err_stays(args: Seq<(NodeArg, String)>, k: int, n: int)
    requires
        0 <= k <= n,
        node_scan(args, k) is Err,
    ensures
        node_scan(args, n) == node_scan(args, k),
    decreases n - k,
{
    if k < n {
        lemma_node_err_stays(args, k, n - 1);
    }
}

/// The plan of the DSL's `node`; an argument of another kind is refused.
pub fn node_plan(args: &Vec<(NodeArg, String)>) -> (r: Result<NodePlan, String>)
    ensures
        match node_scan(args@, args.len() as int) {
            Ok((st, ch)) => r matches Ok(p) && opt_index(p.style) == st && indices_view(p.children@)
                == ch,
            Err(i) => r matches Err(m) && m@ == node_argument_message(args@[i].1@),
        },
{
    let mut style: Option<usize> = None;
    let mut children: Vec<usize> = Vec::new();
    let mut i: usize = 0;
    assert(indices_view(children@) =~= Seq::<int>::empty());
    while i < args.len()
        invariant
            0 <= i <= args.len(),
            node_scan(args@, i as int) == Ok::<(Option<int>, Seq<int>), int>(
                (opt_index(style), indices_view(children@)),
            ),
        decreases args.len() - i,
    {
        let ghost c0 = children@;
        match args[i].0 {
            NodeArg::Style => {
                style = Some(i);
            },
            NodeArg::Child => {
                children.push(i);
                assert(indices_view(children@) =~= indices_view(c0).push(i as int));
            },
            NodeArg::Empty => {},
            NodeArg::Other => {
                proof {
                    lemma_node_err_stays(args@, i + 1, args.len() as int);
                }
                return Err(concat2("node: unexpected argument type: ", args[i].1.as_str()));
            },
        }
        i += 1;
    }
    Ok(NodePlan { style, children })
}

/// A modifier of `shape`: a fill, a stroke, or no shape modifier.
#[derive(Debug, Clone, Copy, PartialEq, Eq, Structural)]
pub enum ShapeModArg {
    Fill,
    Stroke,
    Invalid,
}

/// The fill and the stroke of a shape: the last of each given.
#[derive(Debug, Clone, Copy, PartialEq, Eq, Structural)]
pub struct ShapeModsPlan {
    pub fill: Option<usize>,
    pub stroke: Option<usize>,
}

pub open spec fn shape_scan(args: Seq<(ShapeModArg, String)>, n: int) -> Result<(Option<int>, Option<int>), int>
    decreases n,
{
    if n <= 0 {
        Ok((None, None))
    } else {
        match shape_scan(args, n - 1) {
            Err(i) => Err(i),
            Ok((f, s)) => match args[n - 1].0 {
                ShapeModArg::Fill => Ok((Some(n - 1), s)),
                ShapeModArg::Stroke => Ok((f, Some(n - 1))),
                ShapeModArg::Invalid => Err(n - 1),
            },
        }
    }
}

proof fn lemma_shape_err_stays(args: Seq<(ShapeModArg, String)>, k: int, n: int)
    requires
        0 <= k <= n,
        shape_scan(args, k) is Err,
    ensures
        shape_scan(args, n) == shape_scan(args, k),
    decreases n - k,
{
    if k < n {
        lemma_shape_err_stays(args, k, n - 1);
    }
}

/// `"shape: expected fill or stroke modifier, got <shown>"`.
pub open spec fn shape_mod_message(shown: Seq<char>) -> Seq<char> {
    "shape: expected fill or stroke modifier, got "@ + shown
}

/// The plan of the modifiers of the DSL's `shape`.
pub fn shape_mods_plan(args: &Vec<(ShapeModArg, String)>) -> (r: Result<ShapeModsPlan, String>)
    ensures
        match shape_scan(args@, args.len() as int) {
            Ok((f, s)) => r matches Ok(p) && opt_index(p.fill) == f && opt_index(p.stroke) == s,
            Err(i) => r matches Err(m) && m@ == shape_mod_message(args@[i].1@),
        },
{
    let mut fill: Option<usize> = None;
    let mut stroke: Option<usize> = None;
    let mut i: usize = 0;
    while i < args.len()
        invariant
            0 <= i <= args.len(),
            shape_scan(args@, i as int) == Ok::<(Option<int>, Option<int>), int>(
                (opt_index(fill), opt_index(stroke)),
            ),
        decreases args.len() - i,
    {
        match args[i].0 {
            ShapeModArg::Fill => {
                fill = Some(i);
            },
            ShapeModArg::Stroke => {
                stroke = Some(i);
            },
            ShapeModArg::Invalid => {
                proof {
                    lemma_shape_err_stays(args@, i + 1, args.len() as int);
                }
                return Err(concat2("shape: expected fill or stroke modifier, got ", args[i].1.as_str()));
            },
        }
        i += 1;
    }
    Ok(ShapeModsPlan { fill, stroke })
}

/// A modifier of `text`: a link colour, a code font family, another text
/// modifier, or no text modifier.
#[derive(Debug, Clone, Copy, PartialEq, Eq, Structural)]
pub enum TextModArg {
    LinkColor,
    CodeFamily,
    Other,
    Invalid,
}

/// The link colour and the code font family that the entities of a text
/// take: the last of each given (the defaults where none is).
#[derive(Debug, Clone, Copy, PartialEq, Eq, Structural)]
pub struct TextModsPlan {
    pub link_color: Option<usize>,
    pub code_family: Option<usize>,
}

pub open spec fn text_scan(args: Seq<(TextModArg, String)>, n: int) -> Result<(Option<int>, Option<int>), int>
    decreases n,
{
    if n <= 0 {
        Ok((None, None))
    } else {
        match text_scan(args, n - 1) {
            Err(i) => Err(i),
            Ok((l, c)) => match args[n - 1].0 {
                TextModArg::LinkColor => Ok((Some(n - 1), c)),
                TextModArg::CodeFamily => Ok((l, Some(n - 1))),
                TextModArg::Other => Ok((l, c)),
                TextModArg::Invalid => Err(n - 1),
            },
        }
    }
}

proof fn lemma_text_err_stays(args: Seq<(TextModArg, String)>, k: int, n: int)
    requires
        0 <= k <= n,
        text_scan(args, k) is Err,
    ensures
        text_scan(args, n) == text_scan(args, k),
    decreases n - k,
{
    if k < n {
        lemma_text_err_stays(args, k, n - 1);
    }
}

/// `"text: expected text modifier, got <shown>"`.
pub open spec fn text_mod_message(shown: Seq<char>) -> Seq<char> {
    "text: expected text modifier, got "@ + shown
}

/// The plan of the modifiers of the DSL's `text`.
pub fn text_mods_plan(args: &Vec<(TextModArg, String)>) -> (r: Result<TextModsPlan, String>)
    ensures
        match text_scan(args@, args.len() as int) {
            Ok((l, c)) => r matches Ok(p) && opt_index(p.link_color) == l && opt_index(p.code_family)
                == c,
            Err(i) => r matches Err(m) && m@ == text_mod_message(args@[i].1@),
        },
{
    let mut link_color: Option<usize> = None;
    let mut code_family: Option<usize> = None;
    let mut i: usize = 0;
    while i < args.len()
        invariant
            0 <= i <= args.len(),
            text_scan(args@, i as int) == Ok::<(Option<int>, Option<int>), int>(
                (opt_index(link_color), opt_index(code_family)),
            ),
        decreases args.len() - i,
    {
        match args[i].0 {
            TextModArg::LinkColor => {
                link_color = Some(i);
            },
            TextModArg::CodeFamily => {
                code_family = Some(i);
            },
            TextModArg::Other => {},
            TextModArg::Invalid => {
                proof {
                    lemma_text_err_stays(args@, i + 1, args.len() as int);
                }
                return Err(concat2("text: expected text modifier, got ", args[i].1.as_str()));
            },
        }
        i += 1;
    }
    Ok(TextModsPlan { link_color, code_family })
}

} // verus!
