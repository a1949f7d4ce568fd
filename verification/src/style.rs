//! The style modifiers of the template DSL and the layout settings they
//! write. A number that the layout engine keeps as a float is carried here
//! by its IEEE-754 bit pattern: these functions only route values, and the
//! layout engine receives exactly the bits the template produced.
use vstd::prelude::*;
use vstd::string::StringExecFns;
use crate::lexical::str_equals;
use crate::lexical::string_of;
use crate::primitives::TextAlign;

verus! {

// ---------------------------------------------------------------------------
// Values
// ---------------------------------------------------------------------------

/// A length in the DSL: pixels, a fraction of the parent, or automatic.
/// `Length` and `Percent` hold the bits of an `f32`.
#[derive(Debug, Clone, Copy, PartialEq, Eq, Structural)]
pub enum SchemeDimension {
    Length(u32),
    Percent(u32),
    Auto,
}

/// A size of the layout engine: fixed, relative, or automatic.
#[derive(Debug, Clone, Copy, PartialEq, Eq, Structural)]
pub enum Dimension {
    Length(u32),
    Percent(u32),
    Auto,
}

/// A padding or gap of the layout engine: fixed or relative.
#[derive(Debug, Clone, Copy, PartialEq, Eq, Structural)]
pub enum LengthPercentage {
    Length(u32),
    Percent(u32),
}

/// A margin or inset of the layout engine: fixed, relative or automatic.
#[derive(Debug, Clone, Copy, PartialEq, Eq, Structural)]
pub enum LengthPercentageAuto {
    Length(u32),
    Percent(u32),
    Auto,
}

impl SchemeDimension {
    /// As a size.
    pub fn to_dimension(&self) -> (d: Dimension)
        ensures
            d == match *self {
                SchemeDimension::Length(v) => Dimension::Length(v),
                SchemeDimension::Percent(v) => Dimension::Percent(v),
                SchemeDimension::Auto => Dimension::Auto,
            },
    {
        match self {
            SchemeDimension::Length(v) => Dimension::Length(*v),
            SchemeDimension::Percent(v) => Dimension::Percent(*v),
            SchemeDimension::Auto => Dimension::Auto,
        }
    }

    /// As a padding or gap; automatic becomes a length of zero.
    pub fn to_length_percentage(&self) -> (d: LengthPercentage)
        ensures
            d == spec_length_percentage(*self),
    {
        match self {
            SchemeDimension::Length(v) => LengthPercentage::Length(*v),
            SchemeDimension::Percent(v) => LengthPercentage::Percent(*v),
            SchemeDimension::Auto => LengthPercentage::Length(0),
        }
    }

    /// As a margin or inset.
    pub fn to_length_percentage_auto(&self) -> (d: LengthPercentageAuto)
        ensures
            d == spec_length_percentage_auto(*self),
    {
        match self {
            SchemeDimension::Length(v) => LengthPercentageAuto::Length(*v),
            SchemeDimension::Percent(v) => LengthPercentageAuto::Percent(*v),
            SchemeDimension::Auto => LengthPercentageAuto::Auto,
        }
    }
}

pub open spec fn spec_dimension(d: SchemeDimension) -> Dimension {
    match d {
        SchemeDimension::Length(v) => Dimension::Length(v),
        SchemeDimension::Percent(v) => Dimension::Percent(v),
        SchemeDimension::Auto => Dimension::Auto,
    }
}

/// Zero as a length (the bits of `0.0f32`).
pub open spec fn spec_length_percentage(d: SchemeDimension) -> LengthPercentage {
    match d {
        SchemeDimension::Length(v) => LengthPercentage::Length(v),
        SchemeDimension::Percent(v) => LengthPercentage::Percent(v),
        SchemeDimension::Auto => LengthPercentage::Length(0),
    }
}

pub open spec fn spec_length_percentage_auto(d: SchemeDimension) -> LengthPercentageAuto {
    match d {
        SchemeDimension::Length(v) => LengthPercentageAuto::Length(v),
        SchemeDimension::Percent(v) => LengthPercentageAuto::Percent(v),
        SchemeDimension::Auto => LengthPercentageAuto::Auto,
    }
}

#[derive(Debug, Clone, Copy, PartialEq, Eq, Structural)]
pub enum FlexDirection {
    Row,
    Column,
    RowReverse,
    ColumnReverse,
}

#[derive(Debug, Clone, Copy, PartialEq, Eq, Structural)]
pub enum AlignItems {
    FlexStart,
    FlexEnd,
    Center,
    Stretch,
    Baseline,
}

#[derive(Debug, Clone, Copy, PartialEq, Eq, Structural)]
pub enum JustifyContent {
    FlexStart,
    FlexEnd,
    Center,
    SpaceBetween,
    SpaceAround,
    SpaceEvenly,
}

/// Whether a node takes part in layout (`Flex`) or is left out (`Hidden`).
#[derive(Debug, Clone, Copy, PartialEq, Eq, Structural)]
pub enum DisplayMode {
    Flex,
    Hidden,
}

#[derive(Debug, Clone, Copy, PartialEq, Eq, Structural)]
pub enum Position {
    Relative,
    Absolute,
}

#[derive(Debug, Clone, Copy, PartialEq, Eq, Structural)]
pub enum Side {
    Top,
    Right,
    Bottom,
    Left,
}

/// Four sides.
#[derive(Debug, Clone, Copy, PartialEq, Eq, Structural)]
pub struct Sides<T> {
    pub top: T,
    pub right: T,
    pub bottom: T,
    pub left: T,
}

/// The layout settings that style modifiers write. `None` leaves a setting
/// at the default of the node style (the layout engine's default, opacity
/// 1 and no rotation). `opacity` holds the bits of an `f32`, `rotate_deg`
/// those of an `f64`.
#[derive(Debug, Clone, Copy, PartialEq, Eq, Structural)]
pub struct StyleSettings {
    pub flex_direction: Option<FlexDirection>,
    pub align_items: Option<Option<AlignItems>>,
    pub justify_content: Option<Option<JustifyContent>>,
    pub display: Option<DisplayMode>,
    pub position: Option<Position>,
    pub width: Option<Dimension>,
    pub height: Option<Dimension>,
    pub max_width: Option<Dimension>,
    pub max_height: Option<Dimension>,
    pub min_width: Option<Dimension>,
    pub min_height: Option<Dimension>,
    pub padding: Sides<Option<LengthPercentage>>,
    pub margin: Sides<Option<LengthPercentageAuto>>,
    pub gap_width: Option<LengthPercentage>,
    pub gap_height: Option<LengthPercentage>,
    pub inset: Sides<Option<LengthPercentageAuto>>,
    pub opacity: Option<u32>,
    pub rotate_deg: Option<u64>,
}

pub open spec fn unset_sides<T>() -> Sides<Option<T>> {
    Sides { top: None, right: None, bottom: None, left: None }
}

pub open spec fn all_sides<T>(v: T) -> Sides<Option<T>> {
    Sides { top: Some(v), right: Some(v), bottom: Some(v), left: Some(v) }
}

pub open spec fn with_side<T>(s: Sides<Option<T>>, side: Side, v: T) -> Sides<Option<T>> {
    match side {
        Side::Top => Sides { top: Some(v), ..s },
        Side::Right => Sides { right: Some(v), ..s },
        Side::Bottom => Sides { bottom: Some(v), ..s },
        Side::Left => Sides { left: Some(v), ..s },
    }
}

impl StyleSettings {
    /// The default style: nothing set.
    pub open spec fn spec_default() -> StyleSettings {
        StyleSettings {
            flex_direction: None,
            align_items: None,
            justify_content: None,
            display: None,
            position: None,
            width: None,
            height: None,
            max_width: None,
            max_height: None,
            min_width: None,
            min_height: None,
            padding: unset_sides(),
            margin: unset_sides(),
            gap_width: None,
            gap_height: None,
            inset: unset_sides(),
            opacity: None,
            rotate_deg: None,
        }
    }

    pub fn new() -> (s: StyleSettings)
        ensures
            s == StyleSettings::spec_default(),
    {
        StyleSettings {
            flex_direction: None,
            align_items: None,
            justify_content: None,
            display: None,
            position: None,
            width: None,
            height: None,
            max_width: None,
            max_height: None,
            min_width: None,
            min_height: None,
            padding: Sides { top: None, right: None, bottom: None, left: None },
            margin: Sides { top: None, right: None, bottom: None, left: None },
            gap_width: None,
            gap_height: None,
            inset: Sides { top: None, right: None, bottom: None, left: None },
            opacity: None,
            rotate_deg: None,
        }
    }
}

impl StyleSettings {
    /// The opacity of a node with this style, as the bits of an `f32`: the
    /// one set, else 1.
    pub fn opacity_bits(&self) -> (r: u32)
        ensures
            r == match self.opacity {
                Some(b) => b,
                None => 0x3F80_0000u32,
            },
    {
        match self.opacity {
            Some(b) => b,
            None => 0x3F80_0000u32,
        }
    }

    /// The rotation of a node with this style in degrees, as the bits of an
    /// `f64`: the one set, else 0.
    pub fn rotation_bits(&self) -> (r: u64)
        ensures
            r == match self.rotate_deg {
                Some(b) => b,
                None => 0u64,
            },
    {
        match self.rotate_deg {
            Some(b) => b,
            None => 0u64,
        }
    }
}

// ---------------------------------------------------------------------------
// Modifiers
// ---------------------------------------------------------------------------

/// A style modifier of the DSL. `Opacity` holds the bits of an `f32`,
/// `Rotate` those of an `f64` (degrees).
#[derive(Debug, Clone, Copy, PartialEq, Eq, Structural)]
pub enum StyleMod {
    Direction(FlexDirection),
    AlignItems(Option<AlignItems>),
    JustifyContent(Option<JustifyContent>),
    Display(DisplayMode),
    Position(Position),
    Width(SchemeDimension),
    Height(SchemeDimension),
    MaxWidth(SchemeDimension),
    MaxHeight(SchemeDimension),
    MinWidth(SchemeDimension),
    MinHeight(SchemeDimension),
    PaddingUniform(SchemeDimension),
    PaddingXY(SchemeDimension, SchemeDimension),
    PaddingTRBL(SchemeDimension, SchemeDimension, SchemeDimension, SchemeDimension),
    MarginUniform(SchemeDimension),
    MarginSide { side: Side, dim: SchemeDimension },
    GapUniform(SchemeDimension),
    InsetAll(SchemeDimension, SchemeDimension, SchemeDimension, SchemeDimension),
    InsetSide { side: Side, dim: SchemeDimension },
    Opacity(u32),
    Rotate(u64),
}

/// The style after one modifier: it sets the settings it names and leaves
/// every other setting as it was.
pub open spec fn spec_apply(m: StyleMod, s: StyleSettings) -> StyleSettings {
    match m {
        StyleMod::Direction(d) => StyleSettings { flex_direction: Some(d), ..s },
        StyleMod::AlignItems(a) => StyleSettings { align_items: Some(a), ..s },
        StyleMod::JustifyContent(j) => StyleSettings { justify_content: Some(j), ..s },
        StyleMod::Display(d) => StyleSettings { display: Some(d), ..s },
        StyleMod::Position(p) => StyleSettings { position: Some(p), ..s },
        StyleMod::Width(d) => StyleSettings { width: Some(spec_dimension(d)), ..s },
        StyleMod::Height(d) => StyleSettings { height: Some(spec_dimension(d)), ..s },
        StyleMod::MaxWidth(d) => StyleSettings { max_width: Some(spec_dimension(d)), ..s },
        StyleMod::MaxHeight(d) => StyleSettings { max_height: Some(spec_dimension(d)), ..s },
        StyleMod::MinWidth(d) => StyleSettings { min_width: Some(spec_dimension(d)), ..s },
        StyleMod::MinHeight(d) => StyleSettings { min_height: Some(spec_dimension(d)), ..s },
        StyleMod::PaddingUniform(d) => StyleSettings {
            padding: all_sides(spec_length_percentage(d)),
            ..s
        },
        StyleMod::PaddingXY(h, v) => StyleSettings {
            padding: Sides {
                top: Some(spec_length_percentage(v)),
                right: Some(spec_length_percentage(h)),
                bottom: Some(spec_length_percentage(v)),
                left: Some(spec_length_percentage(h)),
            },
            ..s
        },
        StyleMod::PaddingTRBL(t, r, b, l) => StyleSettings {
            padding: Sides {
                top: Some(spec_length_percentage(t)),
                right: Some(spec_length_percentage(r)),
                bottom: Some(spec_length_percentage(b)),
                left: Some(spec_length_percentage(l)),
            },
            ..s
        },
        StyleMod::MarginUniform(d) => StyleSettings {
            margin: all_sides(spec_length_percentage_auto(d)),
            ..s
        },
        StyleMod::MarginSide { side, dim } => StyleSettings {
            margin: with_side(s.margin, side, spec_length_percentage_auto(dim)),
            ..s
        },
        StyleMod::GapUniform(d) => StyleSettings {
            gap_width: Some(spec_length_percentage(d)),
            gap_height: Some(spec_length_percentage(d)),
            ..s
        },
        StyleMod::InsetAll(t, r, b, l) => StyleSettings {
            inset: Sides {
                top: Some(spec_length_percentage_auto(t)),
                right: Some(spec_length_percentage_auto(r)),
                bottom: Some(spec_length_percentage_auto(b)),
                left: Some(spec_length_percentage_auto(l)),
            },
            ..s
        },
        StyleMod::InsetSide { side, dim } => StyleSettings {
            inset: with_side(s.inset, side, spec_length_percentage_auto(dim)),
            ..s
        },
        StyleMod::Opacity(o) => StyleSettings { opacity: Some(o), ..s },
        StyleMod::Rotate(r) => StyleSettings { rotate_deg: Some(r), ..s },
    }
}

fn set_side<T: Copy>(s: &mut Sides<Option<T>>, side: Side, v: T)
    ensures
        *final(s) == with_side(*old(s), side, v),
{
    match side {
        Side::Top => s.top = Some(v),
        Side::Right => s.right = Some(v),
        Side::Bottom => s.bottom = Some(v),
        Side::Left => s.left = Some(v),
    }
}

impl StyleMod {
    /// Writes this modifier into a style.
    pub fn apply(&self, style: &mut StyleSettings)
        ensures
            *final(style) == spec_apply(*self, *old(style)),
    {
        match self {
            StyleMod::Direction(d) => style.flex_direction = Some(*d),
            StyleMod::AlignItems(a) => style.align_items = Some(*a),
            StyleMod::JustifyContent(j) => style.justify_content = Some(*j),
            StyleMod::Display(d) => style.display = Some(*d),
            StyleMod::Position(p) => style.position = Some(*p),
            StyleMod::Width(d) => style.width = Some(d.to_dimension()),
            StyleMod::Height(d) => style.height = Some(d.to_dimension()),
            StyleMod::MaxWidth(d) => style.max_width = Some(d.to_dimension()),
            StyleMod::MaxHeight(d) => style.max_height = Some(d.to_dimension()),
            StyleMod::MinWidth(d) => style.min_width = Some(d.to_dimension()),
            StyleMod::MinHeight(d) => style.min_height = Some(d.to_dimension()),
            StyleMod::PaddingUniform(d) => {
                let p = d.to_length_percentage();
                style.padding = Sides { top: Some(p), right: Some(p), bottom: Some(p), left: Some(p) };
            },
            StyleMod::PaddingXY(h, v) => {
                let hp = h.to_length_percentage();
                let vp = v.to_length_percentage();
                style.padding = Sides {
                    top: Some(vp),
                    right: Some(hp),
                    bottom: Some(vp),
                    left: Some(hp),
                };
            },
            StyleMod::PaddingTRBL(t, r, b, l) => {
                style.padding = Sides {
                    top: Some(t.to_length_percentage()),
                    right: Some(r.to_length_percentage()),
                    bottom: Some(b.to_length_percentage()),
                    left: Some(l.to_length_percentage()),
                };
            },
            StyleMod::MarginUniform(d) => {
                let m = d.to_length_percentage_auto();
                style.margin = Sides { top: Some(m), right: Some(m), bottom: Some(m), left: Some(m) };
            },
            StyleMod::MarginSide { side, dim } => {
                let m = dim.to_length_percentage_auto();
                set_side(&mut style.margin, *side, m);
            },
            StyleMod::GapUniform(d) => {
                let g = d.to_length_percentage();
                style.gap_width = Some(g);
                style.gap_height = Some(g);
            },
            StyleMod::InsetAll(t, r, b, l) => {
                style.inset = Sides {
                    top: Some(t.to_length_percentage_auto()),
                    right: Some(r.to_length_percentage_auto()),
                    bottom: Some(b.to_length_percentage_auto()),
                    left: Some(l.to_length_percentage_auto()),
                };
            },
            StyleMod::InsetSide { side, dim } => {
                let v = dim.to_length_percentage_auto();
                set_side(&mut style.inset, *side, v);
            },
            StyleMod::Opacity(o) => style.opacity = Some(*o),
            StyleMod::Rotate(r) => style.rotate_deg = Some(*r),
        }
    }
}

/// The style after the modifiers `mods`, applied left to right.
pub open spec fn spec_apply_all(mods: Seq<StyleMod>, s: StyleSettings) -> StyleSettings
    decreases mods.len(),
{
    if mods.len() == 0 {
        s
    } else {
        spec_apply_all(mods.drop_first(), spec_apply(mods[0], s))
    }
}

/// The DSL's `style`: the default style with the modifiers applied left to
/// right.
pub fn make_style(mods: &Vec<StyleMod>) -> (s: StyleSettings)
    ensures
        s == spec_apply_all(mods@, StyleSettings::spec_default()),
{
    let mut style = StyleSettings::new();
    let mut i: usize = 0;
    proof {
        assert(mods@.skip(0) == mods@);
    }
    while i < mods.len()
        invariant
            0 <= i <= mods.len(),
            spec_apply_all(mods@.skip(i as int), style) == spec_apply_all(
                mods@,
                StyleSettings::spec_default(),
            ),
        decreases mods.len() - i,
    {
        assert(mods@.skip(i as int).drop_first() == mods@.skip(i + 1));
        assert(mods@.skip(i as int)[0] == mods@[i as int]);
        mods[i].apply(&mut style);
        i += 1;
    }
    assert(mods@.skip(i as int).len() == 0);
    style
}

/// Which setting a modifier writes: modifiers of one kind write the same
/// settings in full (the three padding forms all write the padding, a side
/// of the margin or the inset is a kind of its own).
pub open spec fn mod_kind(m: StyleMod) -> int {
    match m {
        StyleMod::Direction(_) => 0,
        StyleMod::AlignItems(_) => 1,
        StyleMod::JustifyContent(_) => 2,
        StyleMod::Display(_) => 3,
        StyleMod::Position(_) => 4,
        StyleMod::Width(_) => 5,
        StyleMod::Height(_) => 6,
        StyleMod::MaxWidth(_) => 7,
        StyleMod::MaxHeight(_) => 8,
        StyleMod::MinWidth(_) => 9,
        StyleMod::MinHeight(_) => 10,
        StyleMod::PaddingUniform(_) => 11,
        StyleMod::PaddingXY(_, _) => 11,
        StyleMod::PaddingTRBL(_, _, _, _) => 11,
        StyleMod::MarginUniform(_) => 12,
        StyleMod::GapUniform(_) => 13,
        StyleMod::InsetAll(_, _, _, _) => 14,
        StyleMod::Opacity(_) => 15,
        StyleMod::Rotate(_) => 16,
        StyleMod::MarginSide { side, .. } => 20 + side_index(side),
        StyleMod::InsetSide { side, .. } => 30 + side_index(side),
    }
}

pub open spec fn side_index(side: Side) -> int {
    match side {
        Side::Top => 0,
        Side::Right => 1,
        Side::Bottom => 2,
        Side::Left => 3,
    }
}

/// A later modifier replaces an earlier one of its kind: applying `first`
/// and then `second` gives what applying `second` alone gives. In
/// particular a modifier applied twice acts once.
pub proof fn lemma_later_mod_wins(first: StyleMod, second: StyleMod, s: StyleSettings)
    requires
        mod_kind(first) == mod_kind(second),
    ensures
        spec_apply(second, spec_apply(first, s)) == spec_apply(second, s),
{
}

/// Applying two lists of modifiers one after the other is applying the
/// joined list.
pub proof fn lemma_apply_all_append(a: Seq<StyleMod>, b: Seq<StyleMod>, s: StyleSettings)
    ensures
        spec_apply_all(a + b, s) == spec_apply_all(b, spec_apply_all(a, s)),
    decreases a.len(),
{
    if a.len() == 0 {
        assert(a + b =~= b);
    } else {
        assert((a + b).drop_first() =~= a.drop_first() + b);
        assert((a + b)[0] == a[0]);
        lemma_apply_all_append(a.drop_first(), b, spec_apply(a[0], s));
    }
}

// ---------------------------------------------------------------------------
// Symbols
// ---------------------------------------------------------------------------

/// `"<name>: unknown value '<s>', expected <what>"`.
pub open spec fn unknown_value_message(name: Seq<char>, s: Seq<char>, what: Seq<char>) -> Seq<char> {
    name + ": unknown value '"@ + s + "', expected "@ + what
}

fn unknown_value(name: &str, s: &str, what: &str) -> (m: String)
    ensures
        m@ == unknown_value_message(name@, s@, what@),
{
    let mut m = string_of(name);
    m.append(": unknown value '");
    m.append(s);
    m.append("', expected ");
    m.append(what);
    m
}

pub open spec fn spec_direction(s: Seq<char>) -> Option<FlexDirection> {
    if s == "row"@ {
        Some(FlexDirection::Row)
    } else if s == "column"@ {
        Some(FlexDirection::Column)
    } else if s == "row-reverse"@ {
        Some(FlexDirection::RowReverse)
    } else if s == "column-reverse"@ {
        Some(FlexDirection::ColumnReverse)
    } else {
        None
    }
}

pub fn direction_of(s: &str) -> (r: Option<FlexDirection>)
    ensures
        r == spec_direction(s@),
{
    if str_equals(s, "row") {
        Some(FlexDirection::Row)
    } else if str_equals(s, "column") {
        Some(FlexDirection::Column)
    } else if str_equals(s, "row-reverse") {
        Some(FlexDirection::RowReverse)
    } else if str_equals(s, "column-reverse") {
        Some(FlexDirection::ColumnReverse)
    } else {
        None
    }
}

/// The DSL's `direction`.
pub fn fn_direction(s: &str) -> (r: Result<StyleMod, String>)
    ensures
        match spec_direction(s@) {
            Some(d) => r == Ok::<StyleMod, String>(StyleMod::Direction(d)),
            None => r matches Err(m) && m@ == unknown_value_message(
                "direction"@,
                s@,
                "one of: row, column, row-reverse, column-reverse"@,
            ),
        },
{
    match direction_of(s) {
        Some(d) => Ok(StyleMod::Direction(d)),
        None => Err(unknown_value("direction", s, "one of: row, column, row-reverse, column-reverse")),
    }
}

pub open spec fn spec_align_items(s: Seq<char>) -> Option<AlignItems> {
    if s == "start"@ || s == "flex-start"@ {
        Some(AlignItems::FlexStart)
    } else if s == "end"@ || s == "flex-end"@ {
        Some(AlignItems::FlexEnd)
    } else if s == "center"@ {
        Some(AlignItems::Center)
    } else if s == "stretch"@ {
        Some(AlignItems::Stretch)
    } else if s == "baseline"@ {
        Some(AlignItems::Baseline)
    } else {
        None
    }
}

pub fn align_items_of(s: &str) -> (r: Option<AlignItems>)
    ensures
        r == spec_align_items(s@),
{
    if str_equals(s, "start") || str_equals(s, "flex-start") {
        Some(AlignItems::FlexStart)
    } else if str_equals(s, "end") || str_equals(s, "flex-end") {
        Some(AlignItems::FlexEnd)
    } else if str_equals(s, "center") {
        Some(AlignItems::Center)
    } else if str_equals(s, "stretch") {
        Some(AlignItems::Stretch)
    } else if str_equals(s, "baseline") {
        Some(AlignItems::Baseline)
    } else {
        None
    }
}

/// The DSL's `align-items`.
pub fn fn_align_items(s: &str) -> (r: Result<StyleMod, String>)
    ensures
        match spec_align_items(s@) {
            Some(a) => r == Ok::<StyleMod, String>(StyleMod::AlignItems(Some(a))),
            None => r matches Err(m) && m@ == unknown_value_message(
                "align-items"@,
                s@,
                "one of: start, end, center, stretch, baseline"@,
            ),
        },
{
    match align_items_of(s) {
        Some(a) => Ok(StyleMod::AlignItems(Some(a))),
        None => Err(unknown_value("align-items", s, "one of: start, end, center, stretch, baseline")),
    }
}

pub open spec fn spec_justify_content(s: Seq<char>) -> Option<JustifyContent> {
    if s == "start"@ || s == "flex-start"@ {
        Some(JustifyContent::FlexStart)
    } else if s == "end"@ || s == "flex-end"@ {
        Some(JustifyContent::FlexEnd)
    } else if s == "center"@ {
        Some(JustifyContent::Center)
    } else if s == "space-between"@ {
        Some(JustifyContent::SpaceBetween)
    } else if s == "space-around"@ {
        Some(JustifyContent::SpaceAround)
    } else if s == "space-evenly"@ {
        Some(JustifyContent::SpaceEvenly)
    } else {
        None
    }
}

pub fn justify_content_of(s: &str) -> (r: Option<JustifyContent>)
    ensures
        r == spec_justify_content(s@),
{
    if str_equals(s, "start") || str_equals(s, "flex-start") {
        Some(JustifyContent::FlexStart)
    } else if str_equals(s, "end") || str_equals(s, "flex-end") {
        Some(JustifyContent::FlexEnd)
    } else if str_equals(s, "center") {
        Some(JustifyContent::Center)
    } else if str_equals(s, "space-between") {
        Some(JustifyContent::SpaceBetween)
    } else if str_equals(s, "space-around") {
        Some(JustifyContent::SpaceAround)
    } else if str_equals(s, "space-evenly") {
        Some(JustifyContent::SpaceEvenly)
    } else {
        None
    }
}

/// The DSL's `justify-content`.
pub fn fn_justify_content(s: &str) -> (r: Result<StyleMod, String>)
    ensures
        match spec_justify_content(s@) {
            Some(j) => r == Ok::<StyleMod, String>(StyleMod::JustifyContent(Some(j))),
            None => r matches Err(m) && m@ == unknown_value_message(
                "justify-content"@,
                s@,
                "one of: start, end, center, space-between, space-around, space-evenly"@,
            ),
        },
{
    match justify_content_of(s) {
        Some(j) => Ok(StyleMod::JustifyContent(Some(j))),
        None => Err(
            unknown_value(
                "justify-content",
                s,
                "one of: start, end, center, space-between, space-around, space-evenly",
            ),
        ),
    }
}

/// The DSL's `display`.
pub fn fn_display(s: &str) -> (r: Result<StyleMod, String>)
    ensures
        s@ == "flex"@ ==> r == Ok::<StyleMod, String>(StyleMod::Display(DisplayMode::Flex)),
        s@ == "none"@ ==> r == Ok::<StyleMod, String>(StyleMod::Display(DisplayMode::Hidden)),
        s@ != "flex"@ && s@ != "none"@ ==> (r matches Err(m) && m@ == unknown_value_message(
            "display"@,
            s@,
            "flex, none"@,
        )),
{
    proof {
        reveal_strlit("flex");
        reveal_strlit("none");
        assert("flex"@[0] != "none"@[0]);
    }
    if str_equals(s, "flex") {
        Ok(StyleMod::Display(DisplayMode::Flex))
    } else if str_equals(s, "none") {
        Ok(StyleMod::Display(DisplayMode::Hidden))
    } else {
        Err(unknown_value("display", s, "flex, none"))
    }
}

/// The DSL's `position`.
pub fn fn_position(s: &str) -> (r: Result<StyleMod, String>)
    ensures
        s@ == "absolute"@ ==> r == Ok::<StyleMod, String>(StyleMod::Position(Position::Absolute)),
        s@ == "relative"@ ==> r == Ok::<StyleMod, String>(StyleMod::Position(Position::Relative)),
        s@ != "absolute"@ && s@ != "relative"@ ==> (r matches Err(m) && m@
            == unknown_value_message("position"@, s@, "absolute, relative"@)),
{
    proof {
        reveal_strlit("absolute");
        reveal_strlit("relative");
        assert("absolute"@[0] != "relative"@[0]);
    }
    if str_equals(s, "absolute") {
        Ok(StyleMod::Position(Position::Absolute))
    } else if str_equals(s, "relative") {
        Ok(StyleMod::Position(Position::Relative))
    } else {
        Err(unknown_value("position", s, "absolute, relative"))
    }
}

pub open spec fn spec_text_align_symbol(s: Seq<char>) -> Option<TextAlign> {
    if s == "start"@ || s == "left"@ {
        Some(TextAlign::Start)
    } else if s == "center"@ {
        Some(TextAlign::Center)
    } else if s == "end"@ || s == "right"@ {
        Some(TextAlign::End)
    } else if s == "justify"@ {
        Some(TextAlign::Justify)
    } else {
        None
    }
}

/// The DSL's `align` (of text): the alignment, or an error naming the value.
pub fn fn_text_align(s: &str) -> (r: Result<TextAlign, String>)
    ensures
        match spec_text_align_symbol(s@) {
            Some(a) => r == Ok::<TextAlign, String>(a),
            None => r matches Err(m) && m@ == unknown_value_message(
                "align"@,
                s@,
                "start, center, end, justify"@,
            ),
        },
{
    if str_equals(s, "start") || str_equals(s, "left") {
        Ok(TextAlign::Start)
    } else if str_equals(s, "center") {
        Ok(TextAlign::Center)
    } else if str_equals(s, "end") || str_equals(s, "right") {
        Ok(TextAlign::End)
    } else if str_equals(s, "justify") {
        Ok(TextAlign::Justify)
    } else {
        Err(unknown_value("align", s, "start, center, end, justify"))
    }
}

/// The lengths and some letters of the layout symbols, which tell them apart.
proof fn lemma_symbol_names()
    ensures
        "start"@.len() == 5 && "start"@[0] == 's',
        "flex-start"@.len() == 10 && "flex-start"@[0] == 'f',
        "end"@.len() == 3 && "end"@[0] == 'e',
        "flex-end"@.len() == 8 && "flex-end"@[0] == 'f',
        "center"@.len() == 6 && "center"@[0] == 'c',
        "stretch"@.len() == 7 && "stretch"@[0] == 's',
        "baseline"@.len() == 8 && "baseline"@[0] == 'b',
        "space-between"@.len() == 13 && "space-between"@[0] == 's',
        "space-around"@.len() == 12 && "space-around"@[0] == 's',
        "space-evenly"@.len() == 12 && "space-evenly"@[0] == 's',
        "row"@.len() == 3 && "row"@[0] == 'r',
        "column"@.len() == 6 && "column"@[0] == 'c',
        "row-reverse"@.len() == 11 && "row-reverse"@[0] == 'r',
        "column-reverse"@.len() == 14 && "column-reverse"@[0] == 'c',
        "left"@.len() == 4 && "left"@[0] == 'l',
        "right"@.len() == 5 && "right"@[0] == 'r',
        "justify"@.len() == 7 && "justify"@[0] == 'j',
        "space-around"@[6] == 'a' && "space-evenly"@[6] == 'e',
{
    reveal_strlit("start");
    reveal_strlit("flex-start");
    reveal_strlit("end");
    reveal_strlit("flex-end");
    reveal_strlit("center");
    reveal_strlit("stretch");
    reveal_strlit("baseline");
    reveal_strlit("space-between");
    reveal_strlit("space-around");
    reveal_strlit("space-evenly");
    reveal_strlit("row");
    reveal_strlit("column");
    reveal_strlit("row-reverse");
    reveal_strlit("column-reverse");
    reveal_strlit("left");
    reveal_strlit("right");
    reveal_strlit("justify");
}

/// Each `direction` symbol names the direction of the same name, and only
/// those four symbols name one: `row`, `column`, `row-reverse`,
/// `column-reverse`.
pub proof fn law_direction_symbols(s: Seq<char>)
    ensures
        spec_direction(s) == Some(FlexDirection::Row) <==> s == "row"@,
        spec_direction(s) == Some(FlexDirection::Column) <==> s == "column"@,
        spec_direction(s) == Some(FlexDirection::RowReverse) <==> s == "row-reverse"@,
        spec_direction(s) == Some(FlexDirection::ColumnReverse) <==> s == "column-reverse"@,
        spec_direction(s) is None <==> (s != "row"@ && s != "column"@ && s != "row-reverse"@
            && s != "column-reverse"@),
{
    lemma_symbol_names();
}

/// Each `align-items` symbol names the alignment of the same name: `start`
/// and `flex-start` the flex start, `end` and `flex-end` the flex end,
/// `center`, `stretch` and `baseline` their own; these five alignments are
/// told apart, and no other symbol names one.
pub proof fn law_align_items_symbols(s: Seq<char>)
    ensures
        spec_align_items(s) == Some(AlignItems::FlexStart) <==> (s == "start"@ || s == "flex-start"@),
        spec_align_items(s) == Some(AlignItems::FlexEnd) <==> (s == "end"@ || s == "flex-end"@),
        spec_align_items(s) == Some(AlignItems::Center) <==> s == "center"@,
        spec_align_items(s) == Some(AlignItems::Stretch) <==> s == "stretch"@,
        spec_align_items(s) == Some(AlignItems::Baseline) <==> s == "baseline"@,
        spec_align_items(s) is None <==> (s != "start"@ && s != "flex-start"@ && s != "end"@
            && s != "flex-end"@ && s != "center"@ && s != "stretch"@ && s != "baseline"@),
{
    lemma_symbol_names();
}

/// Each `justify-content` symbol names the justification of the same name:
/// `start` and `flex-start` the flex start, `end` and `flex-end` the flex
/// end, `center`, `space-between`, `space-around` and `space-evenly` their
/// own; no other symbol names one.
pub proof fn law_justify_content_symbols(s: Seq<char>)
    ensures
        spec_justify_content(s) == Some(JustifyContent::FlexStart) <==> (s == "start"@ || s
            == "flex-start"@),
        spec_justify_content(s) == Some(JustifyContent::FlexEnd) <==> (s == "end"@ || s
            == "flex-end"@),
        spec_justify_content(s) == Some(JustifyContent::Center) <==> s == "center"@,
        spec_justify_content(s) == Some(JustifyContent::SpaceBetween) <==> s == "space-between"@,
        spec_justify_content(s) == Some(JustifyContent::SpaceAround) <==> s == "space-around"@,
        spec_justify_content(s) == Some(JustifyContent::SpaceEvenly) <==> s == "space-evenly"@,
        spec_justify_content(s) is None <==> (s != "start"@ && s != "flex-start"@ && s != "end"@
            && s != "flex-end"@ && s != "center"@ && s != "space-between"@ && s != "space-around"@
            && s != "space-evenly"@),
{
    lemma_symbol_names();
}

/// Each text `align` symbol names its alignment: `start` and `left` the
/// start, `center` the centre, `end` and `right` the end, `justify`
/// justified; no other symbol names one.
pub proof fn law_text_align_symbols(s: Seq<char>)
    ensures
        spec_text_align_symbol(s) == Some(TextAlign::Start) <==> (s == "start"@ || s == "left"@),
        spec_text_align_symbol(s) == Some(TextAlign::Center) <==> s == "center"@,
        spec_text_align_symbol(s) == Some(TextAlign::End) <==> (s == "end"@ || s == "right"@),
        spec_text_align_symbol(s) == Some(TextAlign::Justify) <==> s == "justify"@,
        spec_text_align_symbol(s) is None <==> (s != "start"@ && s != "left"@ && s != "center"@
            && s != "end"@ && s != "right"@ && s != "justify"@),
{
    lemma_symbol_names();
}

// ---------------------------------------------------------------------------
// Lenient symbol tables of style maps
// ---------------------------------------------------------------------------

/// `display` of a style map: `none` hides the node, anything else is flex.
pub fn display_or_flex(s: &str) -> (r: DisplayMode)
    ensures
        r == if s@ == "none"@ {
            DisplayMode::Hidden
        } else {
            DisplayMode::Flex
        },
{
    if str_equals(s, "none") {
        DisplayMode::Hidden
    } else {
        DisplayMode::Flex
    }
}

/// `flex_direction` of a style map: an unknown value gives a row.
pub fn direction_or_row(s: &str) -> (r: FlexDirection)
    ensures
        r == match spec_direction(s@) {
            Some(d) => d,
            None => FlexDirection::Row,
        },
{
    match direction_of(s) {
        Some(d) => d,
        None => FlexDirection::Row,
    }
}

/// `position` of a style map: `absolute`, anything else relative.
pub fn position_or_relative(s: &str) -> (r: Position)
    ensures
        r == if s@ == "absolute"@ {
            Position::Absolute
        } else {
            Position::Relative
        },
{
    if str_equals(s, "absolute") {
        Position::Absolute
    } else {
        Position::Relative
    }
}

} // verus!
