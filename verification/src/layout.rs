//! Sizing a message bubble: the font of the content layer of a template,
//! the wrap width chosen from the text's natural width, and the bubble and
//! canvas dimensions around the wrapped text.
use vstd::prelude::*;
use crate::lexical::str_chars;
use crate::lexical::string_of;
use crate::lexical::string_from_range;
use crate::lexical::range_equals;
use crate::lexical::trim;
use crate::lexical::trim_bounds;
use crate::lexical::all_white;
use crate::lexical::no_edge_white;
use crate::lexical::is_white_space;
use crate::lexical::law_trim_shape;
use crate::lexical::float_literal;
use crate::lexical::float_literal_range;
use crate::parser::first_index_of;
use crate::parser::lemma_first_index_of;
use crate::parser::lemma_first_index_of_bound;
use crate::entities::find_from;
use crate::entities::occurs_at;

verus! {

// ---------------------------------------------------------------------------
// The content font
// ---------------------------------------------------------------------------

/// The font of the content layer. `size` and `weight` hold decimal
/// literals that `parse::<f32>` accepts.
#[derive(Debug, Clone)]
pub struct ContentFont {
    pub family: String,
    pub size: String,
    pub weight: String,
}

pub struct ContentFontSpec {
    pub family: Seq<char>,
    pub size: Seq<char>,
    pub weight: Seq<char>,
}

impl View for ContentFont {
    type V = ContentFontSpec;

    open spec fn view(&self) -> ContentFontSpec {
        ContentFontSpec { family: self.family@, size: self.size@, weight: self.weight@ }
    }
}

/// `s` without its trailing commas.
pub open spec fn trim_end_commas(s: Seq<char>) -> Seq<char>
    decreases s.len(),
{
    if s.len() > 0 && s.last() == ',' {
        trim_end_commas(s.drop_last())
    } else {
        s
    }
}

/// `s.splitn(n, c)` for `n >= 1`: the pieces before each of the first
/// `n - 1` occurrences of `c`, then the rest.
pub open spec fn split_n(s: Seq<char>, n: nat, c: char) -> Seq<Seq<char>>
    decreases n,
{
    if n <= 1 {
        seq![s]
    } else {
        let p = first_index_of(s, c);
        if p < s.len() {
            seq![s.take(p)] + split_n(s.skip(p + 1), (n - 1) as nat, c)
        } else {
            seq![s]
        }
    }
}

/// A float field of the content layer, or `default` when it is not a float.
pub open spec fn float_or(t: Seq<char>, default: Seq<char>) -> Seq<char> {
    if float_literal(trim(t)) {
        trim(t)
    } else {
        default
    }
}

/// The font that a block gives: a text block (`1;...`) with at least ten
/// `;`s whose eleventh field mentions `content` gives the family, size and
/// weight of its seventh, eighth and ninth fields.
pub open spec fn block_font(block: Seq<char>) -> Option<ContentFontSpec> {
    let parts = split_n(block, 11, ';');
    if block.len() == 0 || parts.len() < 11 || parts[0] != "1"@ || find_from(
        parts[10],
        "content"@,
        0,
    ) is None {
        None
    } else {
        Some(
            ContentFontSpec {
                family: trim(parts[6]),
                size: float_or(parts[7], "15"@),
                weight: float_or(parts[8], "400"@),
            },
        )
    }
}

/// The font of the first block of `s` (blocks are separated by `,\n`, with
/// trailing commas ignored) that gives one.
pub open spec fn font_from(s: Seq<char>) -> Option<ContentFontSpec>
    decreases s.len(),
{
    match find_from(s, ",\n"@, 0) {
        Some(i) => if 0 <= i && i + 2 <= s.len() {
            match block_font(trim_end_commas(s.take(i))) {
                Some(f) => Some(f),
                None => font_from(s.skip(i + 2)),
            }
        } else {
            None
        },
        None => block_font(trim_end_commas(s)),
    }
}

/// The content font of a template, or sans-serif at 15 and 400.
pub open spec fn spec_content_font(s: Seq<char>) -> ContentFontSpec {
    match font_from(s) {
        Some(f) => f,
        None => ContentFontSpec { family: "sans-serif"@, size: "15"@, weight: "400"@ },
    }
}

/// The family that a block gives is its seventh field with the white space
/// around it taken away: it neither begins nor ends with white space, and
/// the field is white space, then the family, then white space. Its size
/// and weight are each a decimal literal without surrounding white space,
/// or the defaults `15` and `400`.
pub proof fn law_block_family(block: Seq<char>)
    ensures
        block_font(block) matches Some(f) ==> {
            let field = split_n(block, 11, ';')[6];
            &&& no_edge_white(f.family)
            &&& exists|a: int, b: int|
                0 <= a <= b <= field.len() && field.subrange(a, b) == f.family && all_white(
                    field.take(a),
                ) && all_white(field.skip(b))
            &&& f.size == "15"@ || (float_literal(f.size) && no_edge_white(f.size))
            &&& f.weight == "400"@ || (float_literal(f.weight) && no_edge_white(f.weight))
        },
{
    let parts = split_n(block, 11, ';');
    law_trim_shape(parts[6]);
    law_trim_shape(parts[7]);
    law_trim_shape(parts[8]);
}

proof fn lemma_font_from_family(s: Seq<char>)
    ensures
        font_from(s) matches Some(f) ==> no_edge_white(f.family),
    decreases s.len(),
{
    match find_from(s, ",\n"@, 0) {
        Some(i) => {
            if 0 <= i && i + 2 <= s.len() {
                law_block_family(trim_end_commas(s.take(i)));
                if block_font(trim_end_commas(s.take(i))) is None {
                    lemma_font_from_family(s.skip(i + 2));
                }
            }
        },
        None => {
            law_block_family(trim_end_commas(s));
        },
    }
}

/// The family of the content font of any template neither begins nor ends
/// with white space: it is a field of a block trimmed, or `sans-serif`.
pub proof fn law_content_family_trimmed(s: Seq<char>)
    ensures
        no_edge_white(spec_content_font(s).family),
{
    lemma_font_from_family(s);
    reveal_strlit("sans-serif");
    assert(!is_white_space("sans-serif"@[0]));
    assert(!is_white_space("sans-serif"@.last()));
}

pub proof fn lemma_find_bound(text: Seq<char>, pat: Seq<char>, i: int)
    ensures
        find_from(text, pat, i) matches Some(j) ==> i <= j && j + pat.len() <= text.len()
            && occurs_at(text, pat, j),
    decreases text.len() + 1 - i,
{
    if !(i < 0 || i + pat.len() > text.len()) && !occurs_at(text, pat, i) {
        lemma_find_bound(text, pat, i + 1);
    }
}

/// Position of the first `,\n` in `v[lo..hi]` (relative to `lo`).
fn find_block_end(v: &Vec<char>, lo: usize, hi: usize) -> (r: Option<usize>)
    requires
        lo <= hi <= v.len(),
    ensures
        match find_from(v@.subrange(lo as int, hi as int), ",\n"@, 0) {
            Some(i) => r == Some(i as usize),
            None => r is None,
        },
{
    proof {
        reveal_strlit(",\n");
    }
    let ghost s = v@.subrange(lo as int, hi as int);
    if hi - lo < 2 {
        assert(find_from(s, ",\n"@, 0) is None);
        return None;
    }
    let last = hi - lo - 2;
    let mut i: usize = 0;
    loop
        invariant
            lo <= hi <= v.len(),
            s == v@.subrange(lo as int, hi as int),
            last == hi - lo - 2,
            0 <= i <= last,
            find_from(s, ",\n"@, 0) == find_from(s, ",\n"@, i as int),
        decreases last - i,
    {
        proof {
            reveal_strlit(",\n");
        }
        if v[lo + i] == ',' && v[lo + i + 1] == '\n' {
            assert(s.subrange(i as int, i + 2) =~= ",\n"@);
            return Some(i);
        }
        assert(s.subrange(i as int, i + 2) != ",\n"@) by {
            assert(s.subrange(i as int, i + 2)[0] == v@[lo + i]);
            assert(s.subrange(i as int, i + 2)[1] == v@[lo + i + 1]);
        }
        if i == last {
            assert(find_from(s, ",\n"@, i + 1) is None);
            return None;
        }
        i += 1;
    }
}

/// End of `v[lo..hi]` without its trailing commas.
fn trim_commas(v: &Vec<char>, lo: usize, hi: usize) -> (r: usize)
    requires
        lo <= hi <= v.len(),
    ensures
        lo <= r <= hi,
        v@.subrange(lo as int, r as int) == trim_end_commas(v@.subrange(lo as int, hi as int)),
{
    let mut e = hi;
    while e > lo && v[e - 1] == ','
        invariant
            lo <= e <= hi <= v.len(),
            trim_end_commas(v@.subrange(lo as int, e as int)) == trim_end_commas(
                v@.subrange(lo as int, hi as int),
            ),
        decreases e - lo,
    {
        assert(v@.subrange(lo as int, e as int).drop_last() == v@.subrange(lo as int, e - 1));
        e -= 1;
    }
    if e > lo {
        assert(v@.subrange(lo as int, e as int).last() == v@[e - 1]);
    }
    e
}

/// The field ranges of `v[lo..hi].splitn(n, ';')`.
fn split_fields(v: &Vec<char>, lo: usize, hi: usize, n: usize) -> (r: Vec<(usize, usize)>)
    requires
        lo <= hi <= v.len(),
        n >= 1,
    ensures
        r.len() == split_n(v@.subrange(lo as int, hi as int), n as nat, ';').len(),
        forall|k: int|
            0 <= k < r.len() ==> lo <= (#[trigger] r@[k]).0 <= r@[k].1 <= hi && v@.subrange(
                r@[k].0 as int,
                r@[k].1 as int,
            ) == split_n(v@.subrange(lo as int, hi as int), n as nat, ';')[k],
{
    let mut r: Vec<(usize, usize)> = Vec::new();
    let mut cur = lo;
    let mut left = n;
    let ghost whole = split_n(v@.subrange(lo as int, hi as int), n as nat, ';');
    assert(r@.map_values(|p: (usize, usize)| v@.subrange(p.0 as int, p.1 as int)) =~= Seq::<
        Seq<char>,
    >::empty());
    while left > 1
        invariant
            lo <= cur <= hi <= v.len(),
            1 <= left <= n,
            whole == split_n(v@.subrange(lo as int, hi as int), n as nat, ';'),
            whole == r@.map_values(|p: (usize, usize)| v@.subrange(p.0 as int, p.1 as int))
                + split_n(v@.subrange(cur as int, hi as int), left as nat, ';'),
            forall|k: int| 0 <= k < r.len() ==> lo <= (#[trigger] r@[k]).0 <= r@[k].1 <= hi,
        decreases left,
    {
        let ghost s = v@.subrange(cur as int, hi as int);
        let ghost before = r@.map_values(|p: (usize, usize)| v@.subrange(p.0 as int, p.1 as int));
        let mut p = cur;
        while p < hi && v[p] != ';'
            invariant
                cur <= p <= hi <= v.len(),
                forall|j: int| cur <= j < p ==> v@[j] != ';',
            decreases hi - p,
        {
            p += 1;
        }
        proof {
            lemma_first_index_of(s, ';', p - cur);
        }
        if p == hi {
            assert(split_n(s, left as nat, ';') == split_n(s, 1, ';'));
            left = 1;
        } else {
            assert(s.take(p - cur) == v@.subrange(cur as int, p as int));
            assert(s.skip(p - cur + 1) == v@.subrange(p + 1, hi as int));
            r.push((cur, p));
            assert(r@.map_values(|q: (usize, usize)| v@.subrange(q.0 as int, q.1 as int)) =~= before
                + seq![s.take(p - cur)]);
            assert(split_n(s, left as nat, ';') == seq![s.take(p - cur)] + split_n(
                s.skip(p - cur + 1),
                (left - 1) as nat,
                ';',
            ));
            assert(whole =~= r@.map_values(|q: (usize, usize)| v@.subrange(q.0 as int, q.1 as int))
                + split_n(v@.subrange(p + 1, hi as int), (left - 1) as nat, ';'));
            cur = p + 1;
            left -= 1;
        }
    }
    let ghost before = r@.map_values(|p: (usize, usize)| v@.subrange(p.0 as int, p.1 as int));
    r.push((cur, hi));
    assert(r@.map_values(|q: (usize, usize)| v@.subrange(q.0 as int, q.1 as int)) =~= before
        + seq![v@.subrange(cur as int, hi as int)]);
    assert(whole =~= r@.map_values(|q: (usize, usize)| v@.subrange(q.0 as int, q.1 as int)));
    assert forall|k: int| 0 <= k < r.len() implies v@.subrange(
        (#[trigger] r@[k]).0 as int,
        r@[k].1 as int,
    ) == whole[k] by {
        assert(whole[k] == r@.map_values(|q: (usize, usize)| v@.subrange(q.0 as int, q.1 as int))[k]);
    }
    r
}

/// A float field, or the default literal.
fn float_field(v: &Vec<char>, lo: usize, hi: usize, default: &str) -> (s: String)
    requires
        lo <= hi <= v.len(),
    ensures
        s@ == float_or(v@.subrange(lo as int, hi as int), default@),
{
    let (a, b) = trim_bounds(v, lo, hi);
    if float_literal_range(v, a, b) {
        string_from_range(v, a, b)
    } else {
        string_of(default)
    }
}

fn contains_content(v: &Vec<char>, lo: usize, hi: usize) -> (b: bool)
    requires
        lo <= hi <= v.len(),
    ensures
        b == (find_from(v@.subrange(lo as int, hi as int), "content"@, 0) is Some),
{
    proof {
        reveal_strlit("content");
    }
    let ghost s = v@.subrange(lo as int, hi as int);
    if hi - lo < 7 {
        assert(find_from(s, "content"@, 0) is None);
        return false;
    }
    let last = hi - lo - 7;
    let mut i: usize = 0;
    loop
        invariant
            lo <= hi <= v.len(),
            s == v@.subrange(lo as int, hi as int),
            last == hi - lo - 7,
            0 <= i <= last,
            find_from(s, "content"@, 0) == find_from(s, "content"@, i as int),
        decreases last - i,
    {
        proof {
            reveal_strlit("content");
        }
        if range_equals(v, lo + i, lo + i + 7, "content") {
            assert(s.subrange(i as int, i + 7) == v@.subrange(lo + i, lo + i + 7));
            return true;
        }
        assert(s.subrange(i as int, i + 7) == v@.subrange(lo + i, lo + i + 7));
        if i == last {
            assert(find_from(s, "content"@, i + 1) is None);
            return false;
        }
        i += 1;
    }
}

fn block_font_range(v: &Vec<char>, lo: usize, hi: usize) -> (r: Option<ContentFont>)
    requires
        lo <= hi <= v.len(),
    ensures
        match block_font(v@.subrange(lo as int, hi as int)) {
            Some(f) => r matches Some(font) && font@ == f,
            None => r is None,
        },
{
    if lo == hi {
        return None;
    }
    let parts = split_fields(v, lo, hi, 11);
    if parts.len() < 11 {
        return None;
    }
    let (a0, b0) = parts[0];
    if !range_equals(v, a0, b0, "1") {
        return None;
    }
    let (a10, b10) = parts[10];
    if !contains_content(v, a10, b10) {
        return None;
    }
    let (a6, b6) = parts[6];
    let (fa, fb) = trim_bounds(v, a6, b6);
    let (a7, b7) = parts[7];
    let (a8, b8) = parts[8];
    Some(
        ContentFont {
            family: string_from_range(v, fa, fb),
            size: float_field(v, a7, b7, "15"),
            weight: float_field(v, a8, b8, "400"),
        },
    )
}

/// The font of the content layer of a template: the family, size and
/// weight of the first text block whose last field mentions `content`;
/// sans-serif at 15 and 400 when none does (the size and weight fall back
/// to 15 and 400 on their own when they are not numbers).
pub fn extract_content_font(template_str: &str) -> (r: ContentFont)
    ensures
        r@ == spec_content_font(template_str@),
{
    let v = str_chars(template_str);
    let n = v.len();
    let mut pos: usize = 0;
    proof {
        assert(v@.subrange(0, n as int) == v@);
    }
    loop
        invariant
            n == v.len(),
            v@ == template_str@,
            pos <= n,
            font_from(v@.subrange(pos as int, n as int)) == font_from(v@),
        decreases n - pos,
    {
        let ghost s = v@.subrange(pos as int, n as int);
        match find_block_end(&v, pos, n) {
            Some(i) => {
                proof {
                    lemma_find_bound(s, ",\n"@, 0);
                    reveal_strlit(",\n");
                }
                assert(s.take(i as int) == v@.subrange(pos as int, pos + i));
                let e = trim_commas(&v, pos, pos + i);
                match block_font_range(&v, pos, e) {
                    Some(f) => {
                        return f;
                    },
                    None => {},
                }
                assert(s.skip(i + 2) == v@.subrange(pos + i + 2, n as int));
                pos = pos + i + 2;
            },
            None => {
                assert(s == v@.subrange(pos as int, n as int));
                let e = trim_commas(&v, pos, n);
                match block_font_range(&v, pos, e) {
                    Some(f) => {
                        return f;
                    },
                    None => {
                        return ContentFont {
                            family: string_of("sans-serif"),
                            size: string_of("15"),
                            weight: string_of("400"),
                        };
                    },
                }
            },
        }
    }
}

// ---------------------------------------------------------------------------
// Dimensions
// ---------------------------------------------------------------------------

pub const BUBBLE_X: i32 = 47;
pub const TEXT_X: i32 = 56;
pub const TEXT_LEFT_PAD: i32 = 9;
pub const TEXT_RIGHT_PAD: i32 = 16;
pub const SVG_RIGHT_MARGIN: i32 = 53;
pub const MIN_WRAP: i32 = 100;
pub const MAX_WRAP: i32 = 450;
pub const MAX_SVG: i32 = 550;
pub const STATUS_RIGHT_MARGIN: i32 = 60;

/// The sizes of a bubble and of its canvas.
#[derive(Debug, Clone, Copy, PartialEq, Eq, Structural)]
pub struct LayoutDimensions {
    pub wrap_width: i32,
    pub bubble_width: i32,
    pub svg_width: i32,
    pub bubble_height: i32,
    pub svg_height: i32,
    pub status_x: i32,
}

/// The wrap width for a text whose unwrapped width is `natural_w`: that
/// width, kept between `MIN_WRAP` and `MAX_WRAP`.
pub fn wrap_width_for(natural_w: i32) -> (w: i32)
    ensures
        w == if natural_w < MIN_WRAP {
            MIN_WRAP
        } else if natural_w > MAX_WRAP {
            MAX_WRAP
        } else {
            natural_w
        },
        MIN_WRAP <= w <= MAX_WRAP,
{
    let w = if natural_w < MIN_WRAP {
        MIN_WRAP
    } else {
        natural_w
    };
    if w > MAX_WRAP {
        MAX_WRAP
    } else {
        w
    }
}

/// The bubble around text wrapped at `wrap_width` and `text_h` high: the
/// bubble is the text plus its paddings, the canvas the bubble plus its
/// margins (at most `MAX_SVG` wide), the status sits `STATUS_RIGHT_MARGIN`
/// left of the canvas edge.
pub fn layout_dimensions(wrap_width: i32, text_h: i32) -> (d: LayoutDimensions)
    requires
        wrap_width <= i32::MAX - 125,
        text_h <= i32::MAX - 50,
    ensures
        d.wrap_width == wrap_width,
        d.bubble_width == wrap_width + TEXT_LEFT_PAD + TEXT_RIGHT_PAD,
        d.svg_width == if BUBBLE_X + d.bubble_width + SVG_RIGHT_MARGIN < MAX_SVG {
            BUBBLE_X + d.bubble_width + SVG_RIGHT_MARGIN
        } else {
            MAX_SVG as int
        },
        d.bubble_height == 35 + text_h,
        d.svg_height == 50 + text_h,
        d.status_x == d.svg_width - STATUS_RIGHT_MARGIN,
{
    let bubble_width = wrap_width + TEXT_LEFT_PAD + TEXT_RIGHT_PAD;
    let full = BUBBLE_X + bubble_width + SVG_RIGHT_MARGIN;
    let svg_width = if full < MAX_SVG {
        full
    } else {
        MAX_SVG
    };
    LayoutDimensions {
        wrap_width,
        bubble_width,
        svg_width,
        bubble_height: 35 + text_h,
        svg_height: 50 + text_h,
        status_x: svg_width - STATUS_RIGHT_MARGIN,
    }
}

} // verus!
