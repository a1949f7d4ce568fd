//! The COFFIN wire format: a message is a run of segments
//! `type;length;data[,]`, where `length` counts the UTF-8 bytes of `data`.
//! Type 0 carries an SVG document, type 1 a text layer whose fields are
//! separated by `;`, type 2 the header (the chat id).
use vstd::prelude::*;
use vstd::string::StrSliceExecFns;
use vstd::string::StringSliceAdditionalSpecFns;
use crate::lexical::str_chars;
use crate::lexical::string_from_range;
use crate::lexical::trim;
use crate::lexical::trim_bounds;
use crate::lexical::parse_trimmed_integer;
use crate::lexical::parse_i32_range;
use crate::lexical::parse_u16_range;
use crate::lexical::parse_usize_range;
use crate::lexical::float_literal;
use crate::lexical::float_literal_range;
use crate::lexical::utf8_len;
use crate::lexical::chars_for_bytes;
use crate::lexical::lemma_chars_for_bytes_bound;
use crate::lexical::prefix_for_bytes;
use crate::lexical::count_utf8;
use crate::lexical::len_utf8;
use crate::lexical::lemma_utf8_len_split;
use crate::lexical::lemma_utf8_len_push;
use crate::json::JsonValue;
use crate::json::spec_get_str;
use crate::json::spec_get_u64;

verus! {

// ---------------------------------------------------------------------------
// Message types
// ---------------------------------------------------------------------------

/// The SVG document of a message.
#[derive(Debug)]
pub struct SvgMessage {
    pub data: String,
}

/// How a text layer wraps its lines.
#[derive(Debug, Clone, Copy, PartialEq, Eq, Structural)]
pub enum WrapMode {
    Word,
    Char,
    WordChar,
}

/// Horizontal alignment of a text layer.
#[derive(Debug, Clone, Copy, PartialEq, Eq, Structural)]
pub enum Alignment {
    Left,
    Center,
    Right,
}

/// Vertical alignment of a text layer.
#[derive(Debug, Clone, Copy, PartialEq, Eq, Structural)]
pub enum VAlignment {
    Top,
    Baseline,
}

/// A formatting entity: a kind (`bold`, `url`, ...) over `length` units
/// starting at `offset`.
#[derive(Debug, Clone)]
pub struct TextEntity {
    pub ty: String,
    pub offset: usize,
    pub length: usize,
}

/// A text layer. `font_size` holds the size as the decimal literal that the
/// message carried (trimmed); it is always a literal that `parse::<f32>`
/// accepts.
#[derive(Debug)]
pub struct TextMessage {
    pub x: i32,
    pub y: i32,
    pub wrap_width: i32,
    pub alignment: Alignment,
    pub valignment: VAlignment,
    pub font_family: String,
    pub font_size: String,
    pub font_weight: u16,
    pub color: String,
    pub bg_color: Option<String>,
    pub monospace_color: Option<String>,
    pub link_color: Option<String>,
    pub entities_key: Option<String>,
    pub text: String,
}

/// A whole message: its header, its SVG document and its text layers.
#[derive(Debug)]
pub struct ParsedMessage {
    pub header: String,
    pub svg: SvgMessage,
    pub texts: Vec<TextMessage>,
}

/// Why a message was refused.
#[derive(Debug)]
pub enum ParseError {
    UnexpectedEnd,
    InvalidInt(String),
    InvalidFloat(String),
    PayloadTooShort { expected: usize, got: usize },
    UnknownType(i32),
}

// ---------------------------------------------------------------------------
// Abstract views
// ---------------------------------------------------------------------------

pub enum ParseErrorSpec {
    UnexpectedEnd,
    InvalidInt(Seq<char>),
    InvalidFloat(Seq<char>),
    PayloadTooShort(int, int),
    UnknownType(int),
}

pub struct TextEntitySpec {
    pub ty: Seq<char>,
    pub offset: usize,
    pub length: usize,
}

pub struct TextSpec {
    pub x: int,
    pub y: int,
    pub wrap_width: int,
    pub alignment: Alignment,
    pub valignment: VAlignment,
    pub font_family: Seq<char>,
    pub font_size: Seq<char>,
    pub font_weight: int,
    pub color: Seq<char>,
    pub bg_color: Option<Seq<char>>,
    pub monospace_color: Option<Seq<char>>,
    pub link_color: Option<Seq<char>>,
    pub entities_key: Option<Seq<char>>,
    pub text: Seq<char>,
}

pub struct MessageSpec {
    pub header: Seq<char>,
    pub svg: Seq<char>,
    pub texts: Seq<TextSpec>,
}

/// What parsing a message comes to: a message, a refusal, or a slice that
/// would cut a character in two (the input on which slicing panics).
pub enum ParseOutcome {
    Parsed(MessageSpec),
    Failed(ParseErrorSpec),
    Aborts,
}

pub open spec fn opt_view(o: Option<String>) -> Option<Seq<char>> {
    match o {
        Some(s) => Some(s@),
        None => None,
    }
}

impl View for ParseError {
    type V = ParseErrorSpec;

    open spec fn view(&self) -> ParseErrorSpec {
        match self {
            ParseError::UnexpectedEnd => ParseErrorSpec::UnexpectedEnd,
            ParseError::InvalidInt(s) => ParseErrorSpec::InvalidInt(s@),
            ParseError::InvalidFloat(s) => ParseErrorSpec::InvalidFloat(s@),
            ParseError::PayloadTooShort { expected, got } => ParseErrorSpec::PayloadTooShort(
                *expected as int,
                *got as int,
            ),
            ParseError::UnknownType(t) => ParseErrorSpec::UnknownType(*t as int),
        }
    }
}

impl View for TextEntity {
    type V = TextEntitySpec;

    open spec fn view(&self) -> TextEntitySpec {
        TextEntitySpec { ty: self.ty@, offset: self.offset, length: self.length }
    }
}

impl View for TextMessage {
    type V = TextSpec;

    open spec fn view(&self) -> TextSpec {
        TextSpec {
            x: self.x as int,
            y: self.y as int,
            wrap_width: self.wrap_width as int,
            alignment: self.alignment,
            valignment: self.valignment,
            font_family: self.font_family@,
            font_size: self.font_size@,
            font_weight: self.font_weight as int,
            color: self.color@,
            bg_color: opt_view(self.bg_color),
            monospace_color: opt_view(self.monospace_color),
            link_color: opt_view(self.link_color),
            entities_key: opt_view(self.entities_key),
            text: self.text@,
        }
    }
}

impl View for ParsedMessage {
    type V = MessageSpec;

    open spec fn view(&self) -> MessageSpec {
        MessageSpec {
            header: self.header@,
            svg: self.svg.data@,
            texts: self.texts@.map_values(|t: TextMessage| t@),
        }
    }
}

// ---------------------------------------------------------------------------
// Tokens
// ---------------------------------------------------------------------------

/// Index of the first `c` in `s`, or the length of `s` if there is none.
pub open spec fn first_index_of(s: Seq<char>, c: char) -> int
    decreases s.len(),
{
    if s.len() == 0 {
        0
    } else if s[0] == c {
        0
    } else {
        1 + first_index_of(s.drop_first(), c)
    }
}

pub proof fn lemma_first_index_of(s: Seq<char>, c: char, p: int)
    requires
        0 <= p <= s.len(),
        forall|j: int| 0 <= j < p ==> s[j] != c,
        p == s.len() || s[p] == c,
    ensures
        first_index_of(s, c) == p,
    decreases p,
{
    if p > 0 {
        let rest = s.drop_first();
        assert forall|j: int| 0 <= j < p - 1 implies rest[j] != c by {
            assert(rest[j] == s[j + 1]);
        }
        lemma_first_index_of(rest, c, p - 1);
        assert(s[0] != c);
    }
}

pub proof fn lemma_first_index_of_bound(s: Seq<char>, c: char)
    ensures
        0 <= first_index_of(s, c) <= s.len(),
    decreases s.len(),
{
    if s.len() > 0 {
        lemma_first_index_of_bound(s.drop_first(), c);
    }
}

/// `read_until`: the text before the first `delim` and the text after it;
/// without a `delim`, all of the text and nothing after it; `None` on an
/// empty input.
pub open spec fn spec_read_until(s: Seq<char>, delim: char) -> Option<(Seq<char>, Seq<char>)> {
    let p = first_index_of(s, delim);
    if p < s.len() {
        Some((s.take(p), s.skip(p + 1)))
    } else if s.len() == 0 {
        None
    } else {
        Some((s, Seq::<char>::empty()))
    }
}

pub proof fn lemma_read_until_shrinks(s: Seq<char>, delim: char)
    ensures
        spec_read_until(s, delim) matches Some((t, r)) ==> r.len() < s.len() && t.len() <= s.len(),
{
    lemma_first_index_of_bound(s, delim);
}

/// Splits `v[lo..hi]` at its first `delim`: `Some((p, n))` where the token
/// is `v[lo..p]` and the rest `v[n..hi]`.
fn read_until_range(v: &Vec<char>, lo: usize, hi: usize, delim: char) -> (r: Option<(usize, usize)>)
    requires
        lo <= hi <= v.len(),
    ensures
        r is None ==> spec_read_until(v@.subrange(lo as int, hi as int), delim) is None,
        r matches Some((p, n)) ==> lo <= p <= n <= hi && spec_read_until(
            v@.subrange(lo as int, hi as int),
            delim,
        ) == Some((v@.subrange(lo as int, p as int), v@.subrange(n as int, hi as int))),
{
    let ghost s = v@.subrange(lo as int, hi as int);
    let mut p = lo;
    while p < hi && v[p] != delim
        invariant
            lo <= p <= hi <= v.len(),
            forall|j: int| lo <= j < p ==> v@[j] != delim,
        decreases hi - p,
    {
        p += 1;
    }
    proof {
        lemma_first_index_of(s, delim, p - lo);
    }
    if p < hi {
        assert(s.take(p - lo) == v@.subrange(lo as int, p as int));
        assert(s.skip(p - lo + 1) == v@.subrange(p + 1, hi as int));
        Some((p, p + 1))
    } else if lo == hi {
        None
    } else {
        assert(v@.subrange(hi as int, hi as int) == Seq::<char>::empty());
        Some((hi, hi))
    }
}

/// Takes the text before the first `delim` from `input` and moves `input`
/// past that `delim` (to the end of the text if there is none).
/// An empty `input` is refused with `UnexpectedEnd`.
pub fn read_until<'a>(input: &mut &'a str, delim: char) -> (r: Result<&'a str, ParseError>)
    ensures
        match spec_read_until(old(input)@, delim) {
            Some((t, rest)) => r matches Ok(tok) && tok@ == t && final(input)@ == rest,
            None => r matches Err(e) && e@ == ParseErrorSpec::UnexpectedEnd && final(input)@
                == old(input)@,
        },
{
    let v = str_chars(*input);
    let n = v.len();
    proof {
        assert(v@.subrange(0, n as int) == v@);
    }
    match read_until_range(&v, 0, n, delim) {
        Some((p, next)) => {
            let whole: &'a str = *input;
            let tok = whole.substring_char(0, p);
            let rest = whole.substring_char(next, n);
            *input = rest;
            Ok(tok)
        },
        None => Err(ParseError::UnexpectedEnd),
    }
}

// ---------------------------------------------------------------------------
// Scalars
// ---------------------------------------------------------------------------

/// `parse_int::<i32>`: the trimmed token as an `i32`, or `InvalidInt` with
/// the untrimmed token.
pub fn parse_int(s: &str) -> (r: Result<i32, ParseError>)
    ensures
        match parse_trimmed_integer(s@, i32::MIN as int, i32::MAX as int) {
            Some(x) => r matches Ok(y) && y as int == x,
            None => r matches Err(e) && e@ == ParseErrorSpec::InvalidInt(s@),
        },
{
    let v = str_chars(s);
    proof {
        assert(v@.subrange(0, v@.len() as int) == v@);
    }
    match parse_i32_range(&v, 0, v.len()) {
        Some(x) => Ok(x),
        None => Err(ParseError::InvalidInt(string_from_range(&v, 0, v.len()))),
    }
}

/// `parse_int::<u16>`.
pub fn parse_int_u16(s: &str) -> (r: Result<u16, ParseError>)
    ensures
        match parse_trimmed_integer(s@, 0, u16::MAX as int) {
            Some(x) => r matches Ok(y) && y as int == x,
            None => r matches Err(e) && e@ == ParseErrorSpec::InvalidInt(s@),
        },
{
    let v = str_chars(s);
    proof {
        assert(v@.subrange(0, v@.len() as int) == v@);
    }
    match parse_u16_range(&v, 0, v.len()) {
        Some(x) => Ok(x),
        None => Err(ParseError::InvalidInt(string_from_range(&v, 0, v.len()))),
    }
}

/// `parse_int::<usize>`.
pub fn parse_int_usize(s: &str) -> (r: Result<usize, ParseError>)
    ensures
        match parse_trimmed_integer(s@, 0, usize::MAX as int) {
            Some(x) => r matches Ok(y) && y as int == x,
            None => r matches Err(e) && e@ == ParseErrorSpec::InvalidInt(s@),
        },
{
    let v = str_chars(s);
    proof {
        assert(v@.subrange(0, v@.len() as int) == v@);
    }
    match parse_usize_range(&v, 0, v.len()) {
        Some(x) => Ok(x),
        None => Err(ParseError::InvalidInt(string_from_range(&v, 0, v.len()))),
    }
}

/// `parse_float`: the trimmed token when it is a literal that `parse::<f32>`
/// accepts, or `InvalidFloat` with the untrimmed token.
pub fn parse_float(s: &str) -> (r: Result<String, ParseError>)
    ensures
        float_literal(trim(s@)) ==> (r matches Ok(t) && t@ == trim(s@)),
        !float_literal(trim(s@)) ==> (r matches Err(e) && e@ == ParseErrorSpec::InvalidFloat(s@)),
{
    let v = str_chars(s);
    proof {
        assert(v@.subrange(0, v@.len() as int) == v@);
    }
    let (a, b) = trim_bounds(&v, 0, v.len());
    if float_literal_range(&v, a, b) {
        Ok(string_from_range(&v, a, b))
    } else {
        Err(ParseError::InvalidFloat(string_from_range(&v, 0, v.len())))
    }
}

/// The alignment that a number selects: its last decimal digit picks the
/// horizontal alignment (1 centre, 2 right, anything else left), its tens
/// digit the vertical one (1 baseline, anything else top). A negative number
/// selects left and top.
pub open spec fn spec_alignment(val: int) -> (Alignment, VAlignment) {
    let h = if val >= 0 && val % 10 == 1 {
        Alignment::Center
    } else if val >= 0 && val % 10 == 2 {
        Alignment::Right
    } else {
        Alignment::Left
    };
    let v = if val >= 0 && (val / 10) % 10 == 1 {
        VAlignment::Baseline
    } else {
        VAlignment::Top
    };
    (h, v)
}

/// The alignment number `10 * t + u` with a units digit `u`: `u` alone
/// decides the horizontal alignment (1 centre, 2 right, any other digit
/// left) and the units digit of `t` alone the vertical one (1 baseline,
/// any other top); a negative number is left and top.
pub proof fn law_alignment_digits(t: int, u: int)
    requires
        0 <= u < 10,
    ensures
        t >= 0 ==> {
            let (h, v) = spec_alignment(10 * t + u);
            &&& (u == 1 ==> h == Alignment::Center)
            &&& (u == 2 ==> h == Alignment::Right)
            &&& (u != 1 && u != 2 ==> h == Alignment::Left)
            &&& (t % 10 == 1 ==> v == VAlignment::Baseline)
            &&& (t % 10 != 1 ==> v == VAlignment::Top)
        },
        10 * t + u < 0 ==> spec_alignment(10 * t + u) == (Alignment::Left, VAlignment::Top),
{
    assert((10 * t + u) % 10 == u) by (nonlinear_arith)
        requires
            0 <= u < 10,
    ;
    assert((10 * t + u) / 10 == t) by (nonlinear_arith)
        requires
            0 <= u < 10,
    ;
}

pub fn parse_alignment(val: i32) -> (r: (Alignment, VAlignment))
    ensures
        r == spec_alignment(val as int),
{
    if val < 0 {
        return (Alignment::Left, VAlignment::Top);
    }
    let alignment = match val % 10 {
        1 => Alignment::Center,
        2 => Alignment::Right,
        _ => Alignment::Left,
    };
    let valignment = match (val / 10) % 10 {
        1 => VAlignment::Baseline,
        _ => VAlignment::Top,
    };
    (alignment, valignment)
}

// ---------------------------------------------------------------------------
// Text layers
// ---------------------------------------------------------------------------

/// An integer field: the token before the next `;`, trimmed and read as an
/// integer with values `min..=max`.
pub open spec fn spec_field_int(d: Seq<char>, min: int, max: int) -> Result<
    (int, Seq<char>),
    ParseErrorSpec,
> {
    match spec_read_until(d, ';') {
        None => Err(ParseErrorSpec::UnexpectedEnd),
        Some((t, r)) => match parse_trimmed_integer(t, min, max) {
            Some(x) => Ok((x, r)),
            None => Err(ParseErrorSpec::InvalidInt(t)),
        },
    }
}

/// A text field: the token before the next `;`.
pub open spec fn spec_field_str(d: Seq<char>) -> Result<(Seq<char>, Seq<char>), ParseErrorSpec> {
    match spec_read_until(d, ';') {
        None => Err(ParseErrorSpec::UnexpectedEnd),
        Some((t, r)) => Ok((t, r)),
    }
}

/// A float field: the trimmed token, which must be a float literal.
pub open spec fn spec_field_float(d: Seq<char>) -> Result<(Seq<char>, Seq<char>), ParseErrorSpec> {
    match spec_read_until(d, ';') {
        None => Err(ParseErrorSpec::UnexpectedEnd),
        Some((t, r)) => if float_literal(trim(t)) {
            Ok((trim(t), r))
        } else {
            Err(ParseErrorSpec::InvalidFloat(t))
        },
    }
}

/// An optional field: absent when the token is empty or the text has ended.
pub open spec fn spec_field_opt(d: Seq<char>) -> (Option<Seq<char>>, Seq<char>) {
    match spec_read_until(d, ';') {
        None => (None, d),
        Some((t, r)) => (
            if t.len() == 0 {
                None
            } else {
                Some(t)
            },
            r,
        ),
    }
}

/// The text layer that `d` describes:
/// `x;y;wrap_width;alignment;font_family;font_size;font_weight;color;bg_color;monospace_color;link_color;entities_key;text`.
pub open spec fn spec_parse_text(d: Seq<char>) -> Result<TextSpec, ParseErrorSpec> {
    match spec_field_int(d, i32::MIN as int, i32::MAX as int) {
        Err(e) => Err(e),
        Ok((x, d1)) => match spec_field_int(d1, i32::MIN as int, i32::MAX as int) {
            Err(e) => Err(e),
            Ok((y, d2)) => match spec_field_int(d2, i32::MIN as int, i32::MAX as int) {
                Err(e) => Err(e),
                Ok((wrap_width, d3)) => match spec_field_int(d3, i32::MIN as int, i32::MAX as int) {
                    Err(e) => Err(e),
                    Ok((align, d4)) => match spec_field_str(d4) {
                        Err(e) => Err(e),
                        Ok((font_family, d5)) => match spec_field_float(d5) {
                            Err(e) => Err(e),
                            Ok((font_size, d6)) => match spec_field_int(d6, 0, u16::MAX as int) {
                                Err(e) => Err(e),
                                Ok((font_weight, d7)) => match spec_field_str(d7) {
                                    Err(e) => Err(e),
                                    Ok((color, d8)) => {
                                        let (bg_color, d9) = spec_field_opt(d8);
                                        let (monospace_color, d10) = spec_field_opt(d9);
                                        let (link_color, d11) = spec_field_opt(d10);
                                        let (entities_key, d12) = spec_field_opt(d11);
                                        let (alignment, valignment) = spec_alignment(align);
                                        Ok(
                                            TextSpec {
                                                x,
                                                y,
                                                wrap_width,
                                                alignment,
                                                valignment,
                                                font_family,
                                                font_size,
                                                font_weight,
                                                color,
                                                bg_color,
                                                monospace_color,
                                                link_color,
                                                entities_key,
                                                text: d12,
                                            },
                                        )
                                    },
                                },
                            },
                        },
                    },
                },
            },
        },
    }
}

fn field_int_range(v: &Vec<char>, lo: usize, hi: usize, min: i128, max: i128) -> (r: Result<
    (i128, usize),
    ParseError,
>)
    requires
        lo <= hi <= v.len(),
        -0x1_0000_0000_0000_0000 <= min <= 0 <= max <= 0x1_0000_0000_0000_0000,
    ensures
        match r {
            Ok((x, n)) => lo <= n <= hi && spec_field_int(
                v@.subrange(lo as int, hi as int),
                min as int,
                max as int,
            ) == Ok::<(int, Seq<char>), ParseErrorSpec>((x as int, v@.subrange(n as int, hi as int))),
            Err(e) => spec_field_int(v@.subrange(lo as int, hi as int), min as int, max as int)
                == Err::<(int, Seq<char>), ParseErrorSpec>(e@),
        },
{
    match read_until_range(v, lo, hi, ';') {
        None => Err(ParseError::UnexpectedEnd),
        Some((p, n)) => match crate::lexical::parse_integer_range(v, lo, p, min, max) {
            Some(x) => Ok((x, n)),
            None => Err(ParseError::InvalidInt(string_from_range(v, lo, p))),
        },
    }
}

fn field_str_range(v: &Vec<char>, lo: usize, hi: usize) -> (r: Result<(String, usize), ParseError>)
    requires
        lo <= hi <= v.len(),
    ensures
        match r {
            Ok((s, n)) => lo <= n <= hi && spec_field_str(v@.subrange(lo as int, hi as int)) == Ok::<
                (Seq<char>, Seq<char>),
                ParseErrorSpec,
            >((s@, v@.subrange(n as int, hi as int))),
            Err(e) => spec_field_str(v@.subrange(lo as int, hi as int)) == Err::<
                (Seq<char>, Seq<char>),
                ParseErrorSpec,
            >(e@),
        },
{
    match read_until_range(v, lo, hi, ';') {
        None => Err(ParseError::UnexpectedEnd),
        Some((p, n)) => Ok((string_from_range(v, lo, p), n)),
    }
}

fn field_float_range(v: &Vec<char>, lo: usize, hi: usize) -> (r: Result<(String, usize), ParseError>)
    requires
        lo <= hi <= v.len(),
    ensures
        match r {
            Ok((s, n)) => lo <= n <= hi && spec_field_float(v@.subrange(lo as int, hi as int))
                == Ok::<(Seq<char>, Seq<char>), ParseErrorSpec>(
                (s@, v@.subrange(n as int, hi as int)),
            ),
            Err(e) => spec_field_float(v@.subrange(lo as int, hi as int)) == Err::<
                (Seq<char>, Seq<char>),
                ParseErrorSpec,
            >(e@),
        },
{
    match read_until_range(v, lo, hi, ';') {
        None => Err(ParseError::UnexpectedEnd),
        Some((p, n)) => {
            let (a, b) = trim_bounds(v, lo, p);
            if float_literal_range(v, a, b) {
                Ok((string_from_range(v, a, b), n))
            } else {
                Err(ParseError::InvalidFloat(string_from_range(v, lo, p)))
            }
        },
    }
}

fn field_opt_range(v: &Vec<char>, lo: usize, hi: usize) -> (r: (Option<String>, usize))
    requires
        lo <= hi <= v.len(),
    ensures
        lo <= r.1 <= hi,
        spec_field_opt(v@.subrange(lo as int, hi as int)) == (
            opt_view(r.0),
            v@.subrange(r.1 as int, hi as int),
        ),
{
    match read_until_range(v, lo, hi, ';') {
        None => (None, lo),
        Some((p, n)) => if p == lo {
            (None, n)
        } else {
            (Some(string_from_range(v, lo, p)), n)
        },
    }
}

/// The text layer that `v[lo..hi]` describes.
fn parse_text_range(v: &Vec<char>, lo: usize, hi: usize) -> (r: Result<TextMessage, ParseError>)
    requires
        lo <= hi <= v.len(),
    ensures
        match r {
            Ok(t) => spec_parse_text(v@.subrange(lo as int, hi as int)) == Ok::<
                TextSpec,
                ParseErrorSpec,
            >(t@),
            Err(e) => spec_parse_text(v@.subrange(lo as int, hi as int)) == Err::<
                TextSpec,
                ParseErrorSpec,
            >(e@),
        },
{
    let imin = i32::MIN as i128;
    let imax = i32::MAX as i128;
    let (x, n1) = field_int_range(v, lo, hi, imin, imax)?;
    let (y, n2) = field_int_range(v, n1, hi, imin, imax)?;
    let (wrap_width, n3) = field_int_range(v, n2, hi, imin, imax)?;
    let (align_val, n4) = field_int_range(v, n3, hi, imin, imax)?;
    let (alignment, valignment) = parse_alignment(align_val as i32);
    let (font_family, n5) = field_str_range(v, n4, hi)?;
    let (font_size, n6) = field_float_range(v, n5, hi)?;
    let (font_weight, n7) = field_int_range(v, n6, hi, 0, u16::MAX as i128)?;
    let (color, n8) = field_str_range(v, n7, hi)?;
    let (bg_color, n9) = field_opt_range(v, n8, hi);
    let (monospace_color, n10) = field_opt_range(v, n9, hi);
    let (link_color, n11) = field_opt_range(v, n10, hi);
    let (entities_key, n12) = field_opt_range(v, n11, hi);
    let text = string_from_range(v, n12, hi);
    Ok(
        TextMessage {
            x: x as i32,
            y: y as i32,
            wrap_width: wrap_width as i32,
            alignment,
            valignment,
            font_family,
            font_size,
            font_weight: font_weight as u16,
            color,
            bg_color,
            monospace_color,
            link_color,
            entities_key,
            text,
        },
    )
}

/// Parses the fields of a text layer.
pub fn parse_text(data: &str) -> (r: Result<TextMessage, ParseError>)
    ensures
        match r {
            Ok(t) => spec_parse_text(data@) == Ok::<TextSpec, ParseErrorSpec>(t@),
            Err(e) => spec_parse_text(data@) == Err::<TextSpec, ParseErrorSpec>(e@),
        },
{
    let v = str_chars(data);
    proof {
        assert(v@.subrange(0, v@.len() as int) == v@);
    }
    parse_text_range(&v, 0, v.len())
}


// ---------------------------------------------------------------------------
// Messages
// ---------------------------------------------------------------------------

pub open spec fn empty_message() -> MessageSpec {
    MessageSpec {
        header: Seq::<char>::empty(),
        svg: Seq::<char>::empty(),
        texts: Seq::<TextSpec>::empty(),
    }
}

/// Parsing of the segments in `s`, on top of what `acc` has gathered.
/// Each segment is `type;length;` followed by `length` bytes of data and an
/// optional `,`; type 0 replaces the SVG document, type 1 adds a text layer,
/// type 2 replaces the header, any other type is refused.
pub open spec fn spec_parse_from(s: Seq<char>, acc: MessageSpec) -> ParseOutcome
    decreases s.len(),
{
    if s.len() == 0 {
        ParseOutcome::Parsed(acc)
    } else {
        match spec_read_until(s, ';') {
            None => ParseOutcome::Failed(ParseErrorSpec::UnexpectedEnd),
            Some((type_str, s1)) => match spec_read_until(s1, ';') {
                None => ParseOutcome::Failed(ParseErrorSpec::UnexpectedEnd),
                Some((len_str, s2)) => match parse_trimmed_integer(
                    type_str,
                    i32::MIN as int,
                    i32::MAX as int,
                ) {
                    None => ParseOutcome::Failed(ParseErrorSpec::InvalidInt(type_str)),
                    Some(msg_type) => match parse_trimmed_integer(len_str, 0, usize::MAX as int) {
                        None => ParseOutcome::Failed(ParseErrorSpec::InvalidInt(len_str)),
                        Some(len) => if utf8_len(s2) < len {
                            ParseOutcome::Failed(
                                ParseErrorSpec::PayloadTooShort(len, utf8_len(s2) as int),
                            )
                        } else {
                            match chars_for_bytes(s2, len) {
                                None => ParseOutcome::Aborts,
                                Some(k) => {
                                    proof {
                                        lemma_read_until_shrinks(s, ';');
                                        lemma_read_until_shrinks(s1, ';');
                                        lemma_chars_for_bytes_bound(s2, len);
                                    }
                                    let data = s2.take(k);
                                    let after = s2.skip(k);
                                    let rest = if after.len() > 0 && after[0] == ',' {
                                        after.drop_first()
                                    } else {
                                        after
                                    };
                                    if msg_type == 0 {
                                        spec_parse_from(rest, MessageSpec { svg: data, ..acc })
                                    } else if msg_type == 1 {
                                        match spec_parse_text(data) {
                                            Err(e) => ParseOutcome::Failed(e),
                                            Ok(t) => spec_parse_from(
                                                rest,
                                                MessageSpec { texts: acc.texts.push(t), ..acc },
                                            ),
                                        }
                                    } else if msg_type == 2 {
                                        spec_parse_from(rest, MessageSpec { header: data, ..acc })
                                    } else {
                                        ParseOutcome::Failed(ParseErrorSpec::UnknownType(msg_type))
                                    }
                                },
                            }
                        },
                    },
                },
            },
        }
    }
}

/// What parsing the whole of `s` comes to.
pub open spec fn spec_parse(s: Seq<char>) -> ParseOutcome {
    spec_parse_from(s, empty_message())
}

/// Parses a message, telling apart the inputs on which taking the data of a
/// segment would cut a character (`None`).
#[verifier::rlimit(50)]
pub fn parse_checked(input: &str) -> (r: Option<Result<ParsedMessage, ParseError>>)
    ensures
        match spec_parse(input@) {
            ParseOutcome::Parsed(m) => r matches Some(Ok(msg)) && msg@ == m,
            ParseOutcome::Failed(e) => r matches Some(Err(err)) && err@ == e,
            ParseOutcome::Aborts => r is None,
        },
{
    let v = str_chars(input);
    let n = v.len();
    let bytes = input.as_bytes();
    let total = bytes.len();
    assert(bytes@ == vstd::utf8::encode_utf8(v@));
    assert(total == utf8_len(v@));
    let mut msg = ParsedMessage {
        header: String::new(),
        svg: SvgMessage { data: String::new() },
        texts: Vec::new(),
    };
    assert(msg@.texts =~= Seq::<TextSpec>::empty());
    let mut pos: usize = 0;
    let mut off: usize = 0;
    proof {
        assert(v@.subrange(0, n as int) == v@);
        assert(v@.take(0) =~= Seq::<char>::empty());
    }
    while pos < n
        invariant
            n == v.len(),
            v@ == input@,
            total == utf8_len(v@),
            pos <= n,
            off == utf8_len(v@.take(pos as int)),
            spec_parse_from(v@.subrange(pos as int, n as int), msg@) == spec_parse(input@),
        decreases n - pos,
    {
        let ghost s = v@.subrange(pos as int, n as int);
        proof {
            lemma_utf8_len_split(v@, pos as int);
            assert(v@.skip(pos as int) == s);
            lemma_read_until_shrinks(s, ';');
        }
        let (p1, n1) = match read_until_range(&v, pos, n, ';') {
            Some(x) => x,
            None => return Some(Err(ParseError::UnexpectedEnd)),
        };
        let (p2, n2) = match read_until_range(&v, n1, n, ';') {
            Some(x) => x,
            None => return Some(Err(ParseError::UnexpectedEnd)),
        };
        let msg_type = match parse_i32_range(&v, pos, p1) {
            Some(t) => t,
            None => return Some(Err(ParseError::InvalidInt(string_from_range(&v, pos, p1)))),
        };
        let len = match parse_usize_range(&v, n1, p2) {
            Some(l) => l,
            None => return Some(Err(ParseError::InvalidInt(string_from_range(&v, n1, p2)))),
        };
        let ghost s2 = v@.subrange(n2 as int, n as int);
        proof {
            lemma_utf8_len_split(v@, n2 as int);
            assert(v@.skip(n2 as int) == s2);
            lemma_utf8_len_split(v@.take(n2 as int), pos as int);
            assert(v@.take(n2 as int).take(pos as int) == v@.take(pos as int));
            assert(v@.take(n2 as int).skip(pos as int) == v@.subrange(pos as int, n2 as int));
        }
        let ghost mid = utf8_len(v@.subrange(pos as int, n2 as int));
        let remaining = (total - off) - count_utf8(&v, pos, n2);
        assert(remaining == utf8_len(s2));
        if remaining < len {
            return Some(Err(ParseError::PayloadTooShort { expected: len, got: remaining }));
        }
        let end = match prefix_for_bytes(&v, n2, n, len) {
            Some(e) => e,
            None => return None,
        };
        proof {
            lemma_chars_for_bytes_bound(s2, len as int);
        }
        let ghost k = (end - n2) as int;
        assert(s2.take(k) == v@.subrange(n2 as int, end as int));
        assert(s2.skip(k) == v@.subrange(end as int, n as int));
        let next = if end < n && v[end] == ',' {
            end + 1
        } else {
            end
        };
        assert(v@.subrange(next as int, n as int) == if s2.skip(k).len() > 0 && s2.skip(k)[0]
            == ',' {
            s2.skip(k).drop_first()
        } else {
            s2.skip(k)
        });
        if msg_type == 0 {
            msg.svg = SvgMessage { data: string_from_range(&v, n2, end) };
        } else if msg_type == 1 {
            match parse_text_range(&v, n2, end) {
                Ok(t) => {
                    let ghost before = msg@;
                    let ghost tv = t@;
                    msg.texts.push(t);
                    assert(msg@.texts =~= before.texts.push(tv));
                },
                Err(e) => return Some(Err(e)),
            }
        } else if msg_type == 2 {
            msg.header = string_from_range(&v, n2, end);
        } else {
            return Some(Err(ParseError::UnknownType(msg_type)));
        }
        proof {
            lemma_utf8_len_split(v@, next as int);
            lemma_utf8_len_split(v@.take(next as int), pos as int);
            assert(v@.take(next as int).take(pos as int) == v@.take(pos as int));
            assert(v@.take(next as int).skip(pos as int) == v@.subrange(pos as int, next as int));
        }
        off = off + count_utf8(&v, pos, next);
        pos = next;
    }
    proof {
        assert(v@.subrange(n as int, n as int) =~= Seq::<char>::empty());
    }
    Some(Ok(msg))
}


/// Parses a message. Every input is accepted but those on which the data of
/// a segment would end inside a character (there slicing the text panics).
pub fn parse(input: &str) -> (r: Result<ParsedMessage, ParseError>)
    requires
        !(spec_parse(input@) is Aborts),
    ensures
        match spec_parse(input@) {
            ParseOutcome::Parsed(m) => r matches Ok(msg) && msg@ == m,
            ParseOutcome::Failed(e) => r matches Err(err) && err@ == e,
            ParseOutcome::Aborts => false,
        },
{
    match parse_checked(input) {
        Some(r) => r,
        None => {
            proof {
                assert(false);
            }
            Err(ParseError::UnexpectedEnd)
        },
    }
}

// ---------------------------------------------------------------------------
// Entities
// ---------------------------------------------------------------------------

/// The entity that a JSON item describes, when it has a string `type` and
/// non-negative integer `offset` and `length`.
pub open spec fn spec_entity(item: JsonValue) -> Option<TextEntitySpec> {
    match (
        spec_get_str(item, seq!['t', 'y', 'p', 'e']),
        spec_get_u64(item, seq!['o', 'f', 'f', 's', 'e', 't']),
        spec_get_u64(item, seq!['l', 'e', 'n', 'g', 't', 'h']),
    ) {
        (Some(ty), Some(offset), Some(length)) => Some(
            TextEntitySpec { ty, offset: offset as usize, length: length as usize },
        ),
        _ => None,
    }
}

/// The entities that the items describe, in order, skipping the others.
pub open spec fn spec_entities_of(items: Seq<JsonValue>) -> Seq<TextEntitySpec>
    decreases items.len(),
{
    if items.len() == 0 {
        Seq::empty()
    } else {
        let before = spec_entities_of(items.drop_last());
        match spec_entity(items.last()) {
            Some(e) => before.push(e),
            None => before,
        }
    }
}

/// The entities of a JSON array; nothing for any other value.
pub open spec fn spec_entities(value: JsonValue) -> Seq<TextEntitySpec> {
    match value {
        JsonValue::Array(items) => spec_entities_of(items@),
        _ => Seq::empty(),
    }
}

fn entity_of(item: &JsonValue) -> (r: Option<TextEntity>)
    ensures
        r matches Some(e) ==> spec_entity(*item) == Some(e@),
        r is None ==> spec_entity(*item) is None,
{
    proof {
        reveal_strlit("type");
        reveal_strlit("offset");
        reveal_strlit("length");
    }
    let ty = match item.get("type") {
        Some(v) => v.as_str(),
        None => None,
    };
    let offset = match item.get("offset") {
        Some(v) => v.as_u64(),
        None => None,
    };
    let length = match item.get("length") {
        Some(v) => v.as_u64(),
        None => None,
    };
    assert("type"@ == seq!['t', 'y', 'p', 'e']);
    assert("offset"@ == seq!['o', 'f', 'f', 's', 'e', 't']);
    assert("length"@ == seq!['l', 'e', 'n', 'g', 't', 'h']);
    match (ty, offset, length) {
        (Some(t), Some(o), Some(l)) => Some(
            TextEntity { ty: crate::lexical::string_of(t), offset: o as usize, length: l as usize },
        ),
        _ => None,
    }
}

/// Reads the entities of a JSON array of items; an item lacking a string
/// `type` or a non-negative integer `offset` or `length` is skipped, and any
/// value other than an array gives no entities.
pub fn parse_entities(json_val: &JsonValue) -> (r: Vec<TextEntity>)
    ensures
        r@.map_values(|e: TextEntity| e@) == spec_entities(*json_val),
{
    let mut entities: Vec<TextEntity> = Vec::new();
    if let Some(arr) = json_val.as_array() {
        let mut i: usize = 0;
        while i < arr.len()
            invariant
                *json_val == JsonValue::Array(*arr),
                0 <= i <= arr.len(),
                entities@.map_values(|e: TextEntity| e@) == spec_entities_of(
                    arr@.take(i as int),
                ),
            decreases arr.len() - i,
        {
            let ghost before = entities@.map_values(|e: TextEntity| e@);
            assert(arr@.take(i + 1).drop_last() == arr@.take(i as int));
            assert(arr@.take(i + 1).last() == arr@[i as int]);
            match entity_of(&arr[i]) {
                Some(e) => {
                    let ghost ev = e@;
                    entities.push(e);
                    assert(entities@.map_values(|e: TextEntity| e@) =~= before.push(ev));
                },
                None => {},
            }
            i += 1;
        }
        assert(arr@.take(arr.len() as int) == arr@);
    } else {
        assert(entities@.map_values(|e: TextEntity| e@) =~= Seq::<TextEntitySpec>::empty());
    }
    entities
}

/// The entity lists of a JSON object, one per entry, in the order of its
/// entries; nothing for an absent value or any value other than an object.
pub fn parse_entities_map(json: Option<&JsonValue>) -> (r: Vec<(String, Vec<TextEntity>)>)
    ensures
        json matches Some(JsonValue::Object(entries)) ==> {
            &&& r.len() == entries.len()
            &&& forall|i: int|
                0 <= i < r.len() ==> (#[trigger] r@[i]).0@ == entries@[i].0@ && r@[i].1@.map_values(
                    |e: TextEntity| e@,
                ) == spec_entities(entries@[i].1)
        },
        !(json matches Some(JsonValue::Object(_))) ==> r.len() == 0,
{
    let mut map: Vec<(String, Vec<TextEntity>)> = Vec::new();
    if let Some(val) = json {
        if let Some(obj) = val.as_object() {
            let mut i: usize = 0;
            while i < obj.len()
                invariant
                    *val == JsonValue::Object(*obj),
                    0 <= i <= obj.len(),
                    map.len() == i,
                    forall|j: int|
                        0 <= j < i ==> (#[trigger] map@[j]).0@ == obj@[j].0@ && map@[j].1@.map_values(
                            |e: TextEntity| e@,
                        ) == spec_entities(obj@[j].1),
                decreases obj.len() - i,
            {
                let key = crate::lexical::string_of(obj[i].0.as_str());
                let ents = parse_entities(&obj[i].1);
                map.push((key, ents));
                i += 1;
            }
        }
    }
    map
}

} // verus!
