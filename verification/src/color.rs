//! Colours written as hexadecimal strings, `#RRGGBB` or `#RRGGBBAA`.
//! Positions inside the string count UTF-8 bytes, as slicing a `str` does.
use vstd::prelude::*;
use vstd::string::StringExecFns;
use crate::lexical::str_chars;
use crate::lexical::utf8_len;
use crate::lexical::chars_for_bytes;
use crate::lexical::prefix_for_bytes;
use crate::lexical::lemma_chars_for_bytes_bound;
use crate::lexical::string_of;
use crate::lexical::count_utf8;
use crate::lexical::char_width;
use crate::lexical::lemma_utf8_len_first;

verus! {

/// A colour with 8-bit red, green, blue and alpha channels.
#[derive(Debug, Clone, Copy, PartialEq, Eq, Structural)]
pub struct Rgba8 {
    pub r: u8,
    pub g: u8,
    pub b: u8,
    pub a: u8,
}

impl Rgba8 {
    /// An opaque colour (`Color::from_rgb8`).
    pub fn rgb(r: u8, g: u8, b: u8) -> (c: Rgba8)
        ensures
            c == (Rgba8 { r, g, b, a: 255 }),
    {
        Rgba8 { r, g, b, a: 255 }
    }

    /// `Color::from_rgba8`.
    pub fn rgba(r: u8, g: u8, b: u8, a: u8) -> (c: Rgba8)
        ensures
            c == (Rgba8 { r, g, b, a }),
    {
        Rgba8 { r, g, b, a }
    }

    /// The channels in the order red, green, blue, alpha.
    pub fn to_array(&self) -> (a: [u8; 4])
        ensures
            a@ == seq![self.r, self.g, self.b, self.a],
    {
        [self.r, self.g, self.b, self.a]
    }
}

pub open spec fn is_hex_digit(c: char) -> bool {
    ('0' <= c <= '9') || ('a' <= c <= 'f') || ('A' <= c <= 'F')
}

pub open spec fn hex_value(c: char) -> int {
    if '0' <= c <= '9' {
        c as int - '0' as int
    } else if 'a' <= c <= 'f' {
        c as int - 'a' as int + 10
    } else {
        c as int - 'A' as int + 10
    }
}

/// What `u8::from_str_radix(tok, 16)` gives for a two-byte token: two hex
/// digits, or `+` and one hex digit.
pub open spec fn hex_byte(tok: Seq<char>) -> Option<u8> {
    if tok.len() == 2 && is_hex_digit(tok[0]) && is_hex_digit(tok[1]) {
        Some((16 * hex_value(tok[0]) + hex_value(tok[1])) as u8)
    } else if tok.len() == 2 && tok[0] == '+' && is_hex_digit(tok[1]) {
        Some(hex_value(tok[1]) as u8)
    } else {
        None
    }
}

/// `s.trim_start_matches('#')`.
pub open spec fn strip_hashes(s: Seq<char>) -> Seq<char>
    decreases s.len(),
{
    if s.len() > 0 && s[0] == '#' {
        strip_hashes(s.drop_first())
    } else {
        s
    }
}

/// The characters of bytes `a..b` of `h`, when both are character
/// boundaries inside `h` (`h.get(a..b)`).
pub open spec fn byte_slice(h: Seq<char>, a: int, b: int) -> Option<Seq<char>> {
    match (chars_for_bytes(h, a), chars_for_bytes(h, b)) {
        (Some(i), Some(j)) => if i <= j {
            Some(h.subrange(i, j))
        } else {
            None
        },
        _ => None,
    }
}

/// What reading a strict hex colour comes to.
pub enum HexOutcome {
    Color(Rgba8),
    Invalid,
    Aborts,
}

/// One channel of a strict hex colour: bytes `a..a+2` of `h`.
pub open spec fn strict_channel(h: Seq<char>, a: int) -> HexOutcome {
    match byte_slice(h, a, a + 2) {
        None => HexOutcome::Aborts,
        Some(t) => match hex_byte(t) {
            Some(v) => HexOutcome::Color(Rgba8 { r: v, g: v, b: v, a: v }),
            None => HexOutcome::Invalid,
        },
    }
}

/// `parse_hex_color` (the DSL's `hex`): after any leading `#`s, six or
/// eight bytes, read two at a time as red, green, blue and (when there are
/// eight) alpha, left to right; alpha is 255 when there are six. The first
/// channel that is not hexadecimal refuses the string; a channel whose bytes
/// would cut a character aborts.
pub open spec fn spec_hex_color(s: Seq<char>) -> HexOutcome {
    let h = strip_hashes(s);
    let n = utf8_len(h);
    if n != 6 && n != 8 {
        HexOutcome::Invalid
    } else {
        match (strict_channel(h, 0), strict_channel(h, 2), strict_channel(h, 4), strict_channel(h, 6)) {
            (HexOutcome::Aborts, _, _, _) => HexOutcome::Aborts,
            (HexOutcome::Invalid, _, _, _) => HexOutcome::Invalid,
            (HexOutcome::Color(r), HexOutcome::Aborts, _, _) => HexOutcome::Aborts,
            (HexOutcome::Color(r), HexOutcome::Invalid, _, _) => HexOutcome::Invalid,
            (HexOutcome::Color(r), HexOutcome::Color(g), HexOutcome::Aborts, _) => HexOutcome::Aborts,
            (HexOutcome::Color(r), HexOutcome::Color(g), HexOutcome::Invalid, _) => HexOutcome::Invalid,
            (HexOutcome::Color(r), HexOutcome::Color(g), HexOutcome::Color(b), a) => if n == 6 {
                HexOutcome::Color(Rgba8 { r: r.r, g: g.r, b: b.r, a: 255 })
            } else {
                match a {
                    HexOutcome::Color(a) => HexOutcome::Color(Rgba8 { r: r.r, g: g.r, b: b.r, a: a.r }),
                    HexOutcome::Invalid => HexOutcome::Invalid,
                    HexOutcome::Aborts => HexOutcome::Aborts,
                }
            },
        }
    }
}

/// One channel of a lenient hex colour: bytes `a..a+2` of `h` read as hex,
/// 255 when they are missing, cut a character, or are not hexadecimal.
pub open spec fn lenient_channel(h: Seq<char>, a: int) -> u8 {
    match byte_slice(h, a, a + 2) {
        Some(t) => match hex_byte(t) {
            Some(v) => v,
            None => 255,
        },
        None => 255,
    }
}

/// The lenient reading of a hex colour (used for text layers): every
/// channel falls back to 255 on its own.
pub open spec fn spec_lenient_hex(s: Seq<char>) -> Seq<u8> {
    let h = strip_hashes(s);
    seq![lenient_channel(h, 0), lenient_channel(h, 2), lenient_channel(h, 4), lenient_channel(h, 6)]
}

fn hex_digit_value(c: char) -> (r: Option<u8>)
    ensures
        r matches Some(v) ==> is_hex_digit(c) && v as int == hex_value(c),
        r is None ==> !is_hex_digit(c),
{
    if '0' <= c && c <= '9' {
        Some((c as u32 - '0' as u32) as u8)
    } else if 'a' <= c && c <= 'f' {
        Some((c as u32 - 'a' as u32 + 10) as u8)
    } else if 'A' <= c && c <= 'F' {
        Some((c as u32 - 'A' as u32 + 10) as u8)
    } else {
        None
    }
}

fn hex_byte_range(v: &Vec<char>, lo: usize, hi: usize) -> (r: Option<u8>)
    requires
        lo <= hi <= v.len(),
    ensures
        r == hex_byte(v@.subrange(lo as int, hi as int)),
{
    let ghost t = v@.subrange(lo as int, hi as int);
    if hi - lo != 2 {
        return None;
    }
    assert(t[0] == v@[lo as int] && t[1] == v@[lo + 1]);
    let second = match hex_digit_value(v[lo + 1]) {
        Some(d) => d,
        None => return None,
    };
    if v[lo] == '+' {
        return Some(second);
    }
    match hex_digit_value(v[lo]) {
        Some(first) => Some(first * 16 + second),
        None => None,
    }
}

/// Index of the first character of `v` after its leading `#`s.
fn skip_hashes(v: &Vec<char>) -> (r: usize)
    ensures
        r <= v.len(),
        v@.subrange(r as int, v.len() as int) == strip_hashes(v@),
{
    let mut i: usize = 0;
    proof {
        assert(v@.subrange(0, v.len() as int) == v@);
    }
    while i < v.len() && v[i] == '#'
        invariant
            0 <= i <= v.len(),
            strip_hashes(v@.subrange(i as int, v.len() as int)) == strip_hashes(v@),
        decreases v.len() - i,
    {
        assert(v@.subrange(i as int, v.len() as int).drop_first() == v@.subrange(
            i + 1,
            v.len() as int,
        ));
        i += 1;
    }
    if i < v.len() {
        assert(v@.subrange(i as int, v.len() as int)[0] == v@[i as int]);
    }
    i
}

/// Bytes `a..b` of `v[start..]` as a character range, when both are
/// character boundaries (`str::get`).
fn byte_slice_range(v: &Vec<char>, start: usize, a: usize, b: usize) -> (r: Option<(usize, usize)>)
    requires
        start <= v.len(),
        a <= b,
    ensures
        match byte_slice(v@.subrange(start as int, v.len() as int), a as int, b as int) {
            Some(t) => r matches Some((i, j)) && start <= i <= j <= v.len() && t == v@.subrange(
                i as int,
                j as int,
            ),
            None => r is None,
        },
{
    let ghost h = v@.subrange(start as int, v.len() as int);
    proof {
        lemma_chars_for_bytes_bound(h, a as int);
        lemma_chars_for_bytes_bound(h, b as int);
    }
    let i = match prefix_for_bytes(v, start, v.len(), a) {
        Some(i) => i,
        None => return None,
    };
    let j = match prefix_for_bytes(v, start, v.len(), b) {
        Some(j) => j,
        None => return None,
    };
    if i <= j {
        assert(h.subrange(i - start, j - start) == v@.subrange(i as int, j as int));
        Some((i, j))
    } else {
        None
    }
}

fn strict_channel_exec(v: &Vec<char>, start: usize, a: usize) -> (r: Option<Option<u8>>)
    requires
        start <= v.len(),
        a <= 6,
    ensures
        match strict_channel(v@.subrange(start as int, v.len() as int), a as int) {
            HexOutcome::Aborts => r is None,
            HexOutcome::Invalid => r == Some(None::<u8>),
            HexOutcome::Color(c) => r == Some(Some(c.r)),
        },
{
    match byte_slice_range(v, start, a, a + 2) {
        None => None,
        Some((i, j)) => Some(hex_byte_range(v, i, j)),
    }
}

/// Reads a strict hex colour, telling apart the strings on which slicing
/// would cut a character (`None`).
pub fn parse_hex_color_checked(hex: &str) -> (r: Option<Option<Rgba8>>)
    ensures
        match spec_hex_color(hex@) {
            HexOutcome::Color(c) => r == Some(Some(c)),
            HexOutcome::Invalid => r == Some(None::<Rgba8>),
            HexOutcome::Aborts => r is None,
        },
{
    let v = str_chars(hex);
    let start = skip_hashes(&v);
    let ghost h = v@.subrange(start as int, v.len() as int);
    let bytes = hex.as_bytes();
    let total = bytes.len();
    proof {
        assert(bytes@.len() == utf8_len(v@));
        crate::lexical::lemma_utf8_len_split(v@, start as int);
        assert(v@.skip(start as int) == h);
    }
    let n = count_utf8(&v, start, v.len());
    if n != 6 && n != 8 {
        return Some(None);
    }
    let r = match strict_channel_exec(&v, start, 0) {
        None => return None,
        Some(None) => return Some(None),
        Some(Some(x)) => x,
    };
    let g = match strict_channel_exec(&v, start, 2) {
        None => return None,
        Some(None) => return Some(None),
        Some(Some(x)) => x,
    };
    let b = match strict_channel_exec(&v, start, 4) {
        None => return None,
        Some(None) => return Some(None),
        Some(Some(x)) => x,
    };
    if n == 6 {
        return Some(Some(Rgba8 { r, g, b, a: 255 }));
    }
    match strict_channel_exec(&v, start, 6) {
        None => None,
        Some(None) => Some(None),
        Some(Some(a)) => Some(Some(Rgba8 { r, g, b, a })),
    }
}

/// Reads a strict hex colour (`parse_hex_color`; the DSL's `hex`).
pub fn parse_hex_color(hex: &str) -> (r: Option<Rgba8>)
    requires
        !(spec_hex_color(hex@) is Aborts),
    ensures
        match spec_hex_color(hex@) {
            HexOutcome::Color(c) => r == Some(c),
            HexOutcome::Invalid => r is None,
            HexOutcome::Aborts => false,
        },
{
    match parse_hex_color_checked(hex) {
        Some(r) => r,
        None => {
            proof {
                assert(false);
            }
            None
        },
    }
}

/// The message with which the DSL's `hex` refuses a string.
pub open spec fn hex_error_message(s: Seq<char>) -> Seq<char> {
    "hex: invalid hex color \""@ + s + "\""@
}

/// The short form `#RGB` of a colour: after any leading `#`s, three hex
/// digits, each doubled (`F` stands for `FF`), with alpha 255.
pub open spec fn short_hex(s: Seq<char>) -> Option<Rgba8> {
    let h = strip_hashes(s);
    if h.len() == 3 && is_hex_digit(h[0]) && is_hex_digit(h[1]) && is_hex_digit(h[2]) {
        Some(
            Rgba8 {
                r: (17 * hex_value(h[0])) as u8,
                g: (17 * hex_value(h[1])) as u8,
                b: (17 * hex_value(h[2])) as u8,
                a: 255,
            },
        )
    } else {
        None
    }
}

/// What the DSL's `hex` reads: the short form `#RGB`, else the forms
/// `#RRGGBB` and `#RRGGBBAA` of `parse_hex_color`.
pub open spec fn spec_dsl_hex(s: Seq<char>) -> HexOutcome {
    match short_hex(s) {
        Some(c) => HexOutcome::Color(c),
        None => spec_hex_color(s),
    }
}

fn doubled_digit(c: char) -> (r: Option<u8>)
    ensures
        r matches Some(v) ==> is_hex_digit(c) && v as int == 17 * hex_value(c),
        r is None ==> !is_hex_digit(c),
{
    match hex_digit_value(c) {
        Some(d) => {
            assert(hex_value(c) < 16);
            Some(d * 17)
        },
        None => None,
    }
}

/// The colour of the short form `#RGB`, where `s` is in it.
fn short_hex_color(s: &str) -> (r: Option<Rgba8>)
    ensures
        r == short_hex(s@),
{
    let v = str_chars(s);
    let start = skip_hashes(&v);
    if v.len() - start != 3 {
        return None;
    }
    let ghost h = strip_hashes(s@);
    assert(h[0] == v@[start as int] && h[1] == v@[start + 1] && h[2] == v@[start + 2]);
    match (doubled_digit(v[start]), doubled_digit(v[start + 1]), doubled_digit(v[start + 2])) {
        (Some(r), Some(g), Some(b)) => Some(Rgba8 { r, g, b, a: 255 }),
        _ => None,
    }
}

/// The DSL's `hex`: the colour of `#RGB`, `#RRGGBB` or `#RRGGBBAA` (the
/// `#` optional), or an error naming the string.
pub fn fn_hex(s: &str) -> (r: Result<Rgba8, String>)
    requires
        !(spec_hex_color(s@) is Aborts),
    ensures
        match spec_dsl_hex(s@) {
            HexOutcome::Color(c) => r == Ok::<Rgba8, String>(c),
            HexOutcome::Invalid => r matches Err(m) && m@ == hex_error_message(s@),
            HexOutcome::Aborts => false,
        },
{
    if let Some(c) = short_hex_color(s) {
        return Ok(c);
    }
    match parse_hex_color(s) {
        Some(c) => Ok(c),
        None => {
            let mut m = string_of("hex: invalid hex color \"");
            m.append(s);
            m.append("\"");
            Err(m)
        },
    }
}

fn lenient_channel_exec(v: &Vec<char>, start: usize, a: usize) -> (r: u8)
    requires
        start <= v.len(),
        a <= 6,
    ensures
        r == lenient_channel(v@.subrange(start as int, v.len() as int), a as int),
{
    match byte_slice_range(v, start, a, a + 2) {
        None => 255,
        Some((i, j)) => match hex_byte_range(v, i, j) {
            Some(x) => x,
            None => 255,
        },
    }
}

/// The lenient reading of a hex colour used for text layers: red, green,
/// blue and alpha from bytes 0..2, 2..4, 4..6 and 6..8 after any leading
/// `#`s, each 255 where its bytes are missing or not hexadecimal.
pub fn parse_hex_color_lenient(s: &str) -> (r: [u8; 4])
    ensures
        r@ == spec_lenient_hex(s@),
{
    let v = str_chars(s);
    let start = skip_hashes(&v);
    let r = lenient_channel_exec(&v, start, 0);
    let g = lenient_channel_exec(&v, start, 2);
    let b = lenient_channel_exec(&v, start, 4);
    let a = lenient_channel_exec(&v, start, 6);
    let out = [r, g, b, a];
    assert(out@ =~= spec_lenient_hex(s@));
    out
}


/// The lenient reading of a hex colour as a colour value.
pub open spec fn spec_lenient_rgba(s: Seq<char>) -> Rgba8 {
    let h = strip_hashes(s);
    Rgba8 {
        r: lenient_channel(h, 0),
        g: lenient_channel(h, 2),
        b: lenient_channel(h, 4),
        a: lenient_channel(h, 6),
    }
}

/// `parse_hex_color_lenient` as a colour value.
pub fn lenient_rgba(s: &str) -> (c: Rgba8)
    ensures
        c == spec_lenient_rgba(s@),
{
    let a = parse_hex_color_lenient(s);
    Rgba8 { r: a[0], g: a[1], b: a[2], a: a[3] }
}

// ---------------------------------------------------------------------------
// The two readings agree
// ---------------------------------------------------------------------------

proof fn lemma_bytes_within(s: Seq<char>, n: int)
    ensures
        chars_for_bytes(s, n) is Some ==> n <= utf8_len(s),
    decreases s.len(),
{
    if n != 0 && n >= 0 && s.len() > 0 && char_width(s[0]) <= n {
        lemma_bytes_within(s.drop_first(), n - char_width(s[0]));
        lemma_utf8_len_first(s);
    }
}

/// Where the strict reading accepts a colour, the lenient reading gives the
/// same four channels.
pub proof fn lemma_strict_agrees_with_lenient(s: Seq<char>)
    ensures
        spec_hex_color(s) matches HexOutcome::Color(c) ==> spec_lenient_rgba(s) == c,
{
    let h = strip_hashes(s);
    lemma_bytes_within(h, 8);
}


// ---------------------------------------------------------------------------
// The written forms of a colour
// ---------------------------------------------------------------------------

/// Every character of `h` is a hexadecimal digit.
pub open spec fn all_hex_digits(h: Seq<char>) -> bool {
    forall|i: int| 0 <= i < h.len() ==> is_hex_digit(#[trigger] h[i])
}

/// The byte that two hexadecimal digits write, the first the high one.
pub open spec fn digit_pair(hi: char, lo: char) -> u8 {
    (16 * hex_value(hi) + hex_value(lo)) as u8
}

proof fn lemma_hex_digit_value(c: char)
    requires
        is_hex_digit(c),
    ensures
        0 <= hex_value(c) < 16,
        char_width(c) == 1,
{
}

proof fn lemma_hex_digits_bytes(h: Seq<char>, n: int)
    requires
        all_hex_digits(h),
        0 <= n <= h.len(),
    ensures
        chars_for_bytes(h, n) == Some(n),
        utf8_len(h) == h.len(),
    decreases h.len(),
{
    if h.len() > 0 {
        lemma_hex_digit_value(h[0]);
        assert(all_hex_digits(h.drop_first())) by {
            assert forall|i: int| 0 <= i < h.drop_first().len() implies is_hex_digit(
                #[trigger] h.drop_first()[i],
            ) by {
                assert(h.drop_first()[i] == h[i + 1]);
            }
        }
        if n > 0 {
            lemma_hex_digits_bytes(h.drop_first(), n - 1);
        } else {
            lemma_hex_digits_bytes(h.drop_first(), 0);
        }
        lemma_utf8_len_first(h);
    } else {
        assert(vstd::utf8::encode_utf8(h) =~= Seq::<u8>::empty());
    }
}

proof fn lemma_pair_channel(h: Seq<char>, a: int)
    requires
        all_hex_digits(h),
        0 <= a,
        a + 2 <= h.len(),
    ensures
        strict_channel(h, a) == HexOutcome::Color(
            (Rgba8 {
                r: digit_pair(h[a], h[a + 1]),
                g: digit_pair(h[a], h[a + 1]),
                b: digit_pair(h[a], h[a + 1]),
                a: digit_pair(h[a], h[a + 1]),
            }),
        ),
{
    lemma_hex_digits_bytes(h, a);
    lemma_hex_digits_bytes(h, a + 2);
    let t = h.subrange(a, a + 2);
    assert(t[0] == h[a] && t[1] == h[a + 1]);
}

proof fn lemma_strip_digits(h: Seq<char>)
    requires
        all_hex_digits(h),
    ensures
        strip_hashes(h) == h,
        strip_hashes(seq!['#'] + h) == h,
        strip_hashes(seq!['#', '#'] + h) == h,
{
    if h.len() > 0 {
        assert(is_hex_digit(h[0]));
    }
    let one = seq!['#'] + h;
    let two = seq!['#', '#'] + h;
    assert(one[0] == '#' && one.len() > 0);
    assert(one.drop_first() == h);
    assert(strip_hashes(one) == strip_hashes(h));
    assert(two[0] == '#' && two.len() > 0);
    assert(two.drop_first() == one);
    assert(strip_hashes(two) == strip_hashes(one));
}

/// Six hexadecimal digits, after any number of leading `#`s, are the colour
/// whose red, green and blue are the bytes that the first, second and third
/// pair of digits write, the first digit of a pair the high one; alpha is
/// opaque. Eight digits add the fourth pair as alpha.
pub proof fn law_hex_digit_pairs(h: Seq<char>)
    requires
        all_hex_digits(h),
        h.len() == 6 || h.len() == 8,
    ensures
        ({
            let c = Rgba8 {
                r: digit_pair(h[0], h[1]),
                g: digit_pair(h[2], h[3]),
                b: digit_pair(h[4], h[5]),
                a: if h.len() == 6 {
                    255u8
                } else {
                    digit_pair(h[6], h[7])
                },
            };
            &&& spec_hex_color(h) == HexOutcome::Color(c)
            &&& spec_hex_color(seq!['#'] + h) == HexOutcome::Color(c)
            &&& spec_hex_color(seq!['#', '#'] + h) == HexOutcome::Color(c)
        }),
{
    lemma_strip_digits(h);
    lemma_hex_digits_bytes(h, 0);
    lemma_pair_channel(h, 0);
    lemma_pair_channel(h, 2);
    lemma_pair_channel(h, 4);
    if h.len() == 8 {
        lemma_pair_channel(h, 6);
    } else {
        lemma_hex_digits_bytes(h, 6);
    }
}

/// The short form `#RGB` is `#RRGGBB` with each digit written twice.
pub proof fn law_short_hex_doubles(r: char, g: char, b: char)
    requires
        is_hex_digit(r),
        is_hex_digit(g),
        is_hex_digit(b),
    ensures
        spec_dsl_hex(seq!['#', r, g, b]) == spec_hex_color(seq!['#', r, r, g, g, b, b]),
        spec_dsl_hex(seq![r, g, b]) == spec_hex_color(seq![r, r, g, g, b, b]),
{
    let h = seq![r, g, b];
    let d = seq![r, r, g, g, b, b];
    assert(all_hex_digits(h));
    assert(all_hex_digits(d));
    lemma_strip_digits(h);
    assert(seq!['#', r, g, b] == seq!['#'] + h);
    assert(seq!['#', r, r, g, g, b, b] == seq!['#'] + d);
    law_hex_digit_pairs(d);
    lemma_hex_digit_value(r);
    lemma_hex_digit_value(g);
    lemma_hex_digit_value(b);
}

/// Eight hexadecimal digits read leniently give the colour of their four
/// pairs, high digit first: red, green, blue, alpha.
pub proof fn law_lenient_reads_digit_pairs(h: Seq<char>)
    requires
        all_hex_digits(h),
        h.len() == 8,
    ensures
        spec_lenient_rgba(h) == (Rgba8 {
            r: digit_pair(h[0], h[1]),
            g: digit_pair(h[2], h[3]),
            b: digit_pair(h[4], h[5]),
            a: digit_pair(h[6], h[7]),
        }),
{
    law_hex_digit_pairs(h);
    lemma_strict_agrees_with_lenient(h);
}

} // verus!
