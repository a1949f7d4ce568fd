//! Character-level helpers shared by the wire-format parser, the layout
//! scanner and the colour parsers: whitespace trimming, decimal integers in
//! the grammar of the standard library's `FromStr`, the float literal grammar
//! and the UTF-8 length of character sequences.
use vstd::prelude::*;
use vstd::string::StringExecFns;
use vstd::string::StrSliceExecFns;

verus! {

// ---------------------------------------------------------------------------
// Characters and strings
// ---------------------------------------------------------------------------

/// The characters of `s`, in order.
pub fn str_chars(s: &str) -> (v: Vec<char>)
    ensures
        v@ == s@,
{
    broadcast use vstd::string::group_string_axioms;

    let mut v: Vec<char> = Vec::new();
    for c in it: s.chars()
        invariant
            v@ == it.seq().take(it.index() as int),
            it.seq() == s@,
    {
        v.push(c);
    }
    v
}

/// Appends one character to a string (`String::push`).
#[verifier::external_body]
pub(crate) fn push_char(s: &mut String, c: char)
    ensures
        final(s)@ == old(s)@.push(c),
{
    s.push(c);
}

/// A new string holding `v[lo..hi]`.
pub fn string_from_range(v: &Vec<char>, lo: usize, hi: usize) -> (s: String)
    requires
        lo <= hi <= v.len(),
    ensures
        s@ == v@.subrange(lo as int, hi as int),
{
    let mut s = String::new();
    let mut i = lo;
    while i < hi
        invariant
            lo <= i <= hi <= v.len(),
            s@ == v@.subrange(lo as int, i as int),
        decreases hi - i,
    {
        push_char(&mut s, v[i]);
        assert(v@.subrange(lo as int, i + 1) == v@.subrange(lo as int, i as int).push(v@[i as int]));
        i += 1;
    }
    s
}

/// A new string holding the characters of `v`.
pub fn string_from_chars(v: &Vec<char>) -> (s: String)
    ensures
        s@ == v@,
{
    let s = string_from_range(v, 0, v.len());
    assert(v@.subrange(0, v@.len() as int) == v@);
    s
}

/// A new string equal to `s`.
pub fn string_of(s: &str) -> (r: String)
    ensures
        r@ == s@,
{
    let mut r = String::new();
    r.append(s);
    r
}

/// Does `v[lo..hi]` equal `word`?
pub fn range_equals(v: &Vec<char>, lo: usize, hi: usize, word: &str) -> (b: bool)
    requires
        lo <= hi <= v.len(),
    ensures
        b == (v@.subrange(lo as int, hi as int) == word@),
{
    let w = str_chars(word);
    if hi - lo != w.len() {
        assert(v@.subrange(lo as int, hi as int).len() != word@.len());
        return false;
    }
    let mut i: usize = 0;
    while i < w.len()
        invariant
            lo <= hi <= v.len(),
            hi - lo == w.len(),
            w@ == word@,
            0 <= i <= w.len(),
            forall|j: int| 0 <= j < i ==> v@[lo + j] == w@[j],
        decreases w.len() - i,
    {
        if v[lo + i] != w[i] {
            assert(v@.subrange(lo as int, hi as int)[i as int] != word@[i as int]);
            return false;
        }
        i += 1;
    }
    assert(v@.subrange(lo as int, hi as int) =~= word@);
    true
}

/// Does the string equal `word`?
pub fn str_equals(s: &str, word: &str) -> (b: bool)
    ensures
        b == (s@ == word@),
{
    let v = str_chars(s);
    let b = range_equals(&v, 0, v.len(), word);
    assert(v@.subrange(0, v@.len() as int) == v@);
    b
}

// ---------------------------------------------------------------------------
// Whitespace and trimming
// ---------------------------------------------------------------------------

/// The Unicode `White_Space` property, which `char::is_whitespace` tests.
pub open spec fn is_white_space(c: char) -> bool {
    ||| '\u{9}' <= c <= '\u{d}'
    ||| c == ' '
    ||| c == '\u{85}'
    ||| c == '\u{a0}'
    ||| c == '\u{1680}'
    ||| '\u{2000}' <= c <= '\u{200a}'
    ||| c == '\u{2028}'
    ||| c == '\u{2029}'
    ||| c == '\u{202f}'
    ||| c == '\u{205f}'
    ||| c == '\u{3000}'
}

pub fn is_whitespace(c: char) -> (b: bool)
    ensures
        b == is_white_space(c),
{
    ('\u{9}' <= c && c <= '\u{d}') || c == ' ' || c == '\u{85}' || c == '\u{a0}' || c
        == '\u{1680}' || ('\u{2000}' <= c && c <= '\u{200a}') || c == '\u{2028}' || c
        == '\u{2029}' || c == '\u{202f}' || c == '\u{205f}' || c == '\u{3000}'
}

/// `s` without its leading white space.
pub open spec fn trim_start(s: Seq<char>) -> Seq<char>
    decreases s.len(),
{
    if s.len() > 0 && is_white_space(s[0]) {
        trim_start(s.drop_first())
    } else {
        s
    }
}

/// `s` without its trailing white space.
pub open spec fn trim_end(s: Seq<char>) -> Seq<char>
    decreases s.len(),
{
    if s.len() > 0 && is_white_space(s.last()) {
        trim_end(s.drop_last())
    } else {
        s
    }
}

/// `s` without leading and trailing white space (`str::trim`).
pub open spec fn trim(s: Seq<char>) -> Seq<char> {
    trim_end(trim_start(s))
}

/// Every character of `s` is white space.
pub open spec fn all_white(s: Seq<char>) -> bool {
    forall|i: int| 0 <= i < s.len() ==> is_white_space(#[trigger] s[i])
}

/// `s` neither begins nor ends with white space.
pub open spec fn no_edge_white(s: Seq<char>) -> bool {
    s.len() > 0 ==> !is_white_space(s[0]) && !is_white_space(s.last())
}

proof fn lemma_trim_start_shape(s: Seq<char>)
    ensures
        trim_start(s).len() <= s.len(),
        s.skip(s.len() - trim_start(s).len()) == trim_start(s),
        all_white(s.take(s.len() - trim_start(s).len())),
        trim_start(s).len() > 0 ==> !is_white_space(trim_start(s)[0]),
    decreases s.len(),
{
    if s.len() > 0 && is_white_space(s[0]) {
        let t = s.drop_first();
        lemma_trim_start_shape(t);
        let k = s.len() - trim_start(s).len();
        assert(s.skip(k) == t.skip(k - 1));
        assert forall|i: int| 0 <= i < k implies is_white_space(#[trigger] s.take(k)[i]) by {
            if i > 0 {
                assert(s.take(k)[i] == t.take(k - 1)[i - 1]);
            }
        }
    } else {
        assert(s.skip(0) == s);
    }
}

proof fn lemma_trim_end_shape(s: Seq<char>)
    ensures
        trim_end(s).len() <= s.len(),
        s.take(trim_end(s).len() as int) == trim_end(s),
        all_white(s.skip(trim_end(s).len() as int)),
        trim_end(s).len() > 0 ==> !is_white_space(trim_end(s).last()),
    decreases s.len(),
{
    if s.len() > 0 && is_white_space(s.last()) {
        let t = s.drop_last();
        lemma_trim_end_shape(t);
        let k = trim_end(s).len() as int;
        assert(s.take(k) == t.take(k));
        assert forall|i: int| 0 <= i < s.len() - k implies is_white_space(#[trigger] s.skip(k)[i]) by {
            if k + i < s.len() - 1 {
                assert(s.skip(k)[i] == t.skip(k)[i]);
            }
        }
    } else {
        assert(s.take(s.len() as int) == s);
    }
}

/// `trim` takes away exactly the white space at both ends of `s`: what is
/// left neither begins nor ends with white space, and `s` is white space,
/// then what is left, then white space.
pub proof fn law_trim_shape(s: Seq<char>)
    ensures
        no_edge_white(trim(s)),
        exists|a: int, b: int|
            0 <= a <= b <= s.len() && s.subrange(a, b) == trim(s) && all_white(s.take(a))
                && all_white(s.skip(b)),
{
    let t = trim_start(s);
    lemma_trim_start_shape(s);
    lemma_trim_end_shape(t);
    let a = s.len() - t.len();
    let b = a + trim_end(t).len();
    assert(s.subrange(a, b) == t.take(trim_end(t).len() as int));
    assert forall|i: int| 0 <= i < s.len() - b implies is_white_space(#[trigger] s.skip(b)[i]) by {
        assert(s.skip(b)[i] == t.skip(trim_end(t).len() as int)[i]);
    }
    assert(all_white(s.skip(b)));
    if trim(s).len() > 0 {
        assert(trim(s)[0] == t[0]);
    }
}

proof fn lemma_trim_start_at(s: Seq<char>, lo: int, i: int, hi: int)
    requires
        0 <= lo <= i <= hi <= s.len(),
        forall|j: int| lo <= j < i ==> is_white_space(s[j]),
    ensures
        trim_start(s.subrange(lo, hi)) == trim_start(s.subrange(i, hi)),
    decreases i - lo,
{
    if lo < i {
        assert(s.subrange(lo, hi).drop_first() =~= s.subrange(lo + 1, hi));
        lemma_trim_start_at(s, lo + 1, i, hi);
    }
}

proof fn lemma_trim_end_at(s: Seq<char>, lo: int, i: int, hi: int)
    requires
        0 <= lo <= i <= hi <= s.len(),
        forall|j: int| i <= j < hi ==> is_white_space(s[j]),
    ensures
        trim_end(s.subrange(lo, hi)) == trim_end(s.subrange(lo, i)),
    decreases hi - i,
{
    if i < hi {
        assert(s.subrange(lo, hi).drop_last() =~= s.subrange(lo, hi - 1));
        lemma_trim_end_at(s, lo, i, hi - 1);
    }
}

/// The bounds of `v[lo..hi]` with its surrounding white space removed.
pub fn trim_bounds(v: &Vec<char>, lo: usize, hi: usize) -> (r: (usize, usize))
    requires
        lo <= hi <= v.len(),
    ensures
        lo <= r.0 <= r.1 <= hi,
        v@.subrange(r.0 as int, r.1 as int) == trim(v@.subrange(lo as int, hi as int)),
{
    let mut a = lo;
    while a < hi && is_whitespace(v[a])
        invariant
            lo <= a <= hi <= v.len(),
            forall|j: int| lo <= j < a ==> is_white_space(v@[j]),
        decreases hi - a,
    {
        a += 1;
    }
    proof {
        lemma_trim_start_at(v@, lo as int, a as int, hi as int);
        if a < hi {
            assert(!is_white_space(v@.subrange(a as int, hi as int)[0]));
        }
        assert(trim_start(v@.subrange(a as int, hi as int)) == v@.subrange(a as int, hi as int));
    }
    let mut b = hi;
    while b > a && is_whitespace(v[b - 1])
        invariant
            lo <= a <= b <= hi <= v.len(),
            forall|j: int| b <= j < hi ==> is_white_space(v@[j]),
        decreases b - a,
    {
        b -= 1;
    }
    proof {
        lemma_trim_end_at(v@, a as int, b as int, hi as int);
        if a < b {
            assert(!is_white_space(v@.subrange(a as int, b as int).last()));
        }
        assert(trim_end(v@.subrange(a as int, b as int)) == v@.subrange(a as int, b as int));
    }
    (a, b)
}

// ---------------------------------------------------------------------------
// Decimal integers (`FromStr` for the primitive integer types)
// ---------------------------------------------------------------------------

pub open spec fn is_digit(c: char) -> bool {
    '0' <= c <= '9'
}

pub open spec fn all_digits(s: Seq<char>) -> bool {
    forall|i: int| 0 <= i < s.len() ==> is_digit(#[trigger] s[i])
}

pub open spec fn digit_value(c: char) -> int {
    c as int - '0' as int
}

/// The number that a run of decimal digits denotes.
pub open spec fn digits_value(s: Seq<char>) -> int
    decreases s.len(),
{
    if s.len() == 0 {
        0
    } else {
        digits_value(s.drop_last()) * 10 + digit_value(s.last())
    }
}

/// The decimal digits of `n`, most significant first, without leading
/// zeros (`"0"` for zero).
pub open spec fn decimal(n: nat) -> Seq<char>
    decreases n,
{
    if n < 10 {
        seq![(n + 48) as char]
    } else {
        decimal(n / 10).push(((n % 10) + 48) as char)
    }
}

/// Appends `n` in decimal to `out`.
pub fn push_decimal(out: &mut String, n: usize)
    ensures
        final(out)@ == old(out)@ + decimal(n as nat),
    decreases n,
{
    if n >= 10 {
        push_decimal(out, n / 10);
    }
    let d = (n % 10) as u8;
    let c = (d + 48) as char;
    push_char(out, c);
    proof {
        if n >= 10 {
            assert(decimal(n as nat) == decimal((n / 10) as nat).push(c));
        } else {
            assert(decimal(n as nat) == seq![c]);
        }
    }
}

/// What `s.parse::<T>()` gives for an integer type `T` whose values are the
/// range `min..=max`: an optional `+` (or `-` where `T` is signed) followed by
/// at least one decimal digit, with a value inside the range. A lone sign,
/// an empty string or any other character is refused.
pub open spec fn parse_integer(s: Seq<char>, min: int, max: int) -> Option<int> {
    if s.len() == 0 {
        None
    } else if (s[0] == '+' || s[0] == '-') && s.len() == 1 {
        None
    } else {
        let negative = s[0] == '-' && min < 0;
        let digits = if s[0] == '+' || negative {
            s.drop_first()
        } else {
            s
        };
        let value = if negative {
            -digits_value(digits)
        } else {
            digits_value(digits)
        };
        if all_digits(digits) && min <= value <= max {
            Some(value)
        } else {
            None
        }
    }
}

/// What `s.trim().parse::<T>()` gives for an integer type with values `min..=max`.
pub open spec fn parse_trimmed_integer(s: Seq<char>, min: int, max: int) -> Option<int> {
    parse_integer(trim(s), min, max)
}

pub proof fn lemma_digits_value_nonneg(s: Seq<char>)
    requires
        all_digits(s),
    ensures
        digits_value(s) >= 0,
    decreases s.len(),
{
    if s.len() > 0 {
        assert(all_digits(s.drop_last()));
        lemma_digits_value_nonneg(s.drop_last());
    }
}

/// The cap under which digit runs are accumulated exactly.
pub open spec fn digit_cap() -> int {
    0x2_0000_0000_0000_0000
}

/// Value of the digit run `v[lo..hi]`, capped at `digit_cap()`, or `None` if
/// some character is not a digit.
fn capped_digits(v: &Vec<char>, lo: usize, hi: usize) -> (r: Option<u128>)
    requires
        lo <= hi <= v.len(),
    ensures
        r is Some <==> all_digits(v@.subrange(lo as int, hi as int)),
        r matches Some(x) ==> x as int == if digits_value(v@.subrange(lo as int, hi as int))
            >= digit_cap() {
            digit_cap()
        } else {
            digits_value(v@.subrange(lo as int, hi as int))
        },
{
    let cap: u128 = 0x2_0000_0000_0000_0000;
    let mut acc: u128 = 0;
    let mut i = lo;
    while i < hi
        invariant
            lo <= i <= hi <= v.len(),
            cap == digit_cap(),
            all_digits(v@.subrange(lo as int, i as int)),
            acc as int == if digits_value(v@.subrange(lo as int, i as int)) >= digit_cap() {
                digit_cap()
            } else {
                digits_value(v@.subrange(lo as int, i as int))
            },
        decreases hi - i,
    {
        let c = v[i];
        if !('0' <= c && c <= '9') {
            assert(!is_digit(v@.subrange(lo as int, hi as int)[i - lo]));
            return None;
        }
        let d = (c as u32 - '0' as u32) as u128;
        let ghost prev = v@.subrange(lo as int, i as int);
        let ghost next = v@.subrange(lo as int, i + 1);
        assert(next.drop_last() == prev);
        assert(all_digits(next));
        proof {
            lemma_digits_value_nonneg(prev);
        }
        if acc >= cap {
            acc = cap;
        } else {
            acc = acc * 10 + d;
            if acc >= cap {
                acc = cap;
            }
        }
        i += 1;
    }
    Some(acc)
}

/// `v[lo..hi].trim().parse()` for an integer type with values `min..=max`,
/// where `max < 2^64` and `-2^64 < min`.
pub fn parse_integer_range(v: &Vec<char>, lo: usize, hi: usize, min: i128, max: i128) -> (r:
    Option<i128>)
    requires
        lo <= hi <= v.len(),
        -0x1_0000_0000_0000_0000 <= min <= 0 <= max <= 0x1_0000_0000_0000_0000,
    ensures
        r matches Some(x) ==> parse_trimmed_integer(
            v@.subrange(lo as int, hi as int),
            min as int,
            max as int,
        ) == Some(x as int),
        r is None ==> parse_trimmed_integer(v@.subrange(lo as int, hi as int), min as int, max as int)
            is None,
{
    let (a, b) = trim_bounds(v, lo, hi);
    let ghost s = v@.subrange(a as int, b as int);
    if a == b {
        return None;
    }
    let first = v[a];
    assert(s[0] == first);
    if (first == '+' || first == '-') && b - a == 1 {
        return None;
    }
    let negative = first == '-' && min < 0;
    let start = if first == '+' || negative {
        a + 1
    } else {
        a
    };
    assert(v@.subrange(start as int, b as int) == if first == '+' || negative {
        s.drop_first()
    } else {
        s
    });
    match capped_digits(v, start, b) {
        None => None,
        Some(m) => {
            proof {
                lemma_digits_value_nonneg(v@.subrange(start as int, b as int));
            }
            let value: i128 = if negative {
                -(m as i128)
            } else {
                m as i128
            };
            if min <= value && value <= max {
                Some(value)
            } else {
                None
            }
        },
    }
}

/// `v[lo..hi].trim().parse::<i32>()`.
pub fn parse_i32_range(v: &Vec<char>, lo: usize, hi: usize) -> (r: Option<i32>)
    requires
        lo <= hi <= v.len(),
    ensures
        r matches Some(x) ==> parse_trimmed_integer(
            v@.subrange(lo as int, hi as int),
            i32::MIN as int,
            i32::MAX as int,
        ) == Some(x as int),
        r is None ==> parse_trimmed_integer(
            v@.subrange(lo as int, hi as int),
            i32::MIN as int,
            i32::MAX as int,
        ) is None,
{
    match parse_integer_range(v, lo, hi, i32::MIN as i128, i32::MAX as i128) {
        Some(x) => Some(x as i32),
        None => None,
    }
}

/// `v[lo..hi].trim().parse::<u16>()`.
pub fn parse_u16_range(v: &Vec<char>, lo: usize, hi: usize) -> (r: Option<u16>)
    requires
        lo <= hi <= v.len(),
    ensures
        r matches Some(x) ==> parse_trimmed_integer(
            v@.subrange(lo as int, hi as int),
            0,
            u16::MAX as int,
        ) == Some(x as int),
        r is None ==> parse_trimmed_integer(v@.subrange(lo as int, hi as int), 0, u16::MAX as int)
            is None,
{
    match parse_integer_range(v, lo, hi, 0, u16::MAX as i128) {
        Some(x) => Some(x as u16),
        None => None,
    }
}

/// `v[lo..hi].trim().parse::<usize>()`.
pub fn parse_usize_range(v: &Vec<char>, lo: usize, hi: usize) -> (r: Option<usize>)
    requires
        lo <= hi <= v.len(),
    ensures
        r matches Some(x) ==> parse_trimmed_integer(
            v@.subrange(lo as int, hi as int),
            0,
            usize::MAX as int,
        ) == Some(x as int),
        r is None ==> parse_trimmed_integer(
            v@.subrange(lo as int, hi as int),
            0,
            usize::MAX as int,
        ) is None,
{
    match parse_integer_range(v, lo, hi, 0, usize::MAX as i128) {
        Some(x) => Some(x as usize),
        None => None,
    }
}


// ---------------------------------------------------------------------------
// Float literals (`FromStr` for `f32`)
// ---------------------------------------------------------------------------

pub open spec fn ascii_lower(c: char) -> char {
    if 'A' <= c <= 'Z' {
        ((c as u32) + 32) as char
    } else {
        c
    }
}

/// `s` equals the lower-case ASCII word `w` up to ASCII case.
pub open spec fn eq_ignore_case(s: Seq<char>, w: Seq<char>) -> bool {
    s.len() == w.len() && forall|i: int| 0 <= i < s.len() ==> ascii_lower(#[trigger] s[i]) == w[i]
}

pub open spec fn is_exp_mark(c: char) -> bool {
    c == 'e' || c == 'E'
}

pub open spec fn is_sign(c: char) -> bool {
    c == '+' || c == '-'
}

/// `Digit+ | Digit+ '.' Digit* | Digit* '.' Digit+`
pub open spec fn mantissa_ok(m: Seq<char>) -> bool {
    ||| (m.len() > 0 && all_digits(m))
    ||| exists|d: int|
        0 <= d < m.len() && m[d] == '.' && m.len() > 1 && all_digits(m.take(d)) && all_digits(
            #[trigger] m.skip(d + 1),
        )
}

/// `('e' | 'E') Sign? Digit+`, or nothing.
pub open spec fn exponent_ok(x: Seq<char>) -> bool {
    x.len() == 0 || (is_exp_mark(x[0]) && {
        let y = x.drop_first();
        let z = if y.len() > 0 && is_sign(y[0]) {
            y.drop_first()
        } else {
            y
        };
        z.len() > 0 && all_digits(z)
    })
}

/// `k` is where the exponent of `s` starts: the first exponent mark, or the end.
pub open spec fn exponent_start(s: Seq<char>, k: int) -> bool {
    0 <= k <= s.len() && (forall|i: int| 0 <= i < k ==> !is_exp_mark(#[trigger] s[i])) && (k
        == s.len() || is_exp_mark(s[k]))
}

/// A decimal number with an optional exponent.
pub open spec fn decimal_number(s: Seq<char>) -> bool {
    exists|k: int|
        #![trigger s.take(k)]
        exponent_start(s, k) && mantissa_ok(s.take(k)) && exponent_ok(s.skip(k))
}

/// The grammar that `str::parse::<f32>` accepts (it succeeds on exactly these
/// strings): an optional sign, then `inf`, `infinity` or `nan` in any ASCII
/// case, or a decimal number with an optional exponent.
pub open spec fn float_literal(t: Seq<char>) -> bool {
    let body = if t.len() > 0 && is_sign(t[0]) {
        t.drop_first()
    } else {
        t
    };
    ||| eq_ignore_case(body, seq!['i', 'n', 'f'])
    ||| eq_ignore_case(body, seq!['i', 'n', 'f', 'i', 'n', 'i', 't', 'y'])
    ||| eq_ignore_case(body, seq!['n', 'a', 'n'])
    ||| decimal_number(body)
}

fn lower(c: char) -> (r: char)
    ensures
        r == ascii_lower(c),
{
    if 'A' <= c && c <= 'Z' {
        ((c as u8) + 32) as char
    } else {
        c
    }
}

/// Does `v[lo..hi]` equal the lower-case word `w` up to ASCII case?
fn range_eq_ignore_case(v: &Vec<char>, lo: usize, hi: usize, w: &Vec<char>) -> (b: bool)
    requires
        lo <= hi <= v.len(),
    ensures
        b == eq_ignore_case(v@.subrange(lo as int, hi as int), w@),
{
    if hi - lo != w.len() {
        return false;
    }
    let mut i: usize = 0;
    while i < w.len()
        invariant
            lo <= hi <= v.len(),
            hi - lo == w.len(),
            0 <= i <= w.len(),
            forall|j: int| 0 <= j < i ==> ascii_lower(v@[lo + j]) == w@[j],
        decreases w.len() - i,
    {
        if lower(v[lo + i]) != w[i] {
            assert(ascii_lower(v@.subrange(lo as int, hi as int)[i as int]) != w@[i as int]);
            return false;
        }
        i += 1;
    }
    true
}

fn all_digits_range(v: &Vec<char>, lo: usize, hi: usize) -> (b: bool)
    requires
        lo <= hi <= v.len(),
    ensures
        b == all_digits(v@.subrange(lo as int, hi as int)),
{
    let mut i = lo;
    while i < hi
        invariant
            lo <= i <= hi <= v.len(),
            all_digits(v@.subrange(lo as int, i as int)),
        decreases hi - i,
    {
        if !('0' <= v[i] && v[i] <= '9') {
            assert(!is_digit(v@.subrange(lo as int, hi as int)[i - lo]));
            return false;
        }
        assert(all_digits(v@.subrange(lo as int, i + 1)));
        i += 1;
    }
    true
}

fn mantissa_range(v: &Vec<char>, lo: usize, hi: usize) -> (b: bool)
    requires
        lo <= hi <= v.len(),
    ensures
        b == mantissa_ok(v@.subrange(lo as int, hi as int)),
{
    let ghost m = v@.subrange(lo as int, hi as int);
    let mut d = lo;
    while d < hi && '0' <= v[d] && v[d] <= '9'
        invariant
            lo <= d <= hi <= v.len(),
            all_digits(v@.subrange(lo as int, d as int)),
        decreases hi - d,
    {
        assert(all_digits(v@.subrange(lo as int, d + 1)));
        d += 1;
    }
    assert(m.take(d - lo) == v@.subrange(lo as int, d as int));
    if d == hi {
        assert(m == v@.subrange(lo as int, d as int));
        if hi > lo {
            return true;
        }
        return false;
    }
    if v[d] != '.' {
        proof {
            assert(!is_digit(m[d - lo]));
            assert(!(m.len() > 0 && all_digits(m)));
            assert forall|e: int|
                0 <= e < m.len() && m[e] == '.' && m.len() > 1 && all_digits(m.take(e))
                    implies !all_digits(#[trigger] m.skip(e + 1)) by {
                if e < d - lo {
                    assert(m.take(e) == v@.subrange(lo as int, d as int).take(e));
                    assert(is_digit(m[e]));
                } else if e > d - lo {
                    assert(m.take(e)[d - lo] == m[d - lo]);
                } else {
                }
            }
        }
        return false;
    }
    let rest = all_digits_range(v, d + 1, hi);
    proof {
        assert(m.skip(d - lo + 1) == v@.subrange(d + 1, hi as int));
        assert(!(m.len() > 0 && all_digits(m))) by {
            assert(!is_digit(m[d - lo]));
        }
        if rest && hi - lo > 1 {
            assert(mantissa_ok(m));
        }
        if !(rest && hi - lo > 1) {
            assert forall|e: int|
                0 <= e < m.len() && m[e] == '.' && m.len() > 1 && all_digits(m.take(e))
                    implies !all_digits(#[trigger] m.skip(e + 1)) by {
                if e < d - lo {
                    assert(m.take(e) == v@.subrange(lo as int, d as int).take(e));
                    assert(is_digit(m[e]));
                } else if e > d - lo {
                    assert(m.take(e)[d - lo] == m[d - lo]);
                } else {
                }
            }
        }
    }
    rest && hi - lo > 1
}

fn exponent_range(v: &Vec<char>, lo: usize, hi: usize) -> (b: bool)
    requires
        lo <= hi <= v.len(),
    ensures
        b == exponent_ok(v@.subrange(lo as int, hi as int)),
{
    let ghost x = v@.subrange(lo as int, hi as int);
    if lo == hi {
        return true;
    }
    if !(v[lo] == 'e' || v[lo] == 'E') {
        assert(!is_exp_mark(x[0]));
        return false;
    }
    let mut start = lo + 1;
    assert(x.drop_first() == v@.subrange(lo + 1, hi as int));
    if start < hi && (v[start] == '+' || v[start] == '-') {
        start += 1;
        assert(x.drop_first().drop_first() == v@.subrange(start as int, hi as int));
    }
    if start == hi {
        return false;
    }
    all_digits_range(v, start, hi)
}

fn decimal_range(v: &Vec<char>, lo: usize, hi: usize) -> (b: bool)
    requires
        lo <= hi <= v.len(),
    ensures
        b == decimal_number(v@.subrange(lo as int, hi as int)),
{
    let ghost s = v@.subrange(lo as int, hi as int);
    let mut k = lo;
    while k < hi && !(v[k] == 'e' || v[k] == 'E')
        invariant
            lo <= k <= hi <= v.len(),
            forall|i: int| lo <= i < k ==> !is_exp_mark(#[trigger] v@[i]),
        decreases hi - k,
    {
        k += 1;
    }
    let ghost kk: int = (k - lo) as int;
    assert(exponent_start(s, kk));
    assert(s.take(kk) == v@.subrange(lo as int, k as int));
    assert(s.skip(kk) == v@.subrange(k as int, hi as int));
    let m = mantissa_range(v, lo, k);
    let e = exponent_range(v, k, hi);
    proof {
        if m && e {
            assert(decimal_number(s));
        } else {
            assert forall|j: int|
                exponent_start(s, j) implies !(mantissa_ok(#[trigger] s.take(j)) && exponent_ok(
                s.skip(j),
            )) by {
                if j < kk {
                    assert(is_exp_mark(s[j]));
                } else if j > kk {
                    assert(is_exp_mark(s[kk]));
                }
            }
        }
    }
    m && e
}

/// Is `v[lo..hi]` (already trimmed) a literal that `parse::<f32>` accepts?
pub fn float_literal_range(v: &Vec<char>, lo: usize, hi: usize) -> (b: bool)
    requires
        lo <= hi <= v.len(),
    ensures
        b == float_literal(v@.subrange(lo as int, hi as int)),
{
    let ghost t = v@.subrange(lo as int, hi as int);
    let start = if lo < hi && (v[lo] == '+' || v[lo] == '-') {
        lo + 1
    } else {
        lo
    };
    assert(v@.subrange(start as int, hi as int) == if t.len() > 0 && is_sign(t[0]) {
        t.drop_first()
    } else {
        t
    });
    let inf = str_chars("inf");
    let infinity = str_chars("infinity");
    let nan = str_chars("nan");
    proof {
        reveal_strlit("inf");
        reveal_strlit("infinity");
        reveal_strlit("nan");
        assert(inf@ == seq!['i', 'n', 'f']);
        assert(infinity@ == seq!['i', 'n', 'f', 'i', 'n', 'i', 't', 'y']);
        assert(nan@ == seq!['n', 'a', 'n']);
    }
    range_eq_ignore_case(v, start, hi, &inf) || range_eq_ignore_case(v, start, hi, &infinity)
        || range_eq_ignore_case(v, start, hi, &nan) || decimal_range(v, start, hi)
}


// ---------------------------------------------------------------------------
// UTF-8 lengths
// ---------------------------------------------------------------------------

/// Number of bytes in the UTF-8 encoding of `s` (what `str::len` reports).
pub open spec fn utf8_len(s: Seq<char>) -> nat {
    vstd::utf8::encode_utf8(s).len()
}

/// Number of bytes in the UTF-8 encoding of `c` (`char::len_utf8`).
pub open spec fn char_width(c: char) -> nat {
    vstd::utf8::encode_scalar(c as u32).len()
}

pub proof fn lemma_encode_concat(a: Seq<char>, b: Seq<char>)
    ensures
        vstd::utf8::encode_utf8(a + b) == vstd::utf8::encode_utf8(a) + vstd::utf8::encode_utf8(b),
    decreases a.len(),
{
    if a.len() == 0 {
        assert(a + b =~= b);
        assert(vstd::utf8::encode_utf8(a) =~= Seq::<u8>::empty());
        assert(Seq::<u8>::empty() + vstd::utf8::encode_utf8(b) =~= vstd::utf8::encode_utf8(b));
    } else {
        assert((a + b).drop_first() =~= a.drop_first() + b);
        assert((a + b)[0] == a[0]);
        lemma_encode_concat(a.drop_first(), b);
        assert(vstd::utf8::encode_utf8(a + b) =~= vstd::utf8::encode_utf8(a)
            + vstd::utf8::encode_utf8(b));
    }
}

pub proof fn lemma_utf8_len_concat(a: Seq<char>, b: Seq<char>)
    ensures
        utf8_len(a + b) == utf8_len(a) + utf8_len(b),
{
    lemma_encode_concat(a, b);
}

pub proof fn lemma_utf8_len_push(a: Seq<char>, c: char)
    ensures
        utf8_len(a.push(c)) == utf8_len(a) + char_width(c),
{
    lemma_encode_concat(a, seq![c]);
    assert(a.push(c) =~= a + seq![c]);
    let one = seq![c];
    assert(one.drop_first() =~= Seq::<char>::empty());
    assert(vstd::utf8::encode_utf8(one.drop_first()) =~= Seq::<u8>::empty());
    assert(vstd::utf8::encode_utf8(one) == vstd::utf8::encode_scalar(one[0] as u32)
        + vstd::utf8::encode_utf8(one.drop_first()));
    assert(vstd::utf8::encode_utf8(one) =~= vstd::utf8::encode_scalar(c as u32));
}

pub proof fn lemma_utf8_len_split(s: Seq<char>, k: int)
    requires
        0 <= k <= s.len(),
    ensures
        utf8_len(s) == utf8_len(s.take(k)) + utf8_len(s.skip(k)),
{
    lemma_utf8_len_concat(s.take(k), s.skip(k));
    assert(s.take(k) + s.skip(k) =~= s);
}

/// The bytes of a non-empty sequence: those of its first character, then
/// those of the rest.
pub proof fn lemma_utf8_len_first(s: Seq<char>)
    requires
        s.len() > 0,
    ensures
        utf8_len(s) == char_width(s[0]) + utf8_len(s.drop_first()),
{
    lemma_utf8_len_split(s, 1);
    assert(s.take(1) == seq![s[0]]);
    lemma_utf8_len_push(Seq::<char>::empty(), s[0]);
    assert(Seq::<char>::empty().push(s[0]) == seq![s[0]]);
    assert(vstd::utf8::encode_utf8(Seq::<char>::empty()) =~= Seq::<u8>::empty());
    assert(s.skip(1) == s.drop_first());
}

pub proof fn lemma_utf8_len_ge(s: Seq<char>)
    ensures
        utf8_len(s) >= s.len(),
    decreases s.len(),
{
    if s.len() > 0 {
        lemma_utf8_len_split(s, 1);
        lemma_utf8_len_ge(s.skip(1));
        assert(s.take(1) == seq![s[0]]);
        assert(vstd::utf8::encode_utf8(s.take(1)).len() >= 1) by {
            assert(s.take(1).drop_first() =~= Seq::<char>::empty());
        }
    }
}

/// `c.len_utf8()`.
pub fn len_utf8(c: char) -> (n: usize)
    ensures
        n == char_width(c),
        1 <= n <= 4,
{
    proof {
        vstd::utf8::char_is_scalar(c);
    }
    let u = c as u32;
    if u < 0x80 {
        1
    } else if u < 0x800 {
        2
    } else if u < 0x10000 {
        3
    } else {
        4
    }
}

/// The number of leading characters of `s` whose UTF-8 encoding takes
/// exactly `n` bytes; `None` when no prefix does (byte `n` falls inside a
/// character, or `s` is too short).
pub open spec fn chars_for_bytes(s: Seq<char>, n: int) -> Option<int>
    decreases s.len(),
{
    if n == 0 {
        Some(0)
    } else if n < 0 || s.len() == 0 {
        None
    } else if char_width(s[0]) > n {
        None
    } else {
        match chars_for_bytes(s.drop_first(), n - char_width(s[0])) {
            Some(k) => Some(k + 1),
            None => None,
        }
    }
}

pub proof fn lemma_chars_for_bytes_bound(s: Seq<char>, n: int)
    ensures
        chars_for_bytes(s, n) matches Some(k) ==> 0 <= k <= s.len(),
    decreases s.len(),
{
    if n != 0 && n >= 0 && s.len() > 0 && char_width(s[0]) <= n {
        lemma_chars_for_bytes_bound(s.drop_first(), n - char_width(s[0]));
    }
}

/// Index just past the first `len` bytes of `v[start..end]`, or `None`
/// where byte `len` falls inside a character or past the end.
pub fn prefix_for_bytes(v: &Vec<char>, start: usize, end: usize, len: usize) -> (r: Option<usize>)
    requires
        start <= end <= v.len(),
    ensures
        match chars_for_bytes(v@.subrange(start as int, end as int), len as int) {
            Some(k) => r == Some((start + k) as usize),
            None => r is None,
        },
{
    let ghost s = v@.subrange(start as int, end as int);
    let mut k: usize = 0;
    let mut acc: usize = 0;
    proof {
        assert(s.skip(0) == s);
    }
    while acc < len
        invariant
            start <= end <= v.len(),
            s == v@.subrange(start as int, end as int),
            0 <= k <= s.len(),
            acc <= len,
            chars_for_bytes(s, len as int) == match chars_for_bytes(
                s.skip(k as int),
                len - acc,
            ) {
                Some(j) => Some(j + k),
                None => None::<int>,
            },
        decreases len - acc,
    {
        if k == end - start {
            assert(s.skip(k as int).len() == 0);
            return None;
        }
        proof {
            assert(s.skip(k as int).drop_first() == s.skip(k + 1));
            assert(s.skip(k as int)[0] == s[k as int]);
        }
        let w = len_utf8(v[start + k]);
        if w > len - acc {
            return None;
        }
        acc += w;
        k += 1;
    }
    Some(start + k)
}

/// The number of UTF-8 bytes of `v[lo..hi]`.
pub fn count_utf8(v: &Vec<char>, lo: usize, hi: usize) -> (r: usize)
    requires
        lo <= hi <= v.len(),
        utf8_len(v@.subrange(lo as int, hi as int)) <= usize::MAX,
    ensures
        r == utf8_len(v@.subrange(lo as int, hi as int)),
{
    let ghost whole = v@.subrange(lo as int, hi as int);
    let mut acc: usize = 0;
    let mut i = lo;
    proof {
        assert(v@.subrange(lo as int, lo as int) =~= Seq::<char>::empty());
    }
    while i < hi
        invariant
            lo <= i <= hi <= v.len(),
            whole == v@.subrange(lo as int, hi as int),
            utf8_len(whole) <= usize::MAX,
            acc == utf8_len(v@.subrange(lo as int, i as int)),
        decreases hi - i,
    {
        proof {
            lemma_utf8_len_push(v@.subrange(lo as int, i as int), v@[i as int]);
            assert(v@.subrange(lo as int, i + 1) == v@.subrange(lo as int, i as int).push(
                v@[i as int],
            ));
            lemma_utf8_len_split(whole, i + 1 - lo);
            assert(whole.take(i + 1 - lo) == v@.subrange(lo as int, i + 1));
        }
        acc = acc + len_utf8(v[i]);
        i += 1;
    }
    acc
}

} // verus!
