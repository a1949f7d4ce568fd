//! Emoji in an SVG template: which characters count as emoji, the Twemoji
//! asset name of a grapheme (its code points in lower-case hex, joined by
//! `-`), and the rewrite of a template in which every emoji with an asset
//! is replaced by a space and remembered with its horizontal position.
use vstd::prelude::*;
use vstd::string::StringExecFns;
use unicode_segmentation::UnicodeSegmentation;
use crate::lexical::str_chars;
use crate::lexical::push_char;

verus! {

// ---------------------------------------------------------------------------
// Emoji characters
// ---------------------------------------------------------------------------

/// The code point ranges that count as emoji: emoticons, symbols and
/// pictographs, transport and map symbols, regional indicators,
/// miscellaneous symbols, dingbats, supplemental symbols and pictographs,
/// and symbols and pictographs extended-A.
pub open spec fn spec_is_emoji(c: char) -> bool {
    let v = c as u32;
    ||| 0x1F600 <= v <= 0x1F64F
    ||| 0x1F300 <= v <= 0x1F5FF
    ||| 0x1F680 <= v <= 0x1F6FF
    ||| 0x1F1E0 <= v <= 0x1F1FF
    ||| 0x2600 <= v <= 0x26FF
    ||| 0x2700 <= v <= 0x27BF
    ||| 0x1F900 <= v <= 0x1F9FF
    ||| 0x1FA70 <= v <= 0x1FAFF
}

/// Is `c` an emoji?
pub fn is_emoji(c: char) -> (b: bool)
    ensures
        b == spec_is_emoji(c),
{
    let v = c as u32;
    (0x1F600 <= v && v <= 0x1F64F) || (0x1F300 <= v && v <= 0x1F5FF) || (0x1F680 <= v && v
        <= 0x1F6FF) || (0x1F1E0 <= v && v <= 0x1F1FF) || (0x2600 <= v && v <= 0x26FF) || (0x2700
        <= v && v <= 0x27BF) || (0x1F900 <= v && v <= 0x1F9FF) || (0x1FA70 <= v && v <= 0x1FAFF)
}

/// Every character of the eight emoji blocks is an emoji: emoticons
/// (U+1F600..U+1F64F), miscellaneous symbols and pictographs
/// (U+1F300..U+1F5FF), transport and map symbols (U+1F680..U+1F6FF),
/// regional indicators (U+1F1E0..U+1F1FF), miscellaneous symbols
/// (U+2600..U+26FF), dingbats (U+2700..U+27BF), supplemental symbols and
/// pictographs (U+1F900..U+1F9FF) and symbols and pictographs extended-A
/// (U+1FA70..U+1FAFF). No character below U+2600 (letters, digits,
/// punctuation of the Latin and most other scripts) is one, nor any
/// character between the blocks, such as U+1F650..U+1F67F or U+1F700.
pub proof fn law_emoji_blocks(c: char)
    ensures
        0x1F600 <= (c as u32) <= 0x1F64F ==> spec_is_emoji(c),
        0x1F300 <= (c as u32) <= 0x1F5FF ==> spec_is_emoji(c),
        0x1F680 <= (c as u32) <= 0x1F6FF ==> spec_is_emoji(c),
        0x1F1E0 <= (c as u32) <= 0x1F1FF ==> spec_is_emoji(c),
        0x2600 <= (c as u32) <= 0x26FF ==> spec_is_emoji(c),
        0x2700 <= (c as u32) <= 0x27BF ==> spec_is_emoji(c),
        0x1F900 <= (c as u32) <= 0x1F9FF ==> spec_is_emoji(c),
        0x1FA70 <= (c as u32) <= 0x1FAFF ==> spec_is_emoji(c),
        (c as u32) < 0x2600 ==> !spec_is_emoji(c),
        0x27C0 <= (c as u32) < 0x1F1E0 ==> !spec_is_emoji(c),
        0x1F650 <= (c as u32) <= 0x1F67F ==> !spec_is_emoji(c),
        0x1F700 <= (c as u32) <= 0x1F8FF ==> !spec_is_emoji(c),
        0x1FA00 <= (c as u32) < 0x1FA70 ==> !spec_is_emoji(c),
        0x1FB00 <= (c as u32) ==> !spec_is_emoji(c),
{
}

/// A grapheme that begins with a character of an emoji block has an asset,
/// named after all its code points; one that begins with any other
/// character has none.
pub proof fn law_emoji_grapheme_asset(g: Seq<char>)
    requires
        g.len() > 0,
    ensures
        (0x1F300 <= (g[0] as u32) <= 0x1F64F || 0x1F680 <= (g[0] as u32) <= 0x1F6FF
            || 0x1F1E0 <= (g[0] as u32) <= 0x1F1FF || 0x2600 <= (g[0] as u32) <= 0x27BF
            || 0x1F900 <= (g[0] as u32) <= 0x1F9FF || 0x1FA70 <= (g[0] as u32) <= 0x1FAFF)
            <==> starts_with_emoji(g),
{
}

// ---------------------------------------------------------------------------
// Code point names
// ---------------------------------------------------------------------------

/// The lower-case hexadecimal digit of `d` (0..=15).
pub open spec fn hex_digit_char(d: int) -> char {
    if d < 10 {
        (d + 48) as char
    } else {
        (d + 87) as char
    }
}

/// `n` in lower-case hexadecimal, without leading zeros (`"0"` for zero).
pub open spec fn hex_digits(n: nat) -> Seq<char>
    decreases n,
{
    if n < 16 {
        seq![hex_digit_char(n as int)]
    } else {
        hex_digits(n / 16).push(hex_digit_char((n % 16) as int))
    }
}

/// A lower-case hexadecimal digit: `0`..`9` or `a`..`f`.
pub open spec fn is_lower_hex(c: char) -> bool {
    ('0' <= c <= '9') || ('a' <= c <= 'f')
}

/// The number that lower-case hexadecimal digits write, most significant
/// first.
pub open spec fn lower_hex_number(s: Seq<char>) -> nat
    decreases s.len(),
{
    if s.len() == 0 {
        0
    } else {
        let c = s.last();
        let d: nat = if c <= '9' {
            (c as u32 - '0' as u32) as nat
        } else {
            (c as u32 - 'a' as u32 + 10) as nat
        };
        16 * lower_hex_number(s.drop_last()) + d
    }
}

proof fn lemma_hex_digit_char(d: int)
    requires
        0 <= d < 16,
    ensures
        is_lower_hex(hex_digit_char(d)),
        lower_hex_number(seq![hex_digit_char(d)]) == d,
        hex_digit_char(d) == '0' <==> d == 0,
{
    let c = hex_digit_char(d);
    if d < 10 {
        assert(c as u32 == d + 48);
    } else {
        assert(c as u32 == d + 87);
    }
    assert(seq![c].drop_last() == Seq::<char>::empty());
    assert(seq![c].last() == c);
    assert(lower_hex_number(Seq::<char>::empty()) == 0);
    assert(lower_hex_number(seq![c]) == 16 * lower_hex_number(Seq::<char>::empty()) + (if c <= '9' {
        (c as u32 - '0' as u32) as nat
    } else {
        (c as u32 - 'a' as u32 + 10) as nat
    }));
}

/// The name of a code point reads back as that code point: its digits are
/// lower-case hexadecimal, the first is `0` only for zero, and read in base
/// 16 they give the number.
pub proof fn law_hex_digits_read_back(n: nat)
    ensures
        hex_digits(n).len() > 0,
        forall|i: int| 0 <= i < hex_digits(n).len() ==> is_lower_hex(#[trigger] hex_digits(n)[i]),
        lower_hex_number(hex_digits(n)) == n,
        n > 0 ==> hex_digits(n)[0] != '0',
    decreases n,
{
    if n < 16 {
        assert(hex_digits(n) == seq![hex_digit_char(n as int)]);
        lemma_hex_digit_char(n as int);
    } else {
        law_hex_digits_read_back(n / 16);
        lemma_hex_digit_char((n % 16) as int);
        let p = hex_digits(n / 16);
        let c = hex_digit_char((n % 16) as int);
        assert(hex_digits(n) == p.push(c));
        assert(p.push(c).drop_last() == p);
        assert(p.push(c).last() == c);
        assert forall|i: int| 0 <= i < p.push(c).len() implies is_lower_hex(#[trigger] p.push(c)[i]) by {
            if i < p.len() {
                assert(p.push(c)[i] == p[i]);
            }
        }
        assert(p.push(c)[0] == p[0]);
        assert(n == 16 * (n / 16) + n % 16);
    }
}

fn hex_digit(d: u32) -> (c: char)
    requires
        d < 16,
    ensures
        c == hex_digit_char(d as int),
{
    if d < 10 {
        ((d as u8) + 48) as char
    } else {
        ((d as u8) + 87) as char
    }
}

/// Appends `n` in lower-case hexadecimal to `out`.
fn push_hex(out: &mut String, n: u32)
    ensures
        final(out)@ == old(out)@ + hex_digits(n as nat),
    decreases n,
{
    if n >= 16 {
        push_hex(out, n / 16);
    }
    let c = hex_digit(n % 16);
    push_char(out, c);
    proof {
        if n >= 16 {
            assert(hex_digits(n as nat) == hex_digits((n / 16) as nat).push(c));
        } else {
            assert(hex_digits(n as nat) == seq![c]);
        }
    }
}

/// The Twemoji name of a sequence of characters: the code point of each in
/// lower-case hexadecimal, joined by `-`.
pub open spec fn codepoint_name(cs: Seq<char>) -> Seq<char>
    decreases cs.len(),
{
    if cs.len() == 0 {
        Seq::empty()
    } else if cs.len() == 1 {
        hex_digits(cs[0] as u32 as nat)
    } else {
        codepoint_name(cs.drop_last()) + seq!['-'] + hex_digits(cs.last() as u32 as nat)
    }
}

/// The Twemoji name of a grapheme, such as `1f468-200d-1f4bb`.
pub fn get_emoji_codepoint(grapheme: &str) -> (r: String)
    ensures
        r@ == codepoint_name(grapheme@),
{
    let v = str_chars(grapheme);
    let mut out = String::new();
    let mut i: usize = 0;
    while i < v.len()
        invariant
            0 <= i <= v.len(),
            v@ == grapheme@,
            out@ == codepoint_name(v@.take(i as int)),
        decreases v.len() - i,
    {
        let ghost before = out@;
        if i > 0 {
            push_char(&mut out, '-');
        }
        push_hex(&mut out, v[i] as u32);
        proof {
            let t = v@.take(i + 1);
            assert(t.drop_last() == v@.take(i as int));
            assert(t.last() == v@[i as int]);
            if i == 0 {
                assert(t.len() == 1);
                assert(before == Seq::<char>::empty());
                assert(out@ == hex_digits(t[0] as u32 as nat));
            }
        }
        i += 1;
    }
    assert(v@.take(v.len() as int) == v@);
    out
}

/// The asset path of a grapheme that begins with an emoji:
/// `./twemoji/<name>.png`.
pub open spec fn asset_path(g: Seq<char>) -> Seq<char> {
    "./twemoji/"@ + codepoint_name(g) + ".png"@
}

/// Does the grapheme begin with an emoji?
pub open spec fn starts_with_emoji(g: Seq<char>) -> bool {
    g.len() > 0 && spec_is_emoji(g[0])
}

/// The Twemoji asset path of a grapheme, where it begins with an emoji.
pub fn emoji_asset_path(grapheme: &str) -> (r: Option<String>)
    ensures
        r is Some <==> starts_with_emoji(grapheme@),
        r matches Some(p) ==> p@ == asset_path(grapheme@),
{
    let v = str_chars(grapheme);
    if v.len() == 0 {
        return None;
    }
    let first = v[0];
    if !is_emoji(first) {
        return None;
    }
    let name = get_emoji_codepoint(grapheme);
    let mut p = String::new();
    p.append("./twemoji/");
    p.append(name.as_str());
    p.append(".png");
    Some(p)
}

// ---------------------------------------------------------------------------
// Graphemes
// ---------------------------------------------------------------------------

/// The name for the extended grapheme clusters that `unicode-segmentation`
/// splits a text into.
pub uninterp spec fn grapheme_clusters(s: Seq<char>) -> Seq<Seq<char>>;

/// The characters of a sequence of pieces, one after the other.
pub open spec fn concat_all(gs: Seq<Seq<char>>) -> Seq<char>
    decreases gs.len(),
{
    if gs.len() == 0 {
        Seq::empty()
    } else {
        concat_all(gs.drop_last()) + gs.last()
    }
}

pub open spec fn strings_view(v: Seq<String>) -> Seq<Seq<char>> {
    v.map_values(|g: String| g@)
}

/// `UnicodeSegmentation::graphemes(s, true)`: the extended grapheme
/// clusters of `s`, each as a string. What the clusters are is named, not
/// stated; the contract claims only that they are non-empty and that,
/// joined, they give back `s`.
#[verifier::external_body]
fn split_graphemes(s: &str) -> (r: Vec<String>)
    ensures
        strings_view(r@) == grapheme_clusters(s@),
        concat_all(strings_view(r@)) == s@,
        forall|i: int| 0 <= i < r@.len() ==> (#[trigger] r@[i])@.len() > 0,
{
    s.graphemes(true).map(String::from).collect()
}

/// The grapheme clusters of a template, in order: non-empty pieces that
/// together make up the template.
pub fn template_graphemes(template: &str) -> (r: Vec<String>)
    ensures
        strings_view(r@) == grapheme_clusters(template@),
        concat_all(strings_view(r@)) == template@,
        forall|i: int| 0 <= i < r@.len() ==> (#[trigger] r@[i])@.len() > 0,
{
    split_graphemes(template)
}

// ---------------------------------------------------------------------------
// Replacing emoji
// ---------------------------------------------------------------------------

/// An emoji taken out of a template: its asset, where it goes and how large
/// it is drawn.
#[derive(Debug, Clone)]
pub struct EmojiPlacement {
    pub path: String,
    pub x: i32,
    pub y: i32,
    pub size: u32,
}

/// An emoji placement as plain values: path, x, y and size.
pub open spec fn placement_view(p: EmojiPlacement) -> (Seq<char>, int, int, int) {
    (p.path@, p.x as int, p.y as int, p.size as int)
}

/// Is grapheme `i` replaced: it begins with an emoji whose asset exists?
pub open spec fn replaced(gs: Seq<Seq<char>>, available: Seq<bool>, i: int) -> bool {
    starts_with_emoji(gs[i]) && available[i]
}

/// The template once every replaced grapheme has become a space.
pub open spec fn rewritten_text(gs: Seq<Seq<char>>, available: Seq<bool>) -> Seq<char>
    decreases gs.len(),
{
    if gs.len() == 0 {
        Seq::empty()
    } else {
        let i = gs.len() - 1;
        rewritten_text(gs.drop_last(), available) + if replaced(gs, available, i) {
            seq![' ']
        } else {
            gs[i]
        }
    }
}

/// The placements of the replaced graphemes, in order: grapheme `i` is
/// drawn at `start_x + i * step`, at the top, `size` pixels large.
pub open spec fn placements(
    gs: Seq<Seq<char>>,
    available: Seq<bool>,
    start_x: int,
    step: int,
    size: int,
) -> Seq<(Seq<char>, int, int, int)>
    decreases gs.len(),
{
    if gs.len() == 0 {
        Seq::empty()
    } else {
        let i = gs.len() - 1;
        let earlier = placements(gs.drop_last(), available, start_x, step, size);
        if replaced(gs, available, i) {
            earlier.push((asset_path(gs[i]), start_x + i * step, 0, size))
        } else {
            earlier
        }
    }
}

proof fn lemma_offset_between(start: int, step: int, k: int, n: int)
    requires
        0 <= k <= n,
    ensures
        (start <= start + k * step <= start + n * step) || (start + n * step <= start + k * step
            <= start),
{
    if step >= 0 {
        assert(0 <= k * step <= n * step) by (nonlinear_arith)
            requires
                0 <= k <= n,
                step >= 0,
        ;
    } else {
        assert(n * step <= k * step <= 0) by (nonlinear_arith)
            requires
                0 <= k <= n,
                step < 0,
        ;
    }
}

proof fn lemma_rewrite_prefix(gs: Seq<Seq<char>>, available: Seq<bool>, i: int)
    requires
        0 <= i < gs.len(),
        gs.len() == available.len(),
    ensures
        gs.take(i + 1).drop_last() == gs.take(i),
        replaced(gs.take(i + 1), available, i) == replaced(gs, available, i),
        gs.take(i + 1)[i] == gs[i],
{
    assert(gs.take(i + 1).drop_last() =~= gs.take(i));
}

/// Where no emoji asset is available, the rewritten template is the
/// template itself and nothing is placed.
pub proof fn lemma_nothing_available(gs: Seq<Seq<char>>, available: Seq<bool>, start_x: int, step: int, size: int)
    requires
        gs.len() <= available.len(),
        forall|i: int| 0 <= i < available.len() ==> !available[i],
    ensures
        rewritten_text(gs, available) == concat_all(gs),
        placements(gs, available, start_x, step, size) == Seq::<(Seq<char>, int, int, int)>::empty(),
    decreases gs.len(),
{
    if gs.len() > 0 {
        let prefix = gs.drop_last();
        lemma_nothing_available(prefix, available, start_x, step, size);
        assert(!replaced(gs, available, gs.len() - 1));
    }
}

/// Each grapheme leaves either itself or a single space in the rewritten
/// template, so the rewrite has one piece per grapheme: a template of
/// graphemes without emoji is left as it is.
pub proof fn lemma_no_emoji_unchanged(gs: Seq<Seq<char>>, available: Seq<bool>, start_x: int, step: int, size: int)
    requires
        gs.len() <= available.len(),
        forall|i: int| 0 <= i < gs.len() ==> !starts_with_emoji(#[trigger] gs[i]),
    ensures
        rewritten_text(gs, available) == concat_all(gs),
        placements(gs, available, start_x, step, size) == Seq::<(Seq<char>, int, int, int)>::empty(),
    decreases gs.len(),
{
    if gs.len() > 0 {
        let prefix = gs.drop_last();
        assert forall|i: int| 0 <= i < prefix.len() implies !starts_with_emoji(#[trigger] prefix[i]) by {
            assert(prefix[i] == gs[i]);
        }
        lemma_no_emoji_unchanged(prefix, available, start_x, step, size);
        assert(!starts_with_emoji(gs[gs.len() - 1]));
    }
}

/// One grapheme alone: an emoji whose asset is available becomes a single
/// space and is placed at the start, at the top, at the given size, under
/// its asset's path; any other grapheme is kept as it is and nothing is
/// placed.
pub proof fn law_place_one_grapheme(g: Seq<char>, available: bool, start_x: int, step: int, size: int)
    ensures
        starts_with_emoji(g) && available ==> rewritten_text(seq![g], seq![available]) == seq![' ']
            && placements(seq![g], seq![available], start_x, step, size) == seq![
            (asset_path(g), start_x, 0int, size),
        ],
        !(starts_with_emoji(g) && available) ==> rewritten_text(seq![g], seq![available]) == g
            && placements(seq![g], seq![available], start_x, step, size) == Seq::<
            (Seq<char>, int, int, int),
        >::empty(),
{
    let gs = seq![g];
    let av = seq![available];
    assert(gs.drop_last() == Seq::<Seq<char>>::empty());
    assert(gs[0] == g);
    assert(av[0] == available);
    assert(replaced(gs, av, 0) == (starts_with_emoji(g) && available));
    assert(start_x + 0 * step == start_x);
    assert(rewritten_text(Seq::<Seq<char>>::empty(), av) == Seq::<char>::empty());
    assert(placements(Seq::<Seq<char>>::empty(), av, start_x, step, size) == Seq::<
        (Seq<char>, int, int, int),
    >::empty());
    assert(Seq::<char>::empty() + seq![' '] == seq![' ']);
    assert(Seq::<char>::empty() + g == g);
    assert(Seq::<(Seq<char>, int, int, int)>::empty().push((asset_path(g), start_x, 0int, size))
        == seq![(asset_path(g), start_x, 0int, size)]);
}

/// Rewriting a template piece by piece gives the same as rewriting it
/// whole: the text of `a` then `b` is the text of `a` followed by that of
/// `b`, and the placements of `b` follow those of `a`, shifted along by
/// one step for each grapheme of `a`.
pub proof fn law_place_concat(
    a: Seq<Seq<char>>,
    b: Seq<Seq<char>>,
    available: Seq<bool>,
    start_x: int,
    step: int,
    size: int,
)
    requires
        a.len() + b.len() <= available.len(),
    ensures
        rewritten_text(a + b, available) == rewritten_text(a, available) + rewritten_text(
            b,
            available.skip(a.len() as int),
        ),
        placements(a + b, available, start_x, step, size) == placements(a, available, start_x, step, size)
            + placements(b, available.skip(a.len() as int), start_x + a.len() * step, step, size),
    decreases b.len(),
{
    let rest = available.skip(a.len() as int);
    if b.len() == 0 {
        assert(a + b == a);
        assert(rewritten_text(a, available) + Seq::<char>::empty() == rewritten_text(a, available));
        assert(placements(a, available, start_x, step, size) + Seq::<(Seq<char>, int, int, int)>::empty()
            == placements(a, available, start_x, step, size));
    } else {
        let b1 = b.drop_last();
        law_place_concat(a, b1, available, start_x, step, size);
        let i = a.len() + b.len() - 1;
        let j = b.len() - 1;
        assert((a + b).drop_last() == a + b1);
        assert((a + b)[i] == b[j]);
        assert(available[i] == rest[j]);
        assert(replaced(a + b, available, i) == replaced(b, rest, j));
        assert(start_x + i * step == (start_x + a.len() * step) + j * step) by (nonlinear_arith)
            requires
                i == a.len() + j,
        ;
        let pa = placements(a, available, start_x, step, size);
        let pb1 = placements(b1, rest, start_x + a.len() * step, step, size);
        if replaced(b, rest, j) {
            assert((pa + pb1).push((asset_path(b[j]), start_x + i * step, 0int, size)) == pa + pb1.push(
                (asset_path(b[j]), (start_x + a.len() * step) + j * step, 0int, size),
            ));
            assert(rewritten_text(a, available) + rewritten_text(b1, rest) + seq![' ']
                == rewritten_text(a, available) + (rewritten_text(b1, rest) + seq![' ']));
        } else {
            assert(rewritten_text(a, available) + rewritten_text(b1, rest) + b[j]
                == rewritten_text(a, available) + (rewritten_text(b1, rest) + b[j]));
        }
    }
}

/// Rewrites a template given as its graphemes: each grapheme that begins
/// with an emoji whose asset is available (`available[i]`) becomes a space
/// and is placed at `start_x + i * step`; every other grapheme is kept.
pub fn place_emojis(
    graphemes: &Vec<String>,
    available: &Vec<bool>,
    start_x: i32,
    step: i32,
    font_size: u32,
) -> (r: (String, Vec<EmojiPlacement>))
    requires
        graphemes.len() == available.len(),
        i32::MIN <= start_x + graphemes.len() * step <= i32::MAX,
    ensures
        r.0@ == rewritten_text(strings_view(graphemes@), available@),
        r.1@.map_values(|p: EmojiPlacement| placement_view(p)) == placements(
            strings_view(graphemes@),
            available@,
            start_x as int,
            step as int,
            font_size as int,
        ),
{
    let ghost gs = strings_view(graphemes@);
    let ghost n = graphemes.len() as int;
    let mut text = String::new();
    let mut placed: Vec<EmojiPlacement> = Vec::new();
    let mut offset_x: i32 = start_x;
    let mut i: usize = 0;
    while i < graphemes.len()
        invariant
            0 <= i <= graphemes.len(),
            graphemes.len() == available.len(),
            n == graphemes.len(),
            gs == strings_view(graphemes@),
            i32::MIN <= start_x + n * step <= i32::MAX,
            offset_x == start_x + i * step,
            text@ == rewritten_text(gs.take(i as int), available@),
            placed@.map_values(|p: EmojiPlacement| placement_view(p)) == placements(
                gs.take(i as int),
                available@,
                start_x as int,
                step as int,
                font_size as int,
            ),
        decreases graphemes.len() - i,
    {
        let g = &graphemes[i];
        proof {
            lemma_rewrite_prefix(gs, available@, i as int);
            assert(gs[i as int] == g@);
        }
        let path = emoji_asset_path(g.as_str());
        let ghost before_placed = placed@;
        match path {
            Some(p) => {
                if available[i] {
                    placed.push(EmojiPlacement { path: p, x: offset_x, y: 0, size: font_size });
                    push_char(&mut text, ' ');
                    proof {
                        assert(placed@.map_values(|p: EmojiPlacement| placement_view(p)) =~= before_placed.map_values(|p: EmojiPlacement| placement_view(p)).push(
                            (asset_path(gs[i as int]), start_x + i * step, 0, font_size as int),
                        ));
                    }
                } else {
                    text.append(g.as_str());
                }
            },
            None => {
                text.append(g.as_str());
            },
        }
        proof {
            lemma_offset_between(start_x as int, step as int, i + 1, n);
            assert((i + 1) * step == i * step + step) by (nonlinear_arith);
        }
        offset_x = offset_x + step;
        i += 1;
    }
    proof {
        assert(gs.take(n) =~= gs);
    }
    (text, placed)
}

} // verus!
