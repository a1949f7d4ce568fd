//! What a template receives about a message: the payload entries (the
//! user's name, status and role, the message text, the picture in base64,
//! the initials of the avatar and its two gradient colours), and the image
//! value that templates pass around.
use vstd::prelude::*;
use crate::lexical::str_chars;
use crate::lexical::string_of;
use crate::lexical::push_char;
use crate::lexical::is_white_space;
use crate::lexical::is_whitespace;
use crate::lexical::all_white;
use vstd::string::StringExecFns;

verus! {

// ---------------------------------------------------------------------------
// Avatar colours
// ---------------------------------------------------------------------------

/// The top and bottom colours of the avatar gradient with index `k` (0..=6).
pub open spec fn palette(k: int) -> (Seq<char>, Seq<char>) {
    if k == 0 {
        ("#FF516A"@, "#FF885E"@)
    } else if k == 1 {
        ("#FFA85C"@, "#FFCD6A"@)
    } else if k == 2 {
        ("#8C79F2"@, "#B37DF2"@)
    } else if k == 3 {
        ("#51BB3F"@, "#8AE451"@)
    } else if k == 4 {
        ("#34C6CD"@, "#4CE9C2"@)
    } else if k == 5 {
        ("#549CFF"@, "#3CB9FE"@)
    } else {
        ("#F2799B"@, "#F27DF2"@)
    }
}

/// The avatar gradient of a gradient id: red, orange, purple, green, cyan,
/// blue and pink in turn, by the id modulo 7.
pub fn grad_colors(grad_id: u64) -> (r: (&'static str, &'static str))
    ensures
        (r.0@, r.1@) == palette((grad_id % 7) as int),
{
    match grad_id % 7 {
        0 => ("#FF516A", "#FF885E"),
        1 => ("#FFA85C", "#FFCD6A"),
        2 => ("#8C79F2", "#B37DF2"),
        3 => ("#51BB3F", "#8AE451"),
        4 => ("#34C6CD", "#4CE9C2"),
        5 => ("#549CFF", "#3CB9FE"),
        _ => ("#F2799B", "#F27DF2"),
    }
}

// ---------------------------------------------------------------------------
// Avatar initials
// ---------------------------------------------------------------------------

/// The first characters of the words of `s` (runs of non-white-space), at
/// most `2 - count` of them, where `after_space` tells whether the text
/// before `s` ended a word.
pub open spec fn initials_from(s: Seq<char>, after_space: bool, count: nat) -> Seq<char>
    decreases s.len(),
{
    if count >= 2 || s.len() == 0 {
        Seq::empty()
    } else if !is_white_space(s[0]) && after_space {
        seq![s[0]] + initials_from(s.drop_first(), false, count + 1)
    } else {
        initials_from(s.drop_first(), is_white_space(s[0]), count)
    }
}

/// The first characters of the first two words of a name.
pub open spec fn spec_initials(name: Seq<char>) -> Seq<char> {
    initials_from(name, true, 0)
}

proof fn lemma_initials_from_len(s: Seq<char>, after_space: bool, count: nat)
    requires
        count <= 2,
    ensures
        initials_from(s, after_space, count).len() + count <= 2,
    decreases s.len(),
{
    if count < 2 && s.len() > 0 {
        if !is_white_space(s[0]) && after_space {
            lemma_initials_from_len(s.drop_first(), false, count + 1);
        } else {
            lemma_initials_from_len(s.drop_first(), is_white_space(s[0]), count);
        }
    }
}

/// A name gives at most two initials.
pub proof fn lemma_at_most_two_initials(name: Seq<char>)
    ensures
        spec_initials(name).len() <= 2,
{
    lemma_initials_from_len(name, true, 0);
}

/// `s` holds no white space: it is one word, or part of one.
pub open spec fn one_word(s: Seq<char>) -> bool {
    forall|i: int| 0 <= i < s.len() ==> !is_white_space(#[trigger] s[i])
}

proof fn lemma_initials_skip_white(w: Seq<char>, s: Seq<char>, after_space: bool, count: nat)
    requires
        all_white(w),
        w.len() > 0 || after_space,
        count < 2,
    ensures
        initials_from(w + s, after_space, count) == initials_from(s, true, count),
    decreases w.len(),
{
    if w.len() > 0 {
        assert(is_white_space(w[0]));
        assert((w + s)[0] == w[0]);
        assert((w + s).drop_first() == w.drop_first() + s);
        assert(all_white(w.drop_first())) by {
            assert forall|i: int| 0 <= i < w.drop_first().len() implies is_white_space(
                #[trigger] w.drop_first()[i],
            ) by {
                assert(w.drop_first()[i] == w[i + 1]);
            }
        }
        lemma_initials_skip_white(w.drop_first(), s, true, count);
    } else {
        assert(w + s == s);
    }
}

proof fn lemma_initials_in_word(a: Seq<char>, s: Seq<char>, count: nat)
    requires
        one_word(a),
        count < 2,
    ensures
        initials_from(a + s, false, count) == initials_from(s, false, count),
    decreases a.len(),
{
    if a.len() > 0 {
        assert(!is_white_space(a[0]));
        assert((a + s)[0] == a[0]);
        assert((a + s).drop_first() == a.drop_first() + s);
        assert(one_word(a.drop_first())) by {
            assert forall|i: int| 0 <= i < a.drop_first().len() implies !is_white_space(
                #[trigger] a.drop_first()[i],
            ) by {
                assert(a.drop_first()[i] == a[i + 1]);
            }
        }
        lemma_initials_in_word(a.drop_first(), s, count);
    } else {
        assert(a + s == s);
    }
}

proof fn lemma_initials_word(a: Seq<char>, s: Seq<char>, count: nat)
    requires
        one_word(a),
        a.len() > 0,
        count < 2,
    ensures
        initials_from(a + s, true, count) == seq![a[0]] + initials_from(s, false, count + 1),
{
    assert(!is_white_space(a[0]));
    assert((a + s)[0] == a[0]);
    assert((a + s).drop_first() == a.drop_first() + s);
    assert(one_word(a.drop_first())) by {
        assert forall|i: int| 0 <= i < a.drop_first().len() implies !is_white_space(
            #[trigger] a.drop_first()[i],
        ) by {
            assert(a.drop_first()[i] == a[i + 1]);
        }
    }
    assert((a + s).len() > 0);
    assert(initials_from(a + s, true, count) == seq![a[0]] + initials_from(
        a.drop_first() + s,
        false,
        count + 1,
    ));
    if count + 1 < 2 {
        lemma_initials_in_word(a.drop_first(), s, count + 1);
    } else {
        assert(initials_from(a.drop_first() + s, false, count + 1) == Seq::<char>::empty());
        assert(initials_from(s, false, count + 1) == Seq::<char>::empty());
    }
}

/// The initials of a name are the first characters of its first two words,
/// whatever white space stands before, between and after them and whatever
/// follows the second word: `lead a gap b rest` gives `a[0] b[0]`.
pub proof fn law_initials_two_words(lead: Seq<char>, a: Seq<char>, gap: Seq<char>, b: Seq<char>, rest: Seq<char>)
    requires
        all_white(lead),
        one_word(a),
        a.len() > 0,
        all_white(gap),
        gap.len() > 0,
        one_word(b),
        b.len() > 0,
    ensures
        spec_initials(lead + a + gap + b + rest) == seq![a[0], b[0]],
{
    let tail = gap + (b + rest);
    assert(lead + a + gap + b + rest == lead + (a + tail));
    lemma_initials_skip_white(lead, a + tail, true, 0);
    lemma_initials_word(a, tail, 0);
    lemma_initials_skip_white(gap, b + rest, false, 1);
    lemma_initials_word(b, rest, 1);
    assert(initials_from(rest, false, 2) == Seq::<char>::empty());
    assert(seq![a[0]] + (seq![b[0]] + Seq::<char>::empty()) == seq![a[0], b[0]]);
}

/// A name of one word, with any white space around it, has one initial:
/// its first character.
pub proof fn law_initials_one_word(lead: Seq<char>, a: Seq<char>, trail: Seq<char>)
    requires
        all_white(lead),
        one_word(a),
        a.len() > 0,
        all_white(trail),
    ensures
        spec_initials(lead + a + trail) == seq![a[0]],
{
    assert(lead + a + trail == lead + (a + trail));
    lemma_initials_skip_white(lead, a + trail, true, 0);
    lemma_initials_word(a, trail, 0);
    lemma_initials_white_only(trail, 1);
    assert(seq![a[0]] + Seq::<char>::empty() == seq![a[0]]);
}

proof fn lemma_initials_white_only(w: Seq<char>, count: nat)
    requires
        all_white(w),
        count < 2,
    ensures
        initials_from(w, false, count) == Seq::<char>::empty(),
    decreases w.len(),
{
    if w.len() > 0 {
        assert(is_white_space(w[0]));
        assert(all_white(w.drop_first())) by {
            assert forall|i: int| 0 <= i < w.drop_first().len() implies is_white_space(
                #[trigger] w.drop_first()[i],
            ) by {
                assert(w.drop_first()[i] == w[i + 1]);
            }
        }
        lemma_initials_white_only_after(w.drop_first(), count);
    }
}

proof fn lemma_initials_white_only_after(w: Seq<char>, count: nat)
    requires
        all_white(w),
        count < 2,
    ensures
        initials_from(w, true, count) == Seq::<char>::empty(),
    decreases w.len(),
{
    if w.len() > 0 {
        assert(is_white_space(w[0]));
        assert(all_white(w.drop_first())) by {
            assert forall|i: int| 0 <= i < w.drop_first().len() implies is_white_space(
                #[trigger] w.drop_first()[i],
            ) by {
                assert(w.drop_first()[i] == w[i + 1]);
            }
        }
        lemma_initials_white_only_after(w.drop_first(), count);
    }
}

/// The name for what `str::to_uppercase` returns (the Unicode upper-case
/// mapping of each character).
pub uninterp spec fn uppercase(s: Seq<char>) -> Seq<char>;

pub open spec fn is_ascii_chars(s: Seq<char>) -> bool {
    forall|i: int| 0 <= i < s.len() ==> (#[trigger] s[i]) as u32 <= 0x7f
}

pub open spec fn ascii_upper(c: char) -> char {
    if 'a' <= c <= 'z' {
        ((c as u32) - 32) as char
    } else {
        c
    }
}

/// `str::to_uppercase`. Its result is named, not spelled out; for ASCII
/// text the standard library documents it to be the ASCII upper-casing.
#[verifier::external_body]
fn to_uppercase(s: &str) -> (r: String)
    ensures
        r@ == uppercase(s@),
        is_ascii_chars(s@) ==> r@.len() == s@.len() && forall|i: int|
            0 <= i < s@.len() ==> r@[i] == ascii_upper(#[trigger] s@[i]),
{
    s.to_uppercase()
}

/// The avatar initials of a user name: the first characters of its first
/// two words, upper-cased.
pub fn avatar_initials(username: &str) -> (r: String)
    ensures
        r@ == uppercase(spec_initials(username@)),
        is_ascii_chars(spec_initials(username@)) ==> r@.len() == spec_initials(username@).len()
            && forall|i: int|
            0 <= i < r@.len() ==> r@[i] == ascii_upper(#[trigger] spec_initials(username@)[i]),
{
    let v = str_chars(username);
    let mut out = String::new();
    let mut after_space = true;
    let mut count: usize = 0;
    let mut i: usize = 0;
    proof {
        assert(v@.skip(0) == v@);
    }
    while i < v.len() && count < 2
        invariant
            0 <= i <= v.len(),
            count <= 2,
            out@ + initials_from(v@.skip(i as int), after_space, count as nat) == spec_initials(
                v@,
            ),
        decreases v.len() - i,
    {
        assert(v@.skip(i as int).drop_first() == v@.skip(i + 1));
        assert(v@.skip(i as int)[0] == v@[i as int]);
        let c = v[i];
        let ws = is_whitespace(c);
        if !ws && after_space {
            let ghost before = out@;
            push_char(&mut out, c);
            assert(out@ + initials_from(v@.skip(i + 1), false, (count + 1) as nat) =~= before
                + initials_from(v@.skip(i as int), after_space, count as nat));
            count += 1;
            after_space = false;
        } else {
            after_space = ws;
        }
        i += 1;
    }
    proof {
        if i == v.len() {
            assert(v@.skip(i as int).len() == 0);
        }
        assert(initials_from(v@.skip(i as int), after_space, count as nat) == Seq::<char>::empty());
        assert(out@ + Seq::<char>::empty() =~= out@);
        assert(out@ == spec_initials(username@));
    }
    to_uppercase(out.as_str())
}

// ---------------------------------------------------------------------------
// The picture
// ---------------------------------------------------------------------------

/// The name for what the standard base64 engine's `encode` returns.
pub uninterp spec fn base64_standard(bytes: Seq<u8>) -> Seq<char>;

/// The length of a padded base64 encoding of `n` bytes.
pub open spec fn base64_len(n: int) -> int {
    ((n + 2) / 3) * 4
}

/// `base64::engine::general_purpose::STANDARD.encode`: the padded base64
/// text of the bytes. The text itself is named; its length, four characters
/// for every three bytes or part of three, is what the crate computes
/// before encoding (it panics where that length overflows).
#[verifier::external_body]
fn base64_encode(bytes: &[u8]) -> (r: String)
    requires
        base64_len(bytes@.len() as int) <= usize::MAX,
    ensures
        r@ == base64_standard(bytes@),
        r@.len() == base64_len(bytes@.len() as int),
{
    base64::Engine::encode(&base64::engine::general_purpose::STANDARD, bytes)
}

/// The name for what the standard base64 engine's `decode` returns: the
/// bytes, or the text of the error.
pub uninterp spec fn base64_decoded(text: Seq<char>) -> Result<Seq<u8>, Seq<char>>;

/// `base64::engine::general_purpose::STANDARD.decode(text)`, its error
/// given as its `Display` text. The result is named; the contract adds what
/// the engine's configuration (canonical padding, no trailing bits) makes
/// of it: only the encoding of some bytes is accepted, and it gives back
/// exactly those bytes.
#[verifier::external_body]
fn base64_decode(text: &str) -> (r: Result<Vec<u8>, String>)
    ensures
        match r {
            Ok(v) => base64_decoded(text@) == Ok::<Seq<u8>, Seq<char>>(v@),
            Err(e) => base64_decoded(text@) == Err::<Seq<u8>, Seq<char>>(e@),
        },
        r matches Ok(v) ==> base64_standard(v@) == text@ && forall|b: Seq<u8>|
            #[trigger] base64_standard(b) == text@ ==> v@ == b,
        r is Err ==> forall|b: Seq<u8>| #[trigger] base64_standard(b) != text@,
{
    match base64::Engine::decode(&base64::engine::general_purpose::STANDARD, text) {
        Ok(v) => Ok(v),
        Err(e) => Err(e.to_string()),
    }
}

/// `"image: invalid base64: <error>"`.
pub open spec fn invalid_base64_message(e: Seq<char>) -> Seq<char> {
    "image: invalid base64: "@ + e
}

/// The bytes of an image given the result of decoding its base64 text: the
/// bytes, or the decoder's error behind the prefix `image: invalid base64: `.
pub fn image_data_from(decoded: Result<Vec<u8>, String>) -> (r: Result<Vec<u8>, String>)
    ensures
        match decoded {
            Ok(v) => r matches Ok(w) && w@ == v@,
            Err(e) => r matches Err(m) && m@ == invalid_base64_message(e@),
        },
{
    match decoded {
        Ok(v) => Ok(v),
        Err(e) => {
            let mut m = string_of("image: invalid base64: ");
            m.append(e.as_str());
            Err(m)
        },
    }
}

/// The bytes of the image that the DSL's `image` receives as base64 text.
/// The text of the payload's `image` entry decodes back to the message's
/// image.
pub fn decode_image_data(text: &str) -> (r: Result<Vec<u8>, String>)
    ensures
        match base64_decoded(text@) {
            Ok(b) => r matches Ok(v) && v@ == b,
            Err(e) => r matches Err(m) && m@ == invalid_base64_message(e),
        },
        forall|b: Seq<u8>| #[trigger] base64_standard(b) == text@ ==> (r matches Ok(v) && v@ == b),
{
    let decoded = base64_decode(text);
    image_data_from(decoded)
}

/// The name for what decoding the bytes of a picture gives: its width,
/// height and RGBA pixels, or the text of the decoder's error.
pub uninterp spec fn decoded_picture(bytes: Seq<u8>) -> Result<(u32, u32, Seq<u8>), Seq<char>>;

/// `image::load_from_memory(bytes)` converted with `to_rgba8`: the width,
/// the height and the RGBA pixels of the picture, four bytes a pixel, row
/// by row; its error given as its `Display` text. What it decodes to is
/// named; the contract adds only the length of the pixels.
#[verifier::external_body]
fn load_rgba(bytes: &[u8]) -> (r: Result<(u32, u32, Vec<u8>), String>)
    ensures
        match r {
            Ok((w, h, px)) => decoded_picture(bytes@) == Ok::<(u32, u32, Seq<u8>), Seq<char>>(
                (w, h, px@),
            ),
            Err(e) => decoded_picture(bytes@) == Err::<(u32, u32, Seq<u8>), Seq<char>>(e@),
        },
        r matches Ok((w, h, px)) ==> px@.len() == w * h * 4,
{
    match image::load_from_memory(bytes) {
        Ok(img) => {
            let rgba = img.to_rgba8();
            Ok((rgba.width(), rgba.height(), rgba.into_raw()))
        },
        Err(e) => Err(e.to_string()),
    }
}

/// `"image: failed to decode image: <error>"`.
pub open spec fn undecodable_message(e: Seq<char>) -> Seq<char> {
    "image: failed to decode image: "@ + e
}

/// The picture given the result of decoding its bytes: width, height and
/// RGBA pixels, or the decoder's error behind the prefix
/// `image: failed to decode image: `.
pub fn picture_from(decoded: Result<(u32, u32, Vec<u8>), String>) -> (r: Result<(u32, u32, Vec<u8>), String>)
    ensures
        match decoded {
            Ok((w, h, px)) => r matches Ok((w2, h2, px2)) && w2 == w && h2 == h && px2@ == px@,
            Err(e) => r matches Err(m) && m@ == undecodable_message(e@),
        },
{
    match decoded {
        Ok(t) => Ok(t),
        Err(e) => {
            let mut m = string_of("image: failed to decode image: ");
            m.append(e.as_str());
            Err(m)
        },
    }
}

/// The picture that the DSL's `image` draws, from its decoded bytes: its
/// width, height and RGBA pixels (four bytes a pixel), or the error that
/// `image` reports.
pub fn decode_picture(bytes: &[u8]) -> (r: Result<(u32, u32, Vec<u8>), String>)
    ensures
        match decoded_picture(bytes@) {
            Ok((w, h, px)) => r matches Ok((w2, h2, px2)) && w2 == w && h2 == h && px2@ == px,
            Err(e) => r matches Err(m) && m@ == undecodable_message(e),
        },
        r matches Ok((w, h, px)) ==> px@.len() == w * h * 4,
{
    let decoded = load_rgba(bytes);
    picture_from(decoded)
}

// ---------------------------------------------------------------------------
// Theme
// ---------------------------------------------------------------------------

/// The theme a message is drawn with: the one it names, or `light` (the
/// default theme) where it names none.
pub fn theme_name<'a>(theme: &'a str) -> (r: &'a str)
    ensures
        r@ == if theme@.len() == 0 {
            "light"@
        } else {
            theme@
        },
{
    let v = str_chars(theme);
    if v.len() == 0 {
        "light"
    } else {
        theme
    }
}

// ---------------------------------------------------------------------------
// Payload
// ---------------------------------------------------------------------------

/// What the payload of a template is made from.
pub struct PayloadSource {
    pub username: String,
    pub user_status: Option<String>,
    pub user_role: Option<String>,
    pub content: String,
    pub image: Vec<u8>,
    pub grad_id: i32,
}

/// The payload entries, in the order in which they are stored: `username`,
/// `user_status` and `user_role` when present, `content`, `image` (base64),
/// `avatar_initials`, `avatar_color_top` and `avatar_color_bottom`.
pub open spec fn spec_payload(src: PayloadSource) -> Seq<(Seq<char>, Seq<char>)> {
    let colors = palette(((src.grad_id as u64) % 7) as int);
    let head = seq![("username"@, src.username@)];
    let status = match src.user_status {
        Some(s) => seq![("user_status"@, s@)],
        None => Seq::empty(),
    };
    let role = match src.user_role {
        Some(r) => seq![("user_role"@, r@)],
        None => Seq::empty(),
    };
    head + status + role + seq![
        ("content"@, src.content@),
        ("image"@, base64_standard(src.image@)),
        ("avatar_initials"@, uppercase(spec_initials(src.username@))),
        ("avatar_color_top"@, colors.0),
        ("avatar_color_bottom"@, colors.1),
    ]
}

pub open spec fn entries_view(v: Seq<(String, String)>) -> Seq<(Seq<char>, Seq<char>)> {
    v.map_values(|e: (String, String)| (e.0@, e.1@))
}

fn push_entry(v: &mut Vec<(String, String)>, key: &str, value: String)
    ensures
        entries_view(final(v)@) == entries_view(old(v)@).push((key@, value@)),
{
    v.push((string_of(key), value));
    assert(entries_view(v@) =~= entries_view(old(v)@).push((key@, value@)));
}

/// The payload entries of a message (the table that `render_template`
/// hands the template as `payload`).
pub fn payload_entries(src: &PayloadSource) -> (r: Vec<(String, String)>)
    requires
        base64_len(src.image@.len() as int) <= usize::MAX,
    ensures
        entries_view(r@) == spec_payload(*src),
{
    let mut v: Vec<(String, String)> = Vec::new();
    push_entry(&mut v, "username", string_of(src.username.as_str()));
    if let Some(s) = &src.user_status {
        push_entry(&mut v, "user_status", string_of(s.as_str()));
    }
    if let Some(r) = &src.user_role {
        push_entry(&mut v, "user_role", string_of(r.as_str()));
    }
    push_entry(&mut v, "content", string_of(src.content.as_str()));
    push_entry(&mut v, "image", base64_encode(src.image.as_slice()));
    push_entry(&mut v, "avatar_initials", avatar_initials(src.username.as_str()));
    let colors = grad_colors(src.grad_id as u64);
    push_entry(&mut v, "avatar_color_top", string_of(colors.0));
    push_entry(&mut v, "avatar_color_bottom", string_of(colors.1));
    assert(entries_view(v@) =~= spec_payload(*src));
    v
}

// ---------------------------------------------------------------------------
// Image values
// ---------------------------------------------------------------------------

/// The encoded bytes of an image that a template passes around.
#[derive(Debug)]
pub struct SteelImage {
    data: Box<Vec<u8>>,
}

impl SteelImage {
    /// The bytes of the image.
    pub closed spec fn bytes(&self) -> Seq<u8> {
        self.data@
    }

    pub fn new(data: Box<Vec<u8>>) -> (r: Self)
        ensures
            r.bytes() == data@,
    {
        Self { data }
    }

    pub fn as_slice(&self) -> (r: &[u8])
        ensures
            r@ == self.bytes(),
    {
        self.data.as_slice()
    }

    pub fn is_empty(&self) -> (r: bool)
        ensures
            r == (self.bytes().len() == 0),
    {
        self.data.len() == 0
    }
}

impl Clone for SteelImage {
    /// A copy holding the same bytes.
    fn clone(&self) -> (res: Self)
        ensures
            res.bytes() == self.bytes(),
    {
        let mut copy: Vec<u8> = Vec::new();
        let mut i: usize = 0;
        while i < self.data.len()
            invariant
                0 <= i <= self.data@.len(),
                copy@ == self.data@.take(i as int),
            decreases self.data@.len() - i,
        {
            copy.push(self.data[i]);
            assert(self.data@.take(i + 1) == self.data@.take(i as int).push(self.data@[i as int]));
            i += 1;
        }
        assert(self.data@.take(self.data@.len() as int) == self.data@);
        SteelImage { data: Box::new(copy) }
    }
}

} // verus!
