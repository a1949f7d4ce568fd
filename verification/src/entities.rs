//! From message entities (`bold`, `url`, ...) to styled ranges of text:
//! the spans that a template's `text` node receives, and the style pushes
//! with which a text layer is laid out. Ranges count UTF-8 bytes.
use vstd::prelude::*;
use crate::lexical::str_chars;
use crate::lexical::str_equals;
use crate::lexical::string_of;
use crate::lexical::utf8_len;
use crate::lexical::count_utf8;
use crate::lexical::range_equals;
use crate::json::JsonValue;
use crate::json::spec_get_str;
use crate::json::spec_get_u64;
use crate::color::Rgba8;
use crate::color::spec_lenient_rgba;
use crate::color::lenient_rgba;
use crate::parser::TextEntity;
use crate::parser::TextMessage;
use crate::parser::Alignment;
use crate::parser::opt_view;
use crate::primitives::TextAlign;

verus! {

// ---------------------------------------------------------------------------
// Spans of a template's text node
// ---------------------------------------------------------------------------

/// The style that an entity lays over its range of a text node. `bold`
/// stands for the bold font weight.
#[derive(Debug, Clone)]
pub struct EntitySpan {
    pub start: usize,
    pub end: usize,
    pub bold: bool,
    pub italic: Option<bool>,
    pub underline: Option<bool>,
    pub strikethrough: Option<bool>,
    pub font_family: Option<String>,
    pub color: Option<Rgba8>,
}

pub struct EntitySpanSpec {
    pub start: int,
    pub end: int,
    pub bold: bool,
    pub italic: Option<bool>,
    pub underline: Option<bool>,
    pub strikethrough: Option<bool>,
    pub font_family: Option<Seq<char>>,
    pub color: Option<Rgba8>,
}

impl View for EntitySpan {
    type V = EntitySpanSpec;

    open spec fn view(&self) -> EntitySpanSpec {
        EntitySpanSpec {
            start: self.start as int,
            end: self.end as int,
            bold: self.bold,
            italic: self.italic,
            underline: self.underline,
            strikethrough: self.strikethrough,
            font_family: opt_view(self.font_family),
            color: self.color,
        }
    }
}

/// The entity kinds that colour and underline their text.
pub open spec fn is_link_kind(t: Seq<char>) -> bool {
    ||| t == "text_link"@
    ||| t == "url"@
    ||| t == "mention"@
    ||| t == "hashtag"@
    ||| t == "cashtag"@
    ||| t == "email"@
    ||| t == "phone_number"@
    ||| t == "text_mention"@
}

/// The span of an entity of kind `t` over `start..end`: `bold` sets the
/// bold weight, `italic`, `underline` and `strikethrough` their flags,
/// `code` and `pre` the code font family, the link kinds the link colour
/// and an underline, `bot_command` the link colour alone; any other kind
/// styles nothing.
pub open spec fn styled_span(
    t: Seq<char>,
    start: int,
    end: int,
    link: Rgba8,
    code_family: Seq<char>,
) -> EntitySpanSpec {
    let plain = EntitySpanSpec {
        start,
        end,
        bold: false,
        italic: None,
        underline: None,
        strikethrough: None,
        font_family: None,
        color: None,
    };
    if t == "bold"@ {
        EntitySpanSpec { bold: true, ..plain }
    } else if t == "italic"@ {
        EntitySpanSpec { italic: Some(true), ..plain }
    } else if t == "underline"@ {
        EntitySpanSpec { underline: Some(true), ..plain }
    } else if t == "strikethrough"@ {
        EntitySpanSpec { strikethrough: Some(true), ..plain }
    } else if t == "code"@ || t == "pre"@ {
        EntitySpanSpec { font_family: Some(code_family), ..plain }
    } else if is_link_kind(t) {
        EntitySpanSpec { color: Some(link), underline: Some(true), ..plain }
    } else if t == "bot_command"@ {
        EntitySpanSpec { color: Some(link), ..plain }
    } else {
        plain
    }
}

/// The lengths and first letters of the entity kinds, which tell them apart.
proof fn lemma_kind_names()
    ensures
        "bold"@.len() == 4 && "bold"@[0] == 'b',
        "italic"@.len() == 6 && "italic"@[0] == 'i',
        "underline"@.len() == 9 && "underline"@[0] == 'u',
        "strikethrough"@.len() == 13 && "strikethrough"@[0] == 's',
        "code"@.len() == 4 && "code"@[0] == 'c',
        "pre"@.len() == 3 && "pre"@[0] == 'p',
        "text_link"@.len() == 9 && "text_link"@[0] == 't',
        "url"@.len() == 3 && "url"@[0] == 'u',
        "mention"@.len() == 7 && "mention"@[0] == 'm',
        "hashtag"@.len() == 7 && "hashtag"@[0] == 'h',
        "cashtag"@.len() == 7 && "cashtag"@[0] == 'c',
        "email"@.len() == 5 && "email"@[0] == 'e',
        "phone_number"@.len() == 12 && "phone_number"@[0] == 'p',
        "text_mention"@.len() == 12 && "text_mention"@[0] == 't',
        "bot_command"@.len() == 11 && "bot_command"@[0] == 'b',
{
    reveal_strlit("bold");
    reveal_strlit("italic");
    reveal_strlit("underline");
    reveal_strlit("strikethrough");
    reveal_strlit("code");
    reveal_strlit("pre");
    reveal_strlit("text_link");
    reveal_strlit("url");
    reveal_strlit("mention");
    reveal_strlit("hashtag");
    reveal_strlit("cashtag");
    reveal_strlit("email");
    reveal_strlit("phone_number");
    reveal_strlit("text_mention");
    reveal_strlit("bot_command");
}

/// What each entity kind does to its span of a text node, over all ranges,
/// link colours and code fonts: `bold` sets the bold weight alone,
/// `italic`, `underline` and `strikethrough` set their own flag alone,
/// `code` and `pre` set the code font alone, each link kind (`text_link`,
/// `url`, `mention`, `hashtag`, `cashtag`, `email`, `phone_number`,
/// `text_mention`) gives the link colour and an underline and nothing else,
/// and `bot_command` the link colour alone. The span keeps the range.
pub proof fn law_styled_kinds(t: Seq<char>, start: int, end: int, link: Rgba8, code_family: Seq<char>)
    ensures
        ({
            let s = styled_span(t, start, end, link, code_family);
            &&& s.start == start && s.end == end
            &&& t == "bold"@ ==> (s.bold && s.italic is None && s.underline is None
                && s.strikethrough is None && s.font_family is None && s.color is None)
            &&& t == "italic"@ ==> (!s.bold && s.italic == Some(true) && s.underline is None
                && s.strikethrough is None && s.font_family is None && s.color is None)
            &&& t == "underline"@ ==> (!s.bold && s.italic is None && s.underline == Some(true)
                && s.strikethrough is None && s.font_family is None && s.color is None)
            &&& t == "strikethrough"@ ==> (!s.bold && s.italic is None && s.underline is None
                && s.strikethrough == Some(true) && s.font_family is None && s.color is None)
            &&& (t == "code"@ || t == "pre"@) ==> (!s.bold && s.italic is None && s.underline is None
                && s.strikethrough is None && s.font_family == Some(code_family) && s.color is None)
            &&& (t == "text_link"@ || t == "url"@ || t == "mention"@ || t == "hashtag"@
                || t == "cashtag"@ || t == "email"@ || t == "phone_number"@ || t == "text_mention"@)
                ==> (!s.bold && s.italic is None && s.underline == Some(true)
                && s.strikethrough is None && s.font_family is None && s.color == Some(link))
            &&& t == "bot_command"@ ==> (!s.bold && s.italic is None && s.underline is None
                && s.strikethrough is None && s.font_family is None && s.color == Some(link))
        }),
{
    lemma_kind_names();
}

/// The kind of a JSON entity (`""` without a string `type`).
pub open spec fn json_kind(e: JsonValue) -> Seq<char> {
    match spec_get_str(e, "type"@) {
        Some(t) => t,
        None => Seq::empty(),
    }
}

/// The offset of a JSON entity (0 without a non-negative integer `offset`).
pub open spec fn json_offset(e: JsonValue) -> int {
    match spec_get_u64(e, "offset"@) {
        Some(o) => (o as usize) as int,
        None => 0,
    }
}

/// The length of a JSON entity (0 without a non-negative integer `length`).
pub open spec fn json_length(e: JsonValue) -> int {
    match spec_get_u64(e, "length"@) {
        Some(l) => (l as usize) as int,
        None => 0,
    }
}

/// Whether the range of entity `e`, shifted by `base`, fits in a `usize`.
pub open spec fn span_fits(e: JsonValue, base: int) -> bool {
    base + json_offset(e) + json_length(e) <= usize::MAX
}

/// The span of entity `e`, shifted by `base` bytes.
pub open spec fn json_span(e: JsonValue, base: int, link: Rgba8, code_family: Seq<char>) -> EntitySpanSpec {
    let start = base + json_offset(e);
    styled_span(json_kind(e), start, start + json_length(e), link, code_family)
}

/// Does `pat` occur in `text` at character index `i`?
pub open spec fn occurs_at(text: Seq<char>, pat: Seq<char>, i: int) -> bool {
    0 <= i && i + pat.len() <= text.len() && text.subrange(i, i + pat.len()) == pat
}

/// The first character index at or after `i` where `pat` occurs in `text`.
pub open spec fn find_from(text: Seq<char>, pat: Seq<char>, i: int) -> Option<int>
    decreases text.len() + 1 - i,
{
    if i < 0 || i + pat.len() > text.len() {
        None
    } else if occurs_at(text, pat, i) {
        Some(i)
    } else {
        find_from(text, pat, i + 1)
    }
}

proof fn lemma_find_from_first(text: Seq<char>, pat: Seq<char>, k: int)
    requires
        0 <= k,
    ensures
        find_from(text, pat, k) matches Some(i) ==> k <= i && occurs_at(text, pat, i) && forall|j: int|
            k <= j < i ==> !#[trigger] occurs_at(text, pat, j),
        find_from(text, pat, k) is None ==> forall|j: int| k <= j ==> !#[trigger] occurs_at(text, pat, j),
    decreases text.len() + 1 - k,
{
    if k + pat.len() <= text.len() && !occurs_at(text, pat, k) {
        lemma_find_from_first(text, pat, k + 1);
    }
}

/// A search finds the first place where the pattern occurs: where it gives
/// index `i`, the pattern occurs at `i` and at no earlier index; where it
/// gives nothing, the pattern occurs nowhere.
pub proof fn law_find_first(text: Seq<char>, pat: Seq<char>)
    ensures
        find_from(text, pat, 0) matches Some(i) ==> occurs_at(text, pat, i) && forall|j: int|
            0 <= j < i ==> !#[trigger] occurs_at(text, pat, j),
        find_from(text, pat, 0) is None ==> forall|j: int| !#[trigger] occurs_at(text, pat, j),
{
    lemma_find_from_first(text, pat, 0);
}

/// `text.find(pat)` as a byte offset.
pub open spec fn spec_find(text: Seq<char>, pat: Seq<char>) -> Option<int> {
    match find_from(text, pat, 0) {
        Some(i) => Some(utf8_len(text.take(i)) as int),
        None => None,
    }
}

/// The spans of a text node for its entities: with `content` found in
/// `text` at byte offset `base`, one span per entity, shifted by `base`, in
/// the order of the entities; none when `content` does not occur in `text`.
pub open spec fn spec_entity_spans(
    text: Seq<char>,
    content: Seq<char>,
    entities: Seq<JsonValue>,
    link: Rgba8,
    code_family: Seq<char>,
) -> Seq<EntitySpanSpec> {
    match spec_find(text, content) {
        None => Seq::empty(),
        Some(base) => Seq::new(entities.len(), |i: int| json_span(entities[i], base, link, code_family)),
    }
}

/// Whether every entity range fits in a `usize` once shifted to where
/// `content` occurs in `text` (else adding the offsets overflows).
pub open spec fn entity_spans_fit(text: Seq<char>, content: Seq<char>, entities: Seq<JsonValue>) -> bool {
    match spec_find(text, content) {
        None => true,
        Some(base) => forall|i: int| 0 <= i < entities.len() ==> span_fits(#[trigger] entities[i], base),
    }
}

/// Character index of the first occurrence of `pat` in `text`.
fn find_chars(text: &Vec<char>, pat: &str) -> (r: Option<usize>)
    ensures
        match find_from(text@, pat@, 0) {
            Some(i) => r == Some(i as usize),
            None => r is None,
        },
        r matches Some(i) ==> i + pat@.len() <= text.len() && find_from(text@, pat@, 0) == Some(
            i as int,
        ),
{
    let m = str_chars(pat).len();
    if m > text.len() {
        return None;
    }
    let last = text.len() - m;
    let mut i: usize = 0;
    loop
        invariant
            m == pat@.len(),
            last == text.len() - m,
            0 <= i <= last,
            find_from(text@, pat@, 0) == find_from(text@, pat@, i as int),
        decreases last - i,
    {
        if range_equals(text, i, i + m, pat) {
            return Some(i);
        }
        if i == last {
            assert(find_from(text@, pat@, i + 1) is None);
            return None;
        }
        i += 1;
    }
}

fn kind_of(e: &JsonValue) -> (r: String)
    ensures
        r@ == json_kind(*e),
{
    proof {
        reveal_strlit("type");
    }
    match e.get("type") {
        Some(v) => match v.as_str() {
            Some(t) => string_of(t),
            None => String::new(),
        },
        None => String::new(),
    }
}

fn u64_field(e: &JsonValue, key: &str) -> (r: usize)
    ensures
        r == match spec_get_u64(*e, key@) {
            Some(o) => o as usize,
            None => 0usize,
        },
{
    match e.get(key) {
        Some(v) => match v.as_u64() {
            Some(o) => o as usize,
            None => 0,
        },
        None => 0,
    }
}

/// The span of an entity of kind `t` over `start..end`.
pub fn styled(t: &str, start: usize, end: usize, link: Rgba8, code_family: &str) -> (s: EntitySpan)
    ensures
        s@ == styled_span(t@, start as int, end as int, link, code_family@),
{
    let mut span = EntitySpan {
        start,
        end,
        bold: false,
        italic: None,
        underline: None,
        strikethrough: None,
        font_family: None,
        color: None,
    };
    if str_equals(t, "bold") {
        span.bold = true;
    } else if str_equals(t, "italic") {
        span.italic = Some(true);
    } else if str_equals(t, "underline") {
        span.underline = Some(true);
    } else if str_equals(t, "strikethrough") {
        span.strikethrough = Some(true);
    } else if str_equals(t, "code") || str_equals(t, "pre") {
        span.font_family = Some(string_of(code_family));
    } else if str_equals(t, "text_link") || str_equals(t, "url") || str_equals(t, "mention")
        || str_equals(t, "hashtag") || str_equals(t, "cashtag") || str_equals(t, "email")
        || str_equals(t, "phone_number") || str_equals(t, "text_mention") {
        span.color = Some(link);
        span.underline = Some(true);
    } else if str_equals(t, "bot_command") {
        span.color = Some(link);
    }
    span
}

/// The spans of a text node for its entities, telling apart the inputs on
/// which shifting a range overflows (`None`).
pub fn entity_spans_checked(
    text: &str,
    content: &str,
    entities: &Vec<JsonValue>,
    link: Rgba8,
    code_family: &str,
) -> (r: Option<Vec<EntitySpan>>)
    ensures
        entity_spans_fit(text@, content@, entities@) ==> (r matches Some(spans)
            && spans@.map_values(|s: EntitySpan| s@) == spec_entity_spans(
            text@,
            content@,
            entities@,
            link,
            code_family@,
        )),
        !entity_spans_fit(text@, content@, entities@) ==> r is None,
{
    proof {
        reveal_strlit("type");
        reveal_strlit("offset");
        reveal_strlit("length");
    }
    let chars = str_chars(text);
    let mut spans: Vec<EntitySpan> = Vec::new();
    let i = match find_chars(&chars, content) {
        Some(i) => i,
        None => {
            assert(spans@.map_values(|s: EntitySpan| s@) =~= Seq::<EntitySpanSpec>::empty());
            return Some(spans);
        },
    };
    let bytes = text.as_bytes();
    let total = bytes.len();
    proof {
        crate::lexical::lemma_utf8_len_split(chars@, i as int);
        assert(chars@.subrange(0, i as int) == chars@.take(i as int));
    }
    let base = count_utf8(&chars, 0, i);
    let ghost want = spec_entity_spans(text@, content@, entities@, link, code_family@);
    let mut k: usize = 0;
    while k < entities.len()
        invariant
            base as int == utf8_len(text@.take(i as int)),
            find_from(text@, content@, 0) == Some(i as int),
            want == Seq::new(
                entities@.len(),
                |j: int| json_span(entities@[j], base as int, link, code_family@),
            ),
            0 <= k <= entities.len(),
            spans@.map_values(|s: EntitySpan| s@) == want.take(k as int),
            forall|j: int| 0 <= j < k ==> span_fits(#[trigger] entities@[j], base as int),
        decreases entities.len() - k,
    {
        let e = &entities[k];
        let t = kind_of(e);
        let off = u64_field(e, "offset");
        let len = u64_field(e, "length");
        if off > usize::MAX - base || len > usize::MAX - base - off {
            assert(!span_fits(entities@[k as int], base as int));
            return None;
        }
        let start = base + off;
        let span = styled(t.as_str(), start, start + len, link, code_family);
        let ghost before = spans@.map_values(|s: EntitySpan| s@);
        let ghost sv = span@;
        spans.push(span);
        assert(spans@.map_values(|s: EntitySpan| s@) =~= before.push(sv));
        assert(want.take(k + 1) =~= want.take(k as int).push(want[k as int]));
        k += 1;
    }
    assert(want.take(entities.len() as int) == want);
    Some(spans)
}

/// The spans of a text node for its entities (the entity pass of the DSL's
/// `text`): none when `content` does not occur in `text`, else one span per
/// entity, shifted to where `content` first occurs.
pub fn entity_spans(
    text: &str,
    content: &str,
    entities: &Vec<JsonValue>,
    link: Rgba8,
    code_family: &str,
) -> (r: Vec<EntitySpan>)
    requires
        entity_spans_fit(text@, content@, entities@),
    ensures
        r@.map_values(|s: EntitySpan| s@) == spec_entity_spans(
            text@,
            content@,
            entities@,
            link,
            code_family@,
        ),
{
    match entity_spans_checked(text, content, entities, link, code_family) {
        Some(s) => s,
        None => {
            proof {
                assert(false);
            }
            Vec::new()
        },
    }
}

// ---------------------------------------------------------------------------
// Style pushes of a text layer
// ---------------------------------------------------------------------------

/// A style that a text layer pushes over a range of its text.
#[derive(Debug, Clone, Copy, PartialEq, Eq, Structural)]
pub enum StyleOp {
    Bold,
    Italic,
    Underline,
    Strikethrough,
    Monospace,
    Brush(Rgba8),
}

/// A style pushed over bytes `start..end` of a text layer.
#[derive(Debug, Clone, Copy, PartialEq, Eq, Structural)]
pub struct RangedStyle {
    pub start: usize,
    pub end: usize,
    pub op: StyleOp,
}

/// How a text layer is laid out and painted, apart from its glyphs.
#[derive(Debug, Clone)]
pub struct TextLayerPlan {
    pub color: Rgba8,
    pub max_width: Option<i32>,
    pub align: TextAlign,
    pub baseline: bool,
    pub background: Option<Rgba8>,
    pub styles: Vec<RangedStyle>,
}

/// The style pushes for one entity over bytes `start..end`.
pub open spec fn entity_ops(
    ty: Seq<char>,
    start: usize,
    end: usize,
    monospace_color: Option<Seq<char>>,
    link_color: Option<Seq<char>>,
) -> Seq<RangedStyle> {
    let at = |op: StyleOp| RangedStyle { start, end, op };
    if ty == "bold"@ {
        seq![at(StyleOp::Bold)]
    } else if ty == "italic"@ {
        seq![at(StyleOp::Italic)]
    } else if ty == "underline"@ {
        seq![at(StyleOp::Underline)]
    } else if ty == "strikethrough"@ {
        seq![at(StyleOp::Strikethrough)]
    } else if ty == "code"@ || ty == "pre"@ {
        match monospace_color {
            Some(c) => seq![at(StyleOp::Monospace), at(StyleOp::Brush(spec_lenient_rgba(c)))],
            None => seq![at(StyleOp::Monospace)],
        }
    } else if ty == "text_link"@ || ty == "url"@ {
        match link_color {
            Some(c) => seq![at(StyleOp::Underline), at(StyleOp::Brush(spec_lenient_rgba(c)))],
            None => seq![at(StyleOp::Underline)],
        }
    } else {
        Seq::empty()
    }
}

/// The style pushes of a layer's entities, in order; each range runs from
/// the entity's offset to its end, cut at the length of the text in bytes.
pub open spec fn spec_layer_ops(
    entities: Seq<TextEntity>,
    text_len: int,
    monospace_color: Option<Seq<char>>,
    link_color: Option<Seq<char>>,
) -> Seq<RangedStyle>
    decreases entities.len(),
{
    if entities.len() == 0 {
        Seq::empty()
    } else {
        let e = entities.last();
        let end = if e.offset + e.length < text_len {
            e.offset + e.length
        } else {
            text_len
        };
        spec_layer_ops(entities.drop_last(), text_len, monospace_color, link_color) + entity_ops(
            e.ty@,
            e.offset,
            end as usize,
            monospace_color,
            link_color,
        )
    }
}

/// What each entity kind pushes over `start..end` of a text layer, over all
/// ranges and colours: `bold`, `italic`, `underline` and `strikethrough`
/// push exactly one style of their own kind; `code` and `pre` push the
/// monospace style, then a brush of the layer's monospace colour where it
/// has one; `text_link` and `url` push an underline, then a brush of the
/// link colour where the layer has one; every other kind (`mention`,
/// `hashtag`, ...) pushes nothing.
pub proof fn law_entity_kind_ops(
    ty: Seq<char>,
    start: usize,
    end: usize,
    monospace_color: Option<Seq<char>>,
    link_color: Option<Seq<char>>,
)
    ensures
        ({
            let ops = entity_ops(ty, start, end, monospace_color, link_color);
            &&& ty == "bold"@ ==> ops == seq![RangedStyle { start, end, op: StyleOp::Bold }]
            &&& ty == "italic"@ ==> ops == seq![RangedStyle { start, end, op: StyleOp::Italic }]
            &&& ty == "underline"@ ==> ops == seq![RangedStyle { start, end, op: StyleOp::Underline }]
            &&& ty == "strikethrough"@ ==> ops == seq![
                RangedStyle { start, end, op: StyleOp::Strikethrough },
            ]
            &&& (ty == "code"@ || ty == "pre"@) ==> ops == match monospace_color {
                Some(c) => seq![
                    RangedStyle { start, end, op: StyleOp::Monospace },
                    RangedStyle { start, end, op: StyleOp::Brush(spec_lenient_rgba(c)) },
                ],
                None => seq![RangedStyle { start, end, op: StyleOp::Monospace }],
            }
            &&& (ty == "text_link"@ || ty == "url"@) ==> ops == match link_color {
                Some(c) => seq![
                    RangedStyle { start, end, op: StyleOp::Underline },
                    RangedStyle { start, end, op: StyleOp::Brush(spec_lenient_rgba(c)) },
                ],
                None => seq![RangedStyle { start, end, op: StyleOp::Underline }],
            }
            &&& (ty != "bold"@ && ty != "italic"@ && ty != "underline"@ && ty != "strikethrough"@
                && ty != "code"@ && ty != "pre"@ && ty != "text_link"@ && ty != "url"@) ==> ops.len() == 0
        }),
{
    lemma_kind_names();
}

/// The pushes of a layer are those of its entities, in order: the layer
/// with one more entity `e` pushes what it pushed before and then what `e`
/// pushes over `e.offset` to `e.offset + e.length`, cut at the byte length
/// of the text. So a layer whose only entity is italic pushes exactly one
/// italic style over that range.
pub proof fn law_layer_ops_append(
    entities: Seq<TextEntity>,
    e: TextEntity,
    text_len: int,
    monospace_color: Option<Seq<char>>,
    link_color: Option<Seq<char>>,
)
    requires
        0 <= text_len <= usize::MAX,
        e.offset + e.length <= usize::MAX,
    ensures
        ({
            let end: usize = if e.offset + e.length <= text_len {
                (e.offset + e.length) as usize
            } else {
                text_len as usize
            };
            &&& spec_layer_ops(entities.push(e), text_len, monospace_color, link_color)
                == spec_layer_ops(entities, text_len, monospace_color, link_color)
                + entity_ops(e.ty@, e.offset, end, monospace_color, link_color)
            &&& e.ty@ == "italic"@ ==> spec_layer_ops(seq![e], text_len, monospace_color, link_color)
                == seq![RangedStyle { start: e.offset, end, op: StyleOp::Italic }]
        }),
{
    let end = end_of(e, text_len);
    let ops = entity_ops(e.ty@, e.offset, end, monospace_color, link_color);
    assert(entities.push(e).drop_last() == entities);
    assert(entities.push(e).last() == e);
    assert(spec_layer_ops(entities.push(e), text_len, monospace_color, link_color)
        == spec_layer_ops(entities, text_len, monospace_color, link_color) + ops);
    assert(seq![e].drop_last() == Seq::<TextEntity>::empty());
    assert(seq![e].last() == e);
    assert(spec_layer_ops(seq![e], text_len, monospace_color, link_color)
        == spec_layer_ops(Seq::<TextEntity>::empty(), text_len, monospace_color, link_color) + ops);
    law_entity_kind_ops(e.ty@, e.offset, end, monospace_color, link_color);
    assert(Seq::<RangedStyle>::empty() + ops == ops);
}

spec fn end_of(e: TextEntity, text_len: int) -> usize {
    if e.offset + e.length <= text_len {
        (e.offset + e.length) as usize
    } else {
        text_len as usize
    }
}

pub open spec fn spec_text_align(a: Alignment) -> TextAlign {
    match a {
        Alignment::Left => TextAlign::Start,
        Alignment::Center => TextAlign::Center,
        Alignment::Right => TextAlign::End,
    }
}

/// Whether no entity's end overflows.
pub open spec fn entities_fit(entities: Seq<TextEntity>) -> bool {
    forall|i: int| 0 <= i < entities.len() ==> (#[trigger] entities[i]).offset + entities[i].length <= usize::MAX
}

fn push_brush(ops: &mut Vec<RangedStyle>, start: usize, end: usize, color: &Option<String>)
    ensures
        final(ops)@ == old(ops)@ + match opt_view(*color) {
            Some(c) => seq![RangedStyle { start, end, op: StyleOp::Brush(spec_lenient_rgba(c)) }],
            None => Seq::<RangedStyle>::empty(),
        },
{
    match color {
        Some(c) => {
            let b = lenient_rgba(c.as_str());
            ops.push(RangedStyle { start, end, op: StyleOp::Brush(b) });
        },
        None => {
            assert(old(ops)@ + Seq::<RangedStyle>::empty() =~= old(ops)@);
        },
    }
}

/// The plan of a text layer (`draw_text_layers` before it hands the text to
/// the layout engine): the colour, the wrap width when positive, the
/// alignment, whether it sits on its baseline, its background colour, and
/// one or two style pushes for each entity it knows.
pub fn text_layer_plan(entry: &TextMessage, entities: &Vec<TextEntity>) -> (p: TextLayerPlan)
    requires
        entities_fit(entities@),
    ensures
        p.color == spec_lenient_rgba(entry.color@),
        p.max_width == if entry.wrap_width > 0 {
            Some(entry.wrap_width)
        } else {
            None::<i32>
        },
        p.align == spec_text_align(entry.alignment),
        p.baseline == (entry.valignment == crate::parser::VAlignment::Baseline),
        p.background == match entry.bg_color {
            Some(c) => Some(spec_lenient_rgba(c@)),
            None => None::<Rgba8>,
        },
        p.styles@ == spec_layer_ops(
            entities@,
            utf8_len(entry.text@) as int,
            opt_view(entry.monospace_color),
            opt_view(entry.link_color),
        ),
{
    let color = lenient_rgba(entry.color.as_str());
    let text_len = entry.text.as_str().as_bytes().len();
    let mut styles: Vec<RangedStyle> = Vec::new();
    let mut i: usize = 0;
    while i < entities.len()
        invariant
            entities_fit(entities@),
            text_len == utf8_len(entry.text@),
            0 <= i <= entities.len(),
            styles@ == spec_layer_ops(
                entities@.take(i as int),
                text_len as int,
                opt_view(entry.monospace_color),
                opt_view(entry.link_color),
            ),
        decreases entities.len() - i,
    {
        let e = &entities[i];
        assert(entities@.take(i + 1).drop_last() == entities@.take(i as int));
        assert(entities@.take(i + 1).last() == entities@[i as int]);
        assert(e.offset + e.length <= usize::MAX);
        let sum = e.offset + e.length;
        let end = if sum < text_len {
            sum
        } else {
            text_len
        };
        let start = e.offset;
        let ty = e.ty.as_str();
        let ghost before = styles@;
        if str_equals(ty, "bold") {
            styles.push(RangedStyle { start, end, op: StyleOp::Bold });
        } else if str_equals(ty, "italic") {
            styles.push(RangedStyle { start, end, op: StyleOp::Italic });
        } else if str_equals(ty, "underline") {
            styles.push(RangedStyle { start, end, op: StyleOp::Underline });
        } else if str_equals(ty, "strikethrough") {
            styles.push(RangedStyle { start, end, op: StyleOp::Strikethrough });
        } else if str_equals(ty, "code") || str_equals(ty, "pre") {
            styles.push(RangedStyle { start, end, op: StyleOp::Monospace });
            push_brush(&mut styles, start, end, &entry.monospace_color);
        } else if str_equals(ty, "text_link") || str_equals(ty, "url") {
            styles.push(RangedStyle { start, end, op: StyleOp::Underline });
            push_brush(&mut styles, start, end, &entry.link_color);
        }
        assert(styles@ =~= before + entity_ops(
            e.ty@,
            start,
            end,
            opt_view(entry.monospace_color),
            opt_view(entry.link_color),
        ));
        i += 1;
    }
    assert(entities@.take(entities.len() as int) == entities@);
    let max_width = if entry.wrap_width > 0 {
        Some(entry.wrap_width)
    } else {
        None
    };
    let align = match entry.alignment {
        Alignment::Left => TextAlign::Start,
        Alignment::Center => TextAlign::Center,
        Alignment::Right => TextAlign::End,
    };
    let baseline = match entry.valignment {
        crate::parser::VAlignment::Baseline => true,
        crate::parser::VAlignment::Top => false,
    };
    let background = match &entry.bg_color {
        Some(c) => {
            Some(lenient_rgba(c.as_str()))
        },
        None => None,
    };
    TextLayerPlan { color, max_width, align, baseline, background, styles }
}

} // verus!
