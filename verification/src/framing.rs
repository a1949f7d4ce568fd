//! How a message is written in the wire format, and what reading it back
//! gives: a segment `type;length;data` whose length is the UTF-8 byte length
//! of its data is read back as exactly that data, a text layer written field
//! by field is read back as that layer, and a message written as such
//! segments, separated by commas, is read back as the message.
use vstd::prelude::*;
use crate::lexical::all_digits;
use crate::lexical::decimal;
use crate::lexical::char_width;
use crate::lexical::chars_for_bytes;
use crate::lexical::digits_value;
use crate::lexical::digit_value;
use crate::lexical::is_digit;
use crate::lexical::is_white_space;
use crate::lexical::lemma_utf8_len_concat;
use crate::lexical::lemma_utf8_len_push;
use crate::lexical::lemma_utf8_len_split;
use crate::lexical::parse_trimmed_integer;
use crate::lexical::trim;
use crate::lexical::trim_end;
use crate::lexical::trim_start;
use crate::lexical::utf8_len;
use crate::parser::MessageSpec;
use crate::parser::TextSpec;
use crate::parser::Alignment;
use crate::parser::VAlignment;
use crate::parser::ParseErrorSpec;
use crate::parser::spec_alignment;
use crate::parser::spec_parse_text;
use crate::parser::spec_field_int;
use crate::parser::spec_field_str;
use crate::parser::spec_field_float;
use crate::parser::spec_field_opt;
use crate::lexical::float_literal;
use crate::lexical::parse_integer;
use crate::parser::ParseOutcome;
use crate::parser::empty_message;
use crate::parser::lemma_first_index_of;
use crate::parser::spec_parse;
use crate::parser::spec_parse_from;
use crate::parser::spec_read_until;

verus! {

// ---------------------------------------------------------------------------
// Writing
// ---------------------------------------------------------------------------

/// The segment `type;length;data`, its length the UTF-8 byte length of the
/// data.
pub open spec fn segment(ty: nat, data: Seq<char>) -> Seq<char> {
    decimal(ty) + seq![';'] + decimal(utf8_len(data)) + seq![';'] + data
}

/// A text with no `;` in it.
pub open spec fn no_semicolon(s: Seq<char>) -> bool {
    forall|i: int| 0 <= i < s.len() ==> s[i] != ';'
}

/// A field followed by `;` and the rest of the text.
pub open spec fn field(f: Seq<char>, rest: Seq<char>) -> Seq<char> {
    f + seq![';'] + rest
}

/// An integer in decimal, with a `-` in front where it is negative.
pub open spec fn signed_decimal(v: int) -> Seq<char> {
    if v < 0 {
        seq!['-'] + decimal((-v) as nat)
    } else {
        decimal(v as nat)
    }
}

/// The alignment number of a layer: tens digit 1 for baseline, units digit
/// 1 for centre and 2 for right.
pub open spec fn alignment_code(h: Alignment, v: VAlignment) -> nat {
    (if v == VAlignment::Baseline {
        10nat
    } else {
        0nat
    }) + (if h == Alignment::Center {
        1nat
    } else if h == Alignment::Right {
        2nat
    } else {
        0nat
    })
}

/// An optional field: its text, or nothing.
pub open spec fn optional(o: Option<Seq<char>>) -> Seq<char> {
    match o {
        Some(s) => s,
        None => Seq::empty(),
    }
}

/// A text layer in the field order of the format:
/// `x;y;wrap_width;alignment;font_family;font_size;font_weight;color;bg_color;monospace_color;link_color;entities_key;text`.
pub open spec fn write_text(t: TextSpec) -> Seq<char> {
    field(
        signed_decimal(t.x),
        field(
            signed_decimal(t.y),
            field(
                signed_decimal(t.wrap_width),
                field(
                    decimal(alignment_code(t.alignment, t.valignment)),
                    field(
                        t.font_family,
                        field(
                            t.font_size,
                            field(
                                decimal(t.font_weight as nat),
                                field(
                                    t.color,
                                    field(
                                        optional(t.bg_color),
                                        field(
                                            optional(t.monospace_color),
                                            field(
                                                optional(t.link_color),
                                                field(optional(t.entities_key), t.text),
                                            ),
                                        ),
                                    ),
                                ),
                            ),
                        ),
                    ),
                ),
            ),
        ),
    )
}

/// An optional field that can be written: absent, or a non-empty text
/// with no `;`.
pub open spec fn writable_optional(o: Option<Seq<char>>) -> bool {
    match o {
        Some(s) => s.len() > 0 && no_semicolon(s),
        None => true,
    }
}

/// A text layer that the format can carry: coordinates within `i32`, a
/// weight within `u16`, a font size that is a float literal without
/// surrounding white space, and text fields other than the last without
/// `;` (an optional one present only when non-empty).
pub open spec fn writable_text(t: TextSpec) -> bool {
    &&& i32::MIN <= t.x <= i32::MAX
    &&& i32::MIN <= t.y <= i32::MAX
    &&& i32::MIN <= t.wrap_width <= i32::MAX
    &&& 0 <= t.font_weight <= u16::MAX
    &&& no_semicolon(t.font_family)
    &&& no_semicolon(t.font_size)
    &&& float_literal(t.font_size)
    &&& trim(t.font_size) == t.font_size
    &&& no_semicolon(t.color)
    &&& writable_optional(t.bg_color)
    &&& writable_optional(t.monospace_color)
    &&& writable_optional(t.link_color)
    &&& writable_optional(t.entities_key)
}

/// A part of a message: its SVG document (type 0), a text layer (type 1)
/// or its header (type 2).
pub enum Part {
    Svg(Seq<char>),
    Text(TextSpec),
    Header(Seq<char>),
}

pub open spec fn part_type(p: Part) -> nat {
    match p {
        Part::Svg(_) => 0,
        Part::Text(_) => 1,
        Part::Header(_) => 2,
    }
}

/// The data of the segment that carries a part.
pub open spec fn part_data(p: Part) -> Seq<char> {
    match p {
        Part::Svg(d) => d,
        Part::Text(t) => write_text(t),
        Part::Header(d) => d,
    }
}

/// A part that the format can carry.
pub open spec fn writable_part(p: Part) -> bool {
    &&& utf8_len(part_data(p)) <= usize::MAX
    &&& (p matches Part::Text(t) ==> writable_text(t))
}

/// The segments of the parts, separated by commas.
pub open spec fn write_parts(parts: Seq<Part>) -> Seq<char>
    decreases parts.len(),
{
    if parts.len() == 0 {
        Seq::empty()
    } else if parts.len() == 1 {
        segment(part_type(parts[0]), part_data(parts[0]))
    } else {
        segment(part_type(parts[0]), part_data(parts[0])) + seq![','] + write_parts(
            parts.drop_first(),
        )
    }
}

/// The message once a part is read into it: the SVG document or the header
/// replaced, or the text layer added after the others.
pub open spec fn read_part(acc: MessageSpec, p: Part) -> MessageSpec {
    match p {
        Part::Svg(d) => MessageSpec { svg: d, ..acc },
        Part::Text(t) => MessageSpec { texts: acc.texts.push(t), ..acc },
        Part::Header(d) => MessageSpec { header: d, ..acc },
    }
}

/// The message that reading the parts into `acc` gives.
pub open spec fn read_parts(parts: Seq<Part>, acc: MessageSpec) -> MessageSpec
    decreases parts.len(),
{
    if parts.len() == 0 {
        acc
    } else {
        read_parts(parts.drop_first(), read_part(acc, parts[0]))
    }
}

// ---------------------------------------------------------------------------
// Decimal numbers read back
// ---------------------------------------------------------------------------

proof fn lemma_decimal(n: nat)
    ensures
        decimal(n).len() > 0,
        all_digits(decimal(n)),
        digits_value(decimal(n)) == n,
    decreases n,
{
    if n < 10 {
        let d = decimal(n);
        let c = (n + 48) as char;
        assert(d.drop_last() =~= Seq::<char>::empty());
        assert(c as int == n + 48);
        assert(digit_value(d.last()) == n);
        assert(digits_value(d.drop_last()) == 0);
        assert(digits_value(d) == n);
    } else {
        lemma_decimal(n / 10);
        let d = decimal(n);
        assert(d.drop_last() == decimal(n / 10));
        let c = ((n % 10) + 48) as char;
        assert(d.last() == c);
        assert(c as int == (n % 10) + 48);
        assert(digit_value(d.last()) == n % 10);
        assert(digits_value(d) == digits_value(decimal(n / 10)) * 10 + n % 10);
        assert((n / 10) * 10 + n % 10 == n);
        assert forall|i: int| 0 <= i < d.len() implies is_digit(#[trigger] d[i]) by {
            if i < d.len() - 1 {
                assert(d[i] == decimal(n / 10)[i]);
            }
        }
    }
}

proof fn lemma_digits_not_white(s: Seq<char>, i: int)
    requires
        all_digits(s),
        0 <= i < s.len(),
    ensures
        !is_white_space(s[i]),
        s[i] != ';',
        s[i] != '+',
        s[i] != '-',
{
    assert(is_digit(s[i]));
}

proof fn lemma_decimal_trimmed(n: nat)
    ensures
        trim(decimal(n)) == decimal(n),
{
    lemma_decimal(n);
    let d = decimal(n);
    lemma_digits_not_white(d, 0);
    lemma_digits_not_white(d, d.len() - 1);
    assert(trim_start(d) == d);
    assert(trim_end(d) == d);
}

/// `decimal(n)` reads back as `n` wherever `n` is in range.
pub proof fn lemma_decimal_parses(n: nat, min: int, max: int)
    requires
        min <= n <= max,
    ensures
        parse_trimmed_integer(decimal(n), min, max) == Some(n as int),
{
    lemma_decimal(n);
    lemma_decimal_trimmed(n);
    lemma_digits_not_white(decimal(n), 0);
}

proof fn lemma_read_decimal(n: nat, rest: Seq<char>)
    ensures
        spec_read_until(decimal(n) + seq![';'] + rest, ';') == Some((decimal(n), rest)),
{
    lemma_decimal(n);
    let d = decimal(n);
    let s = d + seq![';'] + rest;
    assert forall|j: int| 0 <= j < d.len() implies s[j] != ';' by {
        assert(s[j] == d[j]);
        lemma_digits_not_white(d, j);
    }
    assert(s[d.len() as int] == ';');
    lemma_first_index_of(s, ';', d.len() as int);
    assert(s.take(d.len() as int) == d);
    assert(s.skip(d.len() as int + 1) == rest);
}

// ---------------------------------------------------------------------------
// Byte lengths
// ---------------------------------------------------------------------------

proof fn lemma_chars_for_own_bytes(d: Seq<char>, rest: Seq<char>)
    ensures
        chars_for_bytes(d + rest, utf8_len(d) as int) == Some(d.len() as int),
    decreases d.len(),
{
    if d.len() == 0 {
        assert(vstd::utf8::encode_utf8(d) =~= Seq::<u8>::empty());
    } else {
        let s = d + rest;
        lemma_utf8_len_split(d, 1);
        assert(d.take(1) == seq![d[0]]);
        lemma_utf8_len_push(Seq::<char>::empty(), d[0]);
        assert(Seq::<char>::empty().push(d[0]) == seq![d[0]]);
        assert(vstd::utf8::encode_utf8(Seq::<char>::empty()) =~= Seq::<u8>::empty());
        assert(utf8_len(d) == char_width(d[0]) + utf8_len(d.skip(1)));
        assert(s.drop_first() == d.skip(1) + rest);
        assert(s[0] == d[0]);
        lemma_chars_for_own_bytes(d.skip(1), rest);
        vstd::utf8::char_is_scalar(d[0]);
        assert(char_width(d[0]) >= 1);
    }
}

// ---------------------------------------------------------------------------
// Text layers read back
// ---------------------------------------------------------------------------

proof fn lemma_field_read(f: Seq<char>, rest: Seq<char>)
    requires
        no_semicolon(f),
    ensures
        spec_read_until(field(f, rest), ';') == Some((f, rest)),
{
    let s = field(f, rest);
    assert forall|j: int| 0 <= j < f.len() implies s[j] != ';' by {
        assert(s[j] == f[j]);
    }
    assert(s[f.len() as int] == ';');
    lemma_first_index_of(s, ';', f.len() as int);
    assert(s.take(f.len() as int) =~= f);
    assert(s.skip(f.len() as int + 1) =~= rest);
}

proof fn lemma_decimal_no_semicolon(n: nat)
    ensures
        no_semicolon(decimal(n)),
{
    lemma_decimal(n);
    assert forall|i: int| 0 <= i < decimal(n).len() implies decimal(n)[i] != ';' by {
        lemma_digits_not_white(decimal(n), i);
    }
}

proof fn lemma_signed_decimal(v: int, min: int, max: int)
    requires
        min <= v <= max,
        min < 0,
    ensures
        parse_trimmed_integer(signed_decimal(v), min, max) == Some(v),
        no_semicolon(signed_decimal(v)),
{
    if v >= 0 {
        lemma_decimal_parses(v as nat, min, max);
        lemma_decimal_no_semicolon(v as nat);
    } else {
        let n = (-v) as nat;
        let d = decimal(n);
        let s = signed_decimal(v);
        lemma_decimal(n);
        lemma_decimal_no_semicolon(n);
        assert(s =~= seq!['-'] + d);
        lemma_digits_not_white(d, d.len() - 1);
        assert(s.last() == d.last());
        assert(!is_white_space(s[0]));
        assert(trim_start(s) == s);
        assert(trim_end(s) == s);
        assert(s.drop_first() =~= d);
        assert(parse_integer(s, min, max) == Some(v));
        assert forall|i: int| 0 <= i < s.len() implies s[i] != ';' by {
            if i > 0 {
                assert(s[i] == d[i - 1]);
            }
        }
    }
}

proof fn lemma_int_field(v: int, min: int, max: int, rest: Seq<char>)
    requires
        min <= v <= max,
        min < 0,
    ensures
        spec_field_int(field(signed_decimal(v), rest), min, max) == Ok::<(int, Seq<char>), ParseErrorSpec>((v, rest)),
{
    lemma_signed_decimal(v, min, max);
    lemma_field_read(signed_decimal(v), rest);
}

proof fn lemma_nat_field(n: nat, min: int, max: int, rest: Seq<char>)
    requires
        min <= n <= max,
    ensures
        spec_field_int(field(decimal(n), rest), min, max) == Ok::<(int, Seq<char>), ParseErrorSpec>((n as int, rest)),
{
    lemma_decimal_parses(n, min, max);
    lemma_decimal_no_semicolon(n);
    lemma_field_read(decimal(n), rest);
}

proof fn lemma_optional_field(o: Option<Seq<char>>, rest: Seq<char>)
    requires
        writable_optional(o),
    ensures
        spec_field_opt(field(optional(o), rest)) == (o, rest),
{
    lemma_field_read(optional(o), rest);
}

proof fn lemma_alignment_code(h: Alignment, v: VAlignment)
    ensures
        spec_alignment(alignment_code(h, v) as int) == (h, v),
        alignment_code(h, v) <= i32::MAX,
{
}

/// A text layer that the format can carry, written field by field, is read
/// back as that layer.
pub proof fn lemma_text_read_back(t: TextSpec)
    requires
        writable_text(t),
    ensures
        spec_parse_text(write_text(t)) == Ok::<TextSpec, ParseErrorSpec>(t),
{
    let imin = i32::MIN as int;
    let imax = i32::MAX as int;
    let code = alignment_code(t.alignment, t.valignment);
    let d12 = field(optional(t.entities_key), t.text);
    let d11 = field(optional(t.link_color), d12);
    let d10 = field(optional(t.monospace_color), d11);
    let d9 = field(optional(t.bg_color), d10);
    let d8 = field(t.color, d9);
    let d7 = field(decimal(t.font_weight as nat), d8);
    let d6 = field(t.font_size, d7);
    let d5 = field(t.font_family, d6);
    let d4 = field(decimal(code), d5);
    let d3 = field(signed_decimal(t.wrap_width), d4);
    let d2 = field(signed_decimal(t.y), d3);
    let d1 = field(signed_decimal(t.x), d2);
    assert(write_text(t) == d1);
    lemma_int_field(t.x, imin, imax, d2);
    lemma_int_field(t.y, imin, imax, d3);
    lemma_int_field(t.wrap_width, imin, imax, d4);
    lemma_alignment_code(t.alignment, t.valignment);
    lemma_nat_field(code, imin, imax, d5);
    lemma_field_read(t.font_family, d6);
    lemma_field_read(t.font_size, d7);
    lemma_nat_field(t.font_weight as nat, 0, u16::MAX as int, d8);
    lemma_field_read(t.color, d9);
    lemma_optional_field(t.bg_color, d10);
    lemma_optional_field(t.monospace_color, d11);
    lemma_optional_field(t.link_color, d12);
    lemma_optional_field(t.entities_key, t.text);
    assert(spec_field_str(d5) == Ok::<(Seq<char>, Seq<char>), ParseErrorSpec>((t.font_family, d6)));
    assert(spec_field_float(d6) == Ok::<(Seq<char>, Seq<char>), ParseErrorSpec>((t.font_size, d7)));
    assert(spec_field_str(d8) == Ok::<(Seq<char>, Seq<char>), ParseErrorSpec>((t.color, d9)));
}

// ---------------------------------------------------------------------------
// Segments read back
// ---------------------------------------------------------------------------

/// `after` without one leading comma.
pub open spec fn skip_comma(after: Seq<char>) -> Seq<char> {
    if after.len() > 0 && after[0] == ',' {
        after.drop_first()
    } else {
        after
    }
}

proof fn lemma_parse_step(
    s: Seq<char>,
    acc: MessageSpec,
    t: Seq<char>,
    s1: Seq<char>,
    l: Seq<char>,
    s2: Seq<char>,
    p: Part,
    len: int,
    k: int,
)
    requires
        s.len() > 0,
        spec_read_until(s, ';') == Some((t, s1)),
        spec_read_until(s1, ';') == Some((l, s2)),
        parse_trimmed_integer(t, i32::MIN as int, i32::MAX as int) == Some(part_type(p) as int),
        parse_trimmed_integer(l, 0, usize::MAX as int) == Some(len),
        utf8_len(s2) >= len,
        chars_for_bytes(s2, len) == Some(k),
        s2.take(k) == part_data(p),
        p matches Part::Text(tx) ==> spec_parse_text(part_data(p)) == Ok::<TextSpec, ParseErrorSpec>(tx),
    ensures
        spec_parse_from(s, acc) == spec_parse_from(skip_comma(s2.skip(k)), read_part(acc, p)),
{
}

/// Reading the segment of a part from the front of a text reads the part
/// into the message and goes on with the text after the segment's comma,
/// or ends the message where nothing follows.
pub proof fn lemma_segment_read(p: Part, follows: Option<Seq<char>>, acc: MessageSpec)
    requires
        writable_part(p),
    ensures
        match follows {
            Some(rest) => spec_parse_from(segment(part_type(p), part_data(p)) + seq![','] + rest, acc)
                == spec_parse_from(rest, read_part(acc, p)),
            None => spec_parse_from(segment(part_type(p), part_data(p)), acc) == ParseOutcome::Parsed(
                read_part(acc, p),
            ),
        },
{
    let ty = part_type(p);
    let d = part_data(p);
    let tail: Seq<char> = match follows {
        Some(rest) => seq![','] + rest,
        None => Seq::empty(),
    };
    let s = segment(ty, d) + tail;
    let s1 = decimal(utf8_len(d)) + seq![';'] + (d + tail);
    let s2 = d + tail;
    assert(s =~= decimal(ty) + seq![';'] + s1);
    lemma_read_decimal(ty, s1);
    lemma_read_decimal(utf8_len(d), s2);
    lemma_decimal_parses(ty, i32::MIN as int, i32::MAX as int);
    lemma_decimal_parses(utf8_len(d), 0, usize::MAX as int);
    lemma_utf8_len_concat(d, tail);
    lemma_chars_for_own_bytes(d, tail);
    assert(s2.take(d.len() as int) =~= d);
    assert(s2.skip(d.len() as int) =~= tail);
    lemma_decimal(ty);
    if let Part::Text(tx) = p {
        lemma_text_read_back(tx);
    }
    lemma_parse_step(s, acc, decimal(ty), s1, decimal(utf8_len(d)), s2, p, utf8_len(d) as int, d.len() as int);
    match follows {
        Some(rest) => {
            assert(skip_comma(tail) =~= rest);
            assert(segment(ty, d) + seq![','] + rest =~= s);
        },
        None => {
            assert(skip_comma(tail) =~= Seq::<char>::empty());
            assert(segment(ty, d) + tail =~= segment(ty, d));
        },
    }
}

/// A message written as the segments of its parts, separated by commas, is
/// read back as the message those parts make: each later SVG document or
/// header replaces an earlier one, and the text layers come in order.
pub proof fn lemma_parts_read_back(parts: Seq<Part>, acc: MessageSpec)
    requires
        forall|i: int| 0 <= i < parts.len() ==> writable_part(#[trigger] parts[i]),
    ensures
        spec_parse_from(write_parts(parts), acc) == ParseOutcome::Parsed(read_parts(parts, acc)),
    decreases parts.len(),
{
    if parts.len() == 0 {
        assert(write_parts(parts) == Seq::<char>::empty());
        assert(read_parts(parts, acc) == acc);
    } else {
        let p = parts[0];
        assert(writable_part(parts[0]));
        let next = read_part(acc, p);
        if parts.len() == 1 {
            lemma_segment_read(p, None, acc);
            assert(parts.drop_first().len() == 0);
            assert(read_parts(parts.drop_first(), next) == next);
            assert(read_parts(parts, acc) == read_parts(parts.drop_first(), next));
            assert(write_parts(parts) == segment(part_type(p), part_data(p)));
        } else {
            let rest = parts.drop_first();
            assert forall|i: int| 0 <= i < rest.len() implies writable_part(#[trigger] rest[i]) by {
                assert(rest[i] == parts[i + 1]);
            }
            lemma_segment_read(p, Some(write_parts(rest)), acc);
            lemma_parts_read_back(rest, next);
            assert(read_parts(parts, acc) == read_parts(rest, next));
            assert(write_parts(parts) == segment(part_type(p), part_data(p)) + seq![','] + write_parts(rest));
        }
    }
}

/// The parse of a whole message written as the segments of its parts.
pub proof fn lemma_message_read_back(parts: Seq<Part>)
    requires
        forall|i: int| 0 <= i < parts.len() ==> writable_part(#[trigger] parts[i]),
    ensures
        spec_parse(write_parts(parts)) == ParseOutcome::Parsed(read_parts(parts, empty_message())),
{
    lemma_parts_read_back(parts, empty_message());
}

} // verus!
