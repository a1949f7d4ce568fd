use generator::color::fn_hex;
use generator::color::lenient_rgba;
use generator::color::parse_hex_color;
use generator::color::parse_hex_color_checked;
use generator::color::parse_hex_color_lenient;
use generator::color::Rgba8;

#[test]
fn hex_6_char_no_hash() {
    let c = parse_hex_color("FF0000").unwrap();
    assert_eq!(c, Rgba8::rgba(255, 0, 0, 255));
}

#[test]
fn hex_6_char_with_hash() {
    let c = parse_hex_color("#00FF00").unwrap();
    assert_eq!(c, Rgba8::rgba(0, 255, 0, 255));
}

#[test]
fn hex_8_char_with_alpha() {
    let c = parse_hex_color("#0000FF80").unwrap();
    assert_eq!(c, Rgba8::rgba(0, 0, 255, 128));
}

#[test]
fn hex_8_char_no_hash() {
    let c = parse_hex_color("AABBCCDD").unwrap();
    assert_eq!(c, Rgba8::rgba(0xAA, 0xBB, 0xCC, 0xDD));
}

#[test]
fn hex_invalid_too_short() {
    assert!(parse_hex_color("FFF").is_none());
}

#[test]
fn hex_invalid_too_long() {
    assert!(parse_hex_color("AABBCCDDEEFF").is_none());
}

#[test]
fn hex_invalid_chars() {
    assert!(parse_hex_color("ZZZZZZ").is_none());
}

#[test]
fn hex_empty() {
    assert!(parse_hex_color("").is_none());
}

#[test]
fn hex_case_insensitive() {
    let upper = parse_hex_color("AABB00").unwrap();
    let lower = parse_hex_color("aabb00").unwrap();
    assert_eq!(upper, lower);
}

#[test]
fn fn_hex_valid() {
    let c = fn_hex("#FF0000").unwrap();
    assert_eq!(c, Rgba8::rgba(255, 0, 0, 255));
}

#[test]
fn fn_hex_invalid() {
    let err = fn_hex("ZZZ");
    assert!(err.is_err());
}

#[test]
fn fn_hex_error_message_names_the_input() {
    assert_eq!(fn_hex("ZZZ").unwrap_err(), "hex: invalid hex color \"ZZZ\"");
}

#[test]
fn hex_several_hashes_are_skipped() {
    assert_eq!(parse_hex_color("##102030").unwrap(), Rgba8::rgba(0x10, 0x20, 0x30, 255));
}

#[test]
fn hex_plus_sign_channel() {
    // `u8::from_str_radix` accepts a leading `+` on a two-byte channel.
    assert_eq!(parse_hex_color("+F0000").unwrap(), Rgba8::rgba(0x0F, 0, 0, 255));
}

#[test]
fn hex_cut_character_is_told_apart() {
    // Byte 2 falls inside the two-byte `é`: the checked reading reports it.
    assert_eq!(parse_hex_color_checked("Aé000"), None);
    assert_eq!(parse_hex_color_checked("ZZ0000"), Some(None));
    assert_eq!(parse_hex_color_checked("010203"), Some(Some(Rgba8::rgba(1, 2, 3, 255))));
}

#[test]
fn lenient_reads_each_channel_on_its_own() {
    assert_eq!(parse_hex_color_lenient("#FF8000"), [255, 128, 0, 255]);
    assert_eq!(parse_hex_color_lenient("#11223344"), [0x11, 0x22, 0x33, 0x44]);
    assert_eq!(parse_hex_color_lenient("#ZZ8000"), [255, 128, 0, 255]);
    assert_eq!(parse_hex_color_lenient(""), [255, 255, 255, 255]);
    assert_eq!(parse_hex_color_lenient("12"), [0x12, 255, 255, 255]);
}

#[test]
fn strict_and_lenient_agree_on_valid_colors() {
    for s in ["#FF0000", "0000FF80", "#aabbcc", "#01020304"] {
        let strict = parse_hex_color(s).unwrap();
        assert_eq!(lenient_rgba(s), strict);
    }
}

#[test]
fn rgba_to_array() {
    assert_eq!(Rgba8::rgb(1, 2, 3).to_array(), [1, 2, 3, 255]);
}

#[test]
fn fn_hex_short_form() {
    assert_eq!(fn_hex("#FFF").unwrap(), Rgba8::rgba(255, 255, 255, 255));
    assert_eq!(fn_hex("#f00").unwrap(), Rgba8::rgba(255, 0, 0, 255));
    assert_eq!(fn_hex("#000").unwrap(), Rgba8::rgba(0, 0, 0, 255));
    assert_eq!(fn_hex("#1a9").unwrap(), Rgba8::rgba(0x11, 0xAA, 0x99, 255));
    assert_eq!(fn_hex("#FF0000").unwrap(), Rgba8::rgba(255, 0, 0, 255));
    assert_eq!(fn_hex("#GGG").unwrap_err(), "hex: invalid hex color \"#GGG\"");
}
