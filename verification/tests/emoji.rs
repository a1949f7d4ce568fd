use generator::emoji::emoji_asset_path;
use generator::emoji::get_emoji_codepoint;
use generator::emoji::is_emoji;
use generator::emoji::place_emojis;
use generator::emoji::template_graphemes;

#[test]
fn emoji_ranges() {
    assert!(is_emoji('😀'));
    assert!(is_emoji('🚀'));
    assert!(is_emoji('☀'));
    assert!(is_emoji('✂'));
    assert!(is_emoji('🇺'));
    assert!(is_emoji('🤖'));
    assert!(is_emoji('\u{1FA70}'));
    assert!(!is_emoji('a'));
    assert!(!is_emoji('é'));
    assert!(!is_emoji('\u{1F650}'));
}

#[test]
fn codepoint_names() {
    assert_eq!(get_emoji_codepoint("😀"), "1f600");
    assert_eq!(get_emoji_codepoint("👨‍💻"), "1f468-200d-1f4bb");
    assert_eq!(get_emoji_codepoint("a"), "61");
    assert_eq!(get_emoji_codepoint("\u{0}"), "0");
    assert_eq!(get_emoji_codepoint(""), "");
}

#[test]
fn asset_paths() {
    assert_eq!(emoji_asset_path("😀").as_deref(), Some("./twemoji/1f600.png"));
    assert_eq!(emoji_asset_path("🇺🇦").as_deref(), Some("./twemoji/1f1fa-1f1e6.png"));
    assert_eq!(emoji_asset_path("a"), None);
    assert_eq!(emoji_asset_path(""), None);
}

#[test]
fn graphemes_make_up_the_template() {
    let gs = template_graphemes("a👨‍💻b🇺🇦");
    assert_eq!(gs, vec!["a", "👨‍💻", "b", "🇺🇦"]);
    assert_eq!(gs.concat(), "a👨‍💻b🇺🇦");
    assert!(template_graphemes("").is_empty());
}

#[test]
fn emoji_with_assets_become_spaces() {
    let gs = template_graphemes("a😀b🚀");
    let available = vec![false, true, false, false];
    let (text, placed) = place_emojis(&gs, &available, 5, 9, 15);
    assert_eq!(text, "a b🚀");
    assert_eq!(placed.len(), 1);
    assert_eq!(placed[0].path, "./twemoji/1f600.png");
    assert_eq!((placed[0].x, placed[0].y, placed[0].size), (14, 0, 15));
}

#[test]
fn nothing_available_leaves_the_template() {
    let gs = template_graphemes("x😀y");
    let (text, placed) = place_emojis(&gs, &vec![false; 3], 0, 9, 15);
    assert_eq!(text, "x😀y");
    assert!(placed.is_empty());
}

#[test]
fn positions_step_per_grapheme() {
    let gs = template_graphemes("😀😀😀");
    let (text, placed) = place_emojis(&gs, &vec![true; 3], -10, 9, 20);
    assert_eq!(text, "   ");
    let xs: Vec<i32> = placed.iter().map(|p| p.x).collect();
    assert_eq!(xs, vec![-10, -1, 8]);
}
