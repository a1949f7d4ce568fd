use generator::primitives::TextAlign;

#[test]
fn text_align_equality() {
    assert_eq!(TextAlign::Start, TextAlign::Start);
    assert_eq!(TextAlign::Center, TextAlign::Center);
    assert_eq!(TextAlign::End, TextAlign::End);
    assert_eq!(TextAlign::Justify, TextAlign::Justify);
    assert_ne!(TextAlign::Start, TextAlign::End);
}
