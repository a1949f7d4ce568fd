use generator::templater::avatar_initials;
use generator::templater::grad_colors;
use generator::templater::image_data_from;
use generator::templater::payload_entries;
use generator::templater::PayloadSource;
use generator::templater::SteelImage;

fn source(username: &str, grad_id: i32) -> PayloadSource {
    PayloadSource {
        username: username.to_string(),
        user_status: None,
        user_role: None,
        content: String::new(),
        image: Vec::new(),
        grad_id,
    }
}

fn lookup(entries: &[(String, String)], key: &str) -> Option<String> {
    entries.iter().find(|(k, _)| k == key).map(|(_, v)| v.clone())
}

#[test]
fn render_avatar_initials() {
    assert_eq!(avatar_initials("John Doe"), "JD");
    let entries = payload_entries(&source("John Doe", 0));
    assert_eq!(lookup(&entries, "avatar_initials").as_deref(), Some("JD"));
}

#[test]
fn render_avatar_initials_single_name() {
    assert_eq!(avatar_initials("Alice"), "A");
}

#[test]
fn render_avatar_initials_three_names() {
    assert_eq!(avatar_initials("Foo Bar Baz"), "FB");
}

#[test]
fn render_avatar_colors_by_grad_id() {
    let entries = payload_entries(&source("", 3));
    assert_eq!(lookup(&entries, "avatar_color_top").as_deref(), Some("#51BB3F"));
}

#[test]
fn render_avatar_colors_all_grad_ids() {
    let expected_tops = [
        (0, "#FF516A"),
        (1, "#FFA85C"),
        (2, "#8C79F2"),
        (3, "#51BB3F"),
        (4, "#34C6CD"),
        (5, "#549CFF"),
        (6, "#F2799B"),
    ];
    for (grad_id, expected_top) in expected_tops {
        let entries = payload_entries(&source("", grad_id));
        assert_eq!(lookup(&entries, "avatar_color_top").as_deref(), Some(expected_top), "grad_id={}", grad_id);
    }
}

#[test]
fn render_avatar_colors_bottom() {
    let entries = payload_entries(&source("", 5));
    assert_eq!(lookup(&entries, "avatar_color_bottom").as_deref(), Some("#3CB9FE"));
}

#[test]
fn grad_colors_wrap_around_every_seven() {
    for id in 0u64..21 {
        assert_eq!(grad_colors(id), grad_colors(id % 7));
    }
    assert_eq!(grad_colors(7), ("#FF516A", "#FF885E"));
    assert_eq!(grad_colors(13), ("#F2799B", "#F27DF2"));
}

#[test]
fn negative_grad_id_wraps_as_u64() {
    // `-1i32 as u64` is 2^64 - 1, which is 1 modulo 7.
    let entries = payload_entries(&source("", -1));
    assert_eq!(lookup(&entries, "avatar_color_top").as_deref(), Some("#FFA85C"));
}

#[test]
fn initials_skip_extra_white_space_and_upper_case() {
    assert_eq!(avatar_initials("  john \t doe  smith"), "JD");
    assert_eq!(avatar_initials(""), "");
    assert_eq!(avatar_initials("élodie martin"), "ÉM");
    assert!(avatar_initials("a b c d e").chars().count() <= 2);
}

#[test]
fn payload_entries_in_order() {
    let src = PayloadSource {
        username: "Ann Lee".to_string(),
        user_status: Some("online".to_string()),
        user_role: None,
        content: "hi".to_string(),
        image: vec![1, 2, 3, 4],
        grad_id: 2,
    };
    let entries = payload_entries(&src);
    let keys: Vec<&str> = entries.iter().map(|(k, _)| k.as_str()).collect();
    assert_eq!(
        keys,
        vec![
            "username",
            "user_status",
            "content",
            "image",
            "avatar_initials",
            "avatar_color_top",
            "avatar_color_bottom"
        ]
    );
    assert_eq!(lookup(&entries, "username").as_deref(), Some("Ann Lee"));
    assert_eq!(lookup(&entries, "user_status").as_deref(), Some("online"));
    assert_eq!(lookup(&entries, "content").as_deref(), Some("hi"));
    assert_eq!(lookup(&entries, "image").as_deref(), Some("AQIDBA=="));
    assert_eq!(lookup(&entries, "avatar_initials").as_deref(), Some("AL"));
    assert_eq!(lookup(&entries, "avatar_color_bottom").as_deref(), Some("#B37DF2"));
}

#[test]
fn payload_with_role_and_empty_image() {
    let mut src = source("x", 0);
    src.user_role = Some("admin".to_string());
    let entries = payload_entries(&src);
    assert_eq!(lookup(&entries, "user_role").as_deref(), Some("admin"));
    assert_eq!(lookup(&entries, "image").as_deref(), Some(""));
    assert!(lookup(&entries, "user_status").is_none());
}

#[test]
fn steel_image_holds_its_bytes() {
    let img = SteelImage::new(Box::new(vec![9, 8, 7]));
    assert_eq!(img.as_slice(), &[9, 8, 7]);
    assert!(!img.is_empty());
    let empty = SteelImage::new(Box::new(Vec::new()));
    assert!(empty.is_empty());
    assert_eq!(empty.as_slice().len(), 0);
}

#[test]
fn make_image_error_invalid_base64() {
    let r = generator::templater::decode_image_data("not-base64!!!");
    assert!(r.unwrap_err().starts_with("image: invalid base64: "));
}

#[test]
fn image_payload_decodes_back() {
    let src = PayloadSource {
        username: String::new(),
        user_status: None,
        user_role: None,
        content: String::new(),
        image: vec![0, 255, 7, 42, 9],
        grad_id: 0,
    };
    let entries = payload_entries(&src);
    let b64 = lookup(&entries, "image").unwrap();
    assert_eq!(generator::templater::decode_image_data(&b64).unwrap(), src.image);
}

#[test]
fn image_data_from_keeps_bytes_and_words_errors() {
    assert_eq!(image_data_from(Ok(vec![1, 2])).unwrap(), vec![1, 2]);
    assert_eq!(image_data_from(Err("bad".to_string())).unwrap_err(), "image: invalid base64: bad");
}

#[test]
fn theme_defaults_to_light() {
    assert_eq!(generator::templater::theme_name(""), "light");
    assert_eq!(generator::templater::theme_name("dark"), "dark");
}

#[test]
fn steel_image_clone_keeps_bytes() {
    let img = SteelImage::new(Box::new(vec![1, 2, 3, 250]));
    let copy = img.clone();
    assert_eq!(copy.as_slice(), img.as_slice());
    assert_eq!(copy.as_slice(), &[1, 2, 3, 250]);
    let empty = SteelImage::new(Box::new(Vec::new()));
    assert!(empty.clone().is_empty());
}

fn png_bytes(width: u32, height: u32, pixel: [u8; 4]) -> Vec<u8> {
    let img = image::RgbaImage::from_pixel(width, height, image::Rgba(pixel));
    let mut bytes: Vec<u8> = Vec::new();
    img.write_to(&mut std::io::Cursor::new(&mut bytes), image::ImageFormat::Png)
        .unwrap();
    bytes
}

#[test]
fn decode_picture_reads_a_png() {
    let bytes = png_bytes(2, 3, [10, 20, 30, 255]);
    let (w, h, px) = generator::templater::decode_picture(&bytes).unwrap();
    assert_eq!((w, h), (2, 3));
    assert_eq!(px.len(), 2 * 3 * 4);
    assert_eq!(&px[0..4], &[10, 20, 30, 255]);
    assert_eq!(&px[20..24], &[10, 20, 30, 255]);
}

#[test]
fn decode_picture_refuses_garbage() {
    let r = generator::templater::decode_picture(&[1, 2, 3, 4, 5]);
    let e = r.unwrap_err();
    assert!(e.starts_with("image: failed to decode image: "));
    assert!(e.len() > "image: failed to decode image: ".len());
}

#[test]
fn picture_from_passes_pixels_and_prefixes_errors() {
    let ok = generator::templater::picture_from(Ok((1, 1, vec![1, 2, 3, 4])));
    assert_eq!(ok, Ok((1, 1, vec![1, 2, 3, 4])));
    let err = generator::templater::picture_from(Err("bad header".to_string()));
    assert_eq!(err, Err("image: failed to decode image: bad header".to_string()));
}
