use generator::readback::padded_bytes_per_row;
use generator::readback::unpad_rows;

#[test]
fn padded_rows_round_up_to_256() {
    assert_eq!(padded_bytes_per_row(0), 0);
    assert_eq!(padded_bytes_per_row(1), 256);
    assert_eq!(padded_bytes_per_row(64), 256);
    assert_eq!(padded_bytes_per_row(65), 512);
    assert_eq!(padded_bytes_per_row(100), 512);
}

#[test]
fn unpad_keeps_the_pixels_of_each_row() {
    let width = 3u32;
    let height = 2u32;
    let stride = padded_bytes_per_row(width) as usize;
    let mut mapped = vec![0u8; stride * height as usize];
    for row in 0..height as usize {
        for col in 0..(width * 4) as usize {
            mapped[row * stride + col] = (row * 100 + col) as u8;
        }
        // Padding bytes must not show up in the pixels.
        for col in (width * 4) as usize..stride {
            mapped[row * stride + col] = 0xEE;
        }
    }
    let pixels = unpad_rows(&mapped, width, height);
    assert_eq!(pixels.len(), 24);
    for row in 0..2usize {
        for col in 0..12usize {
            assert_eq!(pixels[row * 12 + col], (row * 100 + col) as u8);
        }
    }
    assert!(!pixels.contains(&0xEE));
}

#[test]
fn unpad_of_an_exact_row() {
    let mapped: Vec<u8> = (0..=255u8).collect();
    let pixels = unpad_rows(&mapped, 64, 1);
    assert_eq!(pixels, mapped);
}

#[test]
fn unpad_of_nothing() {
    assert!(unpad_rows(&[], 5, 0).is_empty());
}

#[test]
fn encode_webp_writes_a_riff_file() {
    let pixels = vec![10, 20, 30, 255, 40, 50, 60, 255];
    let file = generator::readback::encode_webp(2, 1, pixels.clone()).unwrap();
    assert_eq!(&file[0..4], b"RIFF");
    assert_eq!(&file[8..12], b"WEBP");
    let back = image::load_from_memory(&file).unwrap().to_rgba8();
    assert_eq!((back.width(), back.height()), (2, 1));
    assert_eq!(back.into_raw(), pixels);
}

#[test]
fn encode_webp_refuses_short_pixels() {
    let r = generator::readback::encode_webp(2, 2, vec![0; 15]);
    assert_eq!(r, Err("Failed to create RgbaImage from raw pixels".to_string()));
}

#[test]
fn encode_webp_reports_encoder_errors() {
    let r = generator::readback::encode_webp(0, 0, Vec::new());
    let e = r.unwrap_err();
    assert_ne!(e, "Failed to create RgbaImage from raw pixels");
    assert!(!e.is_empty());
}
