use generator::compressor::compress;
use generator::compressor::decompress;
use generator::compressor::max_compressed_size;
use generator::compressor::CompressorError;

#[test]
fn bound_formula() {
    assert_eq!(max_compressed_size(0), 64);
    assert_eq!(max_compressed_size(100), 163);
    assert_eq!(max_compressed_size(131072), 131072 + 512);
    assert_eq!(max_compressed_size(1 << 20), (1 << 20) + (1 << 12));
}

#[test]
fn compress_then_decompress_gives_the_text_back() {
    let text = "Hello, quote! Привет 😀 ".repeat(20);
    let mut buf = vec![0u8; max_compressed_size(text.len())];
    let n = compress(&text, 4, &mut buf).unwrap();
    assert!(n <= buf.len());
    let mut out = String::from("prefix:");
    decompress(&buf[..n], &mut out).unwrap();
    assert_eq!(out, format!("prefix:{}", text));
}

#[test]
fn compress_into_a_tiny_buffer_fails() {
    let text = "abcdefghijklmnopqrstuvwxyz".repeat(10);
    let mut buf = vec![0u8; 4];
    assert!(compress(&text, 3, &mut buf).is_err());
    assert_eq!(buf.len(), 4);
}

#[test]
fn decompress_garbage_fails_and_keeps_the_output() {
    let mut out = String::from("kept");
    let r = decompress(b"not zstd at all", &mut out);
    assert!(matches!(r, Err(CompressorError::Decompress(_))));
    assert!(out.starts_with("kept"));
}
