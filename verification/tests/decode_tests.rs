use pageview::decode::decode_and_split;

fn png_bytes(width: u32, height: u32) -> (Vec<u8>, Vec<u8>) {
    let img = image::RgbImage::from_fn(width, height, |x, y| {
        image::Rgb([x as u8, y as u8, (x + y) as u8])
    });
    let raw = img.as_raw().clone();
    let mut encoded = Vec::new();
    img.write_to(
        &mut std::io::Cursor::new(&mut encoded),
        image::ImageFormat::Png,
    )
    .expect("png encoding should succeed");
    (encoded, raw)
}

#[test]
fn decodes_and_keeps_short_image_whole() {
    let (encoded, raw) = png_bytes(3, 4);
    let chunks = decode_and_split(&encoded, 16384).expect("decode should succeed");
    assert_eq!(chunks.len(), 1);
    assert_eq!(chunks[0].width, 3);
    assert_eq!(chunks[0].height, 4);
    assert_eq!(chunks[0].pixels, raw);
}

#[test]
fn decodes_and_splits_tall_image() {
    let (encoded, raw) = png_bytes(2, 5);
    let chunks = decode_and_split(&encoded, 2).expect("decode should succeed");
    assert_eq!(chunks.len(), 3);
    let row = 2 * 3;
    assert_eq!(chunks[0].pixels, raw[0..2 * row].to_vec());
    assert_eq!(chunks[1].pixels, raw[2 * row..4 * row].to_vec());
    assert_eq!(chunks[2].pixels, raw[4 * row..5 * row].to_vec());
    assert_eq!(chunks[2].height, 1);
}

#[test]
fn undecodable_bytes_fail() {
    assert!(decode_and_split(b"not an image at all", 16384).is_err());
    assert!(decode_and_split(b"", 16384).is_err());
}
