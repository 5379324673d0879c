use pageview::chunk::{chunk_heights, split_bitmap, Bitmap};

#[test]
fn heights_split_tall_bitmap() {
    assert_eq!(chunk_heights(40000, 16384), vec![16384, 16384, 7232]);
}

#[test]
fn heights_keep_short_bitmap_whole() {
    assert_eq!(chunk_heights(100, 16384), vec![100]);
    assert_eq!(chunk_heights(16384, 16384), vec![16384]);
}

#[test]
fn heights_exact_multiple() {
    assert_eq!(chunk_heights(32768, 16384), vec![16384, 16384]);
    assert_eq!(chunk_heights(6, 2), vec![2, 2, 2]);
}

#[test]
fn heights_zero_height() {
    assert_eq!(chunk_heights(0, 16384), vec![0]);
}

fn test_bitmap(width: u32, height: u32) -> Bitmap {
    let n = (width * height * 3) as usize;
    let pixels: Vec<u8> = (0..n).map(|i| (i % 251) as u8).collect();
    Bitmap { width, height, pixels }
}

#[test]
fn split_short_bitmap_is_identity() {
    let bmp = test_bitmap(4, 100);
    let chunks = split_bitmap(&bmp, 16384);
    assert_eq!(chunks.len(), 1);
    assert_eq!(chunks[0].width, 4);
    assert_eq!(chunks[0].height, 100);
    assert_eq!(chunks[0].pixels, bmp.pixels);
}

#[test]
fn split_tall_bitmap_rows_are_byte_exact() {
    let bmp = test_bitmap(2, 5);
    let chunks = split_bitmap(&bmp, 2);
    assert_eq!(chunks.len(), 3);
    let row = 2 * 3;
    assert_eq!(chunks[0].height, 2);
    assert_eq!(chunks[1].height, 2);
    assert_eq!(chunks[2].height, 1);
    assert_eq!(chunks[0].pixels, bmp.pixels[0..2 * row].to_vec());
    assert_eq!(chunks[1].pixels, bmp.pixels[2 * row..4 * row].to_vec());
    assert_eq!(chunks[2].pixels, bmp.pixels[4 * row..5 * row].to_vec());
    for c in &chunks {
        assert_eq!(c.width, 2);
        assert_eq!(c.pixels.len(), (c.width * c.height * 3) as usize);
    }
}

#[test]
fn split_exact_multiple_has_no_stub_chunk() {
    let bmp = test_bitmap(3, 4);
    let chunks = split_bitmap(&bmp, 2);
    assert_eq!(chunks.len(), 2);
    assert_eq!(chunks[0].height, 2);
    assert_eq!(chunks[1].height, 2);
    let half = bmp.pixels.len() / 2;
    assert_eq!(chunks[0].pixels, bmp.pixels[..half].to_vec());
    assert_eq!(chunks[1].pixels, bmp.pixels[half..].to_vec());
}
