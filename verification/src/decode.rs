//! Decoding a page image: the encoded file bytes are decoded and normalized
//! to packed RGB by the `image` crate, then split into display-safe chunks
//! by the verified splitter. The decode itself is trusted at its interface;
//! everything after it is proved.

use vstd::prelude::*;
use crate::chunk::{split_bitmap, splits_into, Bitmap};

verus! {

/// The RGB bitmap that decoding a given byte string yields: its width,
/// height and packed pixel bytes, or nothing when the bytes are not a
/// decodable image. Decoding is a pure function of the bytes.
pub uninterp spec fn decoded_rgb(bytes: Seq<u8>) -> Option<(nat, nat, Seq<u8>)>;

#[verifier::external_type_specification]
#[verifier::external_body]
pub struct ExImageError(image::ImageError);

/// Relies on image::load_from_memory and DynamicImage::to_rgb8: the decode
/// sniffs the format from the bytes alone and, normalized to RGB8, yields a
/// packed buffer of exactly width * height * 3 bytes
/// (ImageBuffer::into_raw).
#[verifier::external_body]
fn decode_rgb(bytes: &[u8]) -> (r: Result<Bitmap, image::ImageError>)
    ensures
        match r {
            Ok(bmp) => bmp.wf() && decoded_rgb(bytes@) == Some(
                (bmp.width as nat, bmp.height as nat, bmp.pixels@),
            ),
            Err(_) => decoded_rgb(bytes@) is None,
        },
{
    let img = image::load_from_memory(bytes)?.to_rgb8();
    let (width, height) = img.dimensions();
    Ok(Bitmap { width, height, pixels: img.into_raw() })
}

/// Decoding failed: the bytes are not a decodable image.
#[derive(Clone, Copy, PartialEq, Eq, Debug)]
pub struct DecodeError;

/// Decode one page's file bytes and split the bitmap into chunks of at most
/// `max_height` rows. Fails exactly when the bytes do not decode; on success
/// the chunks are the exact split of the decoded bitmap.
pub fn decode_and_split(bytes: &[u8], max_height: u32) -> (r: Result<Vec<Bitmap>, DecodeError>)
    requires
        max_height > 0,
    ensures
        r is Ok <==> decoded_rgb(bytes@) is Some,
        r is Ok ==> {
            let (w, h, px) = decoded_rgb(bytes@)->0;
            splits_into(w as int, h as int, px, max_height as int, r->Ok_0@)
        },
{
    match decode_rgb(bytes) {
        Ok(bmp) => {
            let chunks = split_bitmap(&bmp, max_height);
            Ok(chunks)
        },
        Err(_) => Err(DecodeError),
    }
}

} // verus!
