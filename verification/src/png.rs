//! Images, encoded and decoded by the `image` crate.
use image::ImageEncoder;
use vstd::prelude::*;

verus! {

/// The RGBA bytes, eight bits a channel, row by row, of the image that the PNG file `png`
/// holds; `None` when `png` is not a PNG file that `image` decodes.
pub uninterp spec fn png_rgba8(png: Seq<u8>) -> Option<Seq<u8>>;

/// The RGBA bytes, eight bits a channel, row by row, of the image that `bytes` hold, in
/// whichever format `image` recognises from the bytes themselves; `None` when it decodes
/// none.
pub uninterp spec fn image_rgba8(bytes: Seq<u8>) -> Option<Seq<u8>>;

/// The PNG file that `image` writes for the `width` x `height` image whose RGBA bytes,
/// eight bits a channel, row by row, are `raw`; `None` when it refuses to write one.
pub uninterp spec fn png_of_rgba8(raw: Seq<u8>, width: u32, height: u32) -> Option<Seq<u8>>;

/// Decodes a PNG file with `image::load_from_memory_with_format(png, ImageFormat::Png)`
/// and converts the image with `to_rgba8().into_raw()`. The bytes are named, not
/// described: they depend on `png` alone.
#[verifier::external_body]
pub(crate) fn decode_png_rgba8(png: &[u8]) -> (raw: Option<Vec<u8>>)
    ensures
        match raw {
            Some(r) => png_rgba8(png@) == Some(r@),
            None => png_rgba8(png@) is None,
        },
{
    match image::load_from_memory_with_format(png, image::ImageFormat::Png) {
        Ok(img) => Some(img.to_rgba8().into_raw()),
        Err(_) => None,
    }
}

/// Decodes an image of any format the build of `image` supports, guessed from its bytes,
/// with `image::load_from_memory(bytes)`, and converts it with `to_rgba8().into_raw()`.
/// The bytes are named, not described: they depend on `bytes` alone.
#[verifier::external_body]
pub(crate) fn decode_image_rgba8(bytes: &[u8]) -> (raw: Option<Vec<u8>>)
    ensures
        match raw {
            Some(r) => image_rgba8(bytes@) == Some(r@),
            None => image_rgba8(bytes@) is None,
        },
{
    match image::load_from_memory(bytes) {
        Ok(img) => Some(img.to_rgba8().into_raw()),
        Err(_) => None,
    }
}

/// Encodes an RGBA image as PNG with `image::codecs::png::PngEncoder::write_image`, whose
/// default settings make the file a function of the pixels and the size alone. It panics
/// unless `raw` holds exactly `width * height * 4` bytes, which `requires` rules out.
/// PNG is lossless and the image is written as 8-bit RGBA, so decoding the file as PNG
/// and converting it to 8-bit RGBA gives `raw` back; this is claimed for images of at
/// most 16 MiB, well within the decoders' default memory limits.
#[verifier::external_body]
pub(crate) fn encode_png_rgba8(raw: &[u8], width: u32, height: u32) -> (png: Option<Vec<u8>>)
    requires
        raw@.len() == width * height * 4,
    ensures
        match png {
            Some(p) => png_of_rgba8(raw@, width, height) == Some(p@),
            None => png_of_rgba8(raw@, width, height) is None,
        },
        raw@.len() <= 0x100_0000 ==> (png matches Some(p) ==> png_rgba8(p@) == Some(raw@)),
{
    let mut out: Vec<u8> = Vec::new();
    match image::codecs::png::PngEncoder::new(&mut out).write_image(raw, width, height, image::ExtendedColorType::Rgba8) {
        Ok(()) => Some(out),
        Err(_) => None,
    }
}

} // verus!
