//! Zlib and JPEG coding of image data.
use vstd::prelude::*;
use crate::raster::Raster;

verus! {

/// What zlib decompression makes of `bytes`; `None` where they are not a
/// zlib stream.
pub uninterp spec fn inflated(bytes: Seq<u8>) -> Option<Seq<u8>>;

/// What zlib compression at the default level makes of `bytes`.
pub uninterp spec fn deflated(bytes: Seq<u8>) -> Seq<u8>;

/// What a JPEG encoder at `quality` makes of a `w` by `h` RGB raster.
pub uninterp spec fn jpeg_encoded(pixels: Seq<u8>, w: u32, h: u32, quality: u8) -> Seq<u8>;

/// Relies on `flate2::read::ZlibDecoder` read to the end: the decompressed
/// bytes, or an error for data that is not a zlib stream.
#[verifier::external_body]
pub(crate) fn inflate(data: &[u8]) -> (r: Option<Vec<u8>>)
    ensures
        match r {
            Some(v) => inflated(data@) == Some(v@),
            None => inflated(data@) is None,
        },
{
    let mut out: Vec<u8> = Vec::new();
    std::io::Read::read_to_end(&mut flate2::read::ZlibDecoder::new(data), &mut out).ok()?;
    Some(out)
}

/// Relies on `flate2::write::ZlibEncoder` at `Compression::default()`: a
/// zlib stream that decompresses to `data`; writing into a `Vec` does not
/// fail.
#[verifier::external_body]
pub(crate) fn deflate(data: &[u8]) -> (r: Option<Vec<u8>>)
    ensures
        r is Some,
        r matches Some(v) ==> v@ == deflated(data@) && inflated(v@) == Some(data@),
{
    let mut encoder = flate2::write::ZlibEncoder::new(Vec::new(), flate2::Compression::default());
    std::io::Write::write_all(&mut encoder, data).ok()?;
    encoder.finish().ok()
}

/// Whether the JPEG encoder takes a raster of `w` by `h`: both sides from 1
/// to 65535.
pub open spec fn jpeg_size_ok(w: u32, h: u32) -> bool {
    1 <= w <= 65535 && 1 <= h <= 65535
}

/// Relies on `image::codecs::jpeg::JpegEncoder::new_with_quality` and its
/// `write_image`: the JPEG encoding of an RGB raster; it refuses exactly the
/// sizes outside 1 to 65535, and writing into a `Vec` does not fail.
#[verifier::external_body]
pub(crate) fn encode_jpeg(img: &Raster, quality: u8) -> (r: Option<Vec<u8>>)
    requires
        img.is_rgb(),
    ensures
        r is Some <==> jpeg_size_ok(img.width, img.height),
        r matches Some(v) ==> v@ == jpeg_encoded(img.pixels@, img.width, img.height, quality),
{
    let mut buf: Vec<u8> = Vec::new();
    let encoder = image::codecs::jpeg::JpegEncoder::new_with_quality(&mut buf, quality);
    image::ImageEncoder::write_image(encoder, &img.pixels, img.width, img.height, image::ExtendedColorType::Rgb8).ok()?;
    Some(buf)
}

/// Image formats that encoded images are decoded as.
#[derive(Clone, Copy, Debug, PartialEq, Eq, Structural)]
pub enum ImageKind {
    Png,
    Jpeg,
}

/// What `image::load` decodes from `bytes` as `format`, as RGBA: width,
/// height and pixels.
pub uninterp spec fn loaded_as(bytes: Seq<u8>, format: ImageKind) -> Option<(u32, u32, Seq<u8>)>;

pub open spec fn as_raster_spec(r: Option<Raster>) -> Option<(u32, u32, Seq<u8>)> {
    match r {
        Some(img) => Some((img.width, img.height, img.pixels@)),
        None => None,
    }
}

/// Relies on `image::load`: decodes `data` as `format`; the RGBA buffer of
/// the result holds four bytes per pixel.
#[verifier::external_body]
pub(crate) fn load_as(data: &[u8], format: ImageKind) -> (r: Option<Raster>)
    ensures
        as_raster_spec(r) == loaded_as(data@, format),
        r matches Some(img) ==> img.is_rgba(),
{
    let f = match format {
        ImageKind::Png => image::ImageFormat::Png,
        ImageKind::Jpeg => image::ImageFormat::Jpeg,
    };
    let img = image::load(std::io::Cursor::new(data), f).ok()?.into_rgba8();
    Some(Raster { width: img.width(), height: img.height(), pixels: img.into_raw() })
}

} // verus!
