//! Decoded 8-bit rasters, RGB or RGBA, and the conversions between them.
use vstd::prelude::*;

verus! {

/// A pixel buffer of `width * height` pixels, row by row.
#[derive(Clone, Debug)]
pub struct Raster {
    pub width: u32,
    pub height: u32,
    pub pixels: Vec<u8>,
}

impl Raster {
    pub open spec fn pixel_count(&self) -> int {
        self.width as int * self.height as int
    }

    /// Three bytes per pixel.
    pub open spec fn is_rgb(&self) -> bool {
        self.pixels@.len() == self.pixel_count() * 3
    }

    /// Four bytes per pixel, the last one alpha.
    pub open spec fn is_rgba(&self) -> bool {
        self.pixels@.len() == self.pixel_count() * 4
    }
}

/// RGB bytes with a fully opaque alpha byte added to every pixel.
pub open spec fn rgba_of_rgb(rgb: Seq<u8>) -> Seq<u8> {
    Seq::new(
        (rgb.len() / 3) * 4,
        |i: int|
            if i % 4 == 3 {
                255u8
            } else {
                rgb[(i / 4) * 3 + i % 4]
            },
    )
}

/// RGBA bytes with the alpha byte of every pixel dropped.
pub open spec fn rgb_of_rgba(rgba: Seq<u8>) -> Seq<u8> {
    Seq::new((rgba.len() / 4) * 3, |i: int| rgba[(i / 3) * 4 + i % 3])
}

/// The same raster with an opaque alpha channel.
pub fn to_rgba(img: &Raster) -> (r: Raster)
    requires
        img.is_rgb(),
    ensures
        r.width == img.width,
        r.height == img.height,
        r.pixels@ == rgba_of_rgb(img.pixels@),
        r.is_rgba(),
{
    let len: usize = img.pixels.len();
    let n: usize = len / 3;
    let mut out: Vec<u8> = Vec::new();
    let mut p: usize = 0;
    while p < n
        invariant
            len == img.pixels@.len(),
            n == img.pixels@.len() / 3,
            p <= n,
            out@.len() == 4 * p,
            forall|j: int| 0 <= j < 4 * p ==> out@[j] == rgba_of_rgb(img.pixels@)[j],
        decreases n - p,
    {
        let ghost before = out@;
        out.push(img.pixels[3 * p]);
        out.push(img.pixels[3 * p + 1]);
        out.push(img.pixels[3 * p + 2]);
        out.push(255u8);
        proof {
            assert forall|j: int| 0 <= j < 4 * (p + 1) implies out@[j] == rgba_of_rgb(img.pixels@)[j] by {
                if j >= 4 * p {
                    assert(j / 4 == p);
                    assert(j % 4 == j - 4 * p);
                } else {
                    assert(out@[j] == before[j]);
                }
            }
        }
        p = p + 1;
    }
    assert(out@ =~= rgba_of_rgb(img.pixels@));
    Raster { width: img.width, height: img.height, pixels: out }
}

/// The same raster with its alpha channel dropped.
pub fn to_rgb(img: &Raster) -> (r: Raster)
    requires
        img.is_rgba(),
    ensures
        r.width == img.width,
        r.height == img.height,
        r.pixels@ == rgb_of_rgba(img.pixels@),
        r.is_rgb(),
{
    let len: usize = img.pixels.len();
    let n: usize = len / 4;
    let mut out: Vec<u8> = Vec::new();
    let mut p: usize = 0;
    while p < n
        invariant
            len == img.pixels@.len(),
            n == img.pixels@.len() / 4,
            p <= n,
            out@.len() == 3 * p,
            forall|j: int| 0 <= j < 3 * p ==> out@[j] == rgb_of_rgba(img.pixels@)[j],
        decreases n - p,
    {
        let ghost before = out@;
        out.push(img.pixels[4 * p]);
        out.push(img.pixels[4 * p + 1]);
        out.push(img.pixels[4 * p + 2]);
        proof {
            assert forall|j: int| 0 <= j < 3 * (p + 1) implies out@[j] == rgb_of_rgba(img.pixels@)[j] by {
                if j >= 3 * p {
                    assert(j / 3 == p);
                    assert(j % 3 == j - 3 * p);
                } else {
                    assert(out@[j] == before[j]);
                }
            }
        }
        p = p + 1;
    }
    assert(out@ =~= rgb_of_rgba(img.pixels@));
    Raster { width: img.width, height: img.height, pixels: out }
}

} // verus!
