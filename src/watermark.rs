//! Quality selection, watermark sizing and placement, and compositing.
use vstd::prelude::*;
use vstd::string::StringSliceAdditionalSpecFns;
use crate::error::WatermarkError;
use crate::codec::{ImageKind, as_raster_spec, load_as, loaded_as};
use crate::raster::{Raster, rgba_of_rgb, to_rgba};

verus! {

/// Width that a watermark is resized to before the minimum sizes apply.
pub const WM_MAX_W: u32 = 120;

/// Distance kept between the watermark and the page edges it is placed at.
pub const WM_MARGIN: i64 = 0;

/// Opacity of the watermark in percent; at 100 its alpha is left as it is.
pub const WM_OPACITY_PERCENT: u32 = 100;

/// ASCII `l`, `c`, `t` and `m`, the position codes for left, centre, top
/// and middle.
pub const CODE_LEFT: u8 = 108;
pub const CODE_CENTER: u8 = 99;
pub const CODE_TOP: u8 = 116;
pub const CODE_MIDDLE: u8 = 109;

/// How page images are encoded in the output document.
#[derive(Clone, Copy, Debug, PartialEq, Eq, Structural)]
pub enum Quality {
    /// Deflate of the raw RGB bytes.
    Lossless,
    /// JPEG at the given quality, from 1 to 100.
    Jpeg(u8),
}

pub open spec fn is_digit(b: u8) -> bool {
    48 <= b <= 57
}

/// The value of a string of decimal digits.
pub open spec fn decimal_value(s: Seq<u8>) -> int
    decreases s.len(),
{
    if s.len() == 0 {
        0
    } else {
        decimal_value(s.drop_last()) * 10 + (s.last() - 48)
    }
}

/// `s` without a leading `+`.
pub open spec fn digits_of(s: Seq<u8>) -> Seq<u8> {
    if s.len() > 0 && s[0] == 43 { s.drop_first() } else { s }
}

pub open spec fn all_digits(d: Seq<u8>) -> bool {
    forall|i: int| 0 <= i < d.len() ==> is_digit(#[trigger] d[i])
}

/// What parsing `s` as a `u8` gives: an optional `+`, then one or more
/// decimal digits whose value is at most 255.
pub open spec fn parsed_u8(s: Seq<u8>) -> Option<u8> {
    let digits = digits_of(s);
    if digits.len() > 0 && all_digits(digits) && decimal_value(digits) <= 255 {
        Some(decimal_value(digits) as u8)
    } else {
        None
    }
}

proof fn lemma_decimal_grows(s: Seq<u8>, k: int)
    requires
        0 <= k <= s.len(),
        forall|i: int| 0 <= i < s.len() ==> is_digit(#[trigger] s[i]),
    ensures
        decimal_value(s.subrange(0, k)) <= decimal_value(s),
        decimal_value(s) >= 0,
    decreases s.len(),
{
    if s.len() > 0 {
        let t = s.drop_last();
        assert forall|i: int| 0 <= i < t.len() implies is_digit(#[trigger] t[i]) by {
            assert(t[i] == s[i]);
        }
        if k < s.len() {
            lemma_decimal_grows(t, k);
            assert(t.subrange(0, k) =~= s.subrange(0, k));
        } else {
            lemma_decimal_grows(t, 0);
            assert(s.subrange(0, k) =~= s);
        }
    } else {
        assert(s.subrange(0, k) =~= s);
    }
}

/// The number written in `s`, as `str::parse::<u8>` reads it.
fn parse_u8(s: &str) -> (r: Option<u8>)
    ensures
        r == parsed_u8(s.spec_bytes()),
{
    let b = s.as_bytes();
    let len: usize = b.len();
    let start: usize = if len > 0 && b[0] == 43 { 1 } else { 0 };
    let ghost digits = digits_of(b@);
    assert(digits =~= b@.subrange(start as int, len as int));
    if start >= len {
        return None;
    }
    let mut v: u32 = 0;
    let mut i: usize = start;
    assert(digits.subrange(0, 0) =~= Seq::<u8>::empty());
    while i < len
        invariant
            start <= i <= len,
            len == b@.len(),
            b@ == s.spec_bytes(),
            digits == digits_of(b@),
            digits == b@.subrange(start as int, len as int),
            forall|j: int| 0 <= j < i - start ==> is_digit(#[trigger] digits[j]),
            v as int == decimal_value(digits.subrange(0, i - start)),
            v <= 255,
        decreases len - i,
    {
        let c = b[i];
        assert(digits[i - start] == c);
        if c < 48 || c > 57 {
            assert(!is_digit(digits[i - start]));
            assert(!all_digits(digits));
            assert(parsed_u8(b@) is None);
            return None;
        }
        let ghost pre = digits.subrange(0, i - start);
        let ghost next = digits.subrange(0, i + 1 - start);
        assert(next.drop_last() =~= pre);
        assert(next.last() == c);
        assert(decimal_value(next) == decimal_value(pre) * 10 + (c - 48));
        let nv: u32 = v * 10 + (c - 48) as u32;
        if nv > 255 {
            proof {
                if all_digits(digits) {
                    lemma_decimal_grows(digits, i + 1 - start);
                    assert(decimal_value(digits) > 255);
                }
                assert(parsed_u8(b@) is None);
            }
            return None;
        }
        v = nv;
        i = i + 1;
    }
    assert(digits.subrange(0, len - start) =~= digits);
    Some(v as u8)
}

pub open spec fn lossless_word() -> Seq<u8> {
    seq![108u8, 111, 115, 115, 108, 101, 115, 115]
}

/// The quality that a configuration string names.
pub open spec fn quality_of(s: Seq<u8>) -> Result<Quality, WatermarkError> {
    if s == lossless_word() {
        Ok(Quality::Lossless)
    } else {
        match parsed_u8(s) {
            Some(q) => if 1 <= q <= 100 {
                Ok(Quality::Jpeg(q))
            } else {
                Err(WatermarkError::InvalidQuality)
            },
            None => Err(WatermarkError::InvalidQuality),
        }
    }
}

/// `lossless`, or a JPEG quality from 1 to 100.
pub fn parse_quality(s: &str) -> (r: Result<Quality, WatermarkError>)
    ensures
        r == quality_of(s.spec_bytes()),
{
    let b = s.as_bytes();
    // the ASCII bytes of "lossless"
    let is_lossless = b.len() == 8 && b[0] == 108 && b[1] == 111 && b[2] == 115 && b[3] == 115
        && b[4] == 108 && b[5] == 101 && b[6] == 115 && b[7] == 115;
    if is_lossless {
        assert(b@ =~= lossless_word());
        return Ok(Quality::Lossless);
    }
    assert(b@ != lossless_word()) by {
        if b@ == lossless_word() {
            assert(b@[0] == 108u8 && b@[1] == 111u8 && b@[2] == 115u8 && b@[3] == 115u8);
            assert(b@[4] == 108u8 && b@[5] == 101u8 && b@[6] == 115u8 && b@[7] == 115u8);
        }
    }
    match parse_u8(s) {
        Some(q) => {
            if 1 <= q && q <= 100 {
                Ok(Quality::Jpeg(q))
            } else {
                Err(WatermarkError::InvalidQuality)
            }
        },
        None => Err(WatermarkError::InvalidQuality),
    }
}

/// `n / d` rounded to the nearest integer, halves away from zero.
pub open spec fn round_div(n: int, d: int) -> int {
    (2 * n + d) / (2 * d)
}

/// `x` as a `u32`, saturating.
pub open spec fn saturate(x: int) -> u32 {
    if x > u32::MAX { u32::MAX } else { x as u32 }
}

/// The height-driven step: the size before the width correction.
pub open spec fn height_bound_size(orig_w: u32, orig_h: u32, min_h: u32) -> (u32, u32) {
    let h0 = saturate(round_div(WM_MAX_W * orig_h, orig_w as int));
    if h0 < min_h {
        (saturate(round_div(min_h * orig_w, orig_h as int)), min_h)
    } else {
        (WM_MAX_W, h0)
    }
}

/// The watermark size for a logo of `orig_w` by `orig_h`: `WM_MAX_W` wide
/// with the logo's aspect ratio, then at least `min_h` high, then at least
/// `min_w` wide, keeping the aspect ratio at each step.
pub open spec fn calc_size_spec(orig_w: u32, orig_h: u32, min_w: u32, min_h: u32) -> (u32, u32) {
    let (w1, h1) = height_bound_size(orig_w, orig_h, min_h);
    if w1 < min_w {
        (min_w, saturate(round_div(min_w * orig_h, orig_w as int)))
    } else {
        (w1, h1)
    }
}

fn round_div_sat(n: u128, d: u128) -> (r: u32)
    requires
        d > 0,
        n <= u64::MAX,
        d <= u32::MAX,
    ensures
        r == saturate(round_div(n as int, d as int)),
{
    let q: u128 = (2 * n + d) / (2 * d);
    if q > u32::MAX as u128 {
        u32::MAX
    } else {
        q as u32
    }
}

pub fn calc_size(orig_w: u32, orig_h: u32, min_w: u32, min_h: u32) -> (r: (u32, u32))
    requires
        orig_w > 0,
        orig_h > 0,
    ensures
        r == calc_size_spec(orig_w, orig_h, min_w, min_h),
{
    assert(WM_MAX_W as u128 * orig_h as u128 <= u64::MAX) by (nonlinear_arith)
        requires orig_h <= u32::MAX;
    assert(min_h as u128 * orig_w as u128 <= u64::MAX) by (nonlinear_arith)
        requires orig_w <= u32::MAX, min_h <= u32::MAX;
    assert(min_w as u128 * orig_h as u128 <= u64::MAX) by (nonlinear_arith)
        requires orig_h <= u32::MAX, min_w <= u32::MAX;
    let mut new_w: u32 = WM_MAX_W;
    let mut new_h: u32 = round_div_sat(new_w as u128 * orig_h as u128, orig_w as u128);
    if new_h < min_h {
        new_h = min_h;
        new_w = round_div_sat(min_h as u128 * orig_w as u128, orig_h as u128);
    }
    if new_w < min_w {
        new_w = min_w;
        new_h = round_div_sat(min_w as u128 * orig_h as u128, orig_w as u128);
    }
    (new_w, new_h)
}

/// Feeding a size back in as the minimum size gives it again, unless the
/// width correction had to widen it.
pub proof fn lemma_calc_size_stable(orig_w: u32, orig_h: u32, min_w: u32, min_h: u32)
    requires
        orig_w > 0,
        orig_h > 0,
        height_bound_size(orig_w, orig_h, min_h).0 >= min_w,
    ensures
        calc_size_spec(
            orig_w,
            orig_h,
            calc_size_spec(orig_w, orig_h, min_w, min_h).0,
            calc_size_spec(orig_w, orig_h, min_w, min_h).1,
        ) == calc_size_spec(orig_w, orig_h, min_w, min_h),
{
}

/// `x / 2` rounded toward zero, as integer division does.
pub open spec fn half_toward_zero(x: int) -> int {
    if x >= 0 { x / 2 } else { -((-x) / 2) }
}

/// Offset along one axis: `start` is the code of the near edge (`l` or `t`),
/// `mid` that of the centre; any other code is the far edge.
pub open spec fn axis_offset(code: u8, start: u8, mid: u8, page: u32, mark: u32) -> int {
    if code == start {
        WM_MARGIN as int
    } else if code == mid {
        half_toward_zero(page as int - mark as int)
    } else {
        page as int - mark as int - WM_MARGIN
    }
}

/// Byte `i` of a position code, or zero where the code is shorter.
pub open spec fn code_at(position: Seq<u8>, i: int) -> u8 {
    if i < position.len() { position[i] } else { 0u8 }
}

/// Top-left corner of the watermark on the page for a position code: its
/// first byte `t`, `m` or otherwise bottom; its second `l`, `c` or otherwise
/// right.
pub open spec fn offset_spec(position: Seq<u8>, pw: u32, ph: u32, ww: u32, wh: u32) -> (int, int) {
    (
        axis_offset(code_at(position, 1), CODE_LEFT, CODE_CENTER, pw, ww),
        axis_offset(code_at(position, 0), CODE_TOP, CODE_MIDDLE, ph, wh),
    )
}

fn axis(code: u8, start: u8, mid: u8, page: u32, mark: u32) -> (r: i64)
    ensures
        r == axis_offset(code, start, mid, page, mark),
{
    let d: i64 = page as i64 - mark as i64;
    if code == start {
        WM_MARGIN
    } else if code == mid {
        if d >= 0 { d / 2 } else { -((-d) / 2) }
    } else {
        d - WM_MARGIN
    }
}

pub fn watermark_offset(position: &str, pw: u32, ph: u32, ww: u32, wh: u32) -> (r: (i64, i64))
    ensures
        (r.0 as int, r.1 as int) == offset_spec(position.spec_bytes(), pw, ph, ww, wh),
{
    let b = position.as_bytes();
    let v: u8 = if b.len() > 0 { b[0] } else { 0 };
    let h: u8 = if b.len() > 1 { b[1] } else { 0 };
    (axis(h, CODE_LEFT, CODE_CENTER, pw, ww), axis(v, CODE_TOP, CODE_MIDDLE, ph, wh))
}

/// At each position the watermark keeps `WM_MARGIN` from the edges it is
/// placed at, and is centred on the axes it is centred on.
pub proof fn lemma_offset_edges(position: Seq<u8>, pw: u32, ph: u32, ww: u32, wh: u32)
    ensures
        ({
            let (x, y) = offset_spec(position, pw, ph, ww, wh);
            &&& code_at(position, 1) == 108 ==> x == WM_MARGIN
            &&& (code_at(position, 1) != 108 && code_at(position, 1) != 99) ==> x + ww == pw - WM_MARGIN
            &&& code_at(position, 1) == 99 ==> (pw - (x + ww)) - x == (pw - ww) % 2
                || x - (pw - (x + ww)) == (ww - pw) % 2
            &&& code_at(position, 0) == 116 ==> y == WM_MARGIN
            &&& (code_at(position, 0) != 116 && code_at(position, 0) != 109) ==> y + wh == ph - WM_MARGIN
            &&& code_at(position, 0) == 109 ==> (ph - (y + wh)) - y == (ph - wh) % 2
                || y - (ph - (y + wh)) == (wh - ph) % 2
        }),
{
}

/// What `image::imageops::overlay` makes of `bottom` (`bw` by `bh`, RGBA)
/// with `top` (`tw` by `th`, RGBA) drawn at `(x, y)`.
pub uninterp spec fn overlaid(bottom: Seq<u8>, bw: u32, bh: u32, top: Seq<u8>, tw: u32, th: u32, x: int, y: int) -> Seq<u8>;

/// Whether pixel `p` of a `bw` wide raster lies under a `tw` by `th`
/// watermark drawn at `(x, y)`.
pub open spec fn covered(p: int, bw: u32, tw: u32, th: u32, x: int, y: int) -> bool {
    let px = p % (bw as int);
    let py = p / (bw as int);
    x <= px < x + tw && y <= py < y + th
}

/// The index in a `tw` wide watermark drawn at `(x, y)` of the pixel that
/// lies over pixel `p` of a `bw` wide raster.
pub open spec fn top_index(p: int, bw: u32, tw: u32, x: int, y: int) -> int {
    (p / (bw as int) - y) * tw + (p % (bw as int) - x)
}

/// Relies on `image::imageops::overlay` and `Rgba::blend`: alpha-blends
/// `top` onto `bottom` at `(x, y)`, clipped to `bottom`, and touches no pixel
/// outside that region; a fully opaque top pixel replaces the one below, a
/// fully transparent one leaves it.
#[verifier::external_body]
fn overlay(bottom: &Raster, top: &Raster, x: i64, y: i64) -> (r: Raster)
    requires
        bottom.is_rgba(),
        top.is_rgba(),
    ensures
        r.width == bottom.width,
        r.height == bottom.height,
        r.is_rgba(),
        r.pixels@ == overlaid(
            bottom.pixels@,
            bottom.width,
            bottom.height,
            top.pixels@,
            top.width,
            top.height,
            x as int,
            y as int,
        ),
        forall|p: int, k: int|
            0 <= p < bottom.pixel_count() && 0 <= k < 4 && !covered(
                p,
                bottom.width,
                top.width,
                top.height,
                x as int,
                y as int,
            ) ==> #[trigger] r.pixels@[4 * p + k] == bottom.pixels@[4 * p + k],
        forall|p: int, k: int|
            0 <= p < bottom.pixel_count() && 0 <= k < 4 && covered(p, bottom.width, top.width, top.height, x as int, y as int)
                && top.pixels@[4 * top_index(p, bottom.width, top.width, x as int, y as int) + 3] == 255
                ==> #[trigger] r.pixels@[4 * p + k] == top.pixels@[4 * top_index(
                p,
                bottom.width,
                top.width,
                x as int,
                y as int,
            ) + k],
        forall|p: int, k: int|
            0 <= p < bottom.pixel_count() && 0 <= k < 4 && covered(p, bottom.width, top.width, top.height, x as int, y as int)
                && top.pixels@[4 * top_index(p, bottom.width, top.width, x as int, y as int) + 3] == 0
                ==> #[trigger] r.pixels@[4 * p + k] == bottom.pixels@[4 * p + k],
{
    let mut canvas = image::RgbaImage::from_raw(bottom.width, bottom.height, bottom.pixels.clone()).unwrap();
    let mark = image::RgbaImage::from_raw(top.width, top.height, top.pixels.clone()).unwrap();
    image::imageops::overlay(&mut canvas, &mark, x, y);
    Raster { width: bottom.width, height: bottom.height, pixels: canvas.into_raw() }
}

/// The RGBA bytes of `page` with `wm` composited at `position`.
pub open spec fn applied_spec(page: Raster, wm: Raster, position: Seq<u8>) -> Seq<u8> {
    composited(
        (page.width, page.height, page.pixels@),
        (wm.width, wm.height, wm.pixels@),
        position,
    )
}

/// The RGBA bytes of an RGB page (width, height, bytes) with an RGBA
/// watermark composited at `position`.
pub open spec fn composited(page: (u32, u32, Seq<u8>), wm: (u32, u32, Seq<u8>), position: Seq<u8>) -> Seq<u8> {
    let (x, y) = offset_spec(position, page.0, page.1, wm.0, wm.1);
    overlaid(rgba_of_rgb(page.2), page.0, page.1, wm.2, wm.0, wm.1, x, y)
}

/// The watermark that logo bytes give, if any.
pub open spec fn watermark_of(logo: Seq<u8>, min_w: u32, min_h: u32) -> Option<(u32, u32, Seq<u8>)> {
    match decoded_logo(logo) {
        Some((w, h, px)) => prepared_spec(w, h, px, min_w, min_h),
        None => None,
    }
}

/// The page with the watermark composited at `position`, as RGBA.
pub fn apply(page: &Raster, wm: &Raster, position: &str) -> (r: Raster)
    requires
        page.is_rgb(),
        wm.is_rgba(),
    ensures
        r.width == page.width,
        r.height == page.height,
        r.is_rgba(),
        r.pixels@ == applied_spec(*page, *wm, position.spec_bytes()),
        ({
            let (x, y) = offset_spec(position.spec_bytes(), page.width, page.height, wm.width, wm.height);
            forall|p: int, k: int|
                0 <= p < page.pixel_count() && 0 <= k < 4 && !covered(p, page.width, wm.width, wm.height, x, y)
                    ==> #[trigger] r.pixels@[4 * p + k] == rgba_of_rgb(page.pixels@)[4 * p + k]
        }),
        ({
            let (x, y) = offset_spec(position.spec_bytes(), page.width, page.height, wm.width, wm.height);
            forall|p: int, k: int|
                0 <= p < page.pixel_count() && 0 <= k < 4 && covered(p, page.width, wm.width, wm.height, x, y) ==> {
                    let t = top_index(p, page.width, wm.width, x, y);
                    &&& wm.pixels@[4 * t + 3] == 255 ==> #[trigger] r.pixels@[4 * p + k] == wm.pixels@[4 * t + k]
                    &&& wm.pixels@[4 * t + 3] == 0 ==> r.pixels@[4 * p + k] == rgba_of_rgb(page.pixels@)[4 * p + k]
                }
        }),
{
    let canvas = to_rgba(page);
    let (x, y) = watermark_offset(position, page.width, page.height, wm.width, wm.height);
    overlay(&canvas, wm, x, y)
}

/// What `image::load_from_memory` decodes from `bytes`, as RGBA.
pub uninterp spec fn loaded_by_guess(bytes: Seq<u8>) -> Option<(u32, u32, Seq<u8>)>;

/// What `image::imageops::resize` with a Lanczos3 filter makes of a `w` by
/// `h` RGBA raster at `nw` by `nh`.
pub uninterp spec fn resized(pixels: Seq<u8>, w: u32, h: u32, nw: u32, nh: u32) -> Seq<u8>;

/// Relies on `image::load_from_memory`: decodes `data` in the format its
/// bytes announce; the RGBA buffer of the result holds four bytes per pixel.
#[verifier::external_body]
fn load_by_guess(data: &[u8]) -> (r: Option<Raster>)
    ensures
        as_raster_spec(r) == loaded_by_guess(data@),
        r matches Some(img) ==> img.is_rgba(),
{
    let img = image::load_from_memory(data).ok()?.into_rgba8();
    Some(Raster { width: img.width(), height: img.height(), pixels: img.into_raw() })
}

/// Relies on `image::imageops::resize` with `FilterType::Lanczos3`: an
/// `nw` by `nh` RGBA buffer.
#[verifier::external_body]
fn resize(img: &Raster, nw: u32, nh: u32) -> (r: Raster)
    requires
        img.is_rgba(),
        nw as int * nh as int * 4 <= isize::MAX,
    ensures
        r.width == nw,
        r.height == nh,
        r.is_rgba(),
        r.pixels@ == resized(img.pixels@, img.width, img.height, nw, nh),
{
    let src = image::RgbaImage::from_raw(img.width, img.height, img.pixels.clone()).unwrap();
    let out = image::imageops::resize(&src, nw, nh, image::imageops::FilterType::Lanczos3);
    Raster { width: nw, height: nh, pixels: out.into_raw() }
}

/// The logo that `bytes` decode to: as PNG, else as JPEG, else in the format
/// guessed from the bytes.
pub open spec fn decoded_logo(bytes: Seq<u8>) -> Option<(u32, u32, Seq<u8>)> {
    if loaded_as(bytes, ImageKind::Png) is Some {
        loaded_as(bytes, ImageKind::Png)
    } else if loaded_as(bytes, ImageKind::Jpeg) is Some {
        loaded_as(bytes, ImageKind::Jpeg)
    } else {
        loaded_by_guess(bytes)
    }
}

/// RGBA bytes with every alpha byte scaled to `percent` percent, rounded down.
pub open spec fn alpha_scaled(pixels: Seq<u8>, percent: u32) -> Seq<u8> {
    Seq::new(
        pixels.len(),
        |i: int|
            if i % 4 == 3 {
                (pixels[i] as int * percent as int / 100) as u8
            } else {
                pixels[i]
            },
    )
}

/// The raster with its alpha channel scaled to `percent` percent.
pub fn scale_alpha(img: &mut Raster, percent: u32)
    requires
        percent <= 100,
    ensures
        final(img).width == old(img).width,
        final(img).height == old(img).height,
        final(img).pixels@ == alpha_scaled(old(img).pixels@, percent),
{
    let len: usize = img.pixels.len();
    let n: usize = len / 4;
    let ghost orig = img.pixels@;
    let ghost w = img.width;
    let ghost h = img.height;
    let mut p: usize = 0;
    while p < n
        invariant
            len == orig.len(),
            n == orig.len() / 4,
            img.pixels@.len() == orig.len(),
            img.width == w,
            img.height == h,
            p <= n,
            percent <= 100,
            forall|j: int| 0 <= j < orig.len() && (j % 4 != 3 || j >= 4 * p) ==> #[trigger] img.pixels@[j] == orig[j],
            forall|j: int| 0 <= j < 4 * p && j % 4 == 3 ==> #[trigger] img.pixels@[j] == alpha_scaled(orig, percent)[j],
        decreases n - p,
    {
        let i: usize = 4 * p + 3;
        let a: u32 = img.pixels[i] as u32;
        assert(a * percent <= 255 * 100) by (nonlinear_arith)
            requires a <= 255, percent <= 100;
        assert(a * percent / 100 <= 255) by (nonlinear_arith)
            requires a * percent <= 255 * 100;
        let ghost before = img.pixels@;
        img.pixels.set(i, (a * percent / 100) as u8);
        proof {
            assert forall|j: int| 0 <= j < 4 * (p + 1) && j % 4 == 3 implies #[trigger] img.pixels@[j] == alpha_scaled(
                orig,
                percent,
            )[j] by {
                if j < 4 * p {
                    assert(img.pixels@[j] == before[j]);
                } else {
                    assert(j == i);
                }
            }
        }
        p = p + 1;
    }
    assert(img.pixels@ =~= alpha_scaled(orig, percent));
}

proof fn lemma_full_opacity(pixels: Seq<u8>)
    ensures
        alpha_scaled(pixels, 100) == pixels,
{
    assert(alpha_scaled(pixels, 100) =~= pixels);
}

/// The watermark made from a decoded logo: resized to `calc_size_spec`, with
/// the alpha scaled to `WM_OPACITY_PERCENT`. A logo without pixels, or a size
/// too large to allocate, is refused.
pub open spec fn prepared_spec(w: u32, h: u32, pixels: Seq<u8>, min_w: u32, min_h: u32) -> Option<(u32, u32, Seq<u8>)> {
    if w == 0 || h == 0 {
        None
    } else {
        let (nw, nh) = calc_size_spec(w, h, min_w, min_h);
        if nw as int * nh as int * 4 > isize::MAX {
            None
        } else {
            Some((nw, nh, alpha_scaled(resized(pixels, w, h, nw, nh), WM_OPACITY_PERCENT)))
        }
    }
}

pub fn prepare_logo(logo: &Raster, min_w: u32, min_h: u32) -> (r: Result<Raster, WatermarkError>)
    requires
        logo.is_rgba(),
    ensures
        match r {
            Ok(img) => img.is_rgba() && prepared_spec(logo.width, logo.height, logo.pixels@, min_w, min_h)
                == Some((img.width, img.height, img.pixels@)),
            Err(e) => e == WatermarkError::InvalidWatermark && prepared_spec(
                logo.width,
                logo.height,
                logo.pixels@,
                min_w,
                min_h,
            ) is None,
        },
{
    if logo.width == 0 || logo.height == 0 {
        return Err(WatermarkError::InvalidWatermark);
    }
    let (nw, nh) = calc_size(logo.width, logo.height, min_w, min_h);
    assert(nw as u128 * nh as u128 * 4 <= u128::MAX) by (nonlinear_arith)
        requires nw <= u32::MAX, nh <= u32::MAX;
    if nw as u128 * nh as u128 * 4 > isize::MAX as u128 {
        return Err(WatermarkError::InvalidWatermark);
    }
    let mut result = resize(logo, nw, nh);
    if WM_OPACITY_PERCENT < 100 {
        scale_alpha(&mut result, WM_OPACITY_PERCENT);
    } else {
        proof {
            lemma_full_opacity(result.pixels@);
        }
    }
    Ok(result)
}

/// The watermark for a logo given as encoded bytes.
pub fn prepare_from_bytes(data: &[u8], min_w: u32, min_h: u32) -> (r: Result<Raster, WatermarkError>)
    ensures
        match r {
            Ok(img) => watermark_of(data@, min_w, min_h) == Some((img.width, img.height, img.pixels@)),
            Err(e) => watermark_of(data@, min_w, min_h) is None,
        },
        match r {
            Ok(img) => img.is_rgba() && ({
                let (w, h, px) = decoded_logo(data@).unwrap();
                decoded_logo(data@) is Some && prepared_spec(w, h, px, min_w, min_h) == Some(
                    (img.width, img.height, img.pixels@),
                )
            }),
            Err(e) => e == WatermarkError::InvalidWatermark && (decoded_logo(data@) is None || ({
                let (w, h, px) = decoded_logo(data@).unwrap();
                prepared_spec(w, h, px, min_w, min_h) is None
            })),
        },
{
    let logo = match load_as(data, ImageKind::Png) {
        Some(img) => img,
        None => match load_as(data, ImageKind::Jpeg) {
            Some(img) => img,
            None => match load_by_guess(data) {
                Some(img) => img,
                None => {
                    return Err(WatermarkError::InvalidWatermark);
                },
            },
        },
    };
    prepare_logo(&logo, min_w, min_h)
}

} // verus!
