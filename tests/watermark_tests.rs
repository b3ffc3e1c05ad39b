use watermark_rs::error::WatermarkError;
use watermark_rs::raster::{to_rgb, to_rgba, Raster};
use watermark_rs::watermark::{
    apply, calc_size, parse_quality, prepare_from_bytes, prepare_logo, watermark_offset, Quality,
};

fn solid_rgb(w: u32, h: u32, c: [u8; 3]) -> Raster {
    let mut pixels = Vec::new();
    for _ in 0..(w * h) {
        pixels.extend_from_slice(&c);
    }
    Raster { width: w, height: h, pixels }
}

fn solid_rgba(w: u32, h: u32, c: [u8; 4]) -> Raster {
    let mut pixels = Vec::new();
    for _ in 0..(w * h) {
        pixels.extend_from_slice(&c);
    }
    Raster { width: w, height: h, pixels }
}

#[test]
fn quality_jpeg_value() {
    assert_eq!(parse_quality("55"), Ok(Quality::Jpeg(55)));
    assert_eq!(parse_quality("1"), Ok(Quality::Jpeg(1)));
    assert_eq!(parse_quality("100"), Ok(Quality::Jpeg(100)));
    assert_eq!(parse_quality("+7"), Ok(Quality::Jpeg(7)));
}

#[test]
fn quality_out_of_range() {
    assert_eq!(parse_quality("0"), Err(WatermarkError::InvalidQuality));
    assert_eq!(parse_quality("101"), Err(WatermarkError::InvalidQuality));
    assert_eq!(parse_quality("300"), Err(WatermarkError::InvalidQuality));
    assert_eq!(parse_quality("abc"), Err(WatermarkError::InvalidQuality));
    assert_eq!(parse_quality(""), Err(WatermarkError::InvalidQuality));
    assert_eq!(parse_quality("Lossless"), Err(WatermarkError::InvalidQuality));
}

#[test]
fn quality_lossless() {
    assert_eq!(parse_quality("lossless"), Ok(Quality::Lossless));
}

#[test]
fn calc_size_unconstrained() {
    assert_eq!(calc_size(200, 50, 107, 21), (120, 30));
    assert_eq!(calc_size(100, 100, 0, 0), (120, 120));
}

#[test]
fn calc_size_height_clamp() {
    // 120 * 20 / 400 = 6 < 21, so the height is raised and the width follows
    assert_eq!(calc_size(400, 20, 107, 21), (420, 21));
}

#[test]
fn calc_size_width_clamp() {
    assert_eq!(calc_size(10, 100, 200, 0), (200, 2000));
    // both clamps: the width correction comes last
    assert_eq!(calc_size(1000, 10, 500, 20), (2000, 20));
    assert_eq!(calc_size(1000, 10, 3000, 20), (3000, 30));
}

#[test]
fn calc_size_rounds_half_away_from_zero() {
    // 120 * 1 / 16 = 7.5
    assert_eq!(calc_size(16, 1, 0, 0), (120, 8));
}

#[test]
fn calc_size_fed_back_is_stable() {
    for &(w, h, mw, mh) in &[(200u32, 50u32, 107u32, 21u32), (400, 20, 107, 21), (7, 3, 0, 90), (3, 7, 10, 10)] {
        let (nw, nh) = calc_size(w, h, mw, mh);
        assert_eq!(calc_size(w, h, nw, nh), (nw, nh));
    }
}

#[test]
fn offsets_for_each_code() {
    let (pw, ph, ww, wh) = (100u32, 50u32, 20u32, 10u32);
    assert_eq!(watermark_offset("tl", pw, ph, ww, wh), (0, 0));
    assert_eq!(watermark_offset("tc", pw, ph, ww, wh), (40, 0));
    assert_eq!(watermark_offset("tr", pw, ph, ww, wh), (80, 0));
    assert_eq!(watermark_offset("ml", pw, ph, ww, wh), (0, 20));
    assert_eq!(watermark_offset("mc", pw, ph, ww, wh), (40, 20));
    assert_eq!(watermark_offset("mr", pw, ph, ww, wh), (80, 20));
    assert_eq!(watermark_offset("bl", pw, ph, ww, wh), (0, 40));
    assert_eq!(watermark_offset("bc", pw, ph, ww, wh), (40, 40));
    assert_eq!(watermark_offset("br", pw, ph, ww, wh), (80, 40));
}

#[test]
fn offsets_unknown_code_is_bottom_right() {
    assert_eq!(watermark_offset("zz", 100, 50, 20, 10), (80, 40));
    assert_eq!(watermark_offset("", 100, 50, 20, 10), (80, 40));
}

#[test]
fn offsets_for_oversized_watermark() {
    assert_eq!(watermark_offset("br", 10, 10, 30, 25), (-20, -15));
    assert_eq!(watermark_offset("mc", 10, 10, 31, 25), (-10, -7));
}

#[test]
fn apply_changes_only_the_region() {
    let page = solid_rgb(6, 4, [200, 0, 0]);
    let wm = solid_rgba(2, 2, [0, 0, 255, 255]);
    let out = apply(&page, &wm, "br");
    assert_eq!((out.width, out.height), (6, 4));
    assert_eq!(out.pixels.len(), 6 * 4 * 4);
    for y in 0..4u32 {
        for x in 0..6u32 {
            let p = ((y * 6 + x) * 4) as usize;
            let px = &out.pixels[p..p + 4];
            if x >= 4 && y >= 2 {
                assert_eq!(px, &[0, 0, 255, 255]);
            } else {
                assert_eq!(px, &[200, 0, 0, 255]);
            }
        }
    }
}

#[test]
fn apply_oversized_watermark_is_clipped() {
    let page = solid_rgb(3, 2, [1, 2, 3]);
    let wm = solid_rgba(10, 10, [9, 9, 9, 255]);
    for pos in ["tl", "mc", "br", "xx"] {
        let out = apply(&page, &wm, pos);
        assert_eq!(out.pixels.len(), 3 * 2 * 4);
        assert!(out.pixels.chunks(4).all(|p| p == [9, 9, 9, 255]));
    }
}

#[test]
fn apply_transparent_watermark_keeps_page() {
    let page = solid_rgb(4, 4, [10, 20, 30]);
    let wm = solid_rgba(2, 2, [255, 255, 255, 0]);
    let out = apply(&page, &wm, "tl");
    assert!(out.pixels.chunks(4).all(|p| p == [10, 20, 30, 255]));
}

#[test]
fn rgb_rgba_conversions() {
    let rgb = Raster { width: 2, height: 1, pixels: vec![1, 2, 3, 4, 5, 6] };
    let rgba = to_rgba(&rgb);
    assert_eq!(rgba.pixels, vec![1, 2, 3, 255, 4, 5, 6, 255]);
    let back = to_rgb(&Raster { width: 2, height: 1, pixels: vec![1, 2, 3, 7, 4, 5, 6, 8] });
    assert_eq!(back.pixels, vec![1, 2, 3, 4, 5, 6]);
}

fn png_bytes(w: u32, h: u32, c: [u8; 4]) -> Vec<u8> {
    let img = image::RgbaImage::from_pixel(w, h, image::Rgba(c));
    let mut buf = std::io::Cursor::new(Vec::new());
    img.write_to(&mut buf, image::ImageFormat::Png).unwrap();
    buf.into_inner()
}

#[test]
fn prepare_resizes_logo() {
    let logo = png_bytes(200, 50, [0, 128, 0, 255]);
    let wm = prepare_from_bytes(&logo, 107, 21).unwrap();
    assert_eq!((wm.width, wm.height), (120, 30));
    assert_eq!(wm.pixels.len(), 120 * 30 * 4);
    assert!(wm.pixels.chunks(4).all(|p| p[3] == 255));
}

#[test]
fn prepare_rejects_garbage() {
    assert_eq!(prepare_from_bytes(&[1, 2, 3, 4], 10, 10).unwrap_err(), WatermarkError::InvalidWatermark);
}

#[test]
fn prepare_rejects_empty_logo() {
    let logo = Raster { width: 0, height: 5, pixels: vec![] };
    assert_eq!(prepare_logo(&logo, 10, 10).unwrap_err(), WatermarkError::InvalidWatermark);
}
