use std::io::Write;

use watermark_rs::builder::{build_document, encode_image_stream};
use watermark_rs::document::{load_document, write_document};
use watermark_rs::error::{PageFailure, WatermarkError};
use watermark_rs::pdf::{decode_stream, extract_page_image, extract_pages, PdfDocument, PdfObject};
use watermark_rs::predictor::{paeth, remove_png_predictor};
use watermark_rs::raster::Raster;
use watermark_rs::watermark::{calc_size, Quality};
use watermark_rs::{build_pdf_bytes, get_page_count, process_pdf, select_pages};

fn key(s: &str) -> Vec<u8> {
    s.as_bytes().to_vec()
}

fn name(s: &str) -> PdfObject {
    PdfObject::Name(key(s))
}

fn zlib(data: &[u8]) -> Vec<u8> {
    let mut e = flate2::write::ZlibEncoder::new(Vec::new(), flate2::Compression::default());
    e.write_all(data).unwrap();
    e.finish().unwrap()
}

fn stream_dict(filter: Option<&str>, color: &str) -> Vec<(Vec<u8>, PdfObject)> {
    let mut d = vec![
        (key("Subtype"), name("Image")),
        (key("ColorSpace"), name(color)),
        (key("Width"), PdfObject::Integer(2)),
        (key("Height"), PdfObject::Integer(2)),
    ];
    if let Some(f) = filter {
        d.push((key("Filter"), name(f)));
    }
    d
}

fn pattern(w: u32, h: u32) -> Vec<u8> {
    (0..w * h * 3).map(|i| (i * 37 % 251) as u8).collect()
}

/// PNG filtering of one row, the inverse of the reconstruction.
fn filter_row(ft: u8, row: &[u8], prev: &[u8], comp: usize) -> Vec<u8> {
    let mut out = Vec::new();
    for i in 0..row.len() {
        let a = if i >= comp { row[i - comp] } else { 0 };
        let b = prev[i];
        let c = if i >= comp { prev[i - comp] } else { 0 };
        let pred = match ft {
            1 => a,
            2 => b,
            3 => ((a as u16 + b as u16) / 2) as u8,
            4 => paeth(a, b, c),
            _ => 0,
        };
        out.push(row[i].wrapping_sub(pred));
    }
    out
}

#[test]
fn paeth_tie_breaks() {
    assert_eq!(paeth(1, 2, 3), 1);
    assert_eq!(paeth(10, 20, 10), 20);
    assert_eq!(paeth(5, 5, 10), 5);
    assert_eq!(paeth(0, 0, 0), 0);
    assert_eq!(paeth(100, 50, 200), 50);
    assert_eq!(paeth(20, 100, 60), 60);
}

#[test]
fn predictor_sub_and_up() {
    let data = vec![1, 1, 2, 3, 1, 1, 1, 2, 5, 5, 5, 5, 5, 5];
    let out = remove_png_predictor(&data, 2, 3);
    assert_eq!(out, vec![1, 2, 3, 2, 3, 4, 6, 7, 8, 7, 8, 9]);
}

#[test]
fn predictor_average_and_paeth() {
    let data = vec![3, 10, 20, 30, 4, 4, 4, 4, 0, 0, 0, 0, 0, 0];
    let out = remove_png_predictor(&data, 2, 3);
    // row 0, average: left 0 and up 0 for the first pixel
    assert_eq!(&out[0..6], &[10, 20, 30, 9, 14, 19]);
    // row 1, paeth with zero residuals repeats the predicted bytes
    assert_eq!(&out[6..12], &[10, 20, 30, 9, 14, 19]);
}

#[test]
fn predictor_round_trip_all_filters() {
    let (w, h, comp) = (5u32, 6u32, 3usize);
    let img = pattern(w, h);
    let stride = (w as usize) * comp;
    let types = [0u8, 1, 2, 3, 4, 2];
    let mut filtered = Vec::new();
    let zero = vec![0u8; stride];
    for r in 0..h as usize {
        let row = &img[r * stride..(r + 1) * stride];
        let prev = if r == 0 { &zero[..] } else { &img[(r - 1) * stride..r * stride] };
        filtered.push(types[r]);
        filtered.extend(filter_row(types[r], row, prev, comp));
    }
    assert_eq!(remove_png_predictor(&filtered, w, 3), img);
}

#[test]
fn decode_raw_stream() {
    let px = pattern(2, 2);
    let img = decode_stream(&stream_dict(None, "DeviceRGB"), &px, 2, 2).unwrap();
    assert_eq!((img.width, img.height), (2, 2));
    assert_eq!(img.pixels, px);
}

#[test]
fn decode_raw_stream_wrong_size() {
    let px = vec![0u8; 11];
    assert_eq!(
        decode_stream(&stream_dict(None, "DeviceRGB"), &px, 2, 2).unwrap_err(),
        WatermarkError::DecodedSizeMismatch { expected: 12, actual: 11 }
    );
}

#[test]
fn decode_flate_stream() {
    let px = pattern(2, 2);
    let img = decode_stream(&stream_dict(Some("FlateDecode"), "DeviceRGB"), &zlib(&px), 2, 2).unwrap();
    assert_eq!(img.pixels, px);
}

#[test]
fn decode_flate_png_filtered() {
    let data = vec![1, 1, 2, 3, 1, 1, 1, 2, 5, 5, 5, 5, 5, 5];
    let img = decode_stream(&stream_dict(Some("FlateDecode"), "DeviceRGB"), &zlib(&data), 2, 2).unwrap();
    assert_eq!(img.pixels, vec![1, 2, 3, 2, 3, 4, 6, 7, 8, 7, 8, 9]);
}

#[test]
fn decode_flate_wrong_size() {
    assert_eq!(
        decode_stream(&stream_dict(Some("FlateDecode"), "DeviceRGB"), &zlib(&[1, 2, 3]), 2, 2).unwrap_err(),
        WatermarkError::DecodedSizeMismatch { expected: 12, actual: 3 }
    );
}

#[test]
fn decode_flate_corrupt() {
    assert_eq!(
        decode_stream(&stream_dict(Some("FlateDecode"), "DeviceRGB"), &vec![9, 9, 9], 2, 2).unwrap_err(),
        WatermarkError::MalformedDocument
    );
}

#[test]
fn decode_unsupported_filter() {
    assert_eq!(
        decode_stream(&stream_dict(Some("LZWDecode"), "DeviceRGB"), &vec![0; 12], 2, 2).unwrap_err(),
        WatermarkError::UnsupportedFilter
    );
}

fn page_with(xobjects: Vec<(Vec<u8>, PdfObject)>, extra: Vec<((u32, u16), PdfObject)>) -> PdfDocument {
    let resources = vec![(key("XObject"), PdfObject::Dictionary(xobjects))];
    let page = vec![(key("Type"), name("Page")), (key("Resources"), PdfObject::Dictionary(resources))];
    let mut objects = vec![((3, 0), PdfObject::Dictionary(page))];
    objects.extend(extra);
    PdfDocument { objects, pages: vec![(1, (3, 0))] }
}

#[test]
fn gray_image_is_missing() {
    let gray = PdfObject::Stream(stream_dict(None, "DeviceGray"), vec![0; 4]);
    let doc = page_with(vec![(key("Im0"), PdfObject::Reference(7, 0))], vec![((7, 0), gray)]);
    assert_eq!(extract_page_image(&doc, (3, 0)).unwrap_err(), WatermarkError::MissingImage);
    assert_eq!(extract_pages(&doc).unwrap_err(), PageFailure { page: 1, error: WatermarkError::MissingImage });
}

#[test]
fn first_rgb_image_is_taken() {
    let gray = PdfObject::Stream(stream_dict(None, "DeviceGray"), vec![0; 4]);
    let rgb = PdfObject::Stream(stream_dict(None, "DeviceRGB"), pattern(2, 2));
    let doc = page_with(
        vec![(key("Im0"), PdfObject::Reference(7, 0)), (key("Im1"), PdfObject::Reference(8, 0))],
        vec![((7, 0), gray), ((8, 0), rgb)],
    );
    assert_eq!(extract_page_image(&doc, (3, 0)).unwrap().pixels, pattern(2, 2));
}

#[test]
fn dangling_reference_is_malformed() {
    let doc = page_with(vec![(key("Im0"), PdfObject::Reference(9, 0))], vec![]);
    assert_eq!(extract_page_image(&doc, (3, 0)).unwrap_err(), WatermarkError::MalformedDocument);
    assert_eq!(extract_page_image(&doc, (4, 0)).unwrap_err(), WatermarkError::MalformedDocument);
}

#[test]
fn selection_of_pages() {
    assert_eq!(select_pages(3, &[]), vec![0, 1, 2]);
    assert_eq!(select_pages(3, &[2, 5, 0, 2]), vec![2, 0, 2]);
    assert_eq!(select_pages(3, &[7]), Vec::<usize>::new());
}

fn rgba(w: u32, h: u32, seed: u32) -> Raster {
    let pixels = (0..w * h * 4).map(|i| if i % 4 == 3 { 255 } else { ((i + seed) * 13 % 256) as u8 }).collect();
    Raster { width: w, height: h, pixels }
}

fn rgb_of(r: &Raster) -> Vec<u8> {
    r.pixels.chunks(4).flat_map(|p| p[..3].to_vec()).collect()
}

#[test]
fn lossless_stream_round_trips() {
    let img = rgba(3, 2, 5);
    match encode_image_stream(&img, Quality::Lossless).unwrap() {
        PdfObject::Stream(d, c) => {
            let back = decode_stream(&d, &c, 3, 2).unwrap();
            assert_eq!(back.pixels, rgb_of(&img));
        }
        _ => panic!("not a stream"),
    }
}

#[test]
fn jpeg_stream_is_dct() {
    let img = rgba(16, 16, 1);
    match encode_image_stream(&img, Quality::Jpeg(80)).unwrap() {
        PdfObject::Stream(d, c) => {
            assert!(c.starts_with(&[0xFF, 0xD8]));
            let back = decode_stream(&d, &c, 16, 16).unwrap();
            assert_eq!((back.width, back.height), (16, 16));
        }
        _ => panic!("not a stream"),
    }
}

#[test]
fn built_document_round_trips_through_bytes() {
    let images = vec![rgba(4, 3, 0), rgba(2, 5, 9)];
    let doc = build_document(&images, Quality::Lossless).unwrap();
    assert_eq!(doc.objects.len(), 8);
    assert_eq!(doc.root, (8, 0));
    let bytes = write_document(&doc).unwrap();
    assert!(bytes.starts_with(b"%PDF-1.4"));
    let parsed = load_document(&bytes).unwrap();
    let pages = extract_pages(&parsed).unwrap();
    assert_eq!(pages.len(), 2);
    for (p, img) in pages.iter().zip(images.iter()) {
        assert_eq!((p.width, p.height), (img.width, img.height));
        assert_eq!(p.pixels, rgb_of(img));
    }
}

#[test]
fn page_count_of_built_document() {
    for n in [1usize, 3] {
        let images: Vec<Raster> = (0..n).map(|i| rgba(3, 3, i as u32)).collect();
        let bytes = build_pdf_bytes(&images, Quality::Lossless).unwrap();
        assert_eq!(get_page_count(&bytes), Ok(n));
        let jpeg = build_pdf_bytes(&images, Quality::Jpeg(90)).unwrap();
        assert_eq!(get_page_count(&jpeg), Ok(n));
    }
}

#[test]
fn garbage_is_malformed() {
    assert_eq!(get_page_count(b"not a pdf"), Err(WatermarkError::MalformedDocument));
}

/// A document whose pages each hold one Flate-compressed DeviceRGB image.
fn source_pdf(pages: &[Vec<u8>], w: u32, h: u32) -> Vec<u8> {
    let mut doc = lopdf::Document::with_version("1.5");
    let pages_id = doc.new_object_id();
    let mut kids = Vec::new();
    for px in pages {
        let mut d = lopdf::Dictionary::new();
        d.set("Type", lopdf::Object::Name(key("XObject")));
        d.set("Subtype", lopdf::Object::Name(key("Image")));
        d.set("Width", lopdf::Object::Integer(w as i64));
        d.set("Height", lopdf::Object::Integer(h as i64));
        d.set("ColorSpace", lopdf::Object::Name(key("DeviceRGB")));
        d.set("BitsPerComponent", lopdf::Object::Integer(8));
        d.set("Filter", lopdf::Object::Name(key("FlateDecode")));
        let img_id = doc.add_object(lopdf::Stream::new(d, zlib(px)));
        let mut xo = lopdf::Dictionary::new();
        xo.set("Im0", lopdf::Object::Reference(img_id));
        let mut res = lopdf::Dictionary::new();
        res.set("XObject", lopdf::Object::Dictionary(xo));
        let mut page = lopdf::Dictionary::new();
        page.set("Type", lopdf::Object::Name(key("Page")));
        page.set("Parent", lopdf::Object::Reference(pages_id));
        page.set("Resources", lopdf::Object::Dictionary(res));
        let page_id = doc.add_object(page);
        kids.push(lopdf::Object::Reference(page_id));
    }
    let mut node = lopdf::Dictionary::new();
    node.set("Type", lopdf::Object::Name(key("Pages")));
    node.set("Count", lopdf::Object::Integer(kids.len() as i64));
    node.set("Kids", lopdf::Object::Array(kids));
    doc.objects.insert(pages_id, lopdf::Object::Dictionary(node));
    let mut cat = lopdf::Dictionary::new();
    cat.set("Type", lopdf::Object::Name(key("Catalog")));
    cat.set("Pages", lopdf::Object::Reference(pages_id));
    let cat_id = doc.add_object(cat);
    doc.trailer.set("Root", lopdf::Object::Reference(cat_id));
    let mut out = Vec::new();
    doc.save_to(&mut out).unwrap();
    out
}

fn logo_png(w: u32, h: u32) -> Vec<u8> {
    let img = image::RgbaImage::from_pixel(w, h, image::Rgba([0, 90, 200, 255]));
    let mut buf = std::io::Cursor::new(Vec::new());
    img.write_to(&mut buf, image::ImageFormat::Png).unwrap();
    buf.into_inner()
}

#[test]
fn end_to_end_lossless_bottom_right() {
    let (w, h) = (300u32, 200u32);
    let sources = vec![pattern(w, h), pattern(w, h).iter().map(|b| b.wrapping_add(77)).collect::<Vec<u8>>()];
    let pdf = source_pdf(&sources, w, h);
    assert_eq!(get_page_count(&pdf), Ok(2));
    let out = process_pdf(&pdf, &logo_png(200, 50), "lossless", &[], "br", 107, 21).unwrap();
    assert_eq!(get_page_count(&out), Ok(2));
    let pages = extract_pages(&load_document(&out).unwrap()).unwrap();
    let (ww, wh) = calc_size(200, 50, 107, 21);
    assert_eq!((ww, wh), (120, 30));
    for (page, src) in pages.iter().zip(sources.iter()) {
        assert_eq!((page.width, page.height), (w, h));
        let mut changed = 0;
        for y in 0..h {
            for x in 0..w {
                let p = ((y * w + x) * 3) as usize;
                let inside = x >= w - ww && y >= h - wh;
                if inside {
                    assert_eq!(&page.pixels[p..p + 3], &[0, 90, 200]);
                    changed += 1;
                } else {
                    assert_eq!(&page.pixels[p..p + 3], &src[p..p + 3]);
                }
            }
        }
        assert_eq!(changed, ww * wh);
    }
}

#[test]
fn process_rejects_bad_quality_first() {
    assert_eq!(process_pdf(b"junk", b"junk", "0", &[], "br", 1, 1), Err(WatermarkError::InvalidQuality));
}

#[test]
fn process_empty_selection() {
    let pdf = source_pdf(&[pattern(4, 4)], 4, 4);
    assert_eq!(
        process_pdf(&pdf, &logo_png(20, 5), "lossless", &[3, 9], "br", 1, 1),
        Err(WatermarkError::EmptySelection)
    );
}

#[test]
fn process_bad_logo() {
    let pdf = source_pdf(&[pattern(4, 4)], 4, 4);
    assert_eq!(
        process_pdf(&pdf, b"nope", "lossless", &[], "br", 1, 1),
        Err(WatermarkError::InvalidWatermark)
    );
}

#[test]
fn process_selected_pages_in_given_order() {
    let a = pattern(8, 8);
    let b: Vec<u8> = a.iter().map(|x| x ^ 0x55).collect();
    let pdf = source_pdf(&[a.clone(), b.clone()], 8, 8);
    let out = process_pdf(&pdf, &logo_png(4, 4), "lossless", &[1, 0, 1], "tl", 1, 1).unwrap();
    let pages = extract_pages(&load_document(&out).unwrap()).unwrap();
    assert_eq!(pages.len(), 3);
    // the logo is 120 wide, so it covers these small pages whole
    assert!(pages.iter().all(|p| p.pixels.chunks(3).all(|c| c == [0, 90, 200])));
}

#[test]
fn process_jpeg_quality() {
    let pdf = source_pdf(&[pattern(16, 16)], 16, 16);
    let out = process_pdf(&pdf, &logo_png(4, 2), "55", &[], "", 1, 1).unwrap();
    assert_eq!(get_page_count(&out), Ok(1));
}

#[test]
fn empty_filter_name_is_unsupported() {
    let mut d = stream_dict(None, "DeviceRGB");
    d.push((key("Filter"), PdfObject::Name(Vec::new())));
    assert_eq!(decode_stream(&d, &pattern(2, 2), 2, 2).unwrap_err(), WatermarkError::UnsupportedFilter);
}

#[test]
fn filter_array_is_unsupported() {
    let mut d = stream_dict(None, "DeviceRGB");
    d.push((key("Filter"), PdfObject::Array(vec![name("FlateDecode")])));
    assert_eq!(decode_stream(&d, &zlib(&pattern(2, 2)), 2, 2).unwrap_err(), WatermarkError::UnsupportedFilter);
}

#[test]
fn negative_width_is_malformed() {
    let mut d = stream_dict(None, "DeviceRGB");
    d[2] = (key("Width"), PdfObject::Integer(-2));
    let img = PdfObject::Stream(d, pattern(2, 2));
    let doc = page_with(vec![(key("Im0"), PdfObject::Reference(7, 0))], vec![((7, 0), img)]);
    assert_eq!(extract_page_image(&doc, (3, 0)).unwrap_err(), WatermarkError::MalformedDocument);
}

#[test]
fn failing_page_is_named() {
    let good = PdfObject::Stream(stream_dict(None, "DeviceRGB"), pattern(2, 2));
    let mut doc = page_with(vec![(key("Im0"), PdfObject::Reference(7, 0))], vec![((7, 0), good)]);
    let resources = vec![(key("XObject"), PdfObject::Dictionary(vec![]))];
    let page = vec![(key("Resources"), PdfObject::Dictionary(resources))];
    doc.objects.push(((4, 0), PdfObject::Dictionary(page)));
    doc.pages.push((2, (4, 0)));
    assert_eq!(extract_pages(&doc).unwrap_err(), PageFailure { page: 2, error: WatermarkError::MissingImage });
}

#[test]
fn jpeg_refuses_empty_and_oversized() {
    assert_eq!(encode_image_stream(&rgba(0, 3, 0), Quality::Jpeg(80)).unwrap_err(), WatermarkError::IOFailure);
    assert_eq!(encode_image_stream(&rgba(70000, 1, 0), Quality::Jpeg(80)).unwrap_err(), WatermarkError::IOFailure);
    assert!(encode_image_stream(&rgba(0, 3, 0), Quality::Lossless).is_ok());
    assert_eq!(build_document(&vec![rgba(2, 2, 0), rgba(0, 2, 0)], Quality::Jpeg(50)).unwrap_err(), WatermarkError::IOFailure);
}

#[test]
fn bmp_logo_is_sniffed() {
    let img = image::RgbaImage::from_pixel(40, 10, image::Rgba([5, 6, 7, 255]));
    let mut buf = std::io::Cursor::new(Vec::new());
    img.write_to(&mut buf, image::ImageFormat::Bmp).unwrap();
    let wm = watermark_rs::watermark::prepare_from_bytes(&buf.into_inner(), 1, 1).unwrap();
    assert_eq!((wm.width, wm.height), (120, 30));
}
