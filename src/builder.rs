//! Building the output document: one page per raster, each painting its
//! image over a fixed page size.
use vstd::prelude::*;
use vstd::string::StringSliceAdditionalSpecFns;
use crate::codec::{deflate, deflated, encode_jpeg, inflated, jpeg_encoded, jpeg_size_ok};
use crate::error::WatermarkError;
use crate::pdf::{
    ObjectId, PdfObject, decode_spec, dict_get_spec, filter_name, flate_result, get_uint_spec, is_name_spec, lookup,
    page_image_spec, resolve_spec, select_spec, lemma_dict_get_at,
};
use crate::raster::{Raster, rgb_of_rgba, to_rgb};
use crate::watermark::Quality;

verus! {

/// Page width and height, in points.
pub const PAGE_W: i64 = 1376;
pub const PAGE_H: i64 = 768;

/// A document under construction: its objects, and the id of its catalog.
#[derive(Debug)]
pub struct OutputDocument {
    pub objects: Vec<(ObjectId, PdfObject)>,
    pub root: ObjectId,
}

/// The bytes of a string.
pub fn bytes_of(s: &str) -> (r: Vec<u8>)
    ensures
        r@ == s.spec_bytes(),
{
    let b = s.as_bytes();
    let mut out: Vec<u8> = Vec::new();
    let mut i: usize = 0;
    while i < b.len()
        invariant
            0 <= i <= b@.len(),
            b@ == s.spec_bytes(),
            out@ == b@.subrange(0, i as int),
        decreases b@.len() - i,
    {
        out.push(b[i]);
        i = i + 1;
    }
    assert(out@ =~= b@);
    out
}

/// A name object.
pub fn name(s: &str) -> (r: PdfObject)
    ensures
        r matches PdfObject::Name(n) && n@ == s.spec_bytes(),
{
    PdfObject::Name(bytes_of(s))
}

/// A dictionary entry.
pub fn entry(key: &str, value: PdfObject) -> (r: (Vec<u8>, PdfObject))
    ensures
        r.0@ == key.spec_bytes(),
        r.1 == value,
{
    (bytes_of(key), value)
}

/// What the dictionary of an image stream says of an image of `w` by `h`
/// encoded with `filter`.
pub open spec fn image_dict_spec(d: Seq<(Vec<u8>, PdfObject)>, w: u32, h: u32, filter: Seq<u8>) -> bool {
    &&& is_name_spec(d, "Type".spec_bytes(), "XObject".spec_bytes())
    &&& is_name_spec(d, "Subtype".spec_bytes(), "Image".spec_bytes())
    &&& is_name_spec(d, "ColorSpace".spec_bytes(), "DeviceRGB".spec_bytes())
    &&& dict_get_spec(d, "Width".spec_bytes()) == Some(PdfObject::Integer(w as i64))
    &&& dict_get_spec(d, "Height".spec_bytes()) == Some(PdfObject::Integer(h as i64))
    &&& get_uint_spec(d, "Width".spec_bytes()) == Some(w)
    &&& get_uint_spec(d, "Height".spec_bytes()) == Some(h)
    &&& dict_get_spec(d, "BitsPerComponent".spec_bytes()) == Some(PdfObject::Integer(8))
    &&& filter_name(d) == Some(filter)
}

/// What the image stream of a raster with RGBA bytes `pixels` holds under
/// `quality`: Deflate of the RGB bytes, which inflates back to them, or
/// their JPEG encoding.
pub open spec fn image_stream_spec(o: PdfObject, w: u32, h: u32, pixels: Seq<u8>, quality: Quality) -> bool {
    match o {
        PdfObject::Stream(d, c) => match quality {
            Quality::Lossless => image_dict_spec(d@, w, h, "FlateDecode".spec_bytes()) && c@ == deflated(
                rgb_of_rgba(pixels),
            ) && inflated(c@) == Some(rgb_of_rgba(pixels)),
            Quality::Jpeg(q) => image_dict_spec(d@, w, h, "DCTDecode".spec_bytes()) && c@ == jpeg_encoded(
                rgb_of_rgba(pixels),
                w,
                h,
                q,
            ),
        },
        _ => false,
    }
}

proof fn lemma_ascii(s: &str)
    requires
        vstd::string::is_ascii(s),
    ensures
        s.spec_bytes().len() == s@.len(),
        forall|i: int| 0 <= i < s@.len() ==> s.spec_bytes()[i] == s@[i] as u8,
{
    vstd::string::is_ascii_spec_bytes(s);
}

/// The byte lengths of the keys of an image dictionary, and the first byte of
/// the two of equal length.
proof fn lemma_image_keys()
    ensures
        "Type".spec_bytes().len() == 4,
        "Subtype".spec_bytes().len() == 7,
        "Width".spec_bytes().len() == 5,
        "Height".spec_bytes().len() == 6,
        "ColorSpace".spec_bytes().len() == 10,
        "BitsPerComponent".spec_bytes().len() == 16,
        "Filter".spec_bytes().len() == 6,
        "Height".spec_bytes()[0] != "Filter".spec_bytes()[0],
{
    reveal_strlit("Type");
    reveal_strlit("Subtype");
    reveal_strlit("Width");
    reveal_strlit("Height");
    reveal_strlit("ColorSpace");
    reveal_strlit("BitsPerComponent");
    reveal_strlit("Filter");
    lemma_ascii("Type");
    lemma_ascii("Subtype");
    lemma_ascii("Width");
    lemma_ascii("Height");
    lemma_ascii("ColorSpace");
    lemma_ascii("BitsPerComponent");
    lemma_ascii("Filter");
}

fn image_dict(w: u32, h: u32, filter: &str) -> (r: Vec<(Vec<u8>, PdfObject)>)
    ensures
        image_dict_spec(r@, w, h, filter.spec_bytes()),
{
    let mut d: Vec<(Vec<u8>, PdfObject)> = Vec::new();
    d.push(entry("Type", name("XObject")));
    d.push(entry("Subtype", name("Image")));
    d.push(entry("Width", PdfObject::Integer(w as i64)));
    d.push(entry("Height", PdfObject::Integer(h as i64)));
    d.push(entry("ColorSpace", name("DeviceRGB")));
    d.push(entry("BitsPerComponent", PdfObject::Integer(8)));
    d.push(entry("Filter", name(filter)));
    proof {
        lemma_image_keys();
        let s = d@;
        assert(s[3].0@[0] != s[6].0@[0]);
        lemma_dict_get_at(s, "Type".spec_bytes(), 0);
        lemma_dict_get_at(s, "Subtype".spec_bytes(), 1);
        lemma_dict_get_at(s, "Width".spec_bytes(), 2);
        lemma_dict_get_at(s, "Height".spec_bytes(), 3);
        lemma_dict_get_at(s, "ColorSpace".spec_bytes(), 4);
        lemma_dict_get_at(s, "BitsPerComponent".spec_bytes(), 5);
        lemma_dict_get_at(s, "Filter".spec_bytes(), 6);
    }
    d
}

/// Whether a raster of `w` by `h` can be encoded under `quality`: always
/// losslessly, and as JPEG where both sides are from 1 to 65535.
pub open spec fn encodable(w: u32, h: u32, quality: Quality) -> bool {
    quality is Lossless || jpeg_size_ok(w, h)
}

/// The image stream of an RGBA raster, encoded as `quality` asks.
pub fn encode_image_stream(img: &Raster, quality: Quality) -> (r: Result<PdfObject, WatermarkError>)
    requires
        img.is_rgba(),
    ensures
        r is Ok <==> encodable(img.width, img.height, quality),
        match r {
            Ok(o) => image_stream_spec(o, img.width, img.height, img.pixels@, quality),
            Err(e) => e == WatermarkError::IOFailure,
        },
{
    let rgb = to_rgb(img);
    match quality {
        Quality::Lossless => match deflate(rgb.pixels.as_slice()) {
            Some(compressed) => Ok(PdfObject::Stream(image_dict(img.width, img.height, "FlateDecode"), compressed)),
            None => Err(WatermarkError::IOFailure),
        },
        Quality::Jpeg(q) => match encode_jpeg(&rgb, q) {
            Some(buf) => Ok(PdfObject::Stream(image_dict(img.width, img.height, "DCTDecode"), buf)),
            None => Err(WatermarkError::IOFailure),
        },
    }
}

/// The id of the image, content stream and page objects of page `i`, and of
/// the catalog of a document of `n` pages; the page tree node is object 1.
pub open spec fn image_id(i: int) -> ObjectId {
    ((3 * i + 2) as u32, 0u16)
}

pub open spec fn content_id(i: int) -> ObjectId {
    ((3 * i + 3) as u32, 0u16)
}

pub open spec fn page_id(i: int) -> ObjectId {
    ((3 * i + 4) as u32, 0u16)
}

pub open spec fn catalog_id(n: int) -> ObjectId {
    ((3 * n + 2) as u32, 0u16)
}

/// A page object of page `i`: its resources name the image of page `i` as
/// its only XObject, and it hangs under the page tree node.
pub open spec fn page_dict_spec(o: PdfObject, i: int) -> bool {
    match o {
        PdfObject::Dictionary(pd) => {
            &&& is_name_spec(pd@, "Type".spec_bytes(), "Page".spec_bytes())
            &&& dict_get_spec(pd@, "Parent".spec_bytes()) == Some(PdfObject::Reference(1, 0))
            &&& dict_get_spec(pd@, "Contents".spec_bytes()) == Some(
                PdfObject::Reference(content_id(i).0, 0),
            )
            &&& match dict_get_spec(pd@, "MediaBox".spec_bytes()) {
                Some(PdfObject::Array(m)) => m@ == seq![
                    PdfObject::Integer(0),
                    PdfObject::Integer(0),
                    PdfObject::Integer(PAGE_W),
                    PdfObject::Integer(PAGE_H),
                ],
                _ => false,
            }
            &&& match dict_get_spec(pd@, "Resources".spec_bytes()) {
                Some(PdfObject::Dictionary(rd)) => match dict_get_spec(rd@, "XObject".spec_bytes()) {
                    Some(PdfObject::Dictionary(xd)) => xd@.len() == 1 && xd@[0].0@ == "Im0".spec_bytes()
                        && xd@[0].1 == PdfObject::Reference(image_id(i).0, 0),
                    _ => false,
                },
                _ => false,
            }
        },
        _ => false,
    }
}

/// The page tree node of `n` pages.
pub open spec fn pages_node_spec(o: PdfObject, n: int) -> bool {
    match o {
        PdfObject::Dictionary(d) => {
            &&& is_name_spec(d@, "Type".spec_bytes(), "Pages".spec_bytes())
            &&& dict_get_spec(d@, "Count".spec_bytes()) == Some(PdfObject::Integer(n as i64))
            &&& match dict_get_spec(d@, "Kids".spec_bytes()) {
                Some(PdfObject::Array(kids)) => kids@.len() == n && forall|i: int|
                    0 <= i < n ==> #[trigger] kids@[i] == PdfObject::Reference(page_id(i).0, 0),
                _ => false,
            }
        },
        _ => false,
    }
}

/// The catalog, pointing at the page tree node.
pub open spec fn catalog_spec(o: PdfObject) -> bool {
    match o {
        PdfObject::Dictionary(d) => {
            &&& is_name_spec(d@, "Type".spec_bytes(), "Catalog".spec_bytes())
            &&& dict_get_spec(d@, "Pages".spec_bytes()) == Some(PdfObject::Reference(1, 0))
        },
        _ => false,
    }
}

proof fn lemma_page_keys()
    ensures
        "Type".spec_bytes().len() == 4,
        "Parent".spec_bytes().len() == 6,
        "MediaBox".spec_bytes().len() == 8,
        "Contents".spec_bytes().len() == 8,
        "Resources".spec_bytes().len() == 9,
        "MediaBox".spec_bytes()[0] != "Contents".spec_bytes()[0],
        "Kids".spec_bytes().len() == 4,
        "Count".spec_bytes().len() == 5,
        "Type".spec_bytes()[0] != "Kids".spec_bytes()[0],
        "Pages".spec_bytes().len() == 5,
{
    reveal_strlit("Type");
    reveal_strlit("Parent");
    reveal_strlit("MediaBox");
    reveal_strlit("Contents");
    reveal_strlit("Resources");
    reveal_strlit("Kids");
    reveal_strlit("Count");
    reveal_strlit("Pages");
    lemma_ascii("Type");
    lemma_ascii("Parent");
    lemma_ascii("MediaBox");
    lemma_ascii("Contents");
    lemma_ascii("Resources");
    lemma_ascii("Kids");
    lemma_ascii("Count");
    lemma_ascii("Pages");
}

fn single(key: &str, value: PdfObject) -> (r: Vec<(Vec<u8>, PdfObject)>)
    ensures
        r@.len() == 1,
        r@[0].0@ == key.spec_bytes(),
        r@[0].1 == value,
        dict_get_spec(r@, key.spec_bytes()) == Some(value),
{
    let mut d: Vec<(Vec<u8>, PdfObject)> = Vec::new();
    d.push(entry(key, value));
    d
}

/// The content stream that paints `Im0` scaled to the whole page.
pub open spec fn content_spec(o: PdfObject) -> bool {
    match o {
        PdfObject::Stream(_, c) => c@ == "q\n1376 0 0 768 0 0 cm\n/Im0 Do\nQ\n".spec_bytes(),
        _ => false,
    }
}

fn page_content() -> (r: PdfObject)
    ensures
        content_spec(r),
{
    PdfObject::Stream(Vec::new(), bytes_of("q\n1376 0 0 768 0 0 cm\n/Im0 Do\nQ\n"))
}

fn page_dict(i: u32) -> (r: PdfObject)
    requires
        3 * i + 4 <= u32::MAX,
    ensures
        page_dict_spec(r, i as int),
{
    let mut media: Vec<PdfObject> = Vec::new();
    media.push(PdfObject::Integer(0));
    media.push(PdfObject::Integer(0));
    media.push(PdfObject::Integer(PAGE_W));
    media.push(PdfObject::Integer(PAGE_H));
    let xobjects = single("Im0", PdfObject::Reference(3 * i + 2, 0));
    let resources = single("XObject", PdfObject::Dictionary(xobjects));
    let mut d: Vec<(Vec<u8>, PdfObject)> = Vec::new();
    d.push(entry("Type", name("Page")));
    d.push(entry("Parent", PdfObject::Reference(1, 0)));
    d.push(entry("MediaBox", PdfObject::Array(media)));
    d.push(entry("Contents", PdfObject::Reference(3 * i + 3, 0)));
    d.push(entry("Resources", PdfObject::Dictionary(resources)));
    proof {
        lemma_page_keys();
        let s = d@;
        assert(s[2].0@[0] != s[3].0@[0]);
        lemma_dict_get_at(s, "Type".spec_bytes(), 0);
        lemma_dict_get_at(s, "Parent".spec_bytes(), 1);
        lemma_dict_get_at(s, "MediaBox".spec_bytes(), 2);
        lemma_dict_get_at(s, "Contents".spec_bytes(), 3);
        lemma_dict_get_at(s, "Resources".spec_bytes(), 4);
        assert(media@ =~= seq![
            PdfObject::Integer(0),
            PdfObject::Integer(0),
            PdfObject::Integer(PAGE_W),
            PdfObject::Integer(PAGE_H),
        ]);
    }
    PdfObject::Dictionary(d)
}

fn pages_node(kids: Vec<PdfObject>, n: u32) -> (r: PdfObject)
    requires
        kids@.len() == n,
        forall|i: int| 0 <= i < n ==> #[trigger] kids@[i] == PdfObject::Reference(page_id(i).0, 0),
    ensures
        pages_node_spec(r, n as int),
{
    let mut d: Vec<(Vec<u8>, PdfObject)> = Vec::new();
    d.push(entry("Type", name("Pages")));
    d.push(entry("Kids", PdfObject::Array(kids)));
    d.push(entry("Count", PdfObject::Integer(n as i64)));
    proof {
        lemma_page_keys();
        let s = d@;
        assert(s[0].0@[0] != s[1].0@[0]);
        lemma_dict_get_at(s, "Type".spec_bytes(), 0);
        lemma_dict_get_at(s, "Kids".spec_bytes(), 1);
        lemma_dict_get_at(s, "Count".spec_bytes(), 2);
    }
    PdfObject::Dictionary(d)
}

fn catalog() -> (r: PdfObject)
    ensures
        catalog_spec(r),
{
    let mut d: Vec<(Vec<u8>, PdfObject)> = Vec::new();
    d.push(entry("Type", name("Catalog")));
    d.push(entry("Pages", PdfObject::Reference(1, 0)));
    proof {
        lemma_page_keys();
        let s = d@;
        lemma_dict_get_at(s, "Type".spec_bytes(), 0);
        lemma_dict_get_at(s, "Pages".spec_bytes(), 1);
    }
    PdfObject::Dictionary(d)
}

/// What a document built from `images` under `quality` holds. Object `k`
/// has id `k + 1`: the page tree node first, then the image, content stream
/// and page object of each page, then the catalog.
pub open spec fn built_spec(images: Seq<Raster>, quality: Quality, doc: OutputDocument) -> bool {
    let n = images.len() as int;
    &&& doc.objects@.len() == 3 * n + 2
    &&& doc.root == catalog_id(n)
    &&& forall|k: int| 0 <= k < doc.objects@.len() ==> (#[trigger] doc.objects@[k]).0 == ((k + 1) as u32, 0u16)
    &&& pages_node_spec(doc.objects@[0].1, n)
    &&& catalog_spec(doc.objects@[3 * n + 1].1)
    &&& forall|i: int| 0 <= i < n ==> image_stream_spec(
        #[trigger] doc.objects@[3 * i + 1].1,
        images[i].width,
        images[i].height,
        images[i].pixels@,
        quality,
    )
    &&& forall|i: int| 0 <= i < n ==> page_dict_spec(#[trigger] doc.objects@[3 * i + 3].1, i)
    &&& forall|i: int| 0 <= i < n ==> content_spec(#[trigger] doc.objects@[3 * i + 2].1)
}

/// The page tree of a built document counts one page per raster, and its
/// kids are the page objects in raster order; the trailer's root is the
/// catalog, which points at that tree.
pub proof fn lemma_built_page_count(images: Seq<Raster>, quality: Quality, doc: OutputDocument)
    requires
        built_spec(images, quality, doc),
    ensures
        doc.objects@[0].0 == (1u32, 0u16),
        pages_node_spec(doc.objects@[0].1, images.len() as int),
        doc.objects@[3 * images.len() as int + 1].0 == doc.root,
        catalog_spec(doc.objects@[3 * images.len() as int + 1].1),
{
    assert(doc.objects@[0].0 == (1u32, 0u16));
    assert(doc.objects@[3 * images.len() as int + 1].0 == ((3 * images.len() + 2) as u32, 0u16));
}

proof fn lemma_lookup_numbered(objects: Seq<(ObjectId, PdfObject)>, base: int, k: int)
    requires
        0 <= k < objects.len(),
        1 <= base,
        base + objects.len() <= u32::MAX + 1,
        forall|j: int| 0 <= j < objects.len() ==> (#[trigger] objects[j]).0 == ((base + j) as u32, 0u16),
    ensures
        lookup(objects, ((base + k) as u32, 0u16)) == Some(objects[k].1),
    decreases k,
{
    if k > 0 {
        let rest = objects.drop_first();
        assert forall|j: int| 0 <= j < rest.len() implies (#[trigger] rest[j]).0 == ((base + 1 + j) as u32, 0u16) by {
            assert(rest[j] == objects[j + 1]);
        }
        lemma_lookup_numbered(rest, base + 1, k - 1);
        assert(objects[0].0 != ((base + k) as u32, 0u16));
    }
}

/// Extracting page `i` of a document built losslessly gives back the RGB
/// bytes of the `i`-th raster: Deflate of raw RGB loses nothing.
pub proof fn lemma_lossless_round_trip(images: Seq<Raster>, doc: OutputDocument, i: int)
    requires
        forall|j: int| 0 <= j < images.len() ==> (#[trigger] images[j]).is_rgba(),
        3 * images.len() + 2 <= u32::MAX,
        built_spec(images, Quality::Lossless, doc),
        0 <= i < images.len(),
    ensures
        page_image_spec(doc.objects@, page_id(i)) == Ok::<(u32, u32, Seq<u8>), WatermarkError>(
            (images[i].width, images[i].height, rgb_of_rgba(images[i].pixels@)),
        ),
{
    let objects = doc.objects@;
    let img = images[i];
    let w = img.width;
    let h = img.height;
    let rgb = rgb_of_rgba(img.pixels@);
    assert(objects[3 * i + 3].0 == page_id(i));
    lemma_lookup_numbered(objects, 1, 3 * i + 3);
    lemma_lookup_numbered(objects, 1, 3 * i + 1);
    assert(objects[3 * i + 1].0 == image_id(i));
    assert(img.is_rgba());
    assert(img.pixels@.len() / 4 == w as int * h as int) by {
        assert((w as int * h as int * 4) / 4 == w as int * h as int) by (nonlinear_arith);
    }
    assert(rgb.len() == w as int * h as int * 3);
    assert(flate_result(rgb, w, h) == Ok::<(u32, u32, Seq<u8>), WatermarkError>((w, h, rgb)));
    let page = objects[3 * i + 3].1;
    let stream = objects[3 * i + 1].1;
    assert(page_dict_spec(page, i));
    assert(image_stream_spec(stream, w, h, img.pixels@, Quality::Lossless));
    match page {
        PdfObject::Dictionary(pd) => {
            match dict_get_spec(pd@, "Resources".spec_bytes()) {
                Some(PdfObject::Dictionary(rd)) => {
                    match dict_get_spec(rd@, "XObject".spec_bytes()) {
                        Some(PdfObject::Dictionary(xd)) => {
                            assert(resolve_spec(objects, xd@[0].1) == Some(stream));
                            match stream {
                                PdfObject::Stream(d, c) => {
                                    assert(decode_spec(d@, c@, w, h) == Ok::<(u32, u32, Seq<u8>), WatermarkError>((w, h, rgb)));
                                    assert(select_spec(objects, xd@, 0) == decode_spec(d@, c@, w, h));
                                },
                                _ => {},
                            }
                        },
                        _ => {},
                    }
                },
                _ => {},
            }
        },
        _ => {},
    }
}

/// The document of `images.len()` pages, page `i` showing `images[i]`
/// encoded as `quality` asks. Object `k` of the result has id `k + 1`: the
/// page tree node first, then the image, content stream and page object of
/// each page, then the catalog.
pub fn build_document(images: &Vec<Raster>, quality: Quality) -> (r: Result<OutputDocument, WatermarkError>)
    requires
        forall|i: int| 0 <= i < images@.len() ==> (#[trigger] images@[i]).is_rgba(),
        3 * images@.len() + 2 <= u32::MAX,
    ensures
        r is Ok <==> forall|i: int| 0 <= i < images@.len() ==> encodable(
            #[trigger] images@[i].width,
            images@[i].height,
            quality,
        ),
        match r {
            Ok(doc) => built_spec(images@, quality, doc),
            Err(e) => e == WatermarkError::IOFailure,
        },
{
    let n: usize = images.len();
    let mut objects: Vec<(ObjectId, PdfObject)> = Vec::new();
    let mut kids: Vec<PdfObject> = Vec::new();
    let mut i: usize = 0;
    while i < n
        invariant
            n == images@.len(),
            3 * n + 2 <= u32::MAX,
            0 <= i <= n,
            forall|j: int| 0 <= j < n ==> (#[trigger] images@[j]).is_rgba(),
            objects@.len() == 3 * i,
            kids@.len() == i,
            forall|j: int| 0 <= j < i ==> #[trigger] kids@[j] == PdfObject::Reference(page_id(j).0, 0),
            forall|k: int| 0 <= k < objects@.len() ==> (#[trigger] objects@[k]).0 == ((k + 2) as u32, 0u16),
            forall|j: int| 0 <= j < i ==> image_stream_spec(
                #[trigger] objects@[3 * j].1,
                images@[j].width,
                images@[j].height,
                images@[j].pixels@,
                quality,
            ),
            forall|j: int| 0 <= j < i ==> page_dict_spec(#[trigger] objects@[3 * j + 2].1, j),
            forall|j: int| 0 <= j < i ==> content_spec(#[trigger] objects@[3 * j + 1].1),
            forall|j: int| 0 <= j < i ==> encodable(#[trigger] images@[j].width, images@[j].height, quality),
        decreases n - i,
    {
        let stream = match encode_image_stream(&images[i], quality) {
            Ok(s) => s,
            Err(e) => {
                assert(!encodable(images@[i as int].width, images@[i as int].height, quality));
                return Err(e);
            },
        };
        let base: u32 = 3 * i as u32;
        let ghost before = objects@;
        objects.push(((base + 2, 0), stream));
        objects.push(((base + 3, 0), page_content()));
        objects.push(((base + 4, 0), page_dict(i as u32)));
        kids.push(PdfObject::Reference(base + 4, 0));
        proof {
            assert forall|j: int| 0 <= j < i + 1 implies image_stream_spec(
                #[trigger] objects@[3 * j].1,
                images@[j].width,
                images@[j].height,
                images@[j].pixels@,
                quality,
            ) by {
                if j < i {
                    assert(objects@[3 * j] == before[3 * j]);
                }
            }
            assert forall|j: int| 0 <= j < i + 1 implies page_dict_spec(#[trigger] objects@[3 * j + 2].1, j) by {
                if j < i {
                    assert(objects@[3 * j + 2] == before[3 * j + 2]);
                }
            }
            assert forall|j: int| 0 <= j < i + 1 implies content_spec(#[trigger] objects@[3 * j + 1].1) by {
                if j < i {
                    assert(objects@[3 * j + 1] == before[3 * j + 1]);
                }
            }
            assert forall|k: int| 0 <= k < objects@.len() implies (#[trigger] objects@[k]).0 == ((k + 2) as u32, 0u16) by {
                if k < before.len() {
                    assert(objects@[k] == before[k]);
                }
            }
        }
        i = i + 1;
    }
    let ghost body = objects@;
    objects.insert(0, ((1, 0), pages_node(kids, n as u32)));
    objects.push((((3 * n + 2) as u32, 0), catalog()));
    proof {
        assert forall|j: int| 0 <= j < n implies image_stream_spec(
            #[trigger] objects@[3 * j + 1].1,
            images@[j].width,
            images@[j].height,
            images@[j].pixels@,
            quality,
        ) by {
            assert(objects@[3 * j + 1] == body[3 * j]);
        }
        assert forall|j: int| 0 <= j < n implies page_dict_spec(#[trigger] objects@[3 * j + 3].1, j) by {
            assert(objects@[3 * j + 3] == body[3 * j + 2]);
        }
        assert forall|j: int| 0 <= j < n implies content_spec(#[trigger] objects@[3 * j + 2].1) by {
            assert(objects@[3 * j + 2] == body[3 * j + 1]);
        }
        assert forall|k: int| 0 <= k < objects@.len() implies (#[trigger] objects@[k]).0 == ((k + 1) as u32, 0u16) by {
            if 0 < k < objects@.len() - 1 {
                assert(objects@[k] == body[k - 1]);
            }
        }
    }
    Ok(OutputDocument { objects, root: (((3 * n + 2) as u32), 0) })
}

} // verus!
