//! The PDF object graph as plain values, and extraction of the one RGB
//! image of each page from it.
use vstd::prelude::*;
use crate::error::{PageFailure, WatermarkError};
use crate::predictor::{remove_png_predictor, unfilter_rows};
use crate::raster::{Raster, rgb_of_rgba, to_rgb};
use crate::codec::{ImageKind, inflate, inflated, load_as, loaded_as};
use vstd::string::StringSliceAdditionalSpecFns;

verus! {

/// Object number and generation of an indirect object.
pub type ObjectId = (u32, u16);

/// A PDF object. Real numbers are kept without their value: nothing here
/// reads one.
#[derive(Debug)]
pub enum PdfObject {
    Null,
    Boolean(bool),
    Integer(i64),
    Real,
    Name(Vec<u8>),
    Text(Vec<u8>),
    Array(Vec<PdfObject>),
    Dictionary(Vec<(Vec<u8>, PdfObject)>),
    Stream(Vec<(Vec<u8>, PdfObject)>, Vec<u8>),
    Reference(u32, u16),
}

/// A parsed document: its indirect objects, and its pages as
/// (page number, object id) pairs.
#[derive(Debug)]
pub struct PdfDocument {
    pub objects: Vec<(ObjectId, PdfObject)>,
    pub pages: Vec<(u32, ObjectId)>,
}

impl PdfDocument {
    /// Pages come in ascending page number.
    pub open spec fn wf(&self) -> bool {
        forall|i: int, j: int| 0 <= i < j < self.pages@.len() ==> self.pages@[i].0 < self.pages@[j].0
    }
}

/// The first object with id `id`.
pub open spec fn lookup(objects: Seq<(ObjectId, PdfObject)>, id: ObjectId) -> Option<PdfObject>
    decreases objects.len(),
{
    if objects.len() == 0 {
        None
    } else if objects[0].0 == id {
        Some(objects[0].1)
    } else {
        lookup(objects.drop_first(), id)
    }
}

/// `o` with one level of indirection followed; `None` for a dangling
/// reference.
pub open spec fn resolve_spec(objects: Seq<(ObjectId, PdfObject)>, o: PdfObject) -> Option<PdfObject> {
    match o {
        PdfObject::Reference(n, g) => lookup(objects, (n, g)),
        _ => Some(o),
    }
}

/// The value of the first entry of `entries` under `key`.
pub open spec fn dict_get_spec(entries: Seq<(Vec<u8>, PdfObject)>, key: Seq<u8>) -> Option<PdfObject>
    decreases entries.len(),
{
    if entries.len() == 0 {
        None
    } else if entries[0].0@ == key {
        Some(entries[0].1)
    } else {
        dict_get_spec(entries.drop_first(), key)
    }
}

/// A lookup finds the entry at `m` where its key is `key` and no earlier
/// entry has that key.
pub proof fn lemma_dict_get_at(entries: Seq<(Vec<u8>, PdfObject)>, key: Seq<u8>, m: int)
    requires
        0 <= m < entries.len(),
        entries[m].0@ == key,
        forall|j: int| 0 <= j < m ==> (#[trigger] entries[j]).0@ != key,
    ensures
        dict_get_spec(entries, key) == Some(entries[m].1),
    decreases m,
{
    if m > 0 {
        let rest = entries.drop_first();
        assert forall|j: int| 0 <= j < m - 1 implies (#[trigger] rest[j]).0@ != key by {
            assert(rest[j] == entries[j + 1]);
        }
        assert(entries[0].0@ != key);
        lemma_dict_get_at(rest, key, m - 1);
    }
}

/// The entries of a dictionary, or of a stream's dictionary.
pub open spec fn dict_of(o: PdfObject) -> Option<Seq<(Vec<u8>, PdfObject)>> {
    match o {
        PdfObject::Dictionary(d) => Some(d@),
        PdfObject::Stream(d, _) => Some(d@),
        _ => None,
    }
}

/// Whether `key` holds the name `expected`.
pub open spec fn is_name_spec(entries: Seq<(Vec<u8>, PdfObject)>, key: Seq<u8>, expected: Seq<u8>) -> bool {
    match dict_get_spec(entries, key) {
        Some(PdfObject::Name(n)) => n@ == expected,
        _ => false,
    }
}

/// The integer under `key`, where it is one from 0 to `u32::MAX`.
pub open spec fn get_uint_spec(entries: Seq<(Vec<u8>, PdfObject)>, key: Seq<u8>) -> Option<u32> {
    match dict_get_spec(entries, key) {
        Some(PdfObject::Integer(v)) => if 0 <= v <= u32::MAX {
            Some(v as u32)
        } else {
            None
        },
        _ => None,
    }
}

pub fn resolve<'a>(objects: &'a Vec<(ObjectId, PdfObject)>, obj: &'a PdfObject) -> (r: Option<&'a PdfObject>)
    ensures
        match r {
            Some(o) => resolve_spec(objects@, *obj) == Some(*o),
            None => resolve_spec(objects@, *obj) is None,
        },
{
    match obj {
        PdfObject::Reference(n, g) => {
            let mut i: usize = 0;
            assert(objects@.subrange(0, objects@.len() as int) =~= objects@);
            while i < objects.len()
                invariant
                    0 <= i <= objects@.len(),
                    *obj == PdfObject::Reference(*n, *g),
                    lookup(objects@, (*n, *g)) == lookup(objects@.subrange(i as int, objects@.len() as int), (*n, *g)),
                decreases objects@.len() - i,
            {
                let ghost rest = objects@.subrange(i as int, objects@.len() as int);
                assert(rest.drop_first() =~= objects@.subrange(i + 1, objects@.len() as int));
                assert(rest[0] == objects@[i as int]);
                if objects[i].0.0 == *n && objects[i].0.1 == *g {
                    assert(rest[0].0 == (*n, *g));
                    assert(lookup(rest, (*n, *g)) == Some(rest[0].1));
                    return Some(&objects[i].1);
                }
                i = i + 1;
            }
            None
        },
        _ => Some(obj),
    }
}

/// The entries of the dictionary that `o` is or refers to.
pub open spec fn resolve_to_dict_spec(objects: Seq<(ObjectId, PdfObject)>, o: PdfObject) -> Option<
    Seq<(Vec<u8>, PdfObject)>,
> {
    match resolve_spec(objects, o) {
        Some(x) => dict_of(x),
        None => None,
    }
}

/// Whether two byte strings are equal.
pub fn bytes_eq(a: &[u8], b: &[u8]) -> (r: bool)
    ensures
        r == (a@ == b@),
{
    if a.len() != b.len() {
        return false;
    }
    let mut i: usize = 0;
    while i < a.len()
        invariant
            a@.len() == b@.len(),
            0 <= i <= a@.len(),
            forall|j: int| 0 <= j < i ==> a@[j] == b@[j],
        decreases a@.len() - i,
    {
        if a[i] != b[i] {
            return false;
        }
        i = i + 1;
    }
    assert(a@ =~= b@);
    true
}

pub fn dict_get<'a>(entries: &'a Vec<(Vec<u8>, PdfObject)>, key: &str) -> (r: Option<&'a PdfObject>)
    ensures
        match r {
            Some(o) => dict_get_spec(entries@, key.spec_bytes()) == Some(*o),
            None => dict_get_spec(entries@, key.spec_bytes()) is None,
        },
{
    let k = key.as_bytes();
    let mut i: usize = 0;
    assert(entries@.subrange(0, entries@.len() as int) =~= entries@);
    while i < entries.len()
        invariant
            0 <= i <= entries@.len(),
            k@ == key.spec_bytes(),
            dict_get_spec(entries@, k@) == dict_get_spec(entries@.subrange(i as int, entries@.len() as int), k@),
        decreases entries@.len() - i,
    {
        let ghost rest = entries@.subrange(i as int, entries@.len() as int);
        assert(rest.drop_first() =~= entries@.subrange(i + 1, entries@.len() as int));
        assert(rest[0] == entries@[i as int]);
        if bytes_eq(entries[i].0.as_slice(), k) {
            return Some(&entries[i].1);
        }
        i = i + 1;
    }
    None
}

pub fn resolve_to_dict<'a>(objects: &'a Vec<(ObjectId, PdfObject)>, obj: &'a PdfObject) -> (r: Option<
    &'a Vec<(Vec<u8>, PdfObject)>,
>)
    ensures
        match r {
            Some(d) => resolve_to_dict_spec(objects@, *obj) == Some(d@),
            None => resolve_to_dict_spec(objects@, *obj) is None,
        },
{
    match resolve(objects, obj) {
        Some(PdfObject::Dictionary(d)) => Some(d),
        Some(PdfObject::Stream(d, _)) => Some(d),
        _ => None,
    }
}

pub fn is_name(entries: &Vec<(Vec<u8>, PdfObject)>, key: &str, expected: &str) -> (r: bool)
    ensures
        r == is_name_spec(entries@, key.spec_bytes(), expected.spec_bytes()),
{
    match dict_get(entries, key) {
        Some(PdfObject::Name(n)) => bytes_eq(n.as_slice(), expected.as_bytes()),
        _ => false,
    }
}

pub fn get_uint(entries: &Vec<(Vec<u8>, PdfObject)>, key: &str) -> (r: Option<u32>)
    ensures
        r == get_uint_spec(entries@, key.spec_bytes()),
{
    match dict_get(entries, key) {
        Some(PdfObject::Integer(v)) => if 0 <= *v && *v <= u32::MAX as i64 {
            Some(*v as u32)
        } else {
            None
        },
        _ => None,
    }
}

/// The name under `Filter`, where the entry holds a name.
pub open spec fn filter_name(entries: Seq<(Vec<u8>, PdfObject)>) -> Option<Seq<u8>> {
    match dict_get_spec(entries, "Filter".spec_bytes()) {
        Some(PdfObject::Name(n)) => Some(n@),
        _ => None,
    }
}

/// Inflated image data made raw: kept where it has the raw size, unfiltered
/// where it has one filter-type byte more per row, else checked as it is.
pub open spec fn flate_result(data: Seq<u8>, w: u32, h: u32) -> Result<(u32, u32, Seq<u8>), WatermarkError> {
    let raw = w as int * h as int * 3;
    let png = (w as int * 3 + 1) * h as int;
    let d = if data.len() == raw {
        data
    } else if data.len() == png {
        unfilter_rows(data, (w * 3) as nat, 3, data.len() / (w * 3 + 1) as nat)
    } else {
        data
    };
    if d.len() == raw {
        Ok((w, h, d))
    } else {
        Err(WatermarkError::DecodedSizeMismatch { expected: raw as u128, actual: d.len() as u128 })
    }
}

/// The RGB raster that an image stream with dictionary `entries` and bytes
/// `content` decodes to, for a declared size of `w` by `h`.
pub open spec fn decode_spec(entries: Seq<(Vec<u8>, PdfObject)>, content: Seq<u8>, w: u32, h: u32) -> Result<
    (u32, u32, Seq<u8>),
    WatermarkError,
> {
    if dict_get_spec(entries, "Filter".spec_bytes()) is None {
        if content.len() == w as int * h as int * 3 {
            Ok((w, h, content))
        } else {
            Err(
                WatermarkError::DecodedSizeMismatch {
                    expected: (w as int * h as int * 3) as u128,
                    actual: content.len() as u128,
                },
            )
        }
    } else if filter_name(entries) == Some("FlateDecode".spec_bytes()) {
        match inflated(content) {
            Some(data) => flate_result(data, w, h),
            None => Err(WatermarkError::MalformedDocument),
        }
    } else if filter_name(entries) == Some("DCTDecode".spec_bytes()) {
        match loaded_as(content, ImageKind::Jpeg) {
            Some((jw, jh, px)) => Ok((jw, jh, rgb_of_rgba(px))),
            None => Err(WatermarkError::MalformedDocument),
        }
    } else {
        Err(WatermarkError::UnsupportedFilter)
    }
}

pub open spec fn raster_view(img: Raster) -> (u32, u32, Seq<u8>) {
    (img.width, img.height, img.pixels@)
}

/// `w * h * 3`, the byte size of a `w` by `h` RGB raster.
fn rgb_size(w: u32, h: u32) -> (r: u128)
    ensures
        r == w as int * h as int * 3,
{
    assert(w as int * h as int * 3 <= u128::MAX) by (nonlinear_arith)
        requires w <= u32::MAX, h <= u32::MAX;
    w as u128 * h as u128 * 3
}

/// `(w * 3 + 1) * h`, the size of PNG-filtered rows of a `w` by `h` RGB raster.
fn filtered_size(w: u32, h: u32) -> (r: u128)
    ensures
        r == (w as int * 3 + 1) * h as int,
{
    assert((w as int * 3 + 1) * h as int <= u128::MAX) by (nonlinear_arith)
        requires w <= u32::MAX, h <= u32::MAX;
    (w as u128 * 3 + 1) * h as u128
}

fn decode_flate(data: Vec<u8>, w: u32, h: u32) -> (r: Result<Raster, WatermarkError>)
    ensures
        match r {
            Ok(img) => img.is_rgb() && flate_result(data@, w, h) == Ok::<(u32, u32, Seq<u8>), WatermarkError>(raster_view(img)),
            Err(e) => flate_result(data@, w, h) == Err::<(u32, u32, Seq<u8>), WatermarkError>(e),
        },
{
    let raw: u128 = rgb_size(w, h);
    let png: u128 = filtered_size(w, h);
    let len: u128 = data.len() as u128;
    let d = if len == raw {
        data
    } else if len == png {
        assert(h >= 1);
        assert(w as int * 3 + 1 <= (w as int * 3 + 1) * h as int) by (nonlinear_arith)
            requires h >= 1;
        remove_png_predictor(&data, w, 3)
    } else {
        data
    };
    if d.len() as u128 == raw {
        Ok(Raster { width: w, height: h, pixels: d })
    } else {
        Err(WatermarkError::DecodedSizeMismatch { expected: raw, actual: d.len() as u128 })
    }
}

/// The RGB raster of an image stream declared `w` by `h`.
pub fn decode_stream(entries: &Vec<(Vec<u8>, PdfObject)>, content: &Vec<u8>, w: u32, h: u32) -> (r: Result<
    Raster,
    WatermarkError,
>)
    ensures
        match r {
            Ok(img) => img.is_rgb() && decode_spec(entries@, content@, w, h) == Ok::<(u32, u32, Seq<u8>), WatermarkError>(raster_view(img)),
            Err(e) => decode_spec(entries@, content@, w, h) == Err::<(u32, u32, Seq<u8>), WatermarkError>(e),
        },
{
    let filter: &[u8] = match dict_get(entries, "Filter") {
        None => {
            if content.len() as u128 == rgb_size(w, h) {
                return Ok(Raster { width: w, height: h, pixels: content.clone() });
            } else {
                return Err(
                    WatermarkError::DecodedSizeMismatch {
                        expected: rgb_size(w, h),
                        actual: content.len() as u128,
                    },
                );
            }
        },
        Some(PdfObject::Name(n)) => n.as_slice(),
        Some(_) => {
            return Err(WatermarkError::UnsupportedFilter);
        },
    };
    assert(filter_name(entries@) == Some(filter@));
    if bytes_eq(filter, "FlateDecode".as_bytes()) {
        match inflate(content.as_slice()) {
            Some(data) => decode_flate(data, w, h),
            None => Err(WatermarkError::MalformedDocument),
        }
    } else if bytes_eq(filter, "DCTDecode".as_bytes()) {
        match load_as(content.as_slice(), ImageKind::Jpeg) {
            Some(img) => Ok(to_rgb(&img)),
            None => Err(WatermarkError::MalformedDocument),
        }
    } else {
        Err(WatermarkError::UnsupportedFilter)
    }
}

/// The image of the first entry from index `i` on of an XObject dictionary
/// that is a stream with `Subtype` `Image` and `ColorSpace` `DeviceRGB`.
pub open spec fn select_spec(objects: Seq<(ObjectId, PdfObject)>, xobjects: Seq<(Vec<u8>, PdfObject)>, i: int) -> Result<
    (u32, u32, Seq<u8>),
    WatermarkError,
>
    decreases xobjects.len() - i,
{
    if i < 0 || i >= xobjects.len() {
        Err(WatermarkError::MissingImage)
    } else {
        match resolve_spec(objects, xobjects[i].1) {
            None => Err(WatermarkError::MalformedDocument),
            Some(PdfObject::Stream(d, content)) => {
                if is_name_spec(d@, "Subtype".spec_bytes(), "Image".spec_bytes()) && is_name_spec(
                    d@,
                    "ColorSpace".spec_bytes(),
                    "DeviceRGB".spec_bytes(),
                ) {
                    match (get_uint_spec(d@, "Width".spec_bytes()), get_uint_spec(d@, "Height".spec_bytes())) {
                        (Some(w), Some(h)) => decode_spec(d@, content@, w, h),
                        _ => Err(WatermarkError::MalformedDocument),
                    }
                } else {
                    select_spec(objects, xobjects, i + 1)
                }
            },
            Some(_) => select_spec(objects, xobjects, i + 1),
        }
    }
}

/// The image of the page with object id `page`: the first RGB image among
/// the XObjects of its resources.
pub open spec fn page_image_spec(objects: Seq<(ObjectId, PdfObject)>, page: ObjectId) -> Result<
    (u32, u32, Seq<u8>),
    WatermarkError,
> {
    match lookup(objects, page) {
        Some(PdfObject::Dictionary(pd)) => match dict_get_spec(pd@, "Resources".spec_bytes()) {
            Some(res) => match resolve_to_dict_spec(objects, res) {
                Some(rd) => match dict_get_spec(rd, "XObject".spec_bytes()) {
                    Some(xo) => match resolve_to_dict_spec(objects, xo) {
                        Some(xd) => select_spec(objects, xd, 0),
                        None => Err(WatermarkError::MalformedDocument),
                    },
                    None => Err(WatermarkError::MalformedDocument),
                },
                None => Err(WatermarkError::MalformedDocument),
            },
            None => Err(WatermarkError::MalformedDocument),
        },
        _ => Err(WatermarkError::MalformedDocument),
    }
}

/// A page whose only XObject is a gray image has no image to take.
pub proof fn lemma_gray_image_missing(
    objects: Seq<(ObjectId, PdfObject)>,
    xobjects: Seq<(Vec<u8>, PdfObject)>,
    d: Vec<(Vec<u8>, PdfObject)>,
    content: Vec<u8>,
)
    requires
        xobjects.len() == 1,
        resolve_spec(objects, xobjects[0].1) == Some(PdfObject::Stream(d, content)),
        is_name_spec(d@, "ColorSpace".spec_bytes(), "DeviceGray".spec_bytes()),
    ensures
        select_spec(objects, xobjects, 0) == Err::<(u32, u32, Seq<u8>), WatermarkError>(WatermarkError::MissingImage),
{
    reveal_strlit("DeviceGray");
    reveal_strlit("DeviceRGB");
    let gray = "DeviceGray".spec_bytes();
    let rgb = "DeviceRGB".spec_bytes();
    assert(gray.len() != rgb.len()) by {
        vstd::string::is_ascii_spec_bytes("DeviceGray");
        vstd::string::is_ascii_spec_bytes("DeviceRGB");
    }
    assert(!is_name_spec(d@, "ColorSpace".spec_bytes(), rgb));
    assert(select_spec(objects, xobjects, 1) == Err::<(u32, u32, Seq<u8>), WatermarkError>(WatermarkError::MissingImage));
}

fn select_image(objects: &Vec<(ObjectId, PdfObject)>, xobjects: &Vec<(Vec<u8>, PdfObject)>) -> (r: Result<
    Raster,
    WatermarkError,
>)
    ensures
        match r {
            Ok(img) => img.is_rgb() && select_spec(objects@, xobjects@, 0) == Ok::<(u32, u32, Seq<u8>), WatermarkError>(raster_view(img)),
            Err(e) => select_spec(objects@, xobjects@, 0) == Err::<(u32, u32, Seq<u8>), WatermarkError>(e),
        },
{
    let mut i: usize = 0;
    while i < xobjects.len()
        invariant
            0 <= i <= xobjects@.len(),
            select_spec(objects@, xobjects@, 0) == select_spec(objects@, xobjects@, i as int),
        decreases xobjects@.len() - i,
    {
        match resolve(objects, &xobjects[i].1) {
            None => {
                return Err(WatermarkError::MalformedDocument);
            },
            Some(PdfObject::Stream(d, content)) => {
                if is_name(d, "Subtype", "Image") && is_name(d, "ColorSpace", "DeviceRGB") {
                    let w = get_uint(d, "Width");
                    let h = get_uint(d, "Height");
                    match (w, h) {
                        (Some(w), Some(h)) => {
                            return decode_stream(d, content, w, h);
                        },
                        _ => {
                            return Err(WatermarkError::MalformedDocument);
                        },
                    }
                }
            },
            Some(_) => {},
        }
        i = i + 1;
    }
    Err(WatermarkError::MissingImage)
}

/// The RGB image of the page with object id `page_id`.
pub fn extract_page_image(doc: &PdfDocument, page_id: ObjectId) -> (r: Result<Raster, WatermarkError>)
    ensures
        match r {
            Ok(img) => img.is_rgb() && page_image_spec(doc.objects@, page_id) == Ok::<(u32, u32, Seq<u8>), WatermarkError>(raster_view(img)),
            Err(e) => page_image_spec(doc.objects@, page_id) == Err::<(u32, u32, Seq<u8>), WatermarkError>(e),
        },
{
    let objects = &doc.objects;
    let page = PdfObject::Reference(page_id.0, page_id.1);
    let pd = match resolve(objects, &page) {
        Some(PdfObject::Dictionary(pd)) => pd,
        _ => {
            return Err(WatermarkError::MalformedDocument);
        },
    };
    let res = match dict_get(pd, "Resources") {
        Some(o) => o,
        None => {
            return Err(WatermarkError::MalformedDocument);
        },
    };
    let rd = match resolve_to_dict(objects, res) {
        Some(d) => d,
        None => {
            return Err(WatermarkError::MalformedDocument);
        },
    };
    let xo = match dict_get(rd, "XObject") {
        Some(o) => o,
        None => {
            return Err(WatermarkError::MalformedDocument);
        },
    };
    let xd = match resolve_to_dict(objects, xo) {
        Some(d) => d,
        None => {
            return Err(WatermarkError::MalformedDocument);
        },
    };
    select_image(objects, xd)
}

/// Whether the image of every page extracts.
pub open spec fn all_pages_extract(doc: PdfDocument) -> bool {
    forall|i: int| 0 <= i < doc.pages@.len() ==> (#[trigger] page_image_spec(doc.objects@, doc.pages@[i].1)) is Ok
}

/// The images of all pages, in ascending page number; else the number of
/// the first page whose image does not extract, with its error.
pub fn extract_pages(doc: &PdfDocument) -> (r: Result<Vec<Raster>, PageFailure>)
    ensures
        match r {
            Ok(v) => v@.len() == doc.pages@.len() && forall|i: int|
                0 <= i < v@.len() ==> (#[trigger] v@[i]).is_rgb() && page_image_spec(doc.objects@, doc.pages@[i].1)
                    == Ok::<(u32, u32, Seq<u8>), WatermarkError>(raster_view(v@[i])),
            Err(f) => exists|k: int|
                0 <= k < doc.pages@.len() && f.page == doc.pages@[k].0 && page_image_spec(
                    doc.objects@,
                    #[trigger] doc.pages@[k].1,
                ) == Err::<(u32, u32, Seq<u8>), WatermarkError>(f.error) && forall|j: int|
                    0 <= j < k ==> (#[trigger] page_image_spec(doc.objects@, doc.pages@[j].1)) is Ok,
        },
{
    let mut images: Vec<Raster> = Vec::new();
    let mut i: usize = 0;
    while i < doc.pages.len()
        invariant
            0 <= i <= doc.pages@.len(),
            images@.len() == i,
            forall|j: int|
                0 <= j < i ==> (#[trigger] images@[j]).is_rgb() && page_image_spec(doc.objects@, doc.pages@[j].1)
                    == Ok::<(u32, u32, Seq<u8>), WatermarkError>(raster_view(images@[j])),
        decreases doc.pages@.len() - i,
    {
        match extract_page_image(doc, doc.pages[i].1) {
            Ok(img) => {
                images.push(img);
            },
            Err(e) => {
                assert forall|j: int| 0 <= j < i implies (#[trigger] page_image_spec(
                    doc.objects@,
                    doc.pages@[j].1,
                )) is Ok by {
                    assert(images@[j].is_rgb());
                }
                return Err(PageFailure { page: doc.pages[i].0, error: e });
            },
        }
        i = i + 1;
    }
    Ok(images)
}

} // verus!
