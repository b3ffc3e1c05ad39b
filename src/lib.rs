//! Stamps a watermark onto the page images of a slide-deck PDF and writes
//! them out as a new PDF, one page per image.
use vstd::prelude::*;
use vstd::string::StringSliceAdditionalSpecFns;

pub mod builder;
pub mod codec;
pub mod document;
pub mod error;
pub mod pdf;
pub mod predictor;
pub mod raster;
pub mod watermark;

use crate::builder::{OutputDocument, build_document, built_spec, encodable};
use crate::document::{load_document, parses, write_document};
use crate::error::WatermarkError;
use crate::pdf::{PdfDocument, all_pages_extract, extract_pages, page_image_spec, raster_view};
use crate::raster::Raster;
use crate::watermark::{
    Quality, applied_spec, composited, parse_quality, prepare_from_bytes, quality_of, watermark_of,
};

verus! {

/// The most pages a built document can hold: object ids are `u32`, and a
/// document of `n` pages uses ids up to `3 * n + 2`.
pub const MAX_PAGES: usize = 1431655764;

/// The indices of `indices` below `n`, in order.
pub open spec fn kept_indices(indices: Seq<u32>, n: nat) -> Seq<usize>
    decreases indices.len(),
{
    if indices.len() == 0 {
        Seq::empty()
    } else {
        let before = kept_indices(indices.drop_last(), n);
        if (indices.last() as nat) < n {
            before.push(indices.last() as usize)
        } else {
            before
        }
    }
}

/// The pages to process out of `n`: all of them in order where `indices` is
/// empty, else the indices that name a page, in the order given.
pub open spec fn selection_spec(indices: Seq<u32>, n: nat) -> Seq<usize> {
    if indices.len() == 0 {
        Seq::new(n, |i: int| i as usize)
    } else {
        kept_indices(indices, n)
    }
}

pub fn select_pages(n: usize, indices: &[u32]) -> (r: Vec<usize>)
    ensures
        r@ == selection_spec(indices@, n as nat),
        forall|i: int| 0 <= i < r@.len() ==> #[trigger] r@[i] < n,
{
    let mut out: Vec<usize> = Vec::new();
    if indices.len() == 0 {
        let mut i: usize = 0;
        while i < n
            invariant
                0 <= i <= n,
                out@ =~= Seq::new(i as nat, |k: int| k as usize),
            decreases n - i,
        {
            out.push(i);
            i = i + 1;
        }
        return out;
    }
    let mut j: usize = 0;
    while j < indices.len()
        invariant
            0 <= j <= indices@.len(),
            indices@.len() > 0,
            out@ == kept_indices(indices@.subrange(0, j as int), n as nat),
            forall|i: int| 0 <= i < out@.len() ==> #[trigger] out@[i] < n,
        decreases indices@.len() - j,
    {
        assert(indices@.subrange(0, j + 1).drop_last() =~= indices@.subrange(0, j as int));
        if (indices[j] as usize) < n {
            out.push(indices[j] as usize);
        }
        j = j + 1;
    }
    assert(indices@.subrange(0, indices@.len() as int) =~= indices@);
    out
}

/// Each selected page with the watermark composited at `position`.
pub fn watermark_pages(pages: &Vec<Raster>, selection: &Vec<usize>, wm: &Raster, position: &str) -> (r: Vec<Raster>)
    requires
        forall|i: int| 0 <= i < pages@.len() ==> (#[trigger] pages@[i]).is_rgb(),
        forall|i: int| 0 <= i < selection@.len() ==> #[trigger] selection@[i] < pages@.len(),
        wm.is_rgba(),
    ensures
        r@.len() == selection@.len(),
        forall|i: int|
            0 <= i < r@.len() ==> {
                let page = pages@[selection@[i] as int];
                &&& (#[trigger] r@[i]).is_rgba()
                &&& r@[i].width == page.width
                &&& r@[i].height == page.height
                &&& r@[i].pixels@ == applied_spec(page, *wm, position.spec_bytes())
            },
{
    let mut out: Vec<Raster> = Vec::new();
    let mut i: usize = 0;
    while i < selection.len()
        invariant
            0 <= i <= selection@.len(),
            forall|k: int| 0 <= k < pages@.len() ==> (#[trigger] pages@[k]).is_rgb(),
            forall|k: int| 0 <= k < selection@.len() ==> #[trigger] selection@[k] < pages@.len(),
            wm.is_rgba(),
            out@.len() == i,
            forall|k: int|
                0 <= k < i ==> {
                    let page = pages@[selection@[k] as int];
                    &&& (#[trigger] out@[k]).is_rgba()
                    &&& out@[k].width == page.width
                    &&& out@[k].height == page.height
                    &&& out@[k].pixels@ == applied_spec(page, *wm, position.spec_bytes())
                },
        decreases selection@.len() - i,
    {
        let page = &pages[selection[i]];
        let img = watermark::apply(page, wm, position);
        out.push(img);
        i = i + 1;
    }
    out
}

/// The image of page `k` of `doc`, where it extracts.
pub open spec fn page_image(doc: PdfDocument, k: int) -> (u32, u32, Seq<u8>) {
    page_image_spec(doc.objects@, doc.pages@[k].1)->Ok_0
}

/// The error of the first page of `doc` whose image does not extract.
pub open spec fn first_page_error(doc: PdfDocument, e: WatermarkError) -> bool {
    exists|k: int|
        0 <= k < doc.pages@.len() && page_image_spec(doc.objects@, #[trigger] doc.pages@[k].1) == Err::<
            (u32, u32, Seq<u8>),
            WatermarkError,
        >(e) && forall|j: int| 0 <= j < k ==> (#[trigger] page_image_spec(doc.objects@, doc.pages@[j].1)) is Ok
}

/// An empty position code stands for bottom-right.
pub open spec fn position_or_default(position: Seq<u8>) -> Seq<u8> {
    if position.len() == 0 { "br".spec_bytes() } else { position }
}

/// Whether `images` are the selected pages of `doc` with `wm` composited at
/// `position`.
pub open spec fn watermarked_pages(
    doc: PdfDocument,
    selection: Seq<usize>,
    wm: (u32, u32, Seq<u8>),
    position: Seq<u8>,
    images: Seq<Raster>,
) -> bool {
    &&& images.len() == selection.len()
    &&& forall|i: int|
        0 <= i < images.len() ==> {
            let page = page_image(doc, selection[i] as int);
            &&& (#[trigger] images[i]).is_rgba()
            &&& images[i].width == page.0
            &&& images[i].height == page.1
            &&& images[i].pixels@ == composited(page, wm, position)
        }
}

/// Whether the selected pages can all be encoded under `quality`, and are
/// few enough for a document's object ids.
pub open spec fn selection_encodable(doc: PdfDocument, selection: Seq<usize>, quality: Quality) -> bool {
    &&& selection.len() <= MAX_PAGES
    &&& forall|i: int|
        0 <= i < selection.len() ==> encodable(
            #[trigger] page_image(doc, selection[i] as int).0,
            page_image(doc, selection[i] as int).1,
            quality,
        )
}

/// What watermarking the selected pages of `doc` gives. The checks come in
/// this order: the quality, every page's image, the selection, the logo,
/// then whether every selected page can be encoded; where all pass the
/// result is the built document of the watermarked pages.
pub open spec fn watermark_outcome(
    doc: PdfDocument,
    logo: Seq<u8>,
    quality: Seq<u8>,
    page_indices: Seq<u32>,
    position: Seq<u8>,
    min_w: u32,
    min_h: u32,
    r: Result<OutputDocument, WatermarkError>,
) -> bool {
    let q = quality_of(quality);
    let selection = selection_spec(page_indices, doc.pages@.len());
    let wm = watermark_of(logo, min_w, min_h);
    if q is Err {
        r == Err::<OutputDocument, WatermarkError>(WatermarkError::InvalidQuality)
    } else if !all_pages_extract(doc) {
        r matches Err(e) && first_page_error(doc, e)
    } else if selection.len() == 0 {
        r == Err::<OutputDocument, WatermarkError>(WatermarkError::EmptySelection)
    } else if wm is None {
        r == Err::<OutputDocument, WatermarkError>(WatermarkError::InvalidWatermark)
    } else if !selection_encodable(doc, selection, q->Ok_0) {
        r == Err::<OutputDocument, WatermarkError>(WatermarkError::IOFailure)
    } else {
        r matches Ok(out) && exists|images: Seq<Raster>|
            watermarked_pages(doc, selection, wm->0, position_or_default(position), images)
                && #[trigger] built_spec(images, q->Ok_0, out)
    }
}

/// The built document of the selected pages of `doc`, each watermarked with
/// the logo in `logo` at `position`, encoded at the quality `quality` names.
/// The checks come in this order: the quality, every page's image, the
/// selection, the logo; then only an encoder can fail.
pub fn watermark_document(
    doc: &PdfDocument,
    logo: &[u8],
    quality: &str,
    page_indices: &[u32],
    position: &str,
    min_w: u32,
    min_h: u32,
) -> (r: Result<OutputDocument, WatermarkError>)
    ensures
        watermark_outcome(
            *doc,
            logo@,
            quality.spec_bytes(),
            page_indices@,
            position.spec_bytes(),
            min_w,
            min_h,
            r,
        ),
{
    let q = parse_quality(quality)?;
    let pages = match extract_pages(doc) {
        Ok(p) => p,
        Err(f) => {
            assert(!all_pages_extract(*doc));
            return Err(f.error);
        },
    };
    assert(all_pages_extract(*doc)) by {
        assert forall|i: int| 0 <= i < doc.pages@.len() implies (#[trigger] page_image_spec(
            doc.objects@,
            doc.pages@[i].1,
        )) is Ok by {
            assert(pages@[i].is_rgb());
        }
    }
    let selection = select_pages(pages.len(), page_indices);
    if selection.len() == 0 {
        return Err(WatermarkError::EmptySelection);
    }
    let wm = prepare_from_bytes(logo, min_w, min_h)?;
    let ghost pos = position_or_default(position.spec_bytes());
    let empty = position.as_bytes().len() == 0;
    let pos_str: &str = if empty { "br" } else { position };
    assert(pos_str.spec_bytes() == pos);
    let marked = watermark_pages(&pages, &selection, &wm, pos_str);
    proof {
        assert forall|i: int| 0 <= i < marked@.len() implies {
            let page = page_image(*doc, selection@[i] as int);
            &&& (#[trigger] marked@[i]).is_rgba()
            &&& marked@[i].width == page.0
            &&& marked@[i].height == page.1
            &&& marked@[i].pixels@ == composited(page, (wm.width, wm.height, wm.pixels@), pos)
        } by {
            let k = selection@[i] as int;
            assert(pages@[k].is_rgb());
            assert(page_image_spec(doc.objects@, doc.pages@[k].1) == Ok::<(u32, u32, Seq<u8>), WatermarkError>(
                raster_view(pages@[k]),
            ));
            assert(marked@[i].is_rgba());
            assert(marked@[i].pixels@ == applied_spec(pages@[k], wm, pos));
        }
        assert(watermarked_pages(*doc, selection@, (wm.width, wm.height, wm.pixels@), pos, marked@));
    }
    if marked.len() > MAX_PAGES {
        return Err(WatermarkError::IOFailure);
    }
    let built = build_document(&marked, q);
    proof {
        let sel = selection@;
        assert((forall|i: int| 0 <= i < marked@.len() ==> encodable(
            #[trigger] marked@[i].width,
            marked@[i].height,
            q,
        )) <==> selection_encodable(*doc, sel, q)) by {
            if forall|i: int| 0 <= i < marked@.len() ==> encodable(#[trigger] marked@[i].width, marked@[i].height, q) {
                assert forall|i: int| 0 <= i < sel.len() implies encodable(
                    #[trigger] page_image(*doc, sel[i] as int).0,
                    page_image(*doc, sel[i] as int).1,
                    q,
                ) by {
                    assert(encodable(marked@[i].width, marked@[i].height, q));
                }
            }
            if selection_encodable(*doc, sel, q) {
                assert forall|i: int| 0 <= i < marked@.len() implies encodable(
                    #[trigger] marked@[i].width,
                    marked@[i].height,
                    q,
                ) by {
                    assert(encodable(page_image(*doc, sel[i] as int).0, page_image(*doc, sel[i] as int).1, q));
                }
            }
        }
    }
    built
}

/// The PDF bytes of rasters, one page each, encoded as `quality` asks.
pub fn build_pdf_bytes(images: &Vec<Raster>, quality: Quality) -> (r: Result<Vec<u8>, WatermarkError>)
    requires
        forall|i: int| 0 <= i < images@.len() ==> (#[trigger] images@[i]).is_rgba(),
    ensures
        r matches Err(e) ==> e == WatermarkError::IOFailure,
        r is Ok ==> images@.len() <= MAX_PAGES && forall|i: int| 0 <= i < images@.len() ==> encodable(
            #[trigger] images@[i].width,
            images@[i].height,
            quality,
        ),
{
    if images.len() > MAX_PAGES {
        return Err(WatermarkError::IOFailure);
    }
    let doc = build_document(images, quality)?;
    match write_document(&doc) {
        Some(bytes) => Ok(bytes),
        None => Err(WatermarkError::IOFailure),
    }
}

/// Watermarks the selected pages of the PDF in `pdf_bytes` with the logo in
/// `logo_bytes` and returns the new PDF.
pub fn process_pdf(
    pdf_bytes: &[u8],
    logo_bytes: &[u8],
    quality_str: &str,
    page_indices: &[u32],
    position: &str,
    min_w: u32,
    min_h: u32,
) -> (r: Result<Vec<u8>, WatermarkError>)
    ensures
        quality_of(quality_str.spec_bytes()) is Err ==> r == Err::<Vec<u8>, WatermarkError>(WatermarkError::InvalidQuality),
        quality_of(quality_str.spec_bytes()) is Ok && !parses(pdf_bytes@) ==> r == Err::<Vec<u8>, WatermarkError>(
            WatermarkError::MalformedDocument,
        ),
        r is Ok ==> exists|doc: PdfDocument, out: OutputDocument|
            doc.wf() && #[trigger] watermark_outcome(
                doc,
                logo_bytes@,
                quality_str.spec_bytes(),
                page_indices@,
                position.spec_bytes(),
                min_w,
                min_h,
                Ok::<OutputDocument, WatermarkError>(out),
            ),
        r matches Err(e) ==> (e == WatermarkError::InvalidQuality && quality_of(quality_str.spec_bytes()) is Err)
            || e == WatermarkError::MalformedDocument || e == WatermarkError::IOFailure || exists|
            doc: PdfDocument,
        |
            doc.wf() && #[trigger] watermark_outcome(
                doc,
                logo_bytes@,
                quality_str.spec_bytes(),
                page_indices@,
                position.spec_bytes(),
                min_w,
                min_h,
                Err::<OutputDocument, WatermarkError>(e),
            ),
{
    let q = parse_quality(quality_str)?;
    let doc = match load_document(pdf_bytes) {
        Some(d) => d,
        None => {
            return Err(WatermarkError::MalformedDocument);
        },
    };
    let out = match watermark_document(&doc, logo_bytes, quality_str, page_indices, position, min_w, min_h) {
        Ok(o) => o,
        Err(e) => {
            return Err(e);
        },
    };
    match write_document(&out) {
        Some(bytes) => Ok(bytes),
        None => Err(WatermarkError::IOFailure),
    }
}

/// The number of pages of a parsed document whose images all extract.
pub fn page_count(doc: &PdfDocument) -> (r: Result<usize, WatermarkError>)
    ensures
        r matches Ok(n) ==> n == doc.pages@.len(),
        r is Ok <==> all_pages_extract(*doc),
        r matches Err(e) ==> first_page_error(*doc, e),
{
    match extract_pages(doc) {
        Ok(pages) => {
            assert forall|i: int| 0 <= i < doc.pages@.len() implies (#[trigger] page_image_spec(
                doc.objects@,
                doc.pages@[i].1,
            )) is Ok by {
                assert(pages@[i].is_rgb());
            }
            Ok(pages.len())
        },
        Err(f) => Err(f.error),
    }
}

/// The number of pages of the PDF in `pdf_bytes`, each of which must hold
/// an RGB image.
pub fn get_page_count(pdf_bytes: &[u8]) -> (r: Result<usize, WatermarkError>)
    ensures
        !parses(pdf_bytes@) ==> r == Err::<usize, WatermarkError>(WatermarkError::MalformedDocument),
        r matches Ok(n) ==> exists|doc: PdfDocument|
            doc.wf() && #[trigger] all_pages_extract(doc) && n == doc.pages@.len(),
        r matches Err(e) ==> e == WatermarkError::MalformedDocument || exists|doc: PdfDocument|
            doc.wf() && #[trigger] first_page_error(doc, e),
{
    match load_document(pdf_bytes) {
        Some(doc) => page_count(&doc),
        None => Err(WatermarkError::MalformedDocument),
    }
}

} // verus!
