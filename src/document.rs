//! Reading a PDF into the object model, and writing a model out as a PDF,
//! through lopdf.
use vstd::prelude::*;
use crate::builder::OutputDocument;
use crate::pdf::{ObjectId, PdfDocument, PdfObject};

verus! {

#[verifier::external_type_specification]
#[verifier::external_body]
pub struct ExDocument(lopdf::Document);

#[verifier::external_type_specification]
#[verifier::external_body]
pub struct ExObject(lopdf::Object);

#[verifier::external_type_specification]
#[verifier::external_body]
pub struct ExDictionary(lopdf::Dictionary);

/// Nesting depth past which an object is taken to be malformed.
pub const MAX_DEPTH: u32 = 64;

/// One level of a lopdf object: its variant and its scalar contents.
enum Head {
    Null,
    Boolean(bool),
    Integer(i64),
    Real,
    Name(Vec<u8>),
    Text(Vec<u8>),
    Array,
    Dictionary,
    Stream(Vec<u8>),
    Reference(u32, u16),
}

/// Whether lopdf parses `bytes` as a PDF document.
pub uninterp spec fn parses(bytes: Seq<u8>) -> bool;

/// Relies on `lopdf::Document::load_mem`: the parsed document, or an error;
/// which of the two depends on the bytes alone.
#[verifier::external_body]
fn load_mem(bytes: &[u8]) -> (r: Option<lopdf::Document>)
    ensures
        r is Some <==> parses(bytes@),
{
    lopdf::Document::load_mem(bytes).ok()
}

/// Relies on `lopdf::Document::get_pages`: a `BTreeMap` from page number to
/// page object id, whose entries come out in ascending page number.
#[verifier::external_body]
fn get_pages(doc: &lopdf::Document) -> (r: Vec<(u32, ObjectId)>)
    ensures
        forall|i: int, j: int| 0 <= i < j < r@.len() ==> r@[i].0 < r@[j].0,
{
    doc.get_pages().into_iter().collect()
}

/// Relies on the `objects` table of `lopdf::Document`: its entries, cloned.
#[verifier::external_body]
fn object_table(doc: &lopdf::Document) -> (r: Vec<(ObjectId, lopdf::Object)>) {
    doc.objects.iter().map(|(id, o)| (*id, o.clone())).collect()
}

/// Relies on the variants of `lopdf::Object`: which one `o` is, with its
/// scalar fields.
#[verifier::external_body]
fn head(o: &lopdf::Object) -> (r: Head) {
    match o {
        lopdf::Object::Null => Head::Null,
        lopdf::Object::Boolean(b) => Head::Boolean(*b),
        lopdf::Object::Integer(i) => Head::Integer(*i),
        lopdf::Object::Real(_) => Head::Real,
        lopdf::Object::Name(n) => Head::Name(n.clone()),
        lopdf::Object::String(s, _) => Head::Text(s.clone()),
        lopdf::Object::Array(_) => Head::Array,
        lopdf::Object::Dictionary(_) => Head::Dictionary,
        lopdf::Object::Stream(s) => Head::Stream(s.content.clone()),
        lopdf::Object::Reference(id) => Head::Reference(id.0, id.1),
    }
}

/// Relies on `lopdf::Object::as_array`: the items of an array.
#[verifier::external_body]
fn array_items(o: &lopdf::Object) -> (r: Vec<lopdf::Object>) {
    o.as_array().cloned().unwrap_or_default()
}

/// Relies on `lopdf::Object::as_dict`: the entries of a dictionary, in
/// order.
#[verifier::external_body]
fn dict_entries(o: &lopdf::Object) -> (r: Vec<(Vec<u8>, lopdf::Object)>) {
    o.as_dict().map(|d| d.iter().map(|(k, v)| (k.clone(), v.clone())).collect()).unwrap_or_default()
}

/// Relies on `lopdf::Object::as_stream`: the entries of a stream's
/// dictionary, in order.
#[verifier::external_body]
fn stream_entries(o: &lopdf::Object) -> (r: Vec<(Vec<u8>, lopdf::Object)>) {
    o.as_stream().map(|s| s.dict.iter().map(|(k, v)| (k.clone(), v.clone())).collect()).unwrap_or_default()
}

fn convert_entries(entries: &Vec<(Vec<u8>, lopdf::Object)>, depth: u32) -> (r: Option<Vec<(Vec<u8>, PdfObject)>>)
    requires
        depth < MAX_DEPTH,
    decreases MAX_DEPTH - depth, 0u32,
{
    let mut out: Vec<(Vec<u8>, PdfObject)> = Vec::new();
    let mut i: usize = 0;
    while i < entries.len()
        invariant
            0 <= i <= entries@.len(),
            depth < MAX_DEPTH,
        decreases entries@.len() - i,
    {
        let value = convert(&entries[i].1, depth + 1)?;
        out.push((entries[i].0.clone(), value));
        i = i + 1;
    }
    Some(out)
}

/// The model of a lopdf object; `None` where it nests deeper than
/// `MAX_DEPTH`.
fn convert(o: &lopdf::Object, depth: u32) -> (r: Option<PdfObject>)
    decreases MAX_DEPTH - depth, 1u32,
{
    if depth >= MAX_DEPTH {
        return None;
    }
    match head(o) {
        Head::Null => Some(PdfObject::Null),
        Head::Boolean(b) => Some(PdfObject::Boolean(b)),
        Head::Integer(i) => Some(PdfObject::Integer(i)),
        Head::Real => Some(PdfObject::Real),
        Head::Name(n) => Some(PdfObject::Name(n)),
        Head::Text(s) => Some(PdfObject::Text(s)),
        Head::Array => {
            let items = array_items(o);
            let mut out: Vec<PdfObject> = Vec::new();
            let mut i: usize = 0;
            while i < items.len()
                invariant
                    0 <= i <= items@.len(),
                    depth < MAX_DEPTH,
                decreases items@.len() - i,
            {
                out.push(convert(&items[i], depth + 1)?);
                i = i + 1;
            }
            Some(PdfObject::Array(out))
        },
        Head::Dictionary => Some(PdfObject::Dictionary(convert_entries(&dict_entries(o), depth)?)),
        Head::Stream(content) => Some(PdfObject::Stream(convert_entries(&stream_entries(o), depth)?, content)),
        Head::Reference(n, g) => Some(PdfObject::Reference(n, g)),
    }
}

/// The object model of a PDF file; `None` where lopdf cannot parse it or an
/// object nests too deeply.
pub fn load_document(bytes: &[u8]) -> (r: Option<PdfDocument>)
    ensures
        !parses(bytes@) ==> r is None,
        r matches Some(doc) ==> doc.wf(),
{
    let doc = load_mem(bytes)?;
    let pages = get_pages(&doc);
    let table = object_table(&doc);
    let mut objects: Vec<(ObjectId, PdfObject)> = Vec::new();
    let mut i: usize = 0;
    while i < table.len()
        invariant
            0 <= i <= table@.len(),
        decreases table@.len() - i,
    {
        let o = convert(&table[i].1, 0)?;
        objects.push((table[i].0, o));
        i = i + 1;
    }
    Some(PdfDocument { objects, pages })
}

/// Relies on `lopdf::Document::with_version`: an empty document of PDF
/// version 1.4.
#[verifier::external_body]
fn new_document() -> (r: lopdf::Document) {
    lopdf::Document::with_version("1.4")
}

/// Relies on `lopdf::Document::add_object`: stores `o` under the next
/// object number and returns its id.
#[verifier::external_body]
fn add_object(doc: &mut lopdf::Document, o: lopdf::Object) -> (r: ObjectId) {
    doc.add_object(o)
}

/// Relies on `lopdf::Dictionary::set` on the trailer: `Root` refers to `id`.
#[verifier::external_body]
fn set_root(doc: &mut lopdf::Document, id: ObjectId) {
    doc.trailer.set("Root", lopdf::Object::Reference(id));
}

/// Relies on `lopdf::Document::save_to`: the serialized document, with its
/// cross-reference table and trailer, or an error.
#[verifier::external_body]
fn save_to_bytes(doc: &mut lopdf::Document) -> (r: Option<Vec<u8>>) {
    let mut buf: Vec<u8> = Vec::new();
    doc.save_to(&mut buf).ok()?;
    Some(buf)
}

/// Relies on the `lopdf::Object::Integer` variant.
#[verifier::external_body]
fn lo_integer(v: i64) -> (r: lopdf::Object) {
    lopdf::Object::Integer(v)
}

/// Relies on the `lopdf::Object::Name` variant.
#[verifier::external_body]
fn lo_name(n: Vec<u8>) -> (r: lopdf::Object) {
    lopdf::Object::Name(n)
}

/// Relies on the `lopdf::Object::Reference` variant.
#[verifier::external_body]
fn lo_reference(n: u32, g: u16) -> (r: lopdf::Object) {
    lopdf::Object::Reference((n, g))
}

/// Relies on the `lopdf::Object::Array` variant.
#[verifier::external_body]
fn lo_array(items: Vec<lopdf::Object>) -> (r: lopdf::Object) {
    lopdf::Object::Array(items)
}

/// Relies on `lopdf::Dictionary`'s `FromIterator`: a dictionary of the
/// entries, in order.
#[verifier::external_body]
fn lo_entries(entries: Vec<(Vec<u8>, lopdf::Object)>) -> (r: lopdf::Dictionary) {
    entries.into_iter().collect()
}

/// Relies on the `lopdf::Object::Dictionary` variant.
#[verifier::external_body]
fn lo_dictionary(d: lopdf::Dictionary) -> (r: lopdf::Object) {
    lopdf::Object::Dictionary(d)
}

/// Relies on `lopdf::Stream::new`: a stream of `content` whose dictionary
/// is `d` with its `Length` set.
#[verifier::external_body]
fn lo_stream(d: lopdf::Dictionary, content: Vec<u8>) -> (r: lopdf::Object) {
    lopdf::Object::Stream(lopdf::Stream::new(d, content))
}

fn to_lopdf_entries(entries: &Vec<(Vec<u8>, PdfObject)>, depth: u32) -> (r: Option<Vec<(Vec<u8>, lopdf::Object)>>)
    requires
        depth < MAX_DEPTH,
    decreases MAX_DEPTH - depth, 0u32,
{
    let mut out: Vec<(Vec<u8>, lopdf::Object)> = Vec::new();
    let mut i: usize = 0;
    while i < entries.len()
        invariant
            0 <= i <= entries@.len(),
            depth < MAX_DEPTH,
        decreases entries@.len() - i,
    {
        let value = to_lopdf(&entries[i].1, depth + 1)?;
        out.push((entries[i].0.clone(), value));
        i = i + 1;
    }
    Some(out)
}

/// The lopdf object of a model object; `None` for the kinds that a built
/// document does not hold (null, booleans, strings, reals) and past
/// `MAX_DEPTH`.
fn to_lopdf(o: &PdfObject, depth: u32) -> (r: Option<lopdf::Object>)
    decreases MAX_DEPTH - depth, 1u32,
{
    if depth >= MAX_DEPTH {
        return None;
    }
    match o {
        PdfObject::Integer(v) => Some(lo_integer(*v)),
        PdfObject::Name(n) => Some(lo_name(n.clone())),
        PdfObject::Reference(n, g) => Some(lo_reference(*n, *g)),
        PdfObject::Array(items) => {
            let mut out: Vec<lopdf::Object> = Vec::new();
            let mut i: usize = 0;
            while i < items.len()
                invariant
                    0 <= i <= items@.len(),
                    depth < MAX_DEPTH,
                decreases items@.len() - i,
            {
                out.push(to_lopdf(&items[i], depth + 1)?);
                i = i + 1;
            }
            Some(lo_array(out))
        },
        PdfObject::Dictionary(entries) => Some(lo_dictionary(lo_entries(to_lopdf_entries(entries, depth)?))),
        PdfObject::Stream(entries, content) => Some(lo_stream(lo_entries(to_lopdf_entries(entries, depth)?), content.clone())),
        _ => None,
    }
}

/// The PDF bytes of a built document; `None` where lopdf numbers an object
/// otherwise than the model does, or fails to write.
pub fn write_document(doc: &OutputDocument) -> (r: Option<Vec<u8>>) {
    let mut out = new_document();
    let mut i: usize = 0;
    while i < doc.objects.len()
        invariant
            0 <= i <= doc.objects@.len(),
        decreases doc.objects@.len() - i,
    {
        let o = to_lopdf(&doc.objects[i].1, 0)?;
        let id = add_object(&mut out, o);
        if id.0 != doc.objects[i].0.0 || id.1 != doc.objects[i].0.1 {
            return None;
        }
        i = i + 1;
    }
    set_root(&mut out, doc.root);
    save_to_bytes(&mut out)
}

} // verus!
