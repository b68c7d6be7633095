//! Trusted boundary to the outside crates.
//!
//! Everything the pipeline takes from the rendering backend (hayro), the
//! image codecs (image), the archive writer (zip), the size formatter
//! (humansize) and the parts of std that carry no specification is gathered
//! here, one wrapper per capability, with the contract each caller's proof
//! rests on. Results that are deterministic functions of the arguments but
//! too large to state are given uninterpreted names.

use std::io::Cursor;
use std::io::Write;
use vstd::prelude::*;

verus! {

// ---------------------------------------------------------------------------
// Rendering backend (hayro)
// ---------------------------------------------------------------------------

#[verifier::external_type_specification]
#[verifier::external_body]
pub struct ExPdf(hayro::hayro_syntax::Pdf);

/// Whether a byte buffer parses as a document; what `Pdf::new` decides.
pub uninterp spec fn pdf_parses(data: Seq<u8>) -> bool;

/// The number of pages a decoded document holds.
pub uninterp spec fn pdf_num_pages(pdf: hayro::hayro_syntax::Pdf) -> nat;

/// The page count of a document, as a function of its bytes; meaningful
/// when `pdf_parses` holds of them.
pub uninterp spec fn pdf_page_count_of(data: Seq<u8>) -> nat;

/// Relies on hayro's `Pdf::new`: whether the bytes parse as a PDF document
/// depends on the bytes alone, and so does the page count of the decoded
/// document.
#[verifier::external_body]
pub fn decode_document(data: Vec<u8>) -> (r: Option<hayro::hayro_syntax::Pdf>)
    ensures
        r is Some <==> pdf_parses(data@),
        r is Some ==> pdf_num_pages(r.unwrap()) == pdf_page_count_of(data@),
{
    hayro::hayro_syntax::Pdf::new(data).ok()
}

/// Relies on hayro's `Pdf::pages`: the page count of the decoded document.
#[verifier::external_body]
pub fn document_page_count(pdf: &hayro::hayro_syntax::Pdf) -> (r: usize)
    ensures
        r as nat == pdf_num_pages(*pdf),
{
    pdf.pages().len()
}

/// Relies on hayro's `render` and vello's `Pixmap::into_png`: rasterizes one
/// page (0-indexed) onto a white background and encodes it as PNG. `None`
/// when the index is out of range or rasterization fails.
#[verifier::external_body]
pub fn rasterize_page_png(pdf: &hayro::hayro_syntax::Pdf, index: usize) -> (r: Option<Vec<u8>>)
    ensures
        r is Some ==> index < pdf_num_pages(*pdf),
{
    let page = pdf.pages().get(index)?;
    let pixmap_settings = hayro::PixmapSettings {
        bg_color: hayro::vello_cpu::color::palette::css::WHITE,
        ..Default::default()
    };
    let pixmap = hayro::render(
        page,
        &hayro::RenderCache::new(),
        &hayro_interpret::InterpreterSettings::default(),
        &hayro::RenderSettings::default(),
        &pixmap_settings,
    );
    pixmap.into_png().ok()
}

// ---------------------------------------------------------------------------
// Image codec (image)
// ---------------------------------------------------------------------------

/// What decoding a PNG and re-encoding it as JPEG yields; what the image
/// crate's PNG decoder and JPEG encoder compute. `None` when the bytes do
/// not decode as a PNG image.
pub uninterp spec fn jpeg_transcode(png: Seq<u8>) -> Option<Seq<u8>>;

/// Relies on the image crate's `ImageReader::decode` and
/// `DynamicImage::write_to`: the JPEG re-encoding of a PNG depends on the
/// PNG bytes alone.
#[verifier::external_body]
pub fn transcode_png_to_jpeg(png: &Vec<u8>) -> (r: Option<Vec<u8>>)
    ensures
        r is Some <==> jpeg_transcode(png@) is Some,
        r is Some ==> r.unwrap()@ == jpeg_transcode(png@).unwrap(),
{
    let reader = image::ImageReader::with_format(Cursor::new(png.as_slice()), image::ImageFormat::Png);
    let img = match reader.decode() {
        Ok(i) => i,
        Err(_) => return None,
    };
    let mut out: Vec<u8> = Vec::new();
    match img.write_to(&mut Cursor::new(&mut out), image::ImageFormat::Jpeg) {
        Ok(()) => Some(out),
        Err(_) => None,
    }
}

// ---------------------------------------------------------------------------
// Archive writer (zip)
// ---------------------------------------------------------------------------

/// An in-memory archive in construction; wraps zip's `ZipWriter` over an
/// in-memory cursor, which Verus sees only through `archive_entries`.
#[verifier::external_body]
pub struct ArchiveBuilder {
    inner: zip::ZipWriter<Cursor<Vec<u8>>>,
}

/// The (name, bytes) entries an in-memory archive writer holds so far, in
/// the order they were added.
pub uninterp spec fn archive_entries(w: ArchiveBuilder) -> Seq<(Seq<char>, Seq<u8>)>;

/// The serialized archive holding exactly the given entries, in order, each
/// stored uncompressed with fixed metadata.
pub uninterp spec fn archive_bytes(entries: Seq<(Seq<char>, Seq<u8>)>) -> Seq<u8>;

/// Relies on `ZipWriter::new` over an in-memory cursor: a fresh archive
/// holds no entries.
#[verifier::external_body]
pub fn archive_new() -> (w: ArchiveBuilder)
    ensures
        archive_entries(w) == Seq::<(Seq<char>, Seq<u8>)>::empty(),
{
    ArchiveBuilder { inner: zip::ZipWriter::new(Cursor::new(Vec::new())) }
}

/// Relies on `ZipWriter::start_file` and `Write::write_all`: on success the
/// writer holds one more entry, after the existing ones. The entry is stored
/// uncompressed with a fixed timestamp, so the finished archive depends on
/// the entries alone. With the large-file option set, writing into the
/// in-memory cursor cannot fail, and `start_file` refuses only a duplicate
/// name or a name over its two-byte header length limit of 65535 bytes —
/// any name of at most 16383 characters fits, whatever its encoding.
#[verifier::external_body]
pub fn archive_add(w: &mut ArchiveBuilder, name: &String, bytes: &Vec<u8>) -> (ok: bool)
    ensures
        ok ==> archive_entries(*final(w)) == archive_entries(*old(w)).push((name@, bytes@)),
        name@.len() <= 16383 && (forall|j: int|
            0 <= j < archive_entries(*old(w)).len() ==> (#[trigger] archive_entries(*old(w))[j]).0
                != name@) ==> ok,
{
    let options = zip::write::SimpleFileOptions::default()
        .compression_method(zip::CompressionMethod::Stored)
        .last_modified_time(zip::DateTime::DEFAULT)
        .large_file(true);
    if w.inner.start_file(name.as_str(), options).is_err() {
        return false;
    }
    w.inner.write_all(bytes.as_slice()).is_ok()
}

/// Relies on `ZipWriter::finish`: the bytes of the archive holding exactly
/// the entries added, in order. Into an in-memory cursor, finishing cannot
/// fail.
#[verifier::external_body]
pub fn archive_finish(w: ArchiveBuilder) -> (r: Option<Vec<u8>>)
    ensures
        r is Some,
        r is Some ==> r.unwrap()@ == archive_bytes(archive_entries(w)),
{
    match w.inner.finish() {
        Ok(cursor) => Some(cursor.into_inner()),
        Err(_) => None,
    }
}

// ---------------------------------------------------------------------------
// Size formatting (humansize)
// ---------------------------------------------------------------------------

/// The human-readable rendering of a byte count in binary (1024-based)
/// units, e.g. `"2.05 MiB"`; what humansize computes.
pub uninterp spec fn human_size(n: nat) -> Seq<char>;

/// Relies on humansize's `format_size` with its `BINARY` options: the
/// rendered string depends on the byte count alone.
#[verifier::external_body]
pub fn format_human_size(n: u64) -> (r: String)
    ensures
        r@ == human_size(n as nat),
{
    humansize::format_size(n, humansize::BINARY)
}

// ---------------------------------------------------------------------------
// Text helpers from std
// ---------------------------------------------------------------------------

/// What `String::from_utf8_lossy` decodes, replacement characters included.
pub uninterp spec fn lossy_utf8(bytes: Seq<u8>) -> Seq<char>;

/// Relies on `String::from_utf8_lossy`: the decoded characters depend on
/// the bytes alone.
#[verifier::external_body]
pub fn utf8_lossy(data: &[u8]) -> (r: String)
    ensures
        r@ == lossy_utf8(data@),
{
    String::from_utf8_lossy(data).into_owned()
}

/// What `str::to_uppercase` yields.
pub uninterp spec fn uppercase(s: Seq<char>) -> Seq<char>;

/// Relies on `str::to_uppercase`: the result depends on the characters
/// alone.
#[verifier::external_body]
pub fn to_uppercase_string(s: &str) -> (r: String)
    ensures
        r@ == uppercase(s@),
{
    s.to_uppercase()
}

} // verus!
