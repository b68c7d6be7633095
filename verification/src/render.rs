//! The render orchestrator.
//!
//! Drives one document end to end: decode, enumerate pages, rasterize each
//! page, re-encode every page into each requested format, and — for a
//! multi-page document with archiving enabled — pack the per-format entries,
//! in ascending page order, into one archive per format. Any failure aborts
//! the whole document; no partial result is ever surfaced.

use crate::backend;
use crate::backend::{archive_bytes, human_size, jpeg_transcode, pdf_page_count_of, pdf_parses};
use crate::formats::{ext_str, lemma_ext_len, spec_ext, Format};
use crate::names;
use crate::names::{
    lemma_page_name_injective, lemma_page_name_len, spec_archive_name, spec_page_name,
    spec_single_name,
};
use vstd::prelude::*;

verus! {

/// One page's raster data encoded into a specific output format, under its
/// deliverable file name.
#[derive(Debug)]
pub struct EncodedAsset {
    /// Suggested file name of the asset.
    pub filename: String,
    /// The encoded image bytes.
    pub bytes: Vec<u8>,
}

/// The per-format deliverable of a rendered document.
#[derive(Debug)]
pub enum Deliverable {
    /// The single asset of a one-page document.
    Single {
        /// The format the page was encoded in.
        format: Format,
        /// The encoded page, named `"<id>.<ext>"`.
        asset: EncodedAsset,
    },
    /// One archive holding every page of a multi-page document.
    Archive {
        /// The format the pages were encoded in.
        format: Format,
        /// Suggested download name, `"<id>.zip"`.
        filename: String,
        /// The packed archive bytes.
        bytes: Vec<u8>,
    },
    /// The per-page assets of a multi-page document when archiving is off.
    PageSet {
        /// The format the pages were encoded in.
        format: Format,
        /// One asset per page, in ascending page order.
        assets: Vec<EncodedAsset>,
    },
}

/// What the orchestrator is asked to produce.
pub struct RenderConfig {
    /// The requested output formats, one deliverable each.
    pub formats: Vec<Format>,
    /// Whether the pages of a multi-page document are packed into one
    /// archive per format.
    pub archive_multipage: bool,
}

/// Why a document's render failed. A failure aborts that document alone.
#[derive(Clone, Copy, PartialEq, Eq, Structural, Debug)]
pub enum RenderError {
    /// The bytes do not parse as a document.
    DecodeFailure,
    /// The document holds no pages.
    EmptyDocument,
    /// A page could not be rasterized.
    RasterizeFailure,
    /// A rasterized page could not be re-encoded.
    EncodeFailure,
    /// The per-format archive could not be packed.
    PackFailure,
}

/// The terminal, immutable result of one document's render.
#[derive(Debug)]
pub struct RenderedImage {
    /// The document identifier.
    pub stem: String,
    /// The declared size, rendered human-readably.
    pub pdf_human_size: String,
    /// One deliverable per requested format, in request order.
    pub deliverables: Vec<Deliverable>,
}

/// The bytes of one page in format `fmt`, given the page's PNG raster
/// `png`: the raster itself for PNG, its re-encoding for JPEG (`None` when
/// re-encoding fails).
pub open spec fn spec_format_blob(fmt: Format, png: Seq<u8>) -> Option<Seq<u8>> {
    match fmt {
        Format::Png => Some(png),
        Format::Jpeg => jpeg_transcode(png),
    }
}

/// The views of a sequence of byte vectors.
pub open spec fn views_of(v: Seq<Vec<u8>>) -> Seq<Seq<u8>> {
    v.map_values(|b: Vec<u8>| b@)
}

/// Indexing the views of byte vectors is the view of the indexed vector.
pub broadcast proof fn lemma_views_of_index(v: Seq<Vec<u8>>, j: int)
    requires
        0 <= j < v.len(),
    ensures
        #[trigger] views_of(v)[j] == v[j]@,
{
}

/// Taking views keeps the length.
pub broadcast proof fn lemma_views_of_len(v: Seq<Vec<u8>>)
    ensures
        #[trigger] views_of(v).len() == v.len(),
{
}

/// Whether every page of `pngs` re-encodes into `fmt`.
pub open spec fn all_pages_encodable(fmt: Format, pngs: Seq<Seq<u8>>) -> bool {
    forall|k: int| 0 <= k < pngs.len() ==> #[trigger] spec_format_blob(fmt, pngs[k]) is Some
}

/// The encoded page blobs of `pngs` in format `fmt`, page order kept.
pub open spec fn spec_blobs(fmt: Format, pngs: Seq<Seq<u8>>) -> Seq<Seq<u8>> {
    Seq::new(pngs.len(), |k: int| spec_format_blob(fmt, pngs[k]).unwrap())
}

/// The archive entries of document `id` in format `fmt`: one per page, in
/// ascending page order, named `"<id>-page-<k>.<ext>"` with 1-indexed,
/// zero-padded page numbers.
pub open spec fn spec_archive_entries(id: Seq<char>, fmt: Format, pngs: Seq<Seq<u8>>) -> Seq<
    (Seq<char>, Seq<u8>),
> {
    Seq::new(
        pngs.len(),
        |k: int|
            (
                spec_page_name(id, (k + 1) as nat, spec_ext(fmt)),
                spec_format_blob(fmt, pngs[k]).unwrap(),
            ),
    )
}

/// Whether deliverable `d` is exactly what document `id`, rasterized to
/// `pngs`, must yield for format `fmt`.
pub open spec fn deliverable_matches(
    d: Deliverable,
    id: Seq<char>,
    pngs: Seq<Seq<u8>>,
    fmt: Format,
    archive_multipage: bool,
) -> bool {
    match d {
        Deliverable::Single { format, asset } => {
            &&& pngs.len() == 1
            &&& format == fmt
            &&& asset.filename@ == spec_single_name(id, spec_ext(fmt))
            &&& asset.bytes@ == spec_format_blob(fmt, pngs[0]).unwrap()
        },
        Deliverable::Archive { format, filename, bytes } => {
            &&& pngs.len() > 1
            &&& archive_multipage
            &&& format == fmt
            &&& filename@ == spec_archive_name(id)
            &&& bytes@ == archive_bytes(spec_archive_entries(id, fmt, pngs))
        },
        Deliverable::PageSet { format, assets } => {
            &&& pngs.len() > 1
            &&& !archive_multipage
            &&& format == fmt
            &&& assets.len() == pngs.len()
            &&& forall|k: int|
                0 <= k < pngs.len() ==> (#[trigger] assets[k].filename)@ == spec_page_name(
                    id,
                    (k + 1) as nat,
                    spec_ext(fmt),
                )
            &&& forall|k: int|
                0 <= k < pngs.len() ==> (#[trigger] assets[k].bytes)@ == spec_format_blob(
                    fmt,
                    pngs[k],
                ).unwrap()
        },
    }
}

/// Whether `doc` is exactly the render of document `id` with declared size
/// `declared_size` under `cfg`, for the page rasters `pngs`.
pub open spec fn doc_matches(
    doc: RenderedImage,
    id: Seq<char>,
    declared_size: nat,
    cfg: RenderConfig,
    pngs: Seq<Seq<u8>>,
) -> bool {
    &&& doc.stem@ == id
    &&& doc.pdf_human_size@ == human_size(declared_size)
    &&& doc.deliverables@.len() == cfg.formats@.len()
    &&& forall|i: int|
        0 <= i < cfg.formats@.len() ==> deliverable_matches(
            #[trigger] doc.deliverables@[i],
            id,
            pngs,
            cfg.formats@[i],
            cfg.archive_multipage,
        )
}

/// Whether `doc` is a well-formed render of document `id` under `cfg`: for
/// some non-empty page raster sequence, every deliverable matches it.
pub open spec fn doc_ok(
    doc: RenderedImage,
    id: Seq<char>,
    declared_size: nat,
    cfg: RenderConfig,
) -> bool {
    exists|pngs: Seq<Seq<u8>>| pngs.len() >= 1 && doc_matches(doc, id, declared_size, cfg, pngs)
}

/// A one-page document's deliverable in any format is one single asset,
/// named `"<id>.<ext>"`.
pub proof fn lemma_single_page_deliverable(
    d: Deliverable,
    id: Seq<char>,
    pngs: Seq<Seq<u8>>,
    fmt: Format,
    archive_multipage: bool,
)
    requires
        pngs.len() == 1,
        deliverable_matches(d, id, pngs, fmt, archive_multipage),
    ensures
        d is Single,
        d->Single_format == fmt,
        d->Single_asset.filename@ == spec_single_name(id, spec_ext(fmt)),
{
}

/// The archive of a document with `p` pages holds exactly `p` entries, in
/// ascending page order: entry `k` is named `"<id>-page-<k+1>.<ext>"` with
/// the page number one-based and zero-padded to at least three digits.
pub proof fn lemma_archive_entry_names(id: Seq<char>, fmt: Format, pngs: Seq<Seq<u8>>)
    ensures
        spec_archive_entries(id, fmt, pngs).len() == pngs.len(),
        forall|k: int|
            0 <= k < pngs.len() ==> (#[trigger] spec_archive_entries(id, fmt, pngs)[k]).0
                == spec_page_name(id, (k + 1) as nat, spec_ext(fmt)),
{
}

/// A multi-page document's deliverable, with archiving on, is one archive
/// named `"<id>.zip"`, holding exactly the per-page entries in ascending
/// page order.
pub proof fn lemma_multi_page_deliverable(
    d: Deliverable,
    id: Seq<char>,
    pngs: Seq<Seq<u8>>,
    fmt: Format,
)
    requires
        pngs.len() > 1,
        deliverable_matches(d, id, pngs, fmt, true),
    ensures
        d is Archive,
        d->Archive_format == fmt,
        d->Archive_filename@ == spec_archive_name(id),
        d->Archive_bytes@ == archive_bytes(spec_archive_entries(id, fmt, pngs)),
{
}

/// Encodes one page raster into `fmt`.
fn encode_page(fmt: Format, png: &Vec<u8>) -> (r: Option<Vec<u8>>)
    ensures
        r is Some <==> spec_format_blob(fmt, png@) is Some,
        r is Some ==> r.unwrap()@ == spec_format_blob(fmt, png@).unwrap(),
{
    match fmt {
        Format::Png => Some(vstd::slice::slice_to_vec(png.as_slice())),
        Format::Jpeg => backend::transcode_png_to_jpeg(png),
    }
}

/// Encodes every page raster into `fmt`, page order kept. Fails exactly
/// when some page does not re-encode.
fn encode_pages(fmt: Format, pngs: &Vec<Vec<u8>>) -> (r: Result<Vec<Vec<u8>>, RenderError>)
    ensures
        r is Ok <==> all_pages_encodable(fmt, views_of(pngs@)),
        r is Ok ==> views_of(r.unwrap()@) =~= spec_blobs(fmt, views_of(pngs@)),
        r is Err ==> r.unwrap_err() == RenderError::EncodeFailure,
{
    let mut blobs: Vec<Vec<u8>> = Vec::new();
    let mut k: usize = 0;
    while k < pngs.len()
        invariant
            k <= pngs.len(),
            blobs.len() == k,
            forall|j: int| 0 <= j < k ==> #[trigger] spec_format_blob(fmt, pngs@[j]@) is Some,
            forall|j: int|
                0 <= j < k ==> (#[trigger] blobs@[j])@ == spec_format_blob(fmt, pngs@[j]@).unwrap(),
        decreases pngs.len() - k,
    {
        match encode_page(fmt, &pngs[k]) {
            Some(b) => {
                blobs.push(b);
            },
            None => {
                proof {
                    broadcast use lemma_views_of_index;

                    assert(views_of(pngs@)[k as int] == pngs@[k as int]@);
                    assert(!all_pages_encodable(fmt, views_of(pngs@)));
                }
                return Err(RenderError::EncodeFailure);
            },
        }
        k += 1;
    }
    proof {
        broadcast use lemma_views_of_index, lemma_views_of_len;

        assert forall|j: int| 0 <= j < views_of(pngs@).len() implies #[trigger] spec_format_blob(
            fmt,
            views_of(pngs@)[j],
        ) is Some by {
            assert(views_of(pngs@)[j] == pngs@[j]@);
        }
        assert forall|j: int| 0 <= j < views_of(blobs@).len() implies #[trigger] views_of(blobs@)[j]
            == spec_blobs(fmt, views_of(pngs@))[j] by {
            assert(views_of(blobs@)[j] == blobs@[j]@);
            assert(views_of(pngs@)[j] == pngs@[j]@);
        }
        assert(views_of(blobs@) =~= spec_blobs(fmt, views_of(pngs@)));
    }
    Ok(blobs)
}

/// Packs the encoded pages of `id` in format `fmt` into one archive, in
/// ascending page order. Packing into memory cannot fail: the entry names
/// are pairwise distinct and, with the identifier bounded, short enough for
/// the archive header.
fn pack_archive(id: &String, fmt: Format, pngs_view: Ghost<Seq<Seq<u8>>>, blobs: &Vec<Vec<u8>>) -> (r:
    Result<Vec<u8>, RenderError>)
    requires
        views_of(blobs@) =~= spec_blobs(fmt, pngs_view@),
        id@.len() <= 16000,
    ensures
        r is Ok,
        r is Ok ==> r.unwrap()@ == archive_bytes(spec_archive_entries(id@, fmt, pngs_view@)),
{
    proof {
        broadcast use lemma_views_of_len;

        assert(views_of(blobs@).len() == spec_blobs(fmt, pngs_view@).len());
        assert(blobs@.len() == pngs_view@.len());
    }
    let mut builder = backend::archive_new();
    let mut k: usize = 0;
    while k < blobs.len()
        invariant
            k <= blobs.len(),
            id@.len() <= 16000,
            blobs@.len() == pngs_view@.len(),
            views_of(blobs@) =~= spec_blobs(fmt, pngs_view@),
            backend::archive_entries(builder) =~= spec_archive_entries(
                id@,
                fmt,
                pngs_view@,
            ).take(k as int),
        decreases blobs.len() - k,
    {
        let name = names::page_name(id, k + 1, ext_str(fmt));
        proof {
            lemma_ext_len(fmt);
            lemma_page_name_len(id@, spec_ext(fmt), (k + 1) as nat);
            assert(name@.len() <= 16383);
            assert forall|j: int|
                0 <= j < backend::archive_entries(builder).len() implies (
            #[trigger] backend::archive_entries(builder)[j]).0 != name@ by {
                assert(backend::archive_entries(builder)[j] == spec_archive_entries(
                    id@,
                    fmt,
                    pngs_view@,
                ).take(k as int)[j]);
                lemma_page_name_injective(id@, spec_ext(fmt), (j + 1) as nat, (k + 1) as nat);
            }
        }
        if !backend::archive_add(&mut builder, &name, &blobs[k]) {
            return Err(RenderError::PackFailure);
        }
        proof {
            broadcast use lemma_views_of_index;

            assert(views_of(blobs@)[k as int] == blobs@[k as int]@);
            assert(spec_blobs(fmt, pngs_view@)[k as int] == spec_format_blob(
                fmt,
                pngs_view@[k as int],
            ).unwrap());
            assert(backend::archive_entries(builder) =~= spec_archive_entries(
                id@,
                fmt,
                pngs_view@,
            ).take(k + 1int));
        }
        k += 1;
    }
    proof {
        assert(spec_archive_entries(id@, fmt, pngs_view@).take(blobs.len() as int)
            =~= spec_archive_entries(id@, fmt, pngs_view@));
    }
    match backend::archive_finish(builder) {
        Some(bytes) => Ok(bytes),
        None => Err(RenderError::PackFailure),
    }
}

/// Builds the deliverable of document `id` for format `fmt` from the page
/// rasters `pngs`: the single named asset of a one-page document, else one
/// archive (or, with archiving off, the per-page assets), pages ascending.
pub fn build_deliverable(
    id: &String,
    fmt: Format,
    pngs: &Vec<Vec<u8>>,
    archive_multipage: bool,
) -> (r: Result<Deliverable, RenderError>)
    requires
        pngs@.len() >= 1,
    ensures
        r is Ok ==> deliverable_matches(r.unwrap(), id@, views_of(pngs@), fmt, archive_multipage),
        r == Err::<Deliverable, RenderError>(RenderError::EncodeFailure) <==> !all_pages_encodable(
            fmt,
            views_of(pngs@),
        ),
        r is Err ==> r.unwrap_err() == RenderError::EncodeFailure || (r.unwrap_err()
            == RenderError::PackFailure && pngs@.len() > 1 && archive_multipage),
        all_pages_encodable(fmt, views_of(pngs@)) && (pngs@.len() == 1 || !archive_multipage
            || id@.len() <= 16000) ==> r is Ok,
{
    let mut blobs = match encode_pages(fmt, pngs) {
        Ok(b) => b,
        Err(e) => {
            return Err(e);
        },
    };
    if pngs.len() == 1 {
        let ghost pre = blobs@;
        let bytes = blobs.remove(0);
        proof {
            broadcast use lemma_views_of_index, lemma_views_of_len;

            assert(views_of(pre).len() == spec_blobs(fmt, views_of(pngs@)).len());
            assert(views_of(pre)[0] == pre[0]@);
            assert(bytes@ == spec_format_blob(fmt, views_of(pngs@)[0]).unwrap());
        }
        let asset = EncodedAsset { filename: names::single_name(id, ext_str(fmt)), bytes };
        Ok(Deliverable::Single { format: fmt, asset })
    } else if archive_multipage {
        if id.as_str().unicode_len() > 16000 {
            // The entry names would overrun the archive header's name field.
            return Err(RenderError::PackFailure);
        }
        let bytes = pack_archive(id, fmt, Ghost(views_of(pngs@)), &blobs)?;
        Ok(Deliverable::Archive { format: fmt, filename: names::archive_name(id), bytes })
    } else {
        let ghost full = views_of(blobs@);
        let mut assets: Vec<EncodedAsset> = Vec::new();
        let count = blobs.len();
        let mut k: usize = 0;
        while k < count
            invariant
                k <= count,
                count == full.len(),
                blobs.len() + k == count,
                views_of(blobs@) =~= full.skip(k as int),
                assets.len() == k,
                full =~= spec_blobs(fmt, views_of(pngs@)),
                forall|j: int|
                    0 <= j < k ==> (#[trigger] assets[j].filename)@ == spec_page_name(
                        id@,
                        (j + 1) as nat,
                        spec_ext(fmt),
                    ),
                forall|j: int| 0 <= j < k ==> (#[trigger] assets[j].bytes)@ == full[j],
            decreases count - k,
        {
            let ghost pre = blobs@;
            let bytes = blobs.remove(0);
            proof {
                broadcast use lemma_views_of_index;

                assert(views_of(pre)[0] == pre[0]@);
                assert(bytes@ == full[k as int]);
                assert forall|j: int| 0 <= j < blobs@.len() implies views_of(blobs@)[j] == full[k
                    + 1 + j] by {
                    assert(views_of(pre)[j + 1] == pre[j + 1]@);
                }
                assert(views_of(blobs@) =~= full.skip(k + 1int));
            }
            let asset = EncodedAsset { filename: names::page_name(id, k + 1, ext_str(fmt)), bytes };
            assets.push(asset);
            k += 1;
        }
        proof {
            broadcast use lemma_views_of_index, lemma_views_of_len;

            assert(views_of(pngs@).len() == pngs@.len());
            assert forall|j: int| 0 <= j < count implies full[j] == spec_format_blob(
                fmt,
                views_of(pngs@)[j],
            ).unwrap() by {
                assert(spec_blobs(fmt, views_of(pngs@))[j] == spec_format_blob(
                    fmt,
                    views_of(pngs@)[j],
                ).unwrap());
            }
        }
        Ok(Deliverable::PageSet { format: fmt, assets })
    }
}

/// Rasterizes every page of the decoded document, ascending page order.
fn rasterize_pages(pdf: &hayro::hayro_syntax::Pdf, count: usize) -> (r: Result<
    Vec<Vec<u8>>,
    RenderError,
>)
    ensures
        r is Ok ==> r.unwrap()@.len() == count,
        r is Err ==> r.unwrap_err() == RenderError::RasterizeFailure,
{
    let mut pngs: Vec<Vec<u8>> = Vec::new();
    let mut k: usize = 0;
    while k < count
        invariant
            k <= count,
            pngs.len() == k,
        decreases count - k,
    {
        match backend::rasterize_page_png(pdf, k) {
            Some(png) => {
                pngs.push(png);
            },
            None => {
                return Err(RenderError::RasterizeFailure);
            },
        }
        k += 1;
    }
    Ok(pngs)
}

/// Renders one document end to end: decode `data`, rasterize every page,
/// encode each page into every requested format, and pack multi-page output
/// into per-format archives when configured. Fails with `DecodeFailure`
/// exactly when the bytes do not parse, with `EmptyDocument` exactly when
/// they parse to a document without pages, and never yields a partial
/// result.
pub fn render_document(
    id: &String,
    data: Vec<u8>,
    declared_size: u64,
    cfg: &RenderConfig,
) -> (r: Result<RenderedImage, RenderError>)
    ensures
        r is Ok ==> doc_ok(r.unwrap(), id@, declared_size as nat, *cfg),
        r == Err::<RenderedImage, RenderError>(RenderError::DecodeFailure) <==> !pdf_parses(data@),
        r == Err::<RenderedImage, RenderError>(RenderError::EmptyDocument) <==> pdf_parses(data@)
            && pdf_page_count_of(data@) == 0,
        r is Err && r.unwrap_err() != RenderError::DecodeFailure ==> pdf_parses(data@),
{
    let pdf = match backend::decode_document(data) {
        Some(p) => p,
        None => {
            return Err(RenderError::DecodeFailure);
        },
    };
    let count = backend::document_page_count(&pdf);
    proof {
        assert(count as nat == pdf_page_count_of(data@));
    }
    if count == 0 {
        return Err(RenderError::EmptyDocument);
    }
    let pngs = match rasterize_pages(&pdf, count) {
        Ok(p) => p,
        Err(e) => {
            return Err(e);
        },
    };
    let mut deliverables: Vec<Deliverable> = Vec::new();
    let mut i: usize = 0;
    while i < cfg.formats.len()
        invariant
            i <= cfg.formats@.len(),
            pngs@.len() >= 1,
            pdf_parses(data@),
            pdf_page_count_of(data@) > 0,
            deliverables.len() == i,
            forall|j: int|
                0 <= j < i ==> deliverable_matches(
                    #[trigger] deliverables[j],
                    id@,
                    views_of(pngs@),
                    cfg.formats@[j],
                    cfg.archive_multipage,
                ),
        decreases cfg.formats@.len() - i,
    {
        match build_deliverable(id, cfg.formats[i], &pngs, cfg.archive_multipage) {
            Ok(d) => {
                deliverables.push(d);
            },
            Err(e) => {
                return Err(e);
            },
        }
        i += 1;
    }
    let doc = RenderedImage {
        stem: id.clone(),
        pdf_human_size: backend::format_human_size(declared_size),
        deliverables,
    };
    proof {
        assert(doc_matches(doc, id@, declared_size as nat, *cfg, views_of(pngs@)));
    }
    Ok(doc)
}

} // verus!
