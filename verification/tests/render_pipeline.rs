//! End-to-end rendering and pipeline scenarios.

use pdfraster::formats::Format;
use pdfraster::pipeline::{Pipeline, SubmitOutcome, UploadItem};
use pdfraster::render::{render_document, Deliverable, RenderConfig, RenderError};

/// Builds a minimal document with `pages` empty pages and a valid
/// cross-reference table.
fn make_pdf(pages: usize) -> Vec<u8> {
    let mut objs: Vec<String> = Vec::new();
    let kids: Vec<String> = (0..pages).map(|i| format!("{} 0 R", 3 + i)).collect();
    objs.push(String::from("1 0 obj\n<< /Type /Catalog /Pages 2 0 R >>\nendobj\n"));
    objs.push(format!(
        "2 0 obj\n<< /Type /Pages /Kids [{}] /Count {} >>\nendobj\n",
        kids.join(" "),
        pages
    ));
    for i in 0..pages {
        objs.push(format!(
            "{} 0 obj\n<< /Type /Page /Parent 2 0 R /MediaBox [0 0 50 50] >>\nendobj\n",
            3 + i
        ));
    }
    let mut out = String::from("%PDF-1.4\n");
    let mut offsets: Vec<usize> = Vec::new();
    for o in &objs {
        offsets.push(out.len());
        out.push_str(o);
    }
    let xref_pos = out.len();
    out.push_str(&format!("xref\n0 {}\n", objs.len() + 1));
    out.push_str("0000000000 65535 f \n");
    for off in &offsets {
        out.push_str(&format!("{:010} 00000 n \n", off));
    }
    out.push_str(&format!(
        "trailer\n<< /Size {} /Root 1 0 R >>\nstartxref\n{}\n%%EOF\n",
        objs.len() + 1,
        xref_pos
    ));
    out.into_bytes()
}

fn config() -> RenderConfig {
    RenderConfig { formats: vec![Format::Png, Format::Jpeg], archive_multipage: true }
}

fn item(name: &str, mime: &str, size: u64, bytes: Vec<u8>) -> UploadItem {
    UploadItem {
        filename: String::from(name),
        media_type: String::from(mime),
        declared_size: size,
        bytes,
    }
}

#[test]
fn single_page_yields_named_assets() {
    let id = String::from("invoice");
    let doc = render_document(&id, make_pdf(1), 2_150_000, &config()).unwrap();
    assert_eq!(doc.stem, "invoice");
    assert_eq!(doc.pdf_human_size, "2.05 MiB");
    assert_eq!(doc.deliverables.len(), 2);
    match &doc.deliverables[0] {
        Deliverable::Single { format, asset } => {
            assert_eq!(*format, Format::Png);
            assert_eq!(asset.filename, "invoice.png");
            // PNG signature: the rasterizer really produced PNG bytes.
            assert_eq!(&asset.bytes[..8], &[0x89, 0x50, 0x4e, 0x47, 0x0d, 0x0a, 0x1a, 0x0a]);
        }
        _ => panic!("expected a single PNG asset"),
    }
    match &doc.deliverables[1] {
        Deliverable::Single { format, asset } => {
            assert_eq!(*format, Format::Jpeg);
            assert_eq!(asset.filename, "invoice.jpeg");
            // JPEG signature: the transcoder did not hand the PNG back.
            assert_eq!(&asset.bytes[..2], &[0xff, 0xd8]);
        }
        _ => panic!("expected a single JPEG asset"),
    }
}

#[test]
fn multi_page_yields_archives_with_ascending_entries() {
    let id = String::from("report");
    let doc = render_document(&id, make_pdf(3), 10_000, &config()).unwrap();
    assert_eq!(doc.deliverables.len(), 2);
    for (d, ext) in doc.deliverables.iter().zip(["png", "jpeg"]) {
        match d {
            Deliverable::Archive { format: _, filename, bytes } => {
                assert_eq!(filename, "report.zip");
                assert_eq!(&bytes[..2], b"PK");
                let mut archive =
                    zip::ZipArchive::new(std::io::Cursor::new(bytes.clone())).unwrap();
                assert_eq!(archive.len(), 3);
                for k in 0..3 {
                    let entry = archive.by_index(k).unwrap();
                    assert_eq!(entry.name(), format!("report-page-{:03}.{}", k + 1, ext));
                }
            }
            _ => panic!("expected an archive deliverable"),
        }
    }
}

#[test]
fn multi_page_without_archiving_yields_page_assets() {
    let id = String::from("report");
    let cfg = RenderConfig { formats: vec![Format::Png], archive_multipage: false };
    let doc = render_document(&id, make_pdf(2), 10_000, &cfg).unwrap();
    assert_eq!(doc.deliverables.len(), 1);
    match &doc.deliverables[0] {
        Deliverable::PageSet { format, assets } => {
            assert_eq!(*format, Format::Png);
            assert_eq!(assets.len(), 2);
            assert_eq!(assets[0].filename, "report-page-001.png");
            assert_eq!(assets[1].filename, "report-page-002.png");
        }
        _ => panic!("expected per-page assets"),
    }
}

#[test]
fn unparseable_bytes_fail_with_decode_failure() {
    let id = String::from("broken");
    let r = render_document(&id, b"this is not a document".to_vec(), 22, &config());
    assert!(matches!(r, Err(RenderError::DecodeFailure)));
}

#[test]
fn zero_pages_fail_with_empty_document() {
    let id = String::from("empty");
    let r = render_document(&id, make_pdf(0), 100, &config());
    assert!(matches!(r, Err(RenderError::EmptyDocument)));
}

#[test]
fn end_to_end_single_page_upload() {
    let mut pipeline = Pipeline::new(config());
    let outcomes = pipeline.run_batch(vec![item(
        "invoice.pdf",
        "application/pdf",
        2_150_000,
        make_pdf(1),
    )]);
    assert_eq!(outcomes, vec![SubmitOutcome::Completed]);
    assert_eq!(pipeline.pending_len(), 0);
    let docs = pipeline.results();
    assert_eq!(docs.len(), 1);
    assert_eq!(docs[0].stem, "invoice");
    assert_eq!(docs[0].pdf_human_size, "2.05 MiB");
    let names: Vec<&str> = docs[0]
        .deliverables
        .iter()
        .map(|d| match d {
            Deliverable::Single { format: _, asset } => asset.filename.as_str(),
            _ => panic!("expected single assets"),
        })
        .collect();
    assert_eq!(names, vec!["invoice.png", "invoice.jpeg"]);
}

#[test]
fn end_to_end_multi_page_upload() {
    let mut pipeline = Pipeline::new(config());
    let outcomes =
        pipeline.run_batch(vec![item("report.pdf", "application/pdf", 10_000, make_pdf(3))]);
    assert_eq!(outcomes, vec![SubmitOutcome::Completed]);
    let docs = pipeline.results();
    assert_eq!(docs.len(), 1);
    assert_eq!(docs[0].stem, "report");
    for d in &docs[0].deliverables {
        match d {
            Deliverable::Archive { filename, .. } => assert_eq!(filename, "report.zip"),
            _ => panic!("expected archives for a multi-page document"),
        }
    }
}

#[test]
fn wrong_media_type_is_rejected_and_changes_nothing() {
    let mut pipeline = Pipeline::new(config());
    let outcomes =
        pipeline.run_batch(vec![item("notes.txt", "text/plain", 42, b"plain text".to_vec())]);
    assert_eq!(outcomes, vec![SubmitOutcome::Rejected]);
    assert_eq!(pipeline.results().len(), 0);
    assert_eq!(pipeline.pending_len(), 0);
}

#[test]
fn empty_identifier_is_rejected() {
    // The display name strips down to nothing, so no task is registered.
    let mut pipeline = Pipeline::new(config());
    let outcomes = pipeline.run_batch(vec![item(".pdf", "application/pdf", 100, make_pdf(1))]);
    assert_eq!(outcomes, vec![SubmitOutcome::Rejected]);
    assert_eq!(pipeline.results().len(), 0);
    assert_eq!(pipeline.pending_len(), 0);
}

#[test]
fn duplicate_identifier_in_batch_is_dropped() {
    let mut pipeline = Pipeline::new(config());
    let outcomes = pipeline.run_batch(vec![
        item("invoice.pdf", "application/pdf", 1_000, make_pdf(1)),
        item("invoice.pdf", "application/pdf", 1_000, make_pdf(1)),
    ]);
    assert_eq!(outcomes, vec![SubmitOutcome::Completed, SubmitOutcome::Duplicate]);
    assert_eq!(pipeline.results().len(), 1);
    assert_eq!(pipeline.pending_len(), 0);
}

#[test]
fn failures_do_not_cross_document_boundaries() {
    let mut pipeline = Pipeline::new(config());
    let outcomes = pipeline.run_batch(vec![
        item("first.pdf", "application/pdf", 500, make_pdf(1)),
        item("notes.txt", "text/plain", 10, b"nope".to_vec()),
        item("broken.pdf", "application/pdf", 9, b"not a pdf".to_vec()),
        item("second.pdf", "application/pdf", 700, make_pdf(2)),
    ]);
    assert_eq!(
        outcomes,
        vec![
            SubmitOutcome::Completed,
            SubmitOutcome::Rejected,
            SubmitOutcome::Failed(RenderError::DecodeFailure),
            SubmitOutcome::Completed,
        ]
    );
    let docs = pipeline.results();
    assert_eq!(docs.len(), 2);
    assert_eq!(docs[0].stem, "first");
    assert_eq!(docs[1].stem, "second");
    assert_eq!(pipeline.pending_len(), 0);
}

#[test]
fn zero_page_upload_fails_with_empty_document() {
    let mut pipeline = Pipeline::new(config());
    let outcomes =
        pipeline.run_batch(vec![item("blank.pdf", "application/pdf", 50, make_pdf(0))]);
    assert_eq!(outcomes, vec![SubmitOutcome::Failed(RenderError::EmptyDocument)]);
    assert_eq!(pipeline.results().len(), 0);
    assert_eq!(pipeline.pending_len(), 0);
}

#[test]
fn same_identifier_is_accepted_again_after_completion() {
    let mut pipeline = Pipeline::new(config());
    let first = pipeline.run_batch(vec![item("invoice.pdf", "application/pdf", 100, make_pdf(1))]);
    let second = pipeline.run_batch(vec![item("invoice.pdf", "application/pdf", 100, make_pdf(1))]);
    assert_eq!(first, vec![SubmitOutcome::Completed]);
    assert_eq!(second, vec![SubmitOutcome::Completed]);
    assert_eq!(pipeline.results().len(), 2);
}
