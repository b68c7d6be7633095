//! Task registry and result store behavior.

use pdfraster::formats::Format;
use pdfraster::pipeline::{Pipeline, SubmitDecision, UploadItem};
use pdfraster::registry::TaskRegistry;
use pdfraster::render::{RenderConfig, RenderError, RenderedImage};
use pdfraster::store::ResultStore;

#[test]
fn register_gates_duplicates() {
    let mut reg = TaskRegistry::new();
    let a = String::from("invoice");
    let b = String::from("report");
    assert!(reg.register(&a));
    assert!(!reg.register(&a));
    assert!(reg.register(&b));
    assert!(!reg.register(&a));
    assert_eq!(reg.len(), 2);
    assert!(reg.contains(&a));
    assert!(reg.contains(&b));
}

#[test]
fn complete_releases_the_slot() {
    let mut reg = TaskRegistry::new();
    let a = String::from("invoice");
    assert!(reg.register(&a));
    reg.complete(&a);
    assert!(!reg.contains(&a));
    assert_eq!(reg.len(), 0);
    // The identifier may be registered again after completion.
    assert!(reg.register(&a));
}

#[test]
fn complete_twice_is_a_noop() {
    let mut reg = TaskRegistry::new();
    let a = String::from("invoice");
    let b = String::from("report");
    assert!(reg.register(&a));
    assert!(reg.register(&b));
    reg.complete(&a);
    reg.complete(&a);
    assert_eq!(reg.len(), 1);
    assert!(reg.contains(&b));
    // Completing an identifier that was never registered is safe too.
    reg.complete(&String::from("unknown"));
    assert_eq!(reg.len(), 1);
}

#[test]
fn store_appends_in_order() {
    let mut store = ResultStore::new();
    assert_eq!(store.len(), 0);
    store.append(RenderedImage {
        stem: String::from("first"),
        pdf_human_size: String::from("1 KiB"),
        deliverables: Vec::new(),
    });
    store.append(RenderedImage {
        stem: String::from("second"),
        pdf_human_size: String::from("2 KiB"),
        deliverables: Vec::new(),
    });
    assert_eq!(store.len(), 2);
    assert_eq!(store.get(0).stem, "first");
    assert_eq!(store.get(1).stem, "second");
    let listed = store.list();
    assert_eq!(listed.len(), 2);
    assert_eq!(listed[0].pdf_human_size, "1 KiB");
}

#[test]
fn submit_and_on_complete_drive_the_state_machine() {
    let mut pipeline = Pipeline::new(RenderConfig {
        formats: vec![Format::Png],
        archive_multipage: true,
    });
    let item = UploadItem {
        filename: String::from("invoice.pdf"),
        media_type: String::from("application/pdf"),
        declared_size: 100,
        bytes: Vec::new(),
    };
    let no_stem = UploadItem {
        filename: String::from(".pdf"),
        media_type: String::from("application/pdf"),
        declared_size: 1,
        bytes: Vec::new(),
    };
    assert_eq!(pipeline.submit(&no_stem), SubmitDecision::Rejected);
    assert_eq!(pipeline.pending_len(), 0);
    assert_eq!(pipeline.submit(&item), SubmitDecision::Accepted);
    assert_eq!(pipeline.pending_len(), 1);
    // While the identifier is in flight, the same identifier is dropped.
    assert_eq!(pipeline.submit(&item), SubmitDecision::Duplicate);
    assert_eq!(pipeline.pending_len(), 1);

    // A failed render releases the slot and appends nothing.
    let id = String::from("invoice");
    pipeline.on_complete(&id, Err(RenderError::RasterizeFailure));
    assert_eq!(pipeline.pending_len(), 0);
    assert_eq!(pipeline.results().len(), 0);

    // After completion the identifier is accepted again.
    assert_eq!(pipeline.submit(&item), SubmitDecision::Accepted);

    // A successful completion appends exactly one result.
    pipeline.on_complete(
        &id,
        Ok(RenderedImage {
            stem: String::from("invoice"),
            pdf_human_size: String::from("100 B"),
            deliverables: Vec::new(),
        }),
    );
    assert_eq!(pipeline.pending_len(), 0);
    assert_eq!(pipeline.results().len(), 1);
    assert_eq!(pipeline.results()[0].stem, "invoice");

    // Completing an identifier that is not in flight is a harmless no-op.
    pipeline.on_complete(&id, Err(RenderError::RasterizeFailure));
    assert_eq!(pipeline.results().len(), 1);
}
