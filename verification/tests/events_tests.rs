//! The file-open filter and the loaded-document payload.

use pdf_asset_store::events::{loaded_pdf, open_pdf_event};

#[test]
fn existing_pdf_candidate_is_forwarded() {
    let e = open_pdf_event("/tmp/contrat.pdf", true).unwrap();
    assert_eq!(e.path, "/tmp/contrat.pdf");
}

#[test]
fn txt_candidate_is_dropped_even_if_it_exists() {
    assert!(open_pdf_event("/tmp/notes.txt", true).is_none());
}

#[test]
fn missing_pdf_candidate_is_dropped() {
    assert!(open_pdf_event("/tmp/absent.pdf", false).is_none());
}

#[test]
fn filter_is_case_insensitive_on_extension() {
    assert!(open_pdf_event("/tmp/SCAN.PDF", true).is_some());
}

#[test]
fn loaded_pdf_keeps_bytes_and_derives_name() {
    let doc = loaded_pdf("/docs/contrat.pdf", vec![1, 2, 3]);
    assert_eq!(doc.bytes, vec![1, 2, 3]);
    assert_eq!(doc.name, "contrat.pdf");
}

#[test]
fn loaded_pdf_uses_placeholder_name() {
    let doc = loaded_pdf("..", vec![9]);
    assert_eq!(doc.name, "document.pdf");
}
