//! Filename sanitation, PDF recognition, display names and path joining.

use pdf_asset_store::errors::StoreError;
use pdf_asset_store::paths::{
    display_name, is_pdf_path, join_path, sanitize_file_name, signatures_path, snippets_path,
};

#[test]
fn sanitize_strips_traversal_and_enforces_suffix() {
    assert_eq!(sanitize_file_name("../../etc/passwd"), "passwd.pdf");
}

#[test]
fn sanitize_keeps_uppercase_suffix_unchanged() {
    assert_eq!(sanitize_file_name("report.PDF"), "report.PDF");
}

#[test]
fn sanitize_appends_suffix_when_missing() {
    assert_eq!(sanitize_file_name("contrat"), "contrat.pdf");
    assert_eq!(sanitize_file_name("notes.txt"), "notes.txt.pdf");
}

#[test]
fn sanitize_falls_back_on_degenerate_names() {
    assert_eq!(sanitize_file_name(""), "document-signed.pdf");
    assert_eq!(sanitize_file_name("."), "document-signed.pdf");
    assert_eq!(sanitize_file_name(".."), "document-signed.pdf");
    assert_eq!(sanitize_file_name("dir/"), "document-signed.pdf");
}

#[test]
fn sanitize_strips_backslash_components() {
    assert_eq!(sanitize_file_name("..\\..\\evil.pdf"), "evil.pdf");
}

#[test]
fn sanitize_is_idempotent_on_own_output() {
    for raw in ["../../etc/passwd", "report.PDF", "contrat", "", "a/b/c.Pdf"] {
        let once = sanitize_file_name(raw);
        assert_eq!(sanitize_file_name(&once), once);
    }
}

#[test]
fn pdf_paths_are_recognised_case_insensitively() {
    assert!(is_pdf_path("doc.pdf"));
    assert!(is_pdf_path("DOC.PDF"));
    assert!(is_pdf_path("/tmp/un dossier/papier.Pdf"));
}

#[test]
fn non_pdf_paths_are_rejected() {
    assert!(!is_pdf_path("notes.txt"));
    assert!(!is_pdf_path("sans-extension"));
    assert!(!is_pdf_path(".pdf"));
    assert!(!is_pdf_path("archive.pdf/"));
    assert!(!is_pdf_path("doc.pdfx"));
}

#[test]
fn display_name_takes_final_component() {
    assert_eq!(display_name("/tmp/contrat signé.pdf"), "contrat signé.pdf");
    assert_eq!(display_name("contrat.pdf"), "contrat.pdf");
}

#[test]
fn display_name_falls_back_on_placeholder() {
    assert_eq!(display_name(""), "document.pdf");
    assert_eq!(display_name("/tmp/"), "document.pdf");
}

#[test]
fn join_inserts_separator_only_when_needed() {
    assert_eq!(join_path("/data", "x.json"), "/data/x.json");
    assert_eq!(join_path("/data/", "x.json"), "/data/x.json");
    assert_eq!(join_path("", "x.json"), "x.json");
}

#[test]
fn collection_paths_join_fixed_names() {
    let dir = "/home/user/.local/share/app".to_string();
    assert_eq!(
        signatures_path(Some(&dir)),
        Ok("/home/user/.local/share/app/signatures.json".to_string())
    );
    assert_eq!(
        snippets_path(Some(&dir)),
        Ok("/home/user/.local/share/app/snippets.json".to_string())
    );
}

#[test]
fn collection_paths_fail_without_data_dir() {
    assert_eq!(signatures_path(None), Err(StoreError::DirectoryUnavailable));
    assert_eq!(snippets_path(None), Err(StoreError::DirectoryUnavailable));
}
