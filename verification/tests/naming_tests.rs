//! Collision-safe export naming and the full export-path composition.

use pdf_asset_store::errors::StoreError;
use pdf_asset_store::naming::{export_path, next_available_path};

#[test]
fn free_name_is_used_directly() {
    let taken: Vec<String> = Vec::new();
    assert_eq!(next_available_path("/dl", "doc.pdf", &taken), "/dl/doc.pdf");
}

#[test]
fn first_collision_gets_number_one() {
    let taken = vec!["/dl/doc.pdf".to_string()];
    assert_eq!(next_available_path("/dl", "doc.pdf", &taken), "/dl/doc (1).pdf");
}

#[test]
fn second_collision_gets_number_two() {
    let taken = vec!["/dl/doc.pdf".to_string(), "/dl/doc (1).pdf".to_string()];
    assert_eq!(next_available_path("/dl", "doc.pdf", &taken), "/dl/doc (2).pdf");
}

#[test]
fn gaps_in_numbering_are_reused() {
    let taken = vec![
        "/dl/doc.pdf".to_string(),
        "/dl/doc (1).pdf".to_string(),
        "/dl/doc (3).pdf".to_string(),
    ];
    assert_eq!(next_available_path("/dl", "doc.pdf", &taken), "/dl/doc (2).pdf");
}

#[test]
fn exhausted_numbering_falls_back_to_export_name() {
    let mut taken = vec!["/dl/doc.pdf".to_string()];
    for i in 1..1000 {
        taken.push(format!("/dl/doc ({i}).pdf"));
    }
    assert_eq!(next_available_path("/dl", "doc.pdf", &taken), "/dl/doc-export.pdf");
}

#[test]
fn almost_exhausted_numbering_uses_last_number() {
    let mut taken = vec!["/dl/doc.pdf".to_string()];
    for i in 1..999 {
        taken.push(format!("/dl/doc ({i}).pdf"));
    }
    assert_eq!(next_available_path("/dl", "doc.pdf", &taken), "/dl/doc (999).pdf");
}

#[test]
fn numbering_keeps_stem_and_extension() {
    let taken = vec!["/dl/rapport final.PDF".to_string()];
    assert_eq!(
        next_available_path("/dl", "rapport final.PDF", &taken),
        "/dl/rapport final (1).PDF"
    );
}

#[test]
fn name_without_extension_numbers_with_pdf_default() {
    let taken = vec!["/dl/doc".to_string()];
    assert_eq!(next_available_path("/dl", "doc", &taken), "/dl/doc (1).pdf");
}

#[test]
fn export_path_composes_sanitation_and_numbering() {
    let dl = "/home/user/Downloads".to_string();
    let taken = vec!["/home/user/Downloads/passwd.pdf".to_string()];
    assert_eq!(
        export_path(Some(&dl), "../../etc/passwd", &taken),
        Ok("/home/user/Downloads/passwd (1).pdf".to_string())
    );
}

#[test]
fn export_path_without_downloads_dir_fails() {
    let taken: Vec<String> = Vec::new();
    assert_eq!(
        export_path(None, "doc.pdf", &taken),
        Err(StoreError::DirectoryUnavailable)
    );
}
