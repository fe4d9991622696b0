//! The collection store: bootstrap, round trips, full replace, decode
//! errors, and the exact document texts.

use pdf_asset_store::errors::StoreError;
use pdf_asset_store::model::StoredSignature;
use pdf_asset_store::store::{load_signatures, load_snippets, save_signatures, save_snippets};

fn sig(id: &str, name: &str, mime: &str, bytes: Vec<u8>, w: u32, h: u32) -> StoredSignature {
    StoredSignature {
        id: id.to_string(),
        name: name.to_string(),
        mime: mime.to_string(),
        bytes,
        natural_w: w,
        natural_h: h,
    }
}

#[test]
fn missing_snippets_file_loads_empty() {
    assert_eq!(load_snippets(None), Ok(Vec::new()));
}

#[test]
fn missing_signatures_file_loads_empty() {
    let loaded = load_signatures(None).unwrap();
    assert!(loaded.is_empty());
}

#[test]
fn snippets_round_trip_empty() {
    let c: Vec<String> = Vec::new();
    let doc = save_snippets(&c);
    assert_eq!(load_snippets(Some(&doc)), Ok(c));
}

#[test]
fn snippets_round_trip_plain() {
    let c = vec!["Bonjour".to_string(), "Cordialement,\nJean".to_string()];
    let doc = save_snippets(&c);
    assert_eq!(load_snippets(Some(&doc)), Ok(c));
}

#[test]
fn snippets_round_trip_special_characters() {
    let c = vec![
        "quote \" backslash \\ slash /".to_string(),
        "tab\tbell\u{7}escape\u{1b}".to_string(),
        "accents éèà — 日本語 🙂".to_string(),
        String::new(),
    ];
    let doc = save_snippets(&c);
    assert_eq!(load_snippets(Some(&doc)), Ok(c));
}

#[test]
fn signatures_round_trip() {
    let c = vec![
        sig("sig-1", "Paraphe", "image/png", vec![0, 1, 2, 255, 128], 320, 160),
        sig("sig-2", "Signature complète", "image/jpeg", Vec::new(), 0, 4294967295),
    ];
    let doc = save_signatures(&c);
    assert_eq!(load_signatures(Some(&doc)), Ok(c));
}

#[test]
fn signatures_round_trip_empty() {
    let c: Vec<StoredSignature> = Vec::new();
    let doc = save_signatures(&c);
    assert_eq!(load_signatures(Some(&doc)), Ok(c));
}

#[test]
fn save_is_full_replace_snippets() {
    let c1 = vec!["ancien 1".to_string(), "ancien 2".to_string(), "ancien 3".to_string()];
    let c2 = vec!["nouveau".to_string()];
    let _first = save_snippets(&c1);
    let second = save_snippets(&c2);
    assert_eq!(load_snippets(Some(&second)), Ok(c2));
}

#[test]
fn save_is_full_replace_signatures() {
    let c1 = vec![sig("a", "A", "image/png", vec![1], 1, 1), sig("b", "B", "image/png", vec![2], 2, 2)];
    let c2 = vec![sig("c", "C", "image/webp", vec![3, 4], 3, 3)];
    let _first = save_signatures(&c1);
    let second = save_signatures(&c2);
    assert_eq!(load_signatures(Some(&second)), Ok(c2));
}

#[test]
fn snippets_exact_document_text() {
    let c = vec!["a".to_string(), "b\"c".to_string(), "d\ne".to_string()];
    assert_eq!(save_snippets(&c), "[\"a\",\"b\\\"c\",\"d\\ne\"]");
}

#[test]
fn snippets_control_character_uses_u_escape() {
    let c = vec!["x\u{1b}y".to_string()];
    assert_eq!(save_snippets(&c), "[\"x\\u001by\"]");
}

#[test]
fn signatures_exact_document_text() {
    let c = vec![sig("id1", "Nom", "image/png", vec![7, 200], 12, 34)];
    assert_eq!(
        save_signatures(&c),
        "[{\"id\":\"id1\",\"name\":\"Nom\",\"mime\":\"image/png\",\"bytes\":[7,200],\"naturalWidth\":12,\"naturalHeight\":34}]"
    );
}

#[test]
fn corrupt_snippets_truncated_is_decode_error() {
    let doc = "[\"abc\"".to_string();
    assert_eq!(load_snippets(Some(&doc)), Err(StoreError::DecodeError));
}

#[test]
fn corrupt_snippets_non_array_is_decode_error() {
    let doc = "{\"not\":\"an array\"}".to_string();
    assert_eq!(load_snippets(Some(&doc)), Err(StoreError::DecodeError));
}

#[test]
fn corrupt_snippets_wrong_element_type_is_decode_error() {
    let doc = "[1,2,3]".to_string();
    assert_eq!(load_snippets(Some(&doc)), Err(StoreError::DecodeError));
}

#[test]
fn corrupt_snippets_trailing_garbage_is_decode_error() {
    let doc = "[\"a\"]x".to_string();
    assert_eq!(load_snippets(Some(&doc)), Err(StoreError::DecodeError));
}

#[test]
fn corrupt_signatures_is_decode_error() {
    for doc in ["", "null", "[{}]", "[{\"id\":\"a\"}]", "[\"plain string\"]"] {
        let doc = doc.to_string();
        assert_eq!(
            load_signatures(Some(&doc)),
            Err(StoreError::DecodeError),
            "input: {doc}"
        );
    }
}

#[test]
fn signature_byte_out_of_range_is_decode_error() {
    let doc = "[{\"id\":\"a\",\"name\":\"n\",\"mime\":\"m\",\"bytes\":[256],\"naturalWidth\":1,\"naturalHeight\":1}]".to_string();
    assert_eq!(load_signatures(Some(&doc)), Err(StoreError::DecodeError));
}

#[test]
fn unicode_escapes_decode() {
    let doc = "[\"\\u0041\\u00e9\\u0009\"]".to_string();
    assert_eq!(load_snippets(Some(&doc)), Ok(vec!["Aé\t".to_string()]));
}

#[test]
fn lone_surrogate_escape_is_decode_error() {
    let doc = "[\"\\ud83d\"]".to_string();
    assert_eq!(load_snippets(Some(&doc)), Err(StoreError::DecodeError));
}

#[test]
fn error_descriptions() {
    assert_eq!(StoreError::DirectoryUnavailable.describe(), "system directory unavailable");
    assert_eq!(StoreError::IoError.describe(), "filesystem operation failed");
    assert_eq!(StoreError::DecodeError.describe(), "stored collection is not valid JSON");
}
