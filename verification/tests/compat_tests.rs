//! Cross-checks of the crate's JSON documents against serde_json: what this
//! crate saves must parse under serde_json with the same values, and compact
//! serde_json output for the same shapes must load back unchanged.

use pdf_asset_store::model::StoredSignature;
use pdf_asset_store::store::{load_signatures, load_snippets, save_signatures, save_snippets};

#[test]
fn saved_snippets_parse_identically_under_serde_json() {
    let c = vec![
        "plain".to_string(),
        "quote \" backslash \\".to_string(),
        "newline\n tab\t bell\u{7}".to_string(),
        "unicode éà 中文 🙂".to_string(),
        String::new(),
    ];
    let doc = save_snippets(&c);
    let reparsed: Vec<String> = serde_json::from_str(&doc).unwrap();
    assert_eq!(reparsed, c);
}

#[test]
fn compact_serde_json_snippets_load_back() {
    let c = vec![
        "un".to_string(),
        "deux\ntrois".to_string(),
        "guillemet \"".to_string(),
        "contrôle \u{1b}".to_string(),
    ];
    let doc = serde_json::to_string(&c).unwrap();
    assert_eq!(load_snippets(Some(&doc)), Ok(c));
}

#[test]
fn saved_signatures_parse_identically_under_serde_json() {
    let c = vec![StoredSignature {
        id: "sig-1".to_string(),
        name: "Paraphe \"officiel\"".to_string(),
        mime: "image/png".to_string(),
        bytes: vec![0, 127, 255],
        natural_w: 640,
        natural_h: 480,
    }];
    let doc = save_signatures(&c);
    let v: serde_json::Value = serde_json::from_str(&doc).unwrap();
    assert_eq!(v[0]["id"], serde_json::Value::String("sig-1".to_string()));
    assert_eq!(
        v[0]["name"],
        serde_json::Value::String("Paraphe \"officiel\"".to_string())
    );
    assert_eq!(v[0]["mime"], serde_json::Value::String("image/png".to_string()));
    assert_eq!(v[0]["bytes"][0].as_u64(), Some(0));
    assert_eq!(v[0]["bytes"][1].as_u64(), Some(127));
    assert_eq!(v[0]["bytes"][2].as_u64(), Some(255));
    assert_eq!(v[0]["naturalWidth"].as_u64(), Some(640));
    assert_eq!(v[0]["naturalHeight"].as_u64(), Some(480));
}

#[test]
fn signature_document_in_writer_field_order_loads_back() {
    let doc = "[{\"id\":\"s\",\"name\":\"N\",\"mime\":\"image/png\",\"bytes\":[1,2],\"naturalWidth\":3,\"naturalHeight\":4}]".to_string();
    let loaded = load_signatures(Some(&doc)).unwrap();
    assert_eq!(loaded.len(), 1);
    assert_eq!(loaded[0].id, "s");
    assert_eq!(loaded[0].name, "N");
    assert_eq!(loaded[0].mime, "image/png");
    assert_eq!(loaded[0].bytes, vec![1, 2]);
    assert_eq!(loaded[0].natural_w, 3);
    assert_eq!(loaded[0].natural_h, 4);
}
