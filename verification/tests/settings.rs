use urlbum::settings::{settings_from_json, settings_to_json, Settings};

#[test]
fn settings_defaults() {
    let s = Settings::default();
    assert!(s.show_toolbar);
    assert!(!s.collapse_siblings);
    assert!(s.confirm_delete);
    assert!(!s.no_duplicate_urls);
}

#[test]
fn settings_json_roundtrip() {
    let orig = Settings {
        show_toolbar: false,
        collapse_siblings: true,
        confirm_delete: false,
        no_duplicate_urls: true,
    };
    let loaded = settings_from_json(&settings_to_json(&orig));
    assert_eq!(loaded.show_toolbar, orig.show_toolbar);
    assert_eq!(loaded.collapse_siblings, orig.collapse_siblings);
    assert_eq!(loaded.confirm_delete, orig.confirm_delete);
    assert_eq!(loaded.no_duplicate_urls, orig.no_duplicate_urls);
}

#[test]
fn settings_json_partial_and_invalid() {
    let s = settings_from_json(r#"{"show_toolbar": false}"#);
    assert!(!s.show_toolbar);
    assert!(!s.collapse_siblings);
    assert!(s.confirm_delete);
    let s = settings_from_json(r#"{"confirm_delete": "no", "collapse_siblings": true}"#);
    assert!(s.confirm_delete);
    assert!(s.collapse_siblings);
    let s = settings_from_json("not json");
    assert!(s.show_toolbar && s.confirm_delete && !s.collapse_siblings && !s.no_duplicate_urls);
    let s = settings_from_json("[true]");
    assert!(s.show_toolbar && s.confirm_delete);
}

#[test]
fn settings_json_text_is_pretty_object() {
    let t = settings_to_json(&Settings::default());
    assert!(t.starts_with("{\n"));
    assert!(t.contains("\"show_toolbar\": true"));
    assert!(t.contains("\"no_duplicate_urls\": false"));
}
