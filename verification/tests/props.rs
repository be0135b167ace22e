use urlbum::props::{new_node_kind, optional_field, url_check_needed};
use urlbum::settings::Settings;

#[test]
fn empty_fields_store_nothing() {
    assert_eq!(optional_field(""), None);
    assert_eq!(optional_field("https://x.com"), Some("https://x.com".to_string()));
    assert_eq!(optional_field(" "), Some(" ".to_string()));
}

#[test]
fn new_node_kinds() {
    assert_eq!(new_node_kind(true), "folder");
    assert_eq!(new_node_kind(false), "bookmark");
}

#[test]
fn url_lookup_only_for_new_bookmarks_when_refusing_duplicates() {
    let refuse = Settings { no_duplicate_urls: true, ..Settings::default() };
    let allow = Settings::default();
    let url = Some("https://x.com".to_string());
    assert!(url_check_needed(&refuse, true, false, &url));
    assert!(!url_check_needed(&allow, true, false, &url));
    assert!(!url_check_needed(&refuse, true, true, &url));
    assert!(!url_check_needed(&refuse, false, false, &url));
    assert!(!url_check_needed(&refuse, true, false, &None));
}
