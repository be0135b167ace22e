use std::collections::{HashMap, HashSet};
use urlbum::node::Node;
use urlbum::settings::Settings;
use urlbum::view::{contents_list, contents_rows, normalize_url, status_line, TreeWalk, ViewState};

fn node(id: i64, parent: Option<i64>, kind: &str, title: &str, url: Option<&str>) -> Node {
    Node {
        id,
        parent,
        kind: kind.into(),
        title: title.into(),
        url: url.map(|u| u.into()),
        note: None,
        sort_idx: 0,
        created: None,
        visited: None,
    }
}

#[test]
fn browser_url_normalization() {
    assert_eq!(normalize_url(""), "");
    assert_eq!(normalize_url("example.com"), "https://example.com");
    assert_eq!(normalize_url("http://x"), "http://x");
    assert_eq!(normalize_url("mailto:a@b"), "mailto:a@b");
    assert_eq!(normalize_url("file:C:/x"), "file:C:/x");
}

#[test]
fn status_line_defaults() {
    let mut n = node(1, None, "bookmark", "T", Some("https://a"));
    let s = status_line(&n);
    assert_eq!(s.url, "https://a");
    assert_eq!(s.note, "");
    assert_eq!(s.created, "");
    assert_eq!(s.visited, "\u{2014}");
    n.visited = Some("2024-01-01 00:00:00".into());
    assert_eq!(status_line(&n).visited, "2024-01-01 00:00:00");
}

#[test]
fn toggle_and_collapse_siblings() {
    let sibs = vec![
        node(1, None, "folder", "A", None),
        node(2, None, "folder", "B", None),
        node(3, None, "bookmark", "C", Some("https://c")),
    ];
    let mut v = ViewState::new();
    v.tree_folder_clicked(1, false, &sibs);
    assert!(v.expanded.contains(&1));
    assert_eq!(v.current_folder, Some(1));
    v.expanded.insert(3);
    v.tree_folder_clicked(2, true, &sibs);
    assert!(v.expanded.contains(&2));
    assert!(!v.expanded.contains(&1), "sibling folder closed");
    assert!(v.expanded.contains(&3), "bookmarks are not folders");
    v.toggle(2, true, &sibs);
    assert!(!v.expanded.contains(&2));
    v.list_folder_activated(1, false, &sibs);
    v.list_folder_activated(1, false, &sibs);
    assert!(v.expanded.contains(&1), "activating twice keeps it open");
}

#[test]
fn delete_forgets_selection() {
    let mut v = ViewState::new();
    let settings = Settings::default();
    assert!(!v.needs_delete_confirm(&settings));
    v.context_requested(5, true);
    v.expanded.insert(5);
    assert!(v.needs_delete_confirm(&settings));
    assert_eq!(v.take_selected_for_delete(), Some(5));
    assert_eq!(v.selected_id, None);
    assert_eq!(v.current_folder, None);
    assert!(!v.expanded.contains(&5));
    assert_eq!(v.take_selected_for_delete(), None);
    v.inserted(Some(7), 8, false);
    assert!(v.expanded.contains(&7));
    assert_eq!(v.selected_id, Some(8));
    v.expand_all(&vec![1, 2]);
    assert!(v.expanded.contains(&1) && v.expanded.contains(&2));
    v.collapse_all();
    assert!(v.expanded.is_empty());
    v.reset();
    assert_eq!(v.selected_id, None);
    assert!(v.selected_is_folder);
}

#[test]
fn tree_walk_depth_first() {
    let mut expanded = HashSet::new();
    expanded.insert(1);
    expanded.insert(4);
    let mut favs = HashMap::new();
    favs.insert(2, "b.png".to_string());
    favs.insert(1, "a.png".to_string());
    let mut w = TreeWalk::start();
    assert_eq!(w.request(), Some(None));
    w.feed(
        Some(vec![node(1, None, "folder", "A", None), node(2, None, "bookmark", "B", Some("https://b"))]),
        &expanded,
        &favs,
    );
    assert_eq!(w.request(), Some(Some(1)));
    w.feed(
        Some(vec![node(3, Some(1), "folder", "C", None), node(4, Some(1), "folder", "D", None)]),
        &expanded,
        &favs,
    );
    assert_eq!(w.request(), Some(Some(4)));
    w.feed(None, &expanded, &favs);
    assert_eq!(w.request(), None);
    let rows = w.into_rows();
    let got: Vec<(i64, usize, bool)> = rows.iter().map(|r| (r.id, r.depth, r.expanded)).collect();
    assert_eq!(got, vec![(1, 0, true), (3, 1, false), (4, 1, true), (2, 0, false)]);
    assert_eq!(rows[3].url, "https://b");
    assert_eq!(rows[0].url, "");
    assert_eq!(rows[3].favicon.as_deref(), Some("b.png"));
    assert_eq!(rows[0].favicon, None, "a folder never shows a favicon");
}

#[test]
fn contents_rows_flat() {
    let rows = contents_rows(
        vec![node(1, Some(9), "folder", "A", None), node(2, Some(9), "bookmark", "B", Some("u"))],
        &HashMap::new(),
    );
    assert_eq!(rows.len(), 2);
    assert!(rows[0].is_folder && !rows[0].expanded && rows[0].depth == 0);
    assert_eq!(rows[1].title, "B");
    assert_eq!(rows[1].url, "u");
    assert_eq!(rows[1].favicon, None);
}

#[test]
fn contents_row_favicons() {
    let mut favs = HashMap::new();
    favs.insert(1, "f.png".to_string());
    favs.insert(2, "b.png".to_string());
    favs.insert(3, String::new());
    let rows = contents_rows(
        vec![
            node(1, Some(9), "folder", "F", None),
            node(2, Some(9), "bookmark", "B", Some("u")),
            node(3, Some(9), "bookmark", "C", Some("v")),
            node(4, Some(9), "bookmark", "D", Some("w")),
        ],
        &favs,
    );
    let got: Vec<Option<&str>> = rows.iter().map(|r| r.favicon.as_deref()).collect();
    assert_eq!(got, vec![None, Some("b.png"), None, None]);
}

#[test]
fn contents_list_empty_without_open_folder() {
    let children = vec![node(2, Some(9), "bookmark", "B", Some("u"))];
    assert!(contents_list(None, children.clone(), &HashMap::new()).is_empty());
    let rows = contents_list(Some(9), children, &HashMap::new());
    assert_eq!(rows.len(), 1);
    assert_eq!(rows[0].id, 2);
}
