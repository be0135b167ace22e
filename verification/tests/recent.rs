use urlbum::recent::{push_recent, recent_from_json, recent_to_json};

#[test]
fn push_recent_moves_to_front_and_caps() {
    let list: Vec<String> = vec!["a".into(), "b".into(), "c".into()];
    assert_eq!(push_recent(list.clone(), "b"), vec!["b", "a", "c"]);
    assert_eq!(push_recent(list, "z"), vec!["z", "a", "b", "c"]);
    let long: Vec<String> = (0..12).map(|i| format!("p{i}")).collect();
    let r = push_recent(long, "new");
    assert_eq!(r.len(), 10);
    assert_eq!(r[0], "new");
    assert_eq!(r[9], "p8");
    let once = push_recent(vec!["x".into(), "y".into()], "y");
    assert_eq!(push_recent(once.clone(), "y"), once);
}

#[test]
fn recent_json_roundtrip() {
    let list: Vec<String> = vec!["C:\\db\\album.db".into(), "with \"quote\"".into()];
    assert_eq!(recent_from_json(&recent_to_json(&list)), list);
    assert!(recent_from_json("not json").is_empty());
    assert!(recent_from_json("{\"a\": 1}").is_empty());
}
