use urlbum::dups::{after_copy_deleted, dup_totals, keep_choice, without_group, DupGroup};

fn groups(list: &[(&str, i64)]) -> Vec<DupGroup> {
    list.iter().map(|(u, c)| DupGroup { url: u.to_string(), count: *c }).collect()
}

fn pairs(g: &[DupGroup]) -> Vec<(String, i64)> {
    g.iter().map(|x| (x.url.clone(), x.count)).collect()
}

#[test]
fn totals_count_groups_copies_and_extras() {
    let t = dup_totals(&groups(&[("https://a.com", 3), ("https://b.com", 2)]));
    assert_eq!(t.groups, 2);
    assert_eq!(t.copies, 5);
    assert_eq!(t.extras, 3);
    let none = dup_totals(&Vec::new());
    assert_eq!((none.groups, none.copies, none.extras), (0, 0, 0));
}

#[test]
fn deleting_a_copy_recounts_the_group() {
    let g = groups(&[("https://a.com", 3), ("https://b.com", 2)]);
    let r = after_copy_deleted(g, "https://a.com", 2);
    assert_eq!(pairs(&r), vec![("https://a.com".to_string(), 2), ("https://b.com".to_string(), 2)]);
    assert_eq!(dup_totals(&r).extras, 2);
}

#[test]
fn last_duplicate_gone_removes_the_group() {
    let g = groups(&[("https://a.com", 3), ("https://b.com", 2), ("https://c.com", 4)]);
    let r = after_copy_deleted(g, "https://b.com", 1);
    assert_eq!(pairs(&r), vec![("https://a.com".to_string(), 3), ("https://c.com".to_string(), 4)]);
    let t = dup_totals(&r);
    assert_eq!((t.groups, t.copies, t.extras), (2, 7, 5));
}

#[test]
fn keeping_one_removes_its_group_only() {
    let g = groups(&[("https://a.com", 3), ("https://b.com", 2)]);
    let r = without_group(g, "https://a.com");
    assert_eq!(pairs(&r), vec![("https://b.com".to_string(), 2)]);
    let again = without_group(r, "https://a.com");
    assert_eq!(pairs(&again), vec![("https://b.com".to_string(), 2)]);
    assert!(without_group(Vec::new(), "x").is_empty());
}

#[test]
fn keep_choice_prefers_the_selection() {
    assert_eq!(keep_choice(7, Some(3)), Some(7));
    assert_eq!(keep_choice(-1, Some(3)), Some(3));
    assert_eq!(keep_choice(-1, None), None);
    assert_eq!(keep_choice(-1, Some(-1)), None);
}

#[test]
fn totals_take_counts_as_given() {
    let t = dup_totals(&groups(&[("https://a.com", -1), ("https://b.com", 4)]));
    assert_eq!((t.groups, t.copies, t.extras), (2, 3, 1));
}
