use urlbum::favicon::{
    dedup_by_domain, extract_attr, extract_domain, find_icon_links, is_valid_image, resolve_url,
    sanitize_domain,
};
use urlbum::node::Node;

fn make_node(id: i64, url: &str) -> Node {
    Node {
        id,
        parent: None,
        kind: "bookmark".into(),
        title: "T".into(),
        url: Some(url.into()),
        note: None,
        sort_idx: 0,
        created: None,
        visited: None,
    }
}

#[test]
fn extract_domain_strips_www_scheme_port_path() {
    assert_eq!(extract_domain("https://www.github.com/foo/bar"), Some("github.com".into()));
    assert_eq!(extract_domain("http://example.com:8080/page"), Some("example.com".into()));
    assert_eq!(
        extract_domain("https://sub.example.co.uk/"),
        Some("sub.example.co.uk".into())
    );
}

#[test]
fn extract_domain_rejects_non_http() {
    assert_eq!(extract_domain("ftp://other.com"), None);
    assert_eq!(extract_domain("chrome://settings"), None);
    assert_eq!(extract_domain("about:blank"), None);
    assert_eq!(extract_domain("file:///C:/x.html"), None);
    assert_eq!(extract_domain("https://"), None);
}

#[test]
fn extract_domain_trims_lowercases_and_strips_repeated_www() {
    assert_eq!(extract_domain("  HTTPS://WWW.Example.COM/x  "), None);
    assert_eq!(extract_domain("  https://WWW.Example.COM/x \n"), Some("www.example.com".into()));
    assert_eq!(extract_domain("https://www.www.x.org"), Some("x.org".into()));
    assert_eq!(extract_domain("https://www./"), None);
    assert_eq!(extract_domain("https://host:80"), Some("host".into()));
    assert_eq!(extract_domain("https://\u{41f}\u{420}\u{418}.\u{420}\u{424}/"), Some("\u{43f}\u{440}\u{438}.\u{440}\u{444}".into()));
}

#[test]
fn sanitize_domain_allows_alphanum_dot_dash() {
    assert_eq!(sanitize_domain("github.com"), "github.com");
    assert_eq!(sanitize_domain("my-site.co.uk"), "my-site.co.uk");
    assert_eq!(sanitize_domain("x1.example.com"), "x1.example.com");
}

#[test]
fn sanitize_domain_replaces_unsafe_chars() {
    assert_eq!(sanitize_domain("a_b c"), "a_b_c");
    assert_eq!(sanitize_domain("foo:bar"), "foo_bar");
}

#[test]
fn sanitize_domain_replaces_non_ascii() {
    assert_eq!(sanitize_domain("\u{43f}\u{440}.rf"), "__.rf");
    assert_eq!(sanitize_domain(""), "");
}

#[test]
fn is_valid_image_accepts_png_magic() {
    let png = &[0x89u8, 0x50, 0x4E, 0x47, 0x0D, 0x0A, 0x1A, 0x0A];
    assert!(is_valid_image(png));
}

#[test]
fn is_valid_image_rejects_non_png() {
    assert!(!is_valid_image(b"<html>not an image</html>"));
    assert!(!is_valid_image(b"\xFF\xD8\xFF")); // JPEG
    assert!(!is_valid_image(&[0x00u8, 0x00, 0x01, 0x00])); // ICO
    assert!(!is_valid_image(b"GIF89a")); // GIF
    assert!(!is_valid_image(b"RIF")); // too short
}

#[test]
fn is_valid_image_needs_only_four_signature_bytes() {
    assert!(is_valid_image(&[0x89u8, 0x50, 0x4E, 0x47]));
    assert!(!is_valid_image(&[0x89u8, 0x50, 0x4E]));
}

#[test]
fn find_icon_links_raster_before_svg() {
    let html = r#"<head>
        <link rel="icon" href="/favicon.png" type="image/png">
        <link rel="icon" href="/favicon.svg" type="image/svg+xml">
        <link rel="apple-touch-icon" href="/apple.png">
    </head>"#;
    let links = find_icon_links(html, "https://example.com/");
    assert!(links.len() >= 2, "expected at least 2 links");
    let svg_pos = links.iter().position(|l| l.ends_with(".svg"));
    let raster_pos = links.iter().position(|l| !l.ends_with(".svg"));
    assert!(svg_pos.is_some(), "svg must be present");
    assert!(raster_pos.is_some(), "raster must be present");
    assert!(raster_pos.unwrap() < svg_pos.unwrap(), "raster must come before svg");
}

#[test]
fn find_icon_links_resolves_relative_urls() {
    let html = r#"<link rel="icon" href="/static/favicon.ico">"#;
    let links = find_icon_links(html, "https://example.com/page");
    assert_eq!(links, vec!["https://example.com/static/favicon.ico"]);
}

#[test]
fn find_icon_links_exact_order_and_case() {
    let html = r#"<LINK REL="Shortcut Icon" HREF="a.ico"><link rel='icon' href='//cdn.x/i.SVG'><link rel="apple-touch-icon" href="https://y/t.png"><link rel="icon"><link rel="icon" type="image/svg+xml" href="/v">"#;
    let links = find_icon_links(html, "https://example.com/dir/page.html");
    assert_eq!(
        links,
        vec![
            "https://example.com/dir/a.ico",
            "https://y/t.png",
            "https://cdn.x/i.SVG",
            "https://example.com/v",
        ]
    );
    assert!(find_icon_links("<p>no icons</p>", "https://a/").is_empty());
}

#[test]
fn resolve_url_cases() {
    assert_eq!(resolve_url("https://a/b.png", "https://x/y"), "https://a/b.png");
    assert_eq!(resolve_url("//cdn/b.png", "http://x/y"), "https://cdn/b.png");
    assert_eq!(resolve_url("/b.png", "http://x.org/y/z"), "https://x.org/b.png");
    assert_eq!(resolve_url("b.png", "http://x.org/y/z"), "http://x.org/y/b.png");
    assert_eq!(resolve_url("b.png", "http://x.org"), "http://b.png");
    assert_eq!(resolve_url("b.png", "nobase"), "b.png");
}

#[test]
fn extract_attr_cases() {
    assert_eq!(extract_attr(r#"<link HREF="A.png">"#, "href"), Some("A.png".into()));
    assert_eq!(extract_attr("<link href='b'>", "href"), Some("b".into()));
    assert_eq!(extract_attr(r#"<link href="unterminated>"#, "href"), None);
    assert_eq!(extract_attr("<link>", "href"), None);
}

#[test]
fn dedup_by_domain_groups_same_domain() {
    let nodes = vec![
        make_node(1, "https://github.com/foo"),
        make_node(2, "https://github.com/bar"),
        make_node(3, "https://example.com/"),
    ];
    let deduped = dedup_by_domain(nodes);
    assert_eq!(deduped.len(), 2, "two unique domains");
    let gh = deduped
        .iter()
        .find(|(n, _)| n.url.as_deref().unwrap_or("").contains("github"))
        .unwrap();
    assert_eq!(gh.1.len(), 2, "both github IDs grouped");
    assert!(gh.1.contains(&1) && gh.1.contains(&2));
}

#[test]
fn dedup_by_domain_unique_domains_stay_separate() {
    let nodes = vec![
        make_node(1, "https://a.com/"),
        make_node(2, "https://b.com/"),
        make_node(3, "https://c.com/"),
    ];
    let deduped = dedup_by_domain(nodes);
    assert_eq!(deduped.len(), 3);
    for (_, ids) in &deduped {
        assert_eq!(ids.len(), 1);
    }
}

#[test]
fn dedup_by_domain_keeps_first_and_groups_urlless() {
    let mut no_url = make_node(4, "x");
    no_url.url = None;
    let nodes = vec![
        make_node(1, "https://www.a.com/x"),
        make_node(2, "ftp://b"),
        make_node(3, "http://A.com:81/"),
        no_url,
    ];
    let deduped = dedup_by_domain(nodes);
    assert_eq!(deduped.len(), 2);
    assert_eq!(deduped[0].0.id, 1);
    assert_eq!(deduped[0].1, vec![1, 3]);
    assert_eq!(deduped[1].0.id, 2);
    assert_eq!(deduped[1].1, vec![2, 4]);
}
