use urlbum::favicon::is_valid_image;
use urlbum::fetch::{prepare_image, FaviconFetch, FetchAction, FetchEvent, Phase};

const GIF_1X1: [u8; 43] = [
    0x47, 0x49, 0x46, 0x38, 0x39, 0x61, 0x01, 0x00, 0x01, 0x00, 0x80, 0x00, 0x00, 0x00, 0x00,
    0x00, 0xFF, 0xFF, 0xFF, 0x21, 0xF9, 0x04, 0x01, 0x00, 0x00, 0x00, 0x00, 0x2C, 0x00, 0x00,
    0x00, 0x00, 0x01, 0x00, 0x01, 0x00, 0x00, 0x02, 0x02, 0x44, 0x01, 0x00, 0x3B,
];

fn expect_get(a: FetchAction, want: &str, prepare: bool, discard: bool) {
    match a {
        FetchAction::Get { url, prepare_dir, discard_cache } => {
            assert_eq!(url, want);
            assert_eq!(prepare_dir, prepare);
            assert_eq!(discard_cache, discard);
        }
        _ => panic!("expected a download of {want}"),
    }
}

#[test]
fn prepare_image_reencodes_and_refuses_svg() {
    let png = prepare_image(GIF_1X1.to_vec()).unwrap();
    assert_eq!(&png[..8], &[0x89, 0x50, 0x4E, 0x47, 0x0D, 0x0A, 0x1A, 0x0A]);
    assert!(is_valid_image(&png));
    assert!(prepare_image(b"<svg xmlns=\"x\"></svg>".to_vec()).is_none());
    assert!(prepare_image(b"<?xml version".to_vec()).is_none());
    assert!(prepare_image(b"GIF".to_vec()).is_none());
    assert!(prepare_image(b"not an image at all".to_vec()).is_none());
}

#[test]
fn fetch_rejects_non_http() {
    assert!(FaviconFetch::start("ftp://x.org").is_none());
    assert!(FaviconFetch::start("https://").is_none());
}

#[test]
fn fetch_cache_hit_finishes_at_once() {
    let (mut m, a) = FaviconFetch::start("https://www.Example.com/x").unwrap();
    assert!(matches!(a, FetchAction::ReadCache));
    assert_eq!(m.filename(), "example.com.png");
    let png = prepare_image(GIF_1X1.to_vec()).unwrap();
    match m.step(FetchEvent::Cache(Some(png))) {
        FetchAction::Finish(Some(f)) => assert_eq!(f, "example.com.png"),
        _ => panic!("cache hit must finish"),
    }
    assert_eq!(m.phase(), Phase::Done);
}

#[test]
fn fetch_walks_candidates_in_order() {
    let (mut m, _) = FaviconFetch::start("  https://www.Example.com/page ").unwrap();
    let a = m.step(FetchEvent::Cache(Some(b"corrupt".to_vec())));
    expect_get(a, "https://example.com/favicon.ico", true, true);
    let a = m.step(FetchEvent::Fetched(None));
    expect_get(a, "http://example.com/favicon.ico", false, false);
    let a = m.step(FetchEvent::Fetched(Some(b"<svg></svg>".to_vec())));
    expect_get(a, "https://www.Example.com/page", false, false);
    let html = br#"<link rel="icon" href="/i.gif">"#.to_vec();
    let a = m.step(FetchEvent::Fetched(Some(html)));
    expect_get(a, "https://www.Example.com/i.gif", false, false);
    let a = m.step(FetchEvent::Fetched(Some(GIF_1X1.to_vec())));
    match a {
        FetchAction::Save { png } => assert_eq!(&png[..4], &[0x89, 0x50, 0x4E, 0x47]),
        _ => panic!("expected a save"),
    }
    assert_eq!(m.phase(), Phase::Saving);
    let a = m.step(FetchEvent::Saved(false));
    expect_get(a, "https://icons.duckduckgo.com/ip3/example.com.ico", false, false);
    let a = m.step(FetchEvent::Fetched(None));
    expect_get(a, "https://www.google.com/s2/favicons?domain=example.com&sz=32", false, false);
    let a = m.step(FetchEvent::Fetched(Some(GIF_1X1.to_vec())));
    assert!(matches!(a, FetchAction::Finish(None)), "a 43-byte answer is a placeholder");
}

#[test]
fn fetch_empty_page_tries_next_page() {
    let (mut m, _) = FaviconFetch::start("http://a.org").unwrap();
    m.step(FetchEvent::Cache(None));
    m.step(FetchEvent::Fetched(None));
    let a = m.step(FetchEvent::Fetched(None));
    expect_get(a, "http://a.org", false, false);
    let a = m.step(FetchEvent::Fetched(Some(Vec::new())));
    expect_get(a, "https://a.org/", false, false);
    let a = m.step(FetchEvent::Fetched(Some(b"<p>plain</p>".to_vec())));
    expect_get(a, "https://icons.duckduckgo.com/ip3/a.org.ico", false, false);
    let a = m.step(FetchEvent::Fetched(Some(GIF_1X1.to_vec())));
    assert!(matches!(a, FetchAction::Save { .. }));
    match m.step(FetchEvent::Saved(true)) {
        FetchAction::Finish(Some(f)) => assert_eq!(f, "a.org.png"),
        _ => panic!("a stored icon finishes the fetch"),
    }
}
