use urlbum::ua_dat::{decode_win1251, normalize_url, parse_ua_date, parse_ua_line, UaImporter};

#[test]
fn decode_cyrillic() {
    let bytes = [0xC2u8, 0xE0, 0xF0, 0xE5, 0xE7];
    assert_eq!(decode_win1251(&bytes), "Варез");
}

#[test]
fn decode_win1251_ascii_and_specials() {
    assert_eq!(decode_win1251(b"ab\t1"), "ab\t1");
    assert_eq!(decode_win1251(&[0x80u8, 0x98, 0xB9, 0xFF]), "\u{402}\u{0}\u{2116}\u{44F}");
}

#[test]
fn date_converts_correctly() {
    assert_eq!(
        parse_ua_date("150905172253"),
        Some("2005-09-15 17:22:53".to_string())
    );
    assert_eq!(parse_ua_date(""), None);
    assert_eq!(parse_ua_date("bad"), None);
}

#[test]
fn date_rejects_non_digits_and_lengths() {
    assert_eq!(parse_ua_date("1509051722530"), None);
    assert_eq!(parse_ua_date("15090517225a"), None);
    assert_eq!(parse_ua_date("010199000000"), Some("2099-01-01 00:00:00".to_string()));
}

#[test]
fn url_normalization() {
    assert_eq!(normalize_url("www.example.com"), "http://www.example.com");
    assert_eq!(normalize_url("http://ya.ru"), "http://ya.ru");
    assert_eq!(normalize_url("ftp://files.ru"), "ftp://files.ru");
    assert_eq!(normalize_url(""), "");
}

#[test]
fn parse_line_bookmark_with_all_fields() {
    let line = b"\t\tTitle\twww.x.ru\tthumb.jpg\tline1^^line2^^^\t150905172253\tbad\r\n";
    let rec = parse_ua_line(line).unwrap();
    assert_eq!(rec.depth, 2);
    assert!(!rec.is_folder);
    assert_eq!(rec.kind(), "bookmark");
    assert_eq!(rec.title, "Title");
    assert_eq!(rec.url.as_deref(), Some("http://www.x.ru"));
    assert_eq!(rec.thumb.as_deref(), Some("thumb.jpg"));
    assert_eq!(rec.note.as_deref(), Some("line1\nline2\n^"));
    assert_eq!(rec.created.as_deref(), Some("2005-09-15 17:22:53"));
    assert_eq!(rec.visited, None);
}

#[test]
fn parse_line_folder_and_skipped_lines() {
    let rec = parse_ua_line(&[0xC2u8, 0xE0, b'\t', b'#', b'\n']).unwrap();
    assert_eq!(rec.depth, 0);
    assert!(rec.is_folder);
    assert_eq!(rec.kind(), "folder");
    assert_eq!(rec.title, "Ва");
    assert_eq!(rec.url, None);
    assert_eq!(rec.thumb, None);
    assert!(parse_ua_line(b"\n").is_none());
    assert!(parse_ua_line(b"\r\n").is_none());
    assert!(parse_ua_line(b"\t\t\n").is_none());
    assert!(parse_ua_line(b"").is_none());
    let only_title = parse_ua_line(b"T").unwrap();
    assert_eq!(only_title.url, None);
    assert_eq!(only_title.note, None);
}

#[test]
fn importer_parents_follow_depth() {
    let mut imp = UaImporter::new();
    assert_eq!(imp.parent_for(0), None);
    imp.inserted(0, 10);
    assert_eq!(imp.parent_for(1), Some(10));
    imp.inserted(1, 11);
    assert_eq!(imp.parent_for(2), Some(11));
    imp.inserted(2, 12);
    assert_eq!(imp.parent_for(1), Some(10));
    imp.inserted(1, 13);
    assert_eq!(imp.parent_for(2), Some(13));
    assert_eq!(imp.parent_for(0), None);
    assert_eq!(imp.parent_for(5), None);
    assert_eq!(imp.count(), 4);
}
