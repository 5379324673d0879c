use pageview::page::{format_chapter, format_token, Chapter, Page};

fn parse_ok(raw: &[u8], is_list: bool) -> Page {
    Page::parse(raw, is_list).expect("token should parse")
}

#[test]
fn parse_paged_token() {
    let p = parse_ok(b"00010-000", false);
    assert_eq!(p.chapter.major, 1);
    assert_eq!(p.chapter.minor, None);
    assert_eq!(p.page, Some(0));
}

#[test]
fn parse_minor_digit() {
    let p = parse_ok(b"00251-123", false);
    assert_eq!(p.chapter.major, 25);
    assert_eq!(p.chapter.minor, Some(1));
    assert_eq!(p.page, Some(123));
}

#[test]
fn parse_list_token() {
    let p = parse_ok(b"00010", true);
    assert_eq!(p.chapter.major, 1);
    assert_eq!(p.chapter.minor, None);
    assert_eq!(p.page, None);
}

#[test]
fn parse_list_with_minor() {
    let p = parse_ok(b"12345", true);
    assert_eq!(p.chapter.major, 1234);
    assert_eq!(p.chapter.minor, Some(5));
    assert_eq!(p.page, None);
}

#[test]
fn parse_rejects_non_digit() {
    assert!(Page::parse(b"00x10-000", false).is_err());
    assert!(Page::parse(b"0001x", true).is_err());
}

#[test]
fn parse_rejects_too_short() {
    assert!(Page::parse(b"0001", true).is_err());
    assert!(Page::parse(b"", true).is_err());
    assert!(Page::parse(b"001100", false).is_err());
}

#[test]
fn parse_rejects_page_overflow() {
    assert!(Page::parse(b"00010-99999999999999999999999999", false).is_err());
}

#[test]
fn round_trip_paged_tokens() {
    for t in [
        b"00010-000".as_slice(),
        b"00010-001".as_slice(),
        b"00020-000".as_slice(),
        b"00251-123".as_slice(),
        b"99999-999".as_slice(),
    ] {
        let p = parse_ok(t, false);
        assert_eq!(format_token(&p), t.to_vec());
    }
}

#[test]
fn round_trip_list_tokens() {
    for t in [b"00010".as_slice(), b"12345".as_slice(), b"00000".as_slice()] {
        let p = parse_ok(t, true);
        assert_eq!(format_token(&p), t.to_vec());
    }
}

#[test]
fn round_trip_keys() {
    let keys = [
        Page { chapter: Chapter { major: 1, minor: None }, page: Some(0) },
        Page { chapter: Chapter { major: 1, minor: Some(9) }, page: Some(999) },
        Page { chapter: Chapter { major: 9999, minor: Some(1) }, page: Some(5) },
    ];
    for k in keys {
        let token = format_token(&k);
        let back = Page::parse(&token, false).expect("formatted token should parse");
        assert_eq!(back, k);
    }
    let list_key = Page { chapter: Chapter { major: 42, minor: None }, page: None };
    let token = format_token(&list_key);
    assert_eq!(token, b"00420".to_vec());
    assert_eq!(Page::parse(&token, true).unwrap(), list_key);
}

#[test]
fn format_pads_fields() {
    let k = Page { chapter: Chapter { major: 7, minor: Some(2) }, page: Some(3) };
    assert_eq!(format_token(&k), b"00072-003".to_vec());
    let k = Page { chapter: Chapter { major: 7, minor: None }, page: None };
    assert_eq!(format_token(&k), b"00070".to_vec());
}

#[test]
fn chapter_token_prefix() {
    assert_eq!(
        format_chapter(&Chapter { major: 25, minor: Some(1) }),
        b"00251".to_vec()
    );
    assert_eq!(
        format_chapter(&Chapter { major: 3, minor: None }),
        b"00030".to_vec()
    );
}

#[test]
fn chapter_ordering() {
    let a = Chapter { major: 1, minor: None };
    let b = Chapter { major: 1, minor: Some(1) };
    let c = Chapter { major: 2, minor: None };
    assert!(a < b);
    assert!(b < c);
    assert!(a < c);
    assert_eq!(a.partial_cmp(&a), Some(std::cmp::Ordering::Equal));
}

#[test]
fn page_ordering_absent_page_first() {
    let chapter = Chapter { major: 3, minor: None };
    let without = Page { chapter, page: None };
    let with_zero = Page { chapter, page: Some(0) };
    assert!(without < with_zero);
    assert!(Page { chapter, page: Some(1) } > with_zero);
}
