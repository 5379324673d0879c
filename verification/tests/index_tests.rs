use pageview::index::{build_index, IndexError};
use pageview::page::format_token;

fn entries(tokens: &[&[u8]]) -> Vec<Vec<u8>> {
    tokens.iter().map(|t| t.to_vec()).collect()
}

#[test]
fn builds_sorted_index_with_current() {
    let listing = entries(&[b"00020-000", b"00010-001", b"00010-000"]);
    let idx = build_index(&listing, b"00010-001").expect("index should build");
    assert!(!idx.is_list);
    assert_eq!(idx.pages.len(), 3);
    assert_eq!(format_token(&idx.pages[0]), b"00010-000".to_vec());
    assert_eq!(format_token(&idx.pages[1]), b"00010-001".to_vec());
    assert_eq!(format_token(&idx.pages[2]), b"00020-000".to_vec());
    assert_eq!(idx.current, 1);
    assert!(!idx.dont_save);
}

#[test]
fn advance_persists_next_token() {
    let listing = entries(&[b"00010-000", b"00010-001", b"00020-000"]);
    let mut idx = build_index(&listing, b"00010-001").expect("index should build");
    let (moved, persist) = idx.advance();
    assert!(moved);
    assert_eq!(idx.current, 2);
    assert_eq!(persist, Some(b"00020-000".to_vec()));
}

#[test]
fn advance_clamps_at_end() {
    let listing = entries(&[b"00010-000", b"00010-001"]);
    let mut idx = build_index(&listing, b"00010-001").expect("index should build");
    let (moved, persist) = idx.advance();
    assert!(!moved);
    assert!(persist.is_none());
    assert_eq!(idx.current, 1);
}

#[test]
fn retreat_persists_and_clamps() {
    let listing = entries(&[b"00010-000", b"00010-001"]);
    let mut idx = build_index(&listing, b"00010-001").expect("index should build");
    let (moved, persist) = idx.retreat();
    assert!(moved);
    assert_eq!(idx.current, 0);
    assert_eq!(persist, Some(b"00010-000".to_vec()));
    let (moved, persist) = idx.retreat();
    assert!(!moved);
    assert!(persist.is_none());
}

#[test]
fn list_mode_advance_to_last_skips_persist() {
    let listing = entries(&[b"00010", b"00020", b"00030"]);
    let mut idx = build_index(&listing, b"00020").expect("index should build");
    assert!(idx.is_list);
    assert_eq!(idx.current, 1);
    let (moved, persist) = idx.advance();
    assert!(moved);
    assert_eq!(idx.current, 2);
    assert!(persist.is_none());
}

#[test]
fn bad_entry_is_fatal() {
    let listing = entries(&[b"00010-000", b"notatoken"]);
    assert_eq!(
        build_index(&listing, b"00010-000").err(),
        Some(IndexError::Parse)
    );
}

#[test]
fn bad_marker_is_fatal() {
    let listing = entries(&[b"00010-000"]);
    assert_eq!(
        build_index(&listing, b"bad-marker").err(),
        Some(IndexError::Parse)
    );
}

#[test]
fn missing_marker_is_fatal() {
    let listing = entries(&[b"00010-000", b"00020-000"]);
    assert_eq!(
        build_index(&listing, b"00030-000").err(),
        Some(IndexError::MarkerNotFound)
    );
}

#[test]
fn duplicate_keys_resolve_to_first() {
    let listing = entries(&[b"00010-001", b"00010-001", b"00010-000"]);
    let idx = build_index(&listing, b"00010-001").expect("index should build");
    assert_eq!(idx.current, 1);
}

#[test]
fn scroll_persist_fires_once_on_last_document() {
    let listing = entries(&[b"00010", b"00020"]);
    let mut idx = build_index(&listing, b"00020").expect("index should build");
    assert_eq!(idx.current, 1);
    // 50 percent scrolled: no persistence
    assert!(idx.scroll_persist(500, 1000).is_none());
    // past 90 percent: persists exactly once
    let persist = idx.scroll_persist(950, 1000);
    assert_eq!(persist, Some(b"00020".to_vec()));
    assert!(idx.dont_save);
    assert!(idx.scroll_persist(990, 1000).is_none());
}

#[test]
fn scroll_persist_ignores_earlier_documents() {
    let listing = entries(&[b"00010", b"00020"]);
    let mut idx = build_index(&listing, b"00010").expect("index should build");
    assert!(idx.scroll_persist(950, 1000).is_none());
}

#[test]
fn navigation_resets_scroll_guard() {
    let listing = entries(&[b"00010", b"00020"]);
    let mut idx = build_index(&listing, b"00020").expect("index should build");
    assert!(idx.scroll_persist(950, 1000).is_some());
    let (moved, _) = idx.retreat();
    assert!(moved);
    assert!(!idx.dont_save);
}
