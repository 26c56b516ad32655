use wiki_crawler::crawl::snapshot::{is_framed, read_prefix};
use wiki_crawler::crawl::visited::{SnapshotError, VisitedStore};

fn store_of(urls: &[&str]) -> VisitedStore {
    let mut store = VisitedStore::new();
    for url in urls {
        store.insert(url.to_string());
    }
    store
}

fn same_members(store: &VisitedStore, urls: &[&str]) -> bool {
    store.len() == urls.len() && urls.iter().all(|url| store.contains(url))
}

#[test]
fn new_store_is_empty() {
    let store = VisitedStore::new();
    assert_eq!(store.len(), 0);
    assert!(!store.contains("https://wikipedia.org/wiki/A"));
    assert!(!store.contains(""));
}

#[test]
fn insert_is_idempotent() {
    let mut store = VisitedStore::new();
    store.insert("https://wikipedia.org/wiki/A".to_string());
    assert_eq!(store.len(), 1);
    assert!(store.contains("https://wikipedia.org/wiki/A"));
    store.insert("https://wikipedia.org/wiki/A".to_string());
    assert_eq!(store.len(), 1);
    store.insert("https://wikipedia.org/wiki/B".to_string());
    assert_eq!(store.len(), 2);
    assert!(store.contains("https://wikipedia.org/wiki/A"));
    assert!(store.contains("https://wikipedia.org/wiki/B"));
}

#[test]
fn urls_are_compared_as_text() {
    let store = store_of(&["https://wikipedia.org/wiki/A"]);
    assert!(!store.contains("https://wikipedia.org/wiki/a"));
    assert!(!store.contains("https://wikipedia.org/wiki/A/"));
    assert!(!store.contains("https://wikipedia.org/wiki/A "));
}

#[test]
fn snapshot_of_the_empty_store_is_one_zero_byte() {
    assert_eq!(VisitedStore::new().serialize(), vec![0u8]);
}

#[test]
fn snapshot_holds_the_urls_in_insertion_order() {
    let store = store_of(&["b", "a", "b", "cd"]);
    assert_eq!(store.serialize(), vec![3u8, 1, b'b', 1, b'a', 2, b'c', b'd']);
}

#[test]
fn snapshot_counts_bytes_not_characters() {
    let store = store_of(&["é"]);
    assert_eq!(store.serialize(), vec![1u8, 2, 0xc3, 0xa9]);
}

#[test]
fn long_url_gets_a_two_byte_length() {
    let url = "x".repeat(300);
    let store = store_of(&[&url]);
    let bytes = store.serialize();
    assert_eq!(&bytes[..4], &[1u8, 251, 44, 1]);
    assert_eq!(bytes.len(), 4 + 300);
    let edge = "y".repeat(250);
    assert_eq!(&store_of(&[&edge]).serialize()[..2], &[1u8, 250]);
    let over = "z".repeat(251);
    assert_eq!(&store_of(&[&over]).serialize()[..4], &[1u8, 251, 251, 0]);
}

#[test]
fn many_urls_get_a_two_byte_count() {
    let mut store = VisitedStore::new();
    for i in 0..300 {
        store.insert(format!("{}", i));
    }
    let bytes = store.serialize();
    assert_eq!(&bytes[..5], &[251u8, 44, 1, 1, b'0']);
    let back = VisitedStore::deserialize(&bytes).unwrap();
    assert_eq!(back.len(), 300);
    assert!(back.contains("299"));
    assert_eq!(back.serialize(), bytes);
}

#[test]
fn round_trip_keeps_the_members() {
    for urls in [
        vec![],
        vec!["https://wikipedia.org/wiki/A"],
        vec!["https://wikipedia.org/wiki/A", "https://wikipedia.org/wiki/B", ""],
        vec!["日本語", "é", "a b", "\u{0}"],
    ] {
        let store = store_of(&urls);
        let bytes = store.serialize();
        let back = VisitedStore::deserialize(&bytes).unwrap();
        assert!(same_members(&back, &urls));
        assert_eq!(back.serialize(), bytes);
    }
}

#[test]
fn round_trip_of_a_large_url() {
    let url = "w".repeat(70_000);
    let store = store_of(&[&url, "short"]);
    let bytes = store.serialize();
    assert_eq!(&bytes[..6], &[2u8, 252, 0x70, 0x11, 0x01, 0x00]);
    let back = VisitedStore::deserialize(&bytes).unwrap();
    assert!(same_members(&back, &[&url, "short"]));
}

#[test]
fn deserialize_reads_given_bytes() {
    let back = VisitedStore::deserialize(&[2u8, 1, b'a', 2, b'b', b'c']).unwrap();
    assert!(same_members(&back, &["a", "bc"]));
    // Lengths may be written wider than they need be.
    let wide = VisitedStore::deserialize(&[251u8, 1, 0, 252, 2, 0, 0, 0, b'h', b'i']).unwrap();
    assert!(same_members(&wide, &["hi"]));
    let widest = VisitedStore::deserialize(&[253u8, 1, 0, 0, 0, 0, 0, 0, 0, 1, b'q']).unwrap();
    assert!(same_members(&widest, &["q"]));
}

#[test]
fn repeated_url_in_a_snapshot_is_taken_once() {
    let back = VisitedStore::deserialize(&[3u8, 1, b'a', 1, b'b', 1, b'a']).unwrap();
    assert!(same_members(&back, &["a", "b"]));
    assert_eq!(back.serialize(), vec![2u8, 1, b'a', 1, b'b']);
}

#[test]
fn bytes_behind_the_list_are_not_looked_at() {
    let back = VisitedStore::deserialize(&[1u8, 1, b'a', 0xff, 0xff]).unwrap();
    assert!(same_members(&back, &["a"]));
}

#[test]
fn damaged_framing_is_refused() {
    let cases: Vec<Vec<u8>> = vec![
        vec![],
        vec![1],
        vec![1, 2, b'a'],
        vec![2, 1, b'a'],
        vec![254],
        vec![255, 0],
        vec![251, 1],
        vec![252, 1, 0, 0],
        vec![253, 1, 0, 0, 0, 0, 0, 0],
        vec![1, 254, 0],
        vec![253, 0xff, 0xff, 0xff, 0xff, 0xff, 0xff, 0xff, 0xff],
        vec![253, 0xff, 0xff, 0xff, 0xff, 0xff, 0xff, 0xff, 0x7f, 1, b'a'],
        vec![1, 253, 0xff, 0xff, 0xff, 0xff, 0xff, 0xff, 0xff, 0xff, b'a'],
        vec![1, 252, 0xff, 0xff, 0xff, 0x7f, b'a'],
    ];
    for bytes in cases {
        assert!(!is_framed(&bytes), "bytes {:?}", bytes);
        assert_eq!(VisitedStore::deserialize(&bytes).err(), Some(SnapshotError::BadFraming), "bytes {:?}", bytes);
    }
}

#[test]
fn text_that_is_no_utf8_is_refused() {
    let cases: Vec<Vec<u8>> = vec![
        vec![1, 1, 0xff],
        vec![2, 1, b'a', 2, 0xc3, 0x28],
        vec![1, 3, 0xed, 0xa0, 0x80],
        vec![1, 2, 0xc0, 0x80],
        vec![1, 1, 0x80],
    ];
    for bytes in cases {
        assert!(is_framed(&bytes), "bytes {:?}", bytes);
        assert_eq!(VisitedStore::deserialize(&bytes).err(), Some(SnapshotError::BadText), "bytes {:?}", bytes);
    }
}

#[test]
fn from_urls_keeps_first_occurrences() {
    let urls: Vec<String> = ["b", "a", "b", "c", "a"].iter().map(|s| s.to_string()).collect();
    let store = VisitedStore::from_urls(&urls);
    assert!(same_members(&store, &["a", "b", "c"]));
    assert_eq!(store.serialize(), vec![3u8, 1, b'b', 1, b'a', 1, b'c']);
}

#[test]
fn read_prefix_reads_each_width() {
    assert_eq!(read_prefix(&[0], 0), Some((0, 1)));
    assert_eq!(read_prefix(&[9, 250], 1), Some((250, 2)));
    assert_eq!(read_prefix(&[251, 0x34, 0x12], 0), Some((0x1234, 3)));
    assert_eq!(read_prefix(&[7, 252, 0x78, 0x56, 0x34, 0x12], 1), Some((0x12345678, 6)));
    assert_eq!(
        read_prefix(&[253, 0xef, 0xcd, 0xab, 0x89, 0x67, 0x45, 0x23, 0x01], 0),
        Some((0x0123456789abcdef, 9))
    );
    assert_eq!(read_prefix(&[253, 0xff, 0xff, 0xff, 0xff, 0xff, 0xff, 0xff, 0xff], 0), Some((u64::MAX, 9)));
    assert_eq!(read_prefix(&[254, 0, 0, 0, 0, 0, 0, 0, 0, 0, 0, 0, 0, 0, 0, 0, 0], 0), None);
    assert_eq!(read_prefix(&[255], 0), None);
    assert_eq!(read_prefix(&[251, 1], 0), None);
    assert_eq!(read_prefix(&[1], 1), None);
    assert_eq!(read_prefix(&[1], 5), None);
    assert_eq!(read_prefix(&[], 0), None);
}
