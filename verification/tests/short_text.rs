use minibus::short_text::{lex_compare, ShortText};
use std::collections::HashSet;

#[test]
fn build_keeps_the_bytes() {
    let text = ShortText::build(b"alice");
    assert_eq!(text.len(), 5);
    assert_eq!(text.u8len(), 5);
    assert_eq!(text.as_bytes(), b"alice");
    assert_eq!(text.to_vec(), b"alice".to_vec());
}

#[test]
fn empty_and_longest_short_texts() {
    let empty = ShortText::build(b"");
    assert_eq!(empty.len(), 0);
    assert!(empty == ShortText::default());
    let long = vec![b'x'; 255];
    let text = ShortText::build(&long);
    assert_eq!(text.len(), 255);
    assert_eq!(text.u8len(), 255);
    assert_eq!(text.to_vec(), long);
}

#[test]
fn from_slice_refuses_what_is_too_long() {
    assert!(ShortText::from_slice(&vec![0u8; 255]).is_some());
    assert!(ShortText::from_slice(&vec![0u8; 256]).is_none());
    assert!(ShortText::from_slice(b"ok").unwrap().eq_bytes(b"ok"));
}

#[test]
fn new_is_all_zero() {
    let text = ShortText::new(3);
    assert_eq!(text.as_bytes(), &[0u8, 0, 0]);
    assert!(text == ShortText::build(&[0, 0, 0]));
    assert!(text != ShortText::build(&[0, 0]));
}

#[test]
fn equality_goes_by_content() {
    let a = ShortText::build(b"key");
    let b = ShortText::build(b"key");
    let c = ShortText::build(b"kez");
    let d = ShortText::build(b"ke");
    assert!(a == b);
    assert!(a != c);
    assert!(a != d);
    assert!(a.eq_bytes(b"key"));
    assert!(!a.eq_bytes(b"ke"));
    assert!(!a.eq_bytes(b"keyy"));
    let copy = a;
    assert!(copy == a);
}

#[test]
fn equal_short_texts_hash_alike() {
    let mut seen: HashSet<ShortText> = HashSet::new();
    assert!(seen.insert(ShortText::build(b"key")));
    assert!(!seen.insert(ShortText::build(b"key")));
    assert!(seen.insert(ShortText::build(b"ke")));
    assert!(seen.contains(&ShortText::build(b"ke")));
    let mut grown = ShortText::build(b"ke");
    assert!(seen.contains(&grown));
    grown = ShortText::build(b"key");
    assert!(seen.contains(&grown));
}

#[test]
fn order_is_lexicographic() {
    let text = |bytes: &[u8]| ShortText::build(bytes);
    assert!(text(b"") < text(b"a"));
    assert!(text(b"a") < text(b"aa"));
    assert!(text(b"aa") < text(b"b"));
    assert!(text(b"b") > text(b"aa"));
    assert!(text(b"ab") < text(b"ac"));
    assert!(text(&[0]) > text(b""));
    assert!(text(&[255]) > text(&[254, 255]));
    assert!(text(b"same") <= text(b"same"));
    assert!(text(b"same") >= text(b"same"));
    assert_eq!(text(b"a").partial_cmp(&text(b"a")), Some(std::cmp::Ordering::Equal));
    assert_eq!(lex_compare(b"abc", b"abd"), -1);
    assert_eq!(lex_compare(b"abd", b"abc"), 1);
    assert_eq!(lex_compare(b"abc", b"abc"), 0);
    assert_eq!(lex_compare(b"ab", b"abc"), -1);
}
