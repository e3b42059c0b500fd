//! Topic keys: construction routes, equality by bytes, text and hex
//! rendering, and the rendering helpers.

use comet_eventbus::text::{format_byte_list, format_u8};
use comet_eventbus::TopicKey;

#[test]
fn from_routes_agree_on_equal_bytes() {
    let from_text = TopicKey::from("foobar");
    let from_bytes = TopicKey::from(&b"foobar"[..]);
    let from_vec = TopicKey::from(b"foobar".to_vec());
    assert_eq!(from_text, from_bytes);
    assert_eq!(from_bytes, from_vec);
    assert_eq!(from_text, from_vec);
    assert_eq!(from_text.as_bytes(), b"foobar");
}

#[test]
fn different_bytes_differ() {
    assert_ne!(TopicKey::from("foobar"), TopicKey::from("foobaz"));
    assert_ne!(TopicKey::from(""), TopicKey::from("a"));
}

#[test]
fn try_as_str_decodes_valid_utf8() {
    let key = TopicKey::from("my awsome topic");
    assert_eq!(key.try_as_str().unwrap(), "my awsome topic");
}

#[test]
fn try_as_str_rejects_invalid_utf8() {
    let key = TopicKey::from(vec![0xde, 0xaf, 0xbe, 0xef]);
    assert!(key.try_as_str().is_err());
}

#[test]
fn display_uses_text_when_valid() {
    let key = TopicKey::from("hello");
    assert_eq!(key.display_string(), "hello");
}

#[test]
fn display_falls_back_to_hex() {
    let key = TopicKey::from(vec![0xde, 0xaf, 0xbe, 0xef]);
    assert_eq!(key.display_string(), "deafbeef");
    let key = TopicKey::from(vec![0x00, 0xff]);
    assert_eq!(key.display_string(), "00ff");
}

#[test]
fn random_keys_have_the_requested_length() {
    let key = TopicKey::random(16);
    assert_eq!(key.len(), 16);
    let other = TopicKey::random(16);
    // two fresh 16-byte correlation topics colliding is negligible
    assert_ne!(key, other);
    assert_eq!(TopicKey::random(0).len(), 0);
}

#[test]
fn clones_are_equal_and_independent() {
    let key = TopicKey::from("clone me");
    let copy = key.clone();
    assert_eq!(key, copy);
    assert_eq!(copy.as_bytes(), b"clone me");
}

#[test]
fn format_u8_renders_decimal() {
    assert_eq!(format_u8(0), "0");
    assert_eq!(format_u8(7), "7");
    assert_eq!(format_u8(10), "10");
    assert_eq!(format_u8(99), "99");
    assert_eq!(format_u8(100), "100");
    assert_eq!(format_u8(255), "255");
}

#[test]
fn format_byte_list_renders_like_a_debug_formatter() {
    assert_eq!(format_byte_list(&vec![]), "[]");
    assert_eq!(format_byte_list(&vec![0]), "[0]");
    assert_eq!(format_byte_list(&vec![0, 1]), "[0, 1]");
    assert_eq!(format_byte_list(&vec![10, 200, 3]), "[10, 200, 3]");
    assert_eq!(format!("{:?}", vec![10u8, 200, 3]), format_byte_list(&vec![10, 200, 3]));
}
