use achievements::key_codec::{encode_key, encode_prefix, starts_with, str_to_blob64, KEY_WIDTH};

fn padded(text: &str) -> Vec<u8> {
    let mut bytes = text.as_bytes().to_vec();
    bytes.truncate(64);
    bytes.resize(64, 0);
    bytes
}

#[test]
fn key_is_text_left_aligned_and_zero_padded() {
    let key = encode_key("alice", "first_visit");
    let mut expected = b"alice:first_visit".to_vec();
    expected.extend(std::iter::repeat(0u8).take(64 - 17));
    assert_eq!(key.as_slice(), expected.as_slice());
    assert_eq!(key.len(), KEY_WIDTH);
}

#[test]
fn str_to_blob64_pads_short_text() {
    let blob = str_to_blob64("ab");
    assert_eq!(blob.len(), 64);
    assert_eq!(&blob.as_slice()[..2], b"ab");
    assert!(blob.as_slice()[2..].iter().all(|b| *b == 0));
}

#[test]
fn str_to_blob64_of_empty_text_is_all_zero() {
    let blob = str_to_blob64("");
    assert_eq!(blob.as_slice(), [0u8; 64].as_slice());
}

#[test]
fn str_to_blob64_keeps_exactly_64_bytes() {
    let text = "x".repeat(64);
    let blob = str_to_blob64(&text);
    assert_eq!(blob.as_slice(), text.as_bytes());
}

#[test]
fn str_to_blob64_truncates_silently() {
    let text = format!("{}{}", "a".repeat(64), "tail");
    let blob = str_to_blob64(&text);
    assert_eq!(blob.len(), 64);
    assert_eq!(blob.as_slice(), "a".repeat(64).as_bytes());
}

#[test]
fn str_to_blob64_cuts_inside_a_multibyte_character() {
    let text = format!("{}é", "a".repeat(63));
    let blob = str_to_blob64(&text);
    let mut expected = "a".repeat(63).into_bytes();
    expected.push(0xc3);
    assert_eq!(blob.as_slice(), expected.as_slice());
}

#[test]
fn key_encodes_utf8_bytes() {
    let key = encode_key("zoë", "x");
    assert_eq!(key.as_slice(), padded("zoë:x").as_slice());
    assert_eq!(&key.as_slice()[..6], &[b'z', b'o', 0xc3, 0xab, b':', b'x']);
}

#[test]
fn encoding_is_deterministic() {
    let first = encode_key("alice", "first_visit");
    let second = encode_key("alice", "first_visit");
    assert_eq!(first.as_slice(), second.as_slice());
    assert!(first == second);
    let long_user = "u".repeat(100);
    assert_eq!(
        encode_key(&long_user, "a").as_slice(),
        encode_key(&long_user, "a").as_slice()
    );
    assert_eq!(encode_prefix("alice").as_slice(), encode_prefix("alice").as_slice());
}

#[test]
fn distinct_pairs_have_distinct_keys() {
    assert!(encode_key("alice", "a") != encode_key("alice", "b"));
    assert!(encode_key("alice", "a") != encode_key("bob", "a"));
}

#[test]
fn pairs_that_agree_on_64_bytes_collide() {
    let user = "u".repeat(70);
    assert!(encode_key(&user, "one") == encode_key(&user, "two"));
}

#[test]
fn separator_inside_an_identifier_can_collide() {
    assert!(encode_key("a", "b:x") == encode_key("a:b", "x"));
}

#[test]
fn prefix_is_not_padded() {
    let prefix = encode_prefix("alice");
    assert_eq!(prefix.as_slice(), b"alice:");
    assert_eq!(prefix.len(), 6);
}

#[test]
fn prefix_of_empty_user_is_the_separator() {
    assert_eq!(encode_prefix("").as_slice(), b":");
}

#[test]
fn prefix_is_cut_at_64_bytes() {
    let user = "u".repeat(63);
    let prefix = encode_prefix(&user);
    assert_eq!(prefix.len(), 64);
    assert_eq!(&prefix.as_slice()[..63], user.as_bytes());
    assert_eq!(prefix.as_slice()[63], b':');
    let longer = "u".repeat(64);
    assert_eq!(encode_prefix(&longer).as_slice(), longer.as_bytes());
    let longest = "u".repeat(200);
    assert_eq!(encode_prefix(&longest).as_slice(), longer.as_bytes());
}

#[test]
fn key_begins_with_prefix_of_its_user() {
    let key = encode_key("alice", "first_visit");
    let prefix = encode_prefix("alice");
    assert!(starts_with(key.as_slice(), prefix.as_slice()));
    let long_user = "u".repeat(80);
    assert!(starts_with(
        encode_key(&long_user, "x").as_slice(),
        encode_prefix(&long_user).as_slice()
    ));
}

#[test]
fn key_of_longer_user_does_not_begin_with_prefix_of_shorter() {
    let key = encode_key("ab", "x");
    assert!(!starts_with(key.as_slice(), encode_prefix("a").as_slice()));
    assert!(!starts_with(encode_key("a", "x").as_slice(), encode_prefix("ab").as_slice()));
}

#[test]
fn starts_with_on_plain_bytes() {
    assert!(starts_with(b"hello", b"he"));
    assert!(starts_with(b"hello", b""));
    assert!(starts_with(b"hello", b"hello"));
    assert!(!starts_with(b"hello", b"hello!"));
    assert!(!starts_with(b"hello", b"ho"));
    assert!(!starts_with(b"", b"h"));
    assert!(starts_with(b"", b""));
}
