use karaoke::path_encoding::urlencode_path;

#[test]
fn unreserved_bytes_pass_through() {
    assert_eq!(urlencode_path(b"Artist/Song-1.0_x~y.mp3"), "Artist/Song-1.0_x~y.mp3");
}

#[test]
fn other_bytes_are_escaped_in_uppercase_hex() {
    assert_eq!(urlencode_path(b"a b"), "a%20b");
    assert_eq!(urlencode_path("ü".as_bytes()), "%C3%BC");
    assert_eq!(urlencode_path(&[0x00, 0xFF, b'%']), "%00%FF%25");
}

#[test]
fn empty_path_is_empty() {
    assert_eq!(urlencode_path(&[]), "");
}

#[test]
fn encoding_uses_only_allowed_characters() {
    let all: Vec<u8> = (0..=255u8).collect();
    let encoded = urlencode_path(&all);
    assert!(encoded
        .chars()
        .all(|c| c.is_ascii_alphanumeric() || "-._~/%".contains(c)));
}

#[test]
fn different_paths_encode_differently() {
    assert_ne!(urlencode_path(b"%41"), urlencode_path(b"A"));
    assert_ne!(urlencode_path(&[0x25, 0x34, 0x31]), urlencode_path(&[0x41]));
    assert_ne!(urlencode_path(b"a/b"), urlencode_path(b"a%2Fb"));
}
