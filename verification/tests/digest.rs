//! Digests and their hexadecimal form.

use kronika_incident::digest::{hex_prefix, short_sha256};

#[test]
fn digests_of_known_messages_are_reported() {
    assert_eq!(
        short_sha256(b"hello world", 32),
        "b94d27b9934d3e08a52e52d7da7dabfac484efe37a5380ee9088f7ace2efcde9"
    );
    assert_eq!(
        short_sha256(b"", 32),
        "e3b0c44298fc1c149afbf4c8996fb92427ae41e4649b934ca495991b7852b855"
    );
    assert_eq!(short_sha256(b"abc", 8), "ba7816bf8f01cfea");
    assert_eq!(short_sha256(b"abc", 0), "");
}

#[test]
fn hexadecimal_keeps_leading_zeros() {
    assert_eq!(hex_prefix(&[0x00, 0x0f, 0xa0, 0xff], 4), "000fa0ff");
    assert_eq!(hex_prefix(&[0x00, 0x0f, 0xa0, 0xff], 2), "000f");
    assert_eq!(hex_prefix(&[], 0), "");
}
