use complai::digest::{hex_digest, sha256_hex};
use complai::ids::{max_id_number, next_numbered_id};

#[test]
fn next_id_follows_the_largest_number() {
    let ids = vec!["SYS-F-0002".to_string(), "SYS-F-0010".to_string(), "OTHER-1".to_string(), "SYS-F-x".to_string()];
    assert_eq!(max_id_number(&ids, "SYS-F-"), 10);
    assert_eq!(next_numbered_id(&ids, "SYS-F-"), "SYS-F-0011");
    assert_eq!(next_numbered_id(&vec![], "EV-"), "EV-0001");
}

#[test]
fn sha256_of_known_inputs() {
    assert_eq!(sha256_hex(b""), "e3b0c44298fc1c149afbf4c8996fb92427ae41e4649b934ca495991b7852b855");
    assert_eq!(hex_digest(&[0x00, 0xab, 0x10]), "00ab10");
}
