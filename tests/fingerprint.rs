use media_dedup::fingerprint::{digest, fingerprint_of, Fingerprint, DIGEST_OFFSET};

#[test]
fn digest_of_nothing_is_the_offset() {
    assert_eq!(digest(&vec![]), DIGEST_OFFSET);
    assert_eq!(digest(&vec![]), 0xcbf29ce484222325);
}

#[test]
fn digest_of_known_inputs() {
    assert_eq!(digest(&b"a".to_vec()), 0xaf63dc4c8601ec8c);
    assert_eq!(digest(&b"foobar".to_vec()), 0x85944171f73967e8);
}

#[test]
fn fingerprint_holds_length_and_digest() {
    let fp = fingerprint_of(&b"a".to_vec());
    assert_eq!(fp, Fingerprint { length: 1, digest: 0xaf63dc4c8601ec8c });
}

#[test]
fn different_content_differs() {
    assert_ne!(fingerprint_of(&b"abc".to_vec()), fingerprint_of(&b"abd".to_vec()));
    assert_eq!(fingerprint_of(&b"abc".to_vec()), fingerprint_of(&b"abc".to_vec()));
}
