use c6ol_core::argon2id::hash;

#[test]
fn passcode_hashes_depend_on_password_and_salt() {
    let a = hash(b"passcode", 42).unwrap();
    assert_eq!(hash(b"passcode", 42), Some(a));
    assert_ne!(hash(b"passcode", 43), Some(a));
    assert_ne!(hash(b"another", 42), Some(a));
}

#[test]
fn try_hash_agrees_with_hash() {
    let h = c6ol_core::argon2id::hash(b"passcode", 12345).expect("hashing succeeds");
    assert_eq!(c6ol_core::argon2id::try_hash(b"passcode", 12345), Ok(h));
}
