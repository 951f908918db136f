use obadgen::hash::{sha256, sha256_with_salt, to_hex};

#[test]
fn hex_of_bytes() {
    assert_eq!(to_hex(&[]), "");
    assert_eq!(to_hex(&[0x00, 0x0f, 0x10, 0xab, 0xff]), "000f10abff");
    assert_eq!(to_hex(&[0x9a]), "9a");
}

#[test]
fn sha256_of_known_texts() {
    assert_eq!(
        sha256(""),
        "sha256$e3b0c44298fc1c149afbf4c8996fb92427ae41e4649b934ca495991b7852b855"
    );
    assert_eq!(
        sha256("abc"),
        "sha256$ba7816bf8f01cfea414140de5dae2223b00361a396177a9cb410ff61f20015ad"
    );
    assert_eq!(
        sha256("recipient@email.com"),
        "sha256$488842626ec74a0468d90ea17dc4e11c2d0e8e54e45c5075fbd1d2e767f44249"
    );
}

#[test]
fn salt_goes_after_the_text() {
    assert_eq!(sha256_with_salt("a", "bc"), sha256("abc"));
    assert_eq!(sha256_with_salt("abc", ""), sha256("abc"));
    assert_eq!(
        sha256_with_salt("recipient@email.com", "dfvnk0923#%^&87t6iubasr"),
        sha256("recipient@email.comdfvnk0923#%^&87t6iubasr")
    );
    assert!(sha256_with_salt("bc", "a") != sha256("abc"));
}
