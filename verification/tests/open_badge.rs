use obadgen::open_badge::str_list_to_string_rep;
use obadgen::open_badge::{Identity, IdentityType, Verification, VerificationType};

#[test]
fn test_str_list_to_string_rep() {
    assert_eq!(
        str_list_to_string_rep(&Vec::<&str>::new()),
        r#"[]"#.to_owned()
    );
    assert_eq!(
        str_list_to_string_rep(&["subscriber"].to_vec()),
        r#"["subscriber"]"#.to_owned()
    );
    assert_eq!(
        str_list_to_string_rep(&["subscriber", "reader"].to_vec()),
        r#"["subscriber", "reader"]"#.to_owned()
    );
    assert_eq!(
        str_list_to_string_rep(&["subscriber", "reader", "architect"].to_vec()),
        r#"["subscriber", "reader", "architect"]"#.to_owned()
    );
}

#[test]
fn new_verification_has_nothing_else_set() {
    let v = Verification::new(VerificationType::SignedBadge { creator: Some("key".to_owned()) });
    assert!(matches!(v.kind, VerificationType::SignedBadge { creator: Some(ref c) } if c == "key"));
    assert!(v.verification_property.is_none());
    assert!(v.starts_with.is_none());
    assert!(v.allowed_origins.is_none());
}

#[test]
fn new_identity_has_no_salt() {
    let i = Identity::new(IdentityType::EMail, "sha256$abc".to_owned(), true);
    assert_eq!(i.kind, IdentityType::EMail);
    assert_eq!(i.identity, "sha256$abc");
    assert!(i.hashed);
    assert!(i.salt.is_none());
}
