use oxide_paste::utils::{generate_id, hash_password, verify_password};

#[test]
fn hash_then_verify_succeeds() {
    let hash = hash_password("correct horse").expect("hashing failed");
    assert!(verify_password("correct horse", &hash));
}

#[test]
fn hash_has_bcrypt_shape() {
    let hash = hash_password("correct horse").expect("hashing failed");
    assert_eq!(hash.len(), 60);
    assert!(hash.starts_with("$2b$12$"));
}

#[test]
fn verify_rejects_wrong_password() {
    let hash = hash_password("correct horse").expect("hashing failed");
    assert!(!verify_password("battery staple", &hash));
}

#[test]
fn verify_rejects_malformed_hash() {
    assert!(!verify_password("anything", "not a bcrypt hash"));
    assert!(!verify_password("anything", ""));
}

#[test]
fn generated_id_is_eight_url_safe_chars() {
    let id = generate_id();
    assert_eq!(id.chars().count(), 8);
    for c in id.chars() {
        assert!(c.is_ascii_alphanumeric() || c == '_' || c == '-');
    }
}

#[test]
fn generated_ids_differ() {
    let a = generate_id();
    let b = generate_id();
    let c = generate_id();
    assert!(a != b || b != c);
}
