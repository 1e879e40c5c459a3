use oxide_paste::pages::{expires_in, get_supported_languages, ExpiresIn};

#[test]
fn no_expiry_shows_nothing() {
    assert_eq!(expires_in(None, 0), None);
}

#[test]
fn past_expiry_shows_expired() {
    assert_eq!(expires_in(Some(100), 100), Some(ExpiresIn::Expired));
    assert_eq!(expires_in(Some(50), 100), Some(ExpiresIn::Expired));
}

#[test]
fn remaining_time_uses_coarsest_unit() {
    let now: i64 = 1_700_000_000;
    assert_eq!(
        expires_in(Some(now + 3 * 86_400 + 5), now),
        Some(ExpiresIn::Days(3))
    );
    assert_eq!(
        expires_in(Some(now + 7200), now),
        Some(ExpiresIn::Hours(2))
    );
    assert_eq!(
        expires_in(Some(now + 30 * 60), now),
        Some(ExpiresIn::Minutes(30))
    );
    assert_eq!(expires_in(Some(now + 59), now), Some(ExpiresIn::Minutes(0)));
}

#[test]
fn language_list_starts_with_plaintext() {
    let langs = get_supported_languages();
    assert_eq!(langs.len(), 22);
    assert_eq!(langs[0], ("plaintext", "Plain Text"));
    assert!(langs.iter().any(|(id, _)| *id == "rust"));
}
