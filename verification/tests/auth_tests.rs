use oxide_paste::auth::{LoginError, RegisterError, UserStore};

const NOW: i64 = 1_700_000_000;

#[test]
fn register_and_login() {
    let mut users = UserStore::new();
    assert!(users.can_register());
    let uid = users
        .register("alice", "hunter2hunter2", "hunter2hunter2", NOW)
        .expect("registration failed");
    assert_eq!(uid, 1);
    assert_eq!(users.login("alice", "hunter2hunter2"), Ok(uid));
}

#[test]
fn short_username_fails_before_uniqueness() {
    let mut users = UserStore::new();
    // Even with the same name already taken, a short name is refused
    // for its length, never as a duplicate.
    assert_eq!(
        users.register("ab", "longenough", "longenough", NOW),
        Err(RegisterError::UsernameTooShort)
    );
}

#[test]
fn short_password_is_refused() {
    let mut users = UserStore::new();
    assert_eq!(
        users.register("alice", "short", "short", NOW),
        Err(RegisterError::PasswordTooShort)
    );
}

#[test]
fn mismatched_confirmation_is_refused() {
    let mut users = UserStore::new();
    assert_eq!(
        users.register("alice", "longenough", "different1", NOW),
        Err(RegisterError::PasswordMismatch)
    );
}

#[test]
fn duplicate_username_is_refused() {
    let mut users = UserStore::new();
    users
        .register("alice", "longenough", "longenough", NOW)
        .unwrap();
    assert_eq!(
        users.register("alice", "otherpass1", "otherpass1", NOW),
        Err(RegisterError::UsernameTaken)
    );
}

#[test]
fn usernames_are_case_sensitive() {
    let mut users = UserStore::new();
    users
        .register("alice", "longenough", "longenough", NOW)
        .unwrap();
    assert!(users
        .register("Alice", "otherpass1", "otherpass1", NOW)
        .is_ok());
}

#[test]
fn login_fails_uniformly() {
    let mut users = UserStore::new();
    users
        .register("alice", "longenough", "longenough", NOW)
        .unwrap();
    assert_eq!(
        users.login("alice", "wrongpass1"),
        Err(LoginError::InvalidCredentials)
    );
    assert_eq!(
        users.login("nobody", "longenough"),
        Err(LoginError::InvalidCredentials)
    );
}

#[test]
fn session_resolves_to_registered_user() {
    let mut users = UserStore::new();
    let uid = users
        .register("alice", "longenough", "longenough", NOW)
        .unwrap();
    let token = uid.to_string();
    let user = users.resolve_session(&token).expect("session should resolve");
    assert_eq!(user.id, uid);
    assert_eq!(user.username, "alice");
}

#[test]
fn bad_session_tokens_resolve_to_none() {
    let mut users = UserStore::new();
    users
        .register("alice", "longenough", "longenough", NOW)
        .unwrap();
    assert!(users.resolve_session("").is_none());
    assert!(users.resolve_session("abc").is_none());
    assert!(users.resolve_session("1x").is_none());
    assert!(users.resolve_session("999").is_none());
    assert!(users.resolve_session("-1").is_none());
    assert!(users
        .resolve_session("99999999999999999999999999")
        .is_none());
}

#[test]
fn signed_session_tokens_parse() {
    let mut users = UserStore::new();
    let uid = users
        .register("alice", "longenough", "longenough", NOW)
        .unwrap();
    assert!(users.resolve_session(&format!("+{}", uid)).is_some());
}

#[test]
fn ids_increase() {
    let mut users = UserStore::new();
    let a = users
        .register("alice", "longenough", "longenough", NOW)
        .unwrap();
    let b = users
        .register("bob", "longenough", "longenough", NOW)
        .unwrap();
    assert_eq!(b, a + 1);
}
