use oxide_paste::store::{DeleteOutcome, PasteStore, RawOutcome, ViewOutcome};

const NOW: i64 = 1_700_000_000;

fn store_with(
    content: &str,
    password: Option<&str>,
    token: Option<&str>,
    owner: Option<i64>,
    now: i64,
) -> (PasteStore, String) {
    let mut store = PasteStore::new();
    let id = store
        .create(content, None, password, token, owner, now)
        .expect("creation failed");
    (store, id)
}

#[test]
fn ungated_paste_viewable_by_anyone() {
    let (mut store, id) = store_with("hello", None, None, None, NOW);
    match store.view(&id, None, None, NOW) {
        ViewOutcome::Found { paste, is_owner } => {
            assert_eq!(paste.content, "hello");
            assert!(!is_owner);
        }
        _ => panic!("expected the paste"),
    }
    match store.view(&id, Some(42), None, NOW) {
        ViewOutcome::Found { .. } => {}
        _ => panic!("expected the paste for a signed-in viewer too"),
    }
}

#[test]
fn gated_paste_prompts_non_owner() {
    let (mut store, id) = store_with("secret", Some("x"), None, Some(1), NOW);
    match store.view(&id, None, None, NOW) {
        ViewOutcome::PasswordRequired => {}
        _ => panic!("expected a password prompt"),
    }
    match store.view(&id, Some(2), None, NOW) {
        ViewOutcome::PasswordRequired => {}
        _ => panic!("expected a password prompt for another user"),
    }
}

#[test]
fn gated_paste_rejects_wrong_password() {
    let (mut store, id) = store_with("secret", Some("x"), None, Some(1), NOW);
    match store.view(&id, None, Some("y"), NOW) {
        ViewOutcome::PasswordIncorrect => {}
        _ => panic!("expected a password failure"),
    }
}

#[test]
fn gated_paste_opens_for_correct_password() {
    let (mut store, id) = store_with("secret", Some("x"), None, Some(1), NOW);
    match store.view(&id, None, Some("x"), NOW) {
        ViewOutcome::Found { paste, is_owner } => {
            assert_eq!(paste.content, "secret");
            assert!(!is_owner);
        }
        _ => panic!("expected the paste for the correct password"),
    }
}

#[test]
fn gated_paste_opens_for_owner_without_password() {
    let (mut store, id) = store_with("secret", Some("x"), None, Some(1), NOW);
    match store.view(&id, Some(1), None, NOW) {
        ViewOutcome::Found { is_owner, .. } => assert!(is_owner),
        _ => panic!("expected the paste for its owner"),
    }
}

#[test]
fn empty_password_means_no_gate() {
    let (mut store, id) = store_with("open", Some(""), None, None, NOW);
    match store.view(&id, None, None, NOW) {
        ViewOutcome::Found { paste, .. } => assert!(paste.password_hash.is_none()),
        _ => panic!("expected the paste"),
    }
}

#[test]
fn paste_expires_after_a_minute() {
    let (mut store, id) = store_with("hello", None, Some("1m"), None, NOW);
    match store.view(&id, None, None, NOW) {
        ViewOutcome::Found { .. } => {}
        _ => panic!("expected the paste immediately after creation"),
    }
    match store.view(&id, None, None, NOW + 61) {
        ViewOutcome::NotFound => {}
        _ => panic!("expected the paste to be gone"),
    }
    assert!(store.get(&id).is_none());
}

#[test]
fn view_counts_views() {
    let (mut store, id) = store_with("hello", None, None, None, NOW);
    match store.view(&id, None, None, NOW) {
        ViewOutcome::Found { paste, .. } => assert_eq!(paste.view_count, 0),
        _ => panic!("expected the paste"),
    }
    match store.view(&id, None, None, NOW) {
        ViewOutcome::Found { paste, .. } => assert_eq!(paste.view_count, 1),
        _ => panic!("expected the paste"),
    }
}

#[test]
fn missing_paste_is_not_found() {
    let mut store = PasteStore::new();
    match store.view("absent42", None, None, NOW) {
        ViewOutcome::NotFound => {}
        _ => panic!("expected nothing"),
    }
    assert!(matches!(
        store.delete("absent42", None),
        DeleteOutcome::NotFound
    ));
    assert!(matches!(store.raw("absent42", NOW), RawOutcome::NotFound));
}

#[test]
fn sweep_is_idempotent() {
    let mut store = PasteStore::new();
    store
        .create("a", None, None, Some("1m"), None, NOW)
        .unwrap();
    store
        .create("b", None, None, Some("2h"), None, NOW)
        .unwrap();
    store.create("c", None, None, None, None, NOW).unwrap();
    let first = store.sweep_expired(NOW + 120);
    assert_eq!(first, 1);
    let second = store.sweep_expired(NOW + 120);
    assert_eq!(second, 0);
}

#[test]
fn anonymous_paste_deletable_by_anyone() {
    let (mut store, id) = store_with("note", None, None, None, NOW);
    assert!(matches!(
        store.delete(&id, Some(99)),
        DeleteOutcome::Deleted
    ));
    assert!(store.get(&id).is_none());
}

#[test]
fn owned_paste_protected_from_others() {
    let (mut store, id) = store_with("note", None, None, Some(1), NOW);
    assert!(matches!(
        store.delete(&id, Some(2)),
        DeleteOutcome::Forbidden
    ));
    assert!(matches!(store.delete(&id, None), DeleteOutcome::Forbidden));
    assert!(store.get(&id).is_some());
    assert!(matches!(store.delete(&id, Some(1)), DeleteOutcome::Deleted));
    assert!(store.get(&id).is_none());
}

#[test]
fn raw_refuses_gated_paste() {
    let (store, id) = store_with("secret", Some("x"), None, None, NOW);
    assert!(matches!(store.raw(&id, NOW), RawOutcome::PasswordProtected));
}

#[test]
fn raw_hides_expired_paste() {
    let (store, id) = store_with("fleeting", None, Some("1m"), None, NOW);
    match store.raw(&id, NOW) {
        RawOutcome::Content(_) => {}
        _ => panic!("expected content before expiry"),
    }
    assert!(matches!(store.raw(&id, NOW + 61), RawOutcome::NotFound));
}

#[test]
fn nonempty_password_always_gates() {
    let (store, id) = store_with("secret", Some("x"), None, None, NOW);
    assert!(store.get(&id).unwrap().password_hash.is_some());
}

#[test]
fn raw_returns_content() {
    let (store, id) = store_with("plain text body", None, None, None, NOW);
    match store.raw(&id, NOW) {
        RawOutcome::Content(c) => assert_eq!(c, "plain text body"),
        _ => panic!("expected content"),
    }
}

#[test]
fn language_defaults_to_plaintext() {
    let (store, id) = store_with("x", None, None, None, NOW);
    let paste = store.get(&id).unwrap();
    assert_eq!(paste.language.as_deref(), Some("plaintext"));
}

#[test]
fn list_by_owner_newest_first_and_capped() {
    let mut store = PasteStore::new();
    store.create("a", None, None, None, Some(1), NOW).unwrap();
    store
        .create("b", None, None, None, Some(1), NOW + 10)
        .unwrap();
    store
        .create("c", None, None, None, Some(2), NOW + 20)
        .unwrap();
    store
        .create("d", None, None, None, Some(1), NOW + 30)
        .unwrap();
    let all = store.list_by_owner(1, 50);
    let contents: Vec<&str> = all.iter().map(|p| p.content.as_str()).collect();
    assert_eq!(contents, vec!["d", "b", "a"]);
    let capped = store.list_by_owner(1, 2);
    let contents: Vec<&str> = capped.iter().map(|p| p.content.as_str()).collect();
    assert_eq!(contents, vec!["d", "b"]);
}

#[test]
fn list_public_skips_gated_and_expired() {
    let mut store = PasteStore::new();
    store.create("open", None, None, None, None, NOW).unwrap();
    store
        .create("gated", None, Some("pw1234"), None, None, NOW + 1)
        .unwrap();
    store
        .create("fleeting", None, None, Some("1m"), None, NOW + 2)
        .unwrap();
    let listed = store.list_public(NOW + 120, 50);
    let contents: Vec<&str> = listed.iter().map(|p| p.content.as_str()).collect();
    assert_eq!(contents, vec!["open"]);
}
