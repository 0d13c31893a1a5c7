use ryokan::models::api_key::{
    all_scopes, create, create_failure, create_with_key, delete, generate_key, get_plaintext, key_of, list,
    lookup_by_plaintext, set_enabled, shown_time, touch_last_used, ApiKey, ApiKeyError,
    ApiKeyStore,
};
use ryokan::models::StoreError;

const NOW: i64 = 1_700_000_000;

fn scopes(names: &[&str]) -> Vec<String> {
    names.iter().map(|s| s.to_string()).collect()
}

#[test]
fn create_returns_plaintext_and_persists_it() {
    let mut db = ApiKeyStore::new();
    let (id, plaintext) = create(&mut db, "Test", &scopes(&["calendar"]), NOW).unwrap();
    assert!(id > 0);
    assert_eq!(plaintext.len(), 64, "32-byte hex = 64 chars");
    let stored = &db.keys.iter().find(|k| k.id == id).unwrap().key;
    assert_eq!(*stored, plaintext);
}

#[test]
fn get_plaintext_returns_the_stored_key() {
    let mut db = ApiKeyStore::new();
    let (id, plaintext) = create(&mut db, "Test", &scopes(&["calendar"]), NOW).unwrap();
    assert_eq!(get_plaintext(&db, id), Some(plaintext));
}

#[test]
fn get_plaintext_returns_none_for_unknown_id() {
    let db = ApiKeyStore::new();
    assert!(get_plaintext(&db, 99_999).is_none());
}

#[test]
fn get_plaintext_returns_none_for_upgrader_row_with_empty_key() {
    let mut db = ApiKeyStore::new();
    let (id, _) = create(&mut db, "Test", &scopes(&["calendar"]), NOW).unwrap();
    db.keys[0].key = String::new();
    assert!(db.check());
    assert!(get_plaintext(&db, id).is_none());
}

#[test]
fn create_rejects_unknown_scope() {
    let mut db = ApiKeyStore::new();
    let err = create(&mut db, "Test", &scopes(&["nonexistent"]), NOW).unwrap_err();
    assert!(err.message().contains("Unknown scope"));
    assert_eq!(err.message(), "Unknown scope: nonexistent");
    assert!(db.keys.is_empty());
}

#[test]
fn create_rejects_empty_name() {
    let mut db = ApiKeyStore::new();
    let err = create(&mut db, "   ", &scopes(&["calendar"]), NOW).unwrap_err();
    assert!(err.message().contains("cannot be empty"));
    assert_eq!(err.message(), "Key name cannot be empty");
}

#[test]
fn lookup_by_plaintext_finds_enabled_key() {
    let mut db = ApiKeyStore::new();
    let (_, plaintext) = create(&mut db, "Cal", &scopes(&["calendar"]), NOW).unwrap();
    let found = lookup_by_plaintext(&db, &plaintext);
    assert!(found.is_some());
    assert_eq!(found.unwrap().name, "Cal");
}

#[test]
fn lookup_skips_disabled_key() {
    let mut db = ApiKeyStore::new();
    let (id, plaintext) = create(&mut db, "Cal", &scopes(&["calendar"]), NOW).unwrap();
    set_enabled(&mut db, id, false);
    assert!(lookup_by_plaintext(&db, &plaintext).is_none());
}

#[test]
fn lookup_returns_none_for_unknown_plaintext() {
    let mut db = ApiKeyStore::new();
    let _ = create(&mut db, "Cal", &scopes(&["calendar"]), NOW).unwrap();
    assert!(lookup_by_plaintext(&db, "not-a-real-key").is_none());
}

fn key(scope: &str, enabled: bool) -> ApiKey {
    ApiKey {
        id: 1,
        name: "A".into(),
        scopes: vec![scope.to_string()],
        created_at: 0,
        last_used_at: None,
        enabled,
    }
}

#[test]
fn grants_admin_satisfies_any_scope() {
    let key = key("admin", true);
    assert!(key.grants("calendar"));
    assert!(key.grants("library:write"));
    assert!(key.grants("admin"));
}

#[test]
fn grants_exact_match_required_for_non_admin() {
    let key = key("calendar", true);
    assert!(key.grants("calendar"));
    assert!(!key.grants("search"));
    assert!(!key.grants("library:read"));
}

#[test]
fn grants_returns_false_when_disabled() {
    let key = key("admin", false);
    assert!(!key.grants("calendar"));
}

#[test]
fn touch_last_used_stamps_recent_timestamp() {
    let mut db = ApiKeyStore::new();
    let (id, _) = create(&mut db, "Cal", &scopes(&["calendar"]), NOW).unwrap();
    assert!(db.keys[0].last_used_at.is_none());
    let now = chrono::Utc::now().timestamp();
    touch_last_used(&mut db, id, now);
    let after = db.keys[0].last_used_at;
    assert!(after.is_some());
    assert!((now - after.unwrap()).abs() < 5, "stamp should be within ~5s of now");
}

#[test]
fn api_key_delete_removes_row() {
    let mut db = ApiKeyStore::new();
    let (id, _) = create(&mut db, "Cal", &scopes(&["calendar"]), NOW).unwrap();
    delete(&mut db, id);
    assert_eq!(db.keys.iter().filter(|k| k.id == id).count(), 0);
}

#[test]
fn list_returns_newest_first() {
    let mut db = ApiKeyStore::new();
    let (a, _) = create(&mut db, "first", &scopes(&["calendar"]), NOW).unwrap();
    let (b, _) = create(&mut db, "second", &scopes(&["search"]), NOW + 1).unwrap();
    let keys = list(&db);
    assert_eq!(keys.len(), 2);
    assert_eq!(keys[0].id, b);
    assert_eq!(keys[1].id, a);
}

#[test]
fn generate_key_produces_distinct_values() {
    let a = generate_key();
    let b = generate_key();
    assert_ne!(a, b);
    assert_eq!(a.len(), 64);
}

#[test]
fn a_key_is_the_bytes_in_lower_case_hexadecimal() {
    assert_eq!(key_of(&vec![0x00, 0x1f, 0xab, 0xff]), "001fabff");
    assert_eq!(key_of(&Vec::new()), "");
    assert!(generate_key().chars().all(|c| matches!(c, '0'..='9' | 'a'..='f')));
}

#[test]
fn a_new_key_is_read_with_its_scopes_and_trimmed_name() {
    let mut db = ApiKeyStore::new();
    let wanted = scopes(&["library:read", "library:write"]);
    let (id, plaintext) =
        create_with_key(&mut db, "  Two words ", &wanted, "k".to_string(), NOW).unwrap();
    assert_eq!(plaintext, "k");
    assert_eq!(db.keys[0].scopes, "[\"library:read\",\"library:write\"]");
    let found = lookup_by_plaintext(&db, "k").unwrap();
    assert_eq!(found.id, id);
    assert_eq!(found.name, "Two words");
    assert_eq!(found.scopes, wanted);
    assert!(found.grants("library:write"));
    assert!(!found.grants("admin"));
}

#[test]
fn the_first_unknown_scope_is_named() {
    let mut db = ApiKeyStore::new();
    let err = create(&mut db, "n", &scopes(&["admin", "Admin", "x"]), NOW).unwrap_err();
    assert_eq!(err.message(), "Unknown scope: Admin");
}

#[test]
fn a_key_that_is_taken_is_refused() {
    let mut db = ApiKeyStore::new();
    create_with_key(&mut db, "a", &Vec::new(), "k".to_string(), NOW).unwrap();
    let err = create_with_key(&mut db, "b", &Vec::new(), "k".to_string(), NOW).unwrap_err();
    assert!(matches!(err, ApiKeyError::Store(StoreError::Duplicate)));
    assert_eq!(err.message(), "Failed to create API key: the key is taken");
    assert_eq!(create_failure("disk full"), "Failed to create API key: disk full");
    assert_eq!(db.keys.len(), 1);
}

#[test]
fn no_key_is_made_when_the_ids_are_used_up() {
    let mut db = ApiKeyStore { keys: Vec::new(), last_id: i64::MAX };
    let err = create(&mut db, "a", &Vec::new(), NOW).unwrap_err();
    assert!(matches!(err, ApiKeyError::Store(StoreError::Full)));
}

#[test]
fn switching_a_key_off_and_on_brings_it_back() {
    let mut db = ApiKeyStore::new();
    let (id, plaintext) = create(&mut db, "Cal", &scopes(&["calendar"]), NOW).unwrap();
    set_enabled(&mut db, id, false);
    set_enabled(&mut db, id, true);
    assert_eq!(lookup_by_plaintext(&db, &plaintext).unwrap().id, id);
}

#[test]
fn scopes_that_cannot_be_read_are_none() {
    let mut db = ApiKeyStore::new();
    create(&mut db, "Cal", &scopes(&["calendar"]), NOW).unwrap();
    db.keys[0].scopes = "not json".to_string();
    assert_eq!(list(&db)[0].scopes.len(), 0);
}

#[test]
fn times_of_keys_are_shown_in_utc() {
    let mut k = key("admin", true);
    k.created_at = 1_700_000_000;
    assert_eq!(k.created_at_display(), "Nov 14, 2023 22:13");
    assert_eq!(k.last_used_display(), "never");
    k.last_used_at = Some(0);
    assert_eq!(k.last_used_display(), "never");
    assert_eq!(k.used_at(), None);
    k.last_used_at = Some(86_400);
    assert_eq!(k.used_at(), Some(86_400));
    assert_eq!(k.last_used_display(), "Jan 02, 1970 00:00");
    k.created_at = i64::MAX;
    assert_eq!(k.created_at_display(), "");
    assert_eq!(shown_time(None), "");
    assert_eq!(shown_time(Some("x".to_string())), "x");
}

#[test]
fn there_are_five_scopes() {
    assert_eq!(
        all_scopes(),
        scopes(&["calendar", "search", "library:read", "library:write", "admin"])
    );
}
