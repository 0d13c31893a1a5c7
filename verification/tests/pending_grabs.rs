use ryokan::models::pending_grabs::{
    bump_heartbeat, count, create, create_failure, delete, get, get_by_hash, list_expired, set_file_list,
    PendingStore, HEARTBEAT_TTL_SECS,
};

const NOW: i64 = 1_700_000_000;

#[test]
fn create_then_get_roundtrips() {
    let mut db = PendingStore::new();
    create(&mut db, "pid-1", "abc", "qbittorrent", None, Some(42), "{\"title\":\"test\"}", NOW)
        .expect("create");
    let row = get(&db, "pid-1").expect("row present");
    assert_eq!(row.preview_id, "pid-1");
    assert_eq!(row.info_hash, "abc");
    assert_eq!(row.client_kind, "qbittorrent");
    assert_eq!(row.series_id, Some(42));
    assert_eq!(row.file_list_json, "");
    assert_eq!(row.release_metadata_json, "{\"title\":\"test\"}");
    assert_eq!(row.created_at, row.heartbeat_at);
}

#[test]
fn bump_heartbeat_updates_heartbeat_at() {
    let mut db = PendingStore::new();
    create(&mut db, "pid-1", "abc", "qbittorrent", None, None, "{}", NOW).unwrap();
    let before = get(&db, "pid-1").unwrap().heartbeat_at;
    let updated = bump_heartbeat(&mut db, "pid-1", NOW + 1);
    assert!(updated, "should have updated the row");
    let after = get(&db, "pid-1").unwrap().heartbeat_at;
    assert!(after > before, "heartbeat_at should advance: before={before} after={after}");
}

#[test]
fn bump_heartbeat_returns_false_for_missing_row() {
    let mut db = PendingStore::new();
    let result = bump_heartbeat(&mut db, "nope", NOW);
    assert!(!result, "missing preview_id should return false");
}

#[test]
fn set_file_list_preserves_other_columns() {
    let mut db = PendingStore::new();
    create(&mut db, "pid-1", "abc", "qbittorrent", None, Some(7), "{\"title\":\"t\"}", NOW)
        .unwrap();
    set_file_list(&mut db, "pid-1", "[{\"name\":\"a.mkv\"}]");
    let row = get(&db, "pid-1").unwrap();
    assert_eq!(row.file_list_json, "[{\"name\":\"a.mkv\"}]");
    assert_eq!(row.release_metadata_json, "{\"title\":\"t\"}");
    assert_eq!(row.info_hash, "abc");
    assert_eq!(row.series_id, Some(7));
}

#[test]
fn delete_removes_the_row() {
    let mut db = PendingStore::new();
    create(&mut db, "pid-1", "abc", "qbittorrent", None, None, "{}", NOW).unwrap();
    delete(&mut db, "pid-1");
    assert!(get(&db, "pid-1").is_none());
}

#[test]
fn get_by_hash_returns_most_recent() {
    let mut db = PendingStore::new();
    create(&mut db, "pid-old", "deadbeef", "qbittorrent", None, None, "{}", NOW).unwrap();
    create(&mut db, "pid-new", "deadbeef", "qbittorrent", None, None, "{}", NOW + 1).unwrap();
    let row = get_by_hash(&db, "deadbeef").expect("row present");
    assert_eq!(row.preview_id, "pid-new", "most recent row should win");
}

#[test]
fn get_by_hash_ignores_empty_hash() {
    let mut db = PendingStore::new();
    create(&mut db, "pid-1", "", "qbittorrent", None, None, "{}", NOW).unwrap();
    assert!(get_by_hash(&db, "").is_none(), "empty hash lookup should never return a row");
}

#[test]
fn list_expired_returns_stale_rows_only() {
    let mut db = PendingStore::new();
    create(&mut db, "fresh", "h1", "qbittorrent", None, None, "{}", NOW).unwrap();
    create(&mut db, "stale", "h2", "qbittorrent", None, None, "{}", NOW).unwrap();
    db.rows[1].heartbeat_at = NOW - HEARTBEAT_TTL_SECS - 5;
    let expired = list_expired(&db, NOW);
    assert_eq!(expired.len(), 1);
    assert_eq!(expired[0].preview_id, "stale");
}

#[test]
fn count_reflects_creates_and_deletes() {
    let mut db = PendingStore::new();
    assert_eq!(count(&db), 0);
    create(&mut db, "pid-1", "a", "qbittorrent", None, None, "{}", NOW).unwrap();
    create(&mut db, "pid-2", "b", "qbittorrent", None, None, "{}", NOW).unwrap();
    assert_eq!(count(&db), 2);
    delete(&mut db, "pid-1");
    assert_eq!(count(&db), 1);
}

#[test]
fn a_taken_preview_is_refused() {
    let mut db = PendingStore::new();
    create(&mut db, "pid-1", "a", "qbittorrent", None, None, "{}", NOW).unwrap();
    let err = create(&mut db, "pid-1", "b", "deluge", None, None, "{}", NOW).unwrap_err();
    assert_eq!(err, "failed to create pending grab: the key is taken");
    assert_eq!(create_failure("disk full"), "failed to create pending grab: disk full");
    assert_eq!(get(&db, "pid-1").unwrap().info_hash, "a");
    assert!(db.check());
}

#[test]
fn a_sign_of_life_keeps_a_grab() {
    let mut db = PendingStore::new();
    create(&mut db, "p", "a", "qbittorrent", None, None, "{}", NOW).unwrap();
    assert!(list_expired(&db, NOW + HEARTBEAT_TTL_SECS).is_empty());
    assert_eq!(list_expired(&db, NOW + HEARTBEAT_TTL_SECS + 1).len(), 1);
    bump_heartbeat(&mut db, "p", NOW + 30);
    assert!(list_expired(&db, NOW + HEARTBEAT_TTL_SECS + 1).is_empty());
}
