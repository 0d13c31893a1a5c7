use ryokan::models::media_probe_cache::{cleanup, get, upsert, ProbeStore};

const NOW: &str = "2024-06-01 00:00:00";

#[test]
fn what_was_found_in_a_file_is_kept_until_the_file_changes() {
    let mut db = ProbeStore::new();
    upsert(&mut db, "/a.mkv", 10, 20, "{}", NOW);
    assert_eq!(get(&db, "/a.mkv", 10, 20).as_deref(), Some("{}"));
    assert!(get(&db, "/a.mkv", 11, 20).is_none());
    assert!(get(&db, "/a.mkv", 10, 21).is_none());
    assert!(get(&db, "/b.mkv", 10, 20).is_none());
    upsert(&mut db, "/a.mkv", 11, 21, "[]", NOW);
    assert_eq!(db.rows.len(), 1);
    assert_eq!(get(&db, "/a.mkv", 11, 21).as_deref(), Some("[]"));
    assert!(db.check());
}

#[test]
fn old_rows_are_cleaned_and_recent_ones_stay() {
    let mut db = ProbeStore::new();
    upsert(&mut db, "/a.mkv", 1, 1, "{}", "2024-01-01 00:00:00");
    upsert(&mut db, "/b.mkv", 1, 1, "{}", NOW);
    assert_eq!(cleanup(&mut db, "2024-03-01 00:00:00"), 1);
    assert!(get(&db, "/a.mkv", 1, 1).is_none());
    assert!(get(&db, "/b.mkv", 1, 1).is_some());
}
