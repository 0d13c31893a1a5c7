use ryokan::models::nyaa_description_cache::{cleanup, get, upsert, DescriptionStore};

const HASH_A: &str = "AbCdEf0123456789aBcDeF0123456789aBcDeF01";
const HASH_B: &str = "1111111111111111111111111111111111111111";
const NOW: &str = "2024-06-01 00:00:00";
const DAYS_AGO_90: &str = "2024-03-03 00:00:00";
const DAYS_AGO_100: &str = "2024-02-22 00:00:00";

#[test]
fn get_returns_none_for_missing_hash() {
    let db = DescriptionStore::new();
    assert!(get(&db, HASH_A).is_none());
}

#[test]
fn get_returns_none_for_empty_hash() {
    let db = DescriptionStore::new();
    assert!(get(&db, "").is_none());
    assert!(get(&db, "   ").is_none());
}

#[test]
fn upsert_inserts_then_get_round_trips_the_body() {
    let mut db = DescriptionStore::new();
    upsert(&mut db, HASH_A, "Source: Blu-ray\nGroup: VCB-Studio", NOW);
    let got = get(&db, HASH_A).expect("row must be present");
    assert_eq!(got, "Source: Blu-ray\nGroup: VCB-Studio");
}

#[test]
fn upsert_replaces_on_conflict() {
    let mut db = DescriptionStore::new();
    upsert(&mut db, HASH_A, "first", NOW);
    upsert(&mut db, HASH_A, "second", NOW);
    let got = get(&db, HASH_A).expect("row must be present");
    assert_eq!(got, "second");
    assert_eq!(db.rows.iter().filter(|r| r.info_hash == HASH_A).count(), 1);
}

#[test]
fn upsert_no_ops_on_empty_hash() {
    let mut db = DescriptionStore::new();
    upsert(&mut db, "", "would be a phantom row", NOW);
    upsert(&mut db, "   ", "also phantom", NOW);
    assert_eq!(db.rows.len(), 0);
}

#[test]
fn lookup_is_case_insensitive() {
    let mut db = DescriptionStore::new();
    upsert(&mut db, HASH_A, "the body", NOW);
    let lower = HASH_A.to_lowercase();
    let upper = HASH_A.to_uppercase();
    assert_eq!(get(&db, &lower).as_deref(), Some("the body"));
    assert_eq!(get(&db, &upper).as_deref(), Some("the body"));
    upsert(&mut db, &lower, "updated under lowercase", NOW);
    assert_eq!(db.rows.len(), 1);
    assert_eq!(get(&db, &upper).as_deref(), Some("updated under lowercase"));
}

#[test]
fn cleanup_evicts_rows_older_than_cutoff() {
    let mut db = DescriptionStore::new();
    upsert(&mut db, HASH_A, "stale", NOW);
    upsert(&mut db, HASH_B, "fresh", NOW);
    db.rows[0].cached_at = DAYS_AGO_100.to_string();

    let removed = cleanup(&mut db, DAYS_AGO_90);
    assert_eq!(removed, 1, "one stale row must be evicted; got {removed}");
    assert!(get(&db, HASH_A).is_none());
    assert_eq!(get(&db, HASH_B).as_deref(), Some("fresh"));
}

#[test]
fn cleanup_is_a_noop_when_nothing_is_stale() {
    let mut db = DescriptionStore::new();
    upsert(&mut db, HASH_A, "fresh", NOW);
    let removed = cleanup(&mut db, DAYS_AGO_90);
    assert_eq!(removed, 0);
    assert_eq!(get(&db, HASH_A).as_deref(), Some("fresh"));
}

#[test]
fn upsert_refreshes_cached_at_on_conflict() {
    let mut db = DescriptionStore::new();
    upsert(&mut db, HASH_A, "v1", NOW);
    db.rows[0].cached_at = DAYS_AGO_100.to_string();
    upsert(&mut db, HASH_A, "v2", NOW);
    let removed = cleanup(&mut db, DAYS_AGO_90);
    assert_eq!(removed, 0, "upsert-refreshed row must NOT be evicted by the 90-day sweep");
    assert_eq!(get(&db, HASH_A).as_deref(), Some("v2"));
}

#[test]
fn a_hash_with_spaces_around_it_is_found() {
    let mut db = DescriptionStore::new();
    upsert(&mut db, "  abc ", "d", NOW);
    assert_eq!(get(&db, "ABC").as_deref(), Some("d"));
    assert!(db.check());
}
