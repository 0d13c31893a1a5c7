use ryokan::models::artwork_cache::{
    cleanup_orphans, forget_series, get, get_blob_path, get_local_url, get_local_urls_batch,
    upsert_blob, upsert_ref, ArtworkStore, RefUpsert,
};
use ryokan::models::series::SeriesRow;
use ryokan::models::StoreError;

const NOW: &str = "2024-06-01 00:00:00";
const DAYS_AGO_1: &str = "2024-05-31 00:00:00";
const DAYS_AGO_30: &str = "2024-05-02 00:00:00";
const DAYS_AGO_60: &str = "2024-04-02 00:00:00";

fn seed_series(series: &mut Vec<SeriesRow>, anilist_id: i64, title: &str) -> i64 {
    let id = series.len() as i64 + 1;
    series.push(SeriesRow {
        id,
        anilist_id,
        title: title.to_string(),
        title_english: String::new(),
        title_romaji: String::new(),
        title_native: String::new(),
        cover_url: String::new(),
        folder_name: String::new(),
        user_score: None,
        synced_from_external_account_id: None,
    });
    id
}

fn ref_for<'a>(cache_key: &'a str, parent_id: Option<i64>, blob_hash: &'a str) -> RefUpsert<'a> {
    RefUpsert {
        cache_key,
        parent_kind: "series",
        parent_id,
        image_kind: "cover",
        source_url: "https://example/cover.jpg",
        blob_hash,
        last_write: 1234567890,
    }
}

#[test]
fn upsert_blob_then_get_path_round_trips() {
    let mut db = ArtworkStore::new();
    upsert_blob(&mut db, "hash-a", "/data/cache/a.jpg", "image/jpeg", 1024, NOW);
    let path = get_blob_path(&db, "hash-a");
    assert_eq!(path.as_deref(), Some("/data/cache/a.jpg"));
}

#[test]
fn get_blob_path_returns_none_on_miss() {
    let db = ArtworkStore::new();
    assert!(get_blob_path(&db, "nope").is_none());
}

#[test]
fn upsert_blob_overwrites_path_on_conflict() {
    let mut db = ArtworkStore::new();
    upsert_blob(&mut db, "hash-x", "old/relative.jpg", "image/jpeg", 1, DAYS_AGO_60);
    upsert_blob(&mut db, "hash-x", "/data/cache/x.jpg", "image/png", 2048, NOW);
    let path = get_blob_path(&db, "hash-x");
    assert_eq!(path.as_deref(), Some("/data/cache/x.jpg"));
    assert_eq!(db.blobs.len(), 1);
    assert_eq!(db.blobs[0].byte_size, 2048);
    assert_eq!(db.blobs[0].created_at, DAYS_AGO_60);
}

#[test]
fn upsert_ref_then_get_joins_through_image_blobs() {
    let mut series = Vec::new();
    let mut db = ArtworkStore::new();
    let series_id = seed_series(&mut series, 1, "Show");
    upsert_blob(&mut db, "h1", "/data/blob.jpg", "image/jpeg", 100, NOW);
    upsert_ref(&mut db, &series, ref_for("series-1-cover", Some(series_id), "h1"), NOW).unwrap();

    let entry = get(&db, "series-1-cover").expect("hit");
    assert_eq!(entry.cache_key, "series-1-cover");
    assert_eq!(entry.local_path, "/data/blob.jpg");
    assert_eq!(entry.content_type, "image/jpeg");
    assert_eq!(entry.last_write, 1234567890);
}

#[test]
fn upsert_ref_with_null_parent_id_round_trips() {
    let mut db = ArtworkStore::new();
    upsert_blob(&mut db, "h-orphan", "/data/o.jpg", "image/jpeg", 1, NOW);
    upsert_ref(&mut db, &Vec::new(), ref_for("misc:cover", None, "h-orphan"), NOW).unwrap();
    assert!(get(&db, "misc:cover").is_some());
}

#[test]
fn get_local_url_includes_cache_busting_version_query() {
    let mut series = Vec::new();
    let mut db = ArtworkStore::new();
    let series_id = seed_series(&mut series, 42, "Show");
    upsert_blob(&mut db, "h2", "/data/x.jpg", "image/jpeg", 1, NOW);
    upsert_ref(&mut db, &series, ref_for("series-42-cover", Some(series_id), "h2"), NOW).unwrap();
    let url = get_local_url(&db, "series-42-cover").expect("hit");
    assert_eq!(url, "/media/art/series-42-cover?v=1234567890");
}

#[test]
fn get_local_url_returns_none_for_missing_key() {
    let db = ArtworkStore::new();
    assert!(get_local_url(&db, "nope").is_none());
}

#[test]
fn get_local_urls_batch_handles_empty_input_without_db_round_trip() {
    let db = ArtworkStore::new();
    assert!(get_local_urls_batch(&db, &Vec::new()).is_empty());
}

#[test]
fn get_local_urls_batch_returns_one_url_per_known_key() {
    let mut series = Vec::new();
    let mut db = ArtworkStore::new();
    let s1 = seed_series(&mut series, 1, "Show A");
    let s2 = seed_series(&mut series, 2, "Show B");
    upsert_blob(&mut db, "h1", "/data/a.jpg", "image/jpeg", 1, NOW);
    upsert_blob(&mut db, "h2", "/data/b.jpg", "image/jpeg", 1, NOW);
    let mut r1 = ref_for("series-1-cover", Some(s1), "h1");
    r1.last_write = 1000;
    let mut r2 = ref_for("series-2-cover", Some(s2), "h2");
    r2.last_write = 2000;
    upsert_ref(&mut db, &series, r1, NOW).unwrap();
    upsert_ref(&mut db, &series, r2, NOW).unwrap();

    let result = get_local_urls_batch(
        &db,
        &vec!["series-1-cover".into(), "series-2-cover".into(), "missing".into()],
    );
    assert_eq!(result.len(), 2);
    let url = |key: &str| result.iter().find(|u| u.cache_key == key).map(|u| u.url.clone());
    assert_eq!(url("series-1-cover").unwrap(), "/media/art/series-1-cover?v=1000");
    assert_eq!(url("series-2-cover").unwrap(), "/media/art/series-2-cover?v=2000");
}

#[test]
fn cleanup_orphans_is_a_noop_under_steady_state_fk_enforcement() {
    let mut series = Vec::new();
    let mut db = ArtworkStore::new();
    let series_id = seed_series(&mut series, 100, "Show");
    upsert_blob(&mut db, "h-live", "/x.jpg", "image/jpeg", 1, NOW);
    upsert_ref(&mut db, &series, ref_for("live", Some(series_id), "h-live"), NOW).unwrap();

    let pruned = cleanup_orphans(&mut db, &series, DAYS_AGO_30);
    assert_eq!(pruned.refs_deleted, 0);
    assert!(get(&db, "live").is_some());
}

#[test]
fn cleanup_orphans_drops_aged_blobs_without_refs() {
    let mut db = ArtworkStore::new();
    upsert_blob(&mut db, "h-aged", "/data/orphan.jpg", "image/jpeg", 4, NOW);
    db.blobs[0].created_at = DAYS_AGO_60.to_string();

    let pruned = cleanup_orphans(&mut db, &Vec::new(), DAYS_AGO_30);
    assert_eq!(pruned.blobs_deleted, 1);
    assert_eq!(pruned.files, vec!["/data/orphan.jpg".to_string()]);
    assert!(get_blob_path(&db, "h-aged").is_none());
}

#[test]
fn cleanup_orphans_keeps_recent_orphan_blobs_via_age_gate() {
    let mut db = ArtworkStore::new();
    upsert_blob(&mut db, "h-fresh", "/tmp/x.jpg", "image/jpeg", 1, NOW);
    let pruned = cleanup_orphans(&mut db, &Vec::new(), DAYS_AGO_1);
    assert_eq!(pruned.blobs_deleted, 0);
    assert!(get_blob_path(&db, "h-fresh").is_some());
}

#[test]
fn cleanup_orphans_returns_zero_zero_on_empty_tables() {
    let mut db = ArtworkStore::new();
    let pruned = cleanup_orphans(&mut db, &Vec::new(), DAYS_AGO_30);
    assert_eq!(pruned.refs_deleted, 0);
    assert_eq!(pruned.blobs_deleted, 0);
    assert!(pruned.files.is_empty());
}

#[test]
fn a_place_needs_its_series_and_its_picture() {
    let mut series = Vec::new();
    let id = seed_series(&mut series, 1, "Show");
    let mut db = ArtworkStore::new();
    let missing_blob = upsert_ref(&mut db, &series, ref_for("k", Some(id), "h"), NOW);
    assert_eq!(missing_blob, Err(StoreError::MissingParent));
    upsert_blob(&mut db, "h", "/p", "image/png", 1, NOW);
    let missing_series = upsert_ref(&mut db, &series, ref_for("k", Some(99), "h"), NOW);
    assert_eq!(missing_series, Err(StoreError::MissingParent));
    assert!(upsert_ref(&mut db, &series, ref_for("k", Some(id), "h"), NOW).is_ok());
    assert!(db.check());
}

#[test]
fn places_of_series_that_are_gone_are_cleaned_with_their_old_pictures() {
    let mut series = Vec::new();
    let id = seed_series(&mut series, 1, "Show");
    let mut db = ArtworkStore::new();
    upsert_blob(&mut db, "h", "/old.png", "image/png", 1, DAYS_AGO_60);
    upsert_blob(&mut db, "e", "", "image/png", 1, DAYS_AGO_60);
    upsert_ref(&mut db, &series, ref_for("k", Some(id), "h"), NOW).unwrap();
    let mut other = ref_for("o", Some(id), "h");
    other.parent_kind = "studio";
    upsert_ref(&mut db, &series, other, NOW).unwrap();
    let pruned = cleanup_orphans(&mut db, &Vec::new(), DAYS_AGO_30);
    assert_eq!((pruned.refs_deleted, pruned.blobs_deleted), (1, 1));
    assert!(pruned.files.is_empty(), "a picture without a path has no file");
    assert!(get(&db, "k").is_none());
    assert!(get(&db, "o").is_some());
    let again = cleanup_orphans(&mut db, &Vec::new(), DAYS_AGO_30);
    assert_eq!((again.refs_deleted, again.blobs_deleted), (0, 0));
}

#[test]
fn forgetting_a_series_leaves_its_pictures_for_the_cleaning() {
    let mut series = Vec::new();
    let id = seed_series(&mut series, 1, "Show");
    let mut db = ArtworkStore::new();
    upsert_blob(&mut db, "h", "/p", "image/png", 1, NOW);
    upsert_ref(&mut db, &series, ref_for("k", Some(id), "h"), NOW).unwrap();
    forget_series(&mut db, id);
    assert!(get(&db, "k").is_none());
    assert_eq!(get_blob_path(&db, "h").as_deref(), Some("/p"));
}
