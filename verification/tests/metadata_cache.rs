use ryokan::models::metadata_cache::{
    forget_series, get_by_provider_id, get_by_series_id, is_stale_at, is_timestamp_stale, upsert,
    upsert_provider, MetadataStore, METADATA_REFRESH_INTERVAL_HOURS,
};
use ryokan::models::series::SeriesRow;
use ryokan::models::StoreError;

#[test]
fn is_timestamp_stale_empty_string_returns_false() {
    assert!(!is_timestamp_stale(""));
}

#[test]
fn is_timestamp_stale_unparseable_returns_false() {
    assert!(!is_timestamp_stale("not a date"));
    assert!(!is_timestamp_stale("2026-04-27"));
}

#[test]
fn is_timestamp_stale_just_now_returns_false() {
    let now = chrono::Utc::now().naive_utc().format("%Y-%m-%d %H:%M:%S").to_string();
    assert!(!is_timestamp_stale(&now));
}

#[test]
fn is_timestamp_stale_within_ttl_returns_false() {
    let recent = (chrono::Utc::now().naive_utc()
        - chrono::Duration::hours(METADATA_REFRESH_INTERVAL_HOURS - 1))
    .format("%Y-%m-%d %H:%M:%S")
    .to_string();
    assert!(!is_timestamp_stale(&recent));
}

#[test]
fn is_timestamp_stale_past_ttl_returns_true() {
    let stale = (chrono::Utc::now().naive_utc()
        - chrono::Duration::hours(METADATA_REFRESH_INTERVAL_HOURS)
        - chrono::Duration::seconds(1))
    .format("%Y-%m-%d %H:%M:%S")
    .to_string();
    assert!(is_timestamp_stale(&stale));
}

#[test]
fn is_timestamp_stale_days_old_returns_true() {
    let very_stale = (chrono::Utc::now().naive_utc() - chrono::Duration::days(7))
        .format("%Y-%m-%d %H:%M:%S")
        .to_string();
    assert!(is_timestamp_stale(&very_stale));
}

#[test]
fn a_time_is_good_until_the_interval_is_over() {
    let interval = METADATA_REFRESH_INTERVAL_HOURS * 3600;
    let then = Some((1_700_000_000, 0));
    assert!(!is_stale_at(then, (1_700_000_000 + interval, 0)));
    assert!(is_stale_at(then, (1_700_000_000 + interval, 1)));
    assert!(!is_stale_at(then, (1_600_000_000, 0)));
    assert!(!is_stale_at(None, (i64::MAX, 0)));
}

#[test]
fn leap_seconds_count_as_chrono_counts_them() {
    let date = chrono::NaiveDate::from_ymd_opt(2016, 12, 31).unwrap();
    let then = date.and_hms_nano_opt(11, 59, 59, 1_500_000_000).unwrap();
    for (seconds, nanos) in [(43_199, 0), (43_199, 499_999_999), (43_200, 0), (43_201, 600_000_000)]
    {
        let base = date.and_hms_opt(11, 59, 59).unwrap();
        let now = base
            + chrono::Duration::seconds(seconds)
            + chrono::Duration::nanoseconds(nanos);
        let by_chrono = now.signed_duration_since(then)
            > chrono::Duration::hours(METADATA_REFRESH_INTERVAL_HOURS);
        let plain = |t: chrono::NaiveDateTime| {
            (t.and_utc().timestamp(), t.and_utc().timestamp_subsec_nanos())
        };
        assert_eq!(is_stale_at(Some(plain(then)), plain(now)), by_chrono);
    }
}

fn show() -> SeriesRow {
    SeriesRow {
        id: 1,
        anilist_id: 10,
        title: "Show".to_string(),
        title_english: String::new(),
        title_romaji: String::new(),
        title_native: String::new(),
        cover_url: String::new(),
        folder_name: String::new(),
        user_score: None,
        synced_from_external_account_id: None,
    }
}

#[test]
fn what_was_learnt_of_a_series_is_read_back() {
    let series = vec![show()];
    let mut db = MetadataStore::new();
    upsert(&mut db, &series, 1, 10, Some(20), "{\"a\":1}", "2024-06-01 12:00:00").unwrap();
    let fresh = get_by_series_id(&db, 1, "2024-06-01 00:00:00").unwrap();
    assert_eq!(fresh.provider_id, 10);
    assert_eq!(fresh.detail, "{\"a\":1}");
    assert_eq!(fresh.cached_at, "2024-06-01 12:00:00");
    assert!(fresh.is_fresh);
    assert!(!get_by_series_id(&db, 1, "2024-06-01 12:00:01").unwrap().is_fresh);
    assert!(get_by_series_id(&db, 2, "").is_none());
    upsert(&mut db, &series, 1, 11, None, "{}", "2024-06-02 12:00:00").unwrap();
    assert_eq!(db.series.len(), 1);
    assert_eq!(get_by_series_id(&db, 1, "").unwrap().provider_id, 11);
    forget_series(&mut db, 1);
    assert!(get_by_series_id(&db, 1, "").is_none());
}

#[test]
fn what_was_learnt_of_an_unknown_series_is_refused() {
    let mut db = MetadataStore::new();
    let r = upsert(&mut db, &Vec::new(), 1, 10, None, "{}", "2024-06-01 12:00:00");
    assert_eq!(r, Err(StoreError::MissingParent));
    assert!(db.series.is_empty());
}

#[test]
fn what_was_learnt_of_a_work_is_read_back() {
    let mut db = MetadataStore::new();
    upsert_provider(&mut db, 10, None, "{}", "2024-06-01 12:00:00");
    upsert_provider(&mut db, 10, Some(5), "{\"b\":2}", "2024-06-02 12:00:00");
    assert_eq!(db.providers.len(), 1);
    let found = get_by_provider_id(&db, 10, "2024-06-01 12:00:00").unwrap();
    assert_eq!(found.detail, "{\"b\":2}");
    assert!(found.is_fresh);
    assert!(get_by_provider_id(&db, 11, "").is_none());
    assert!(db.check());
}
