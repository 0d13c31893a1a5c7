use ryokan::models::episode_airings::{
    prune_older_than, upsert_for_series, AiringStore, EpisodeAiring,
};
use ryokan::models::library::{delete_series, Library};
use ryokan::models::series::SeriesRow;
use ryokan::models::StoreError;

const NOW: i64 = 1_700_000_000;

fn add_series(series: &mut Vec<SeriesRow>, anilist_id: i64, title: &str) -> i64 {
    let id = series.len() as i64 + 1;
    series.push(SeriesRow {
        id,
        anilist_id,
        title: title.to_string(),
        title_english: String::new(),
        title_romaji: String::new(),
        title_native: String::new(),
        cover_url: String::new(),
        folder_name: String::new(),
        user_score: None,
        synced_from_external_account_id: None,
    });
    id
}

fn airing(series_id: i64, episode: i32, airing_at: i64, duration_minutes: i32) -> EpisodeAiring {
    EpisodeAiring { series_id, episode, airing_at, duration_minutes }
}

#[test]
fn upsert_inserts_then_overwrites_on_conflict() {
    let mut series = Vec::new();
    let mut db = AiringStore::new();
    let series_id = add_series(&mut series, 1, "Test");

    let rows = vec![airing(series_id, 1, 1_700_000_000, 24)];
    upsert_for_series(&mut db, &series, series_id, &rows, NOW).unwrap();

    let rows = vec![airing(series_id, 1, 1_700_000_000 + 86_400, 25)];
    upsert_for_series(&mut db, &series, series_id, &rows, NOW + 1).unwrap();

    let row = db.rows.iter().find(|r| r.series_id == series_id && r.episode == 1).unwrap();
    assert_eq!(row.airing_at, 1_700_000_000 + 86_400);
    assert_eq!(row.duration_minutes, 25);
    assert_eq!(row.refreshed_at, NOW + 1);

    assert_eq!(db.rows.iter().filter(|r| r.series_id == series_id).count(), 1);
}

#[test]
fn series_delete_cascades_to_airings() {
    let mut lib = Library::new();
    let series_id = add_series(&mut lib.series, 1, "Test");
    upsert_for_series(
        &mut lib.airings,
        &lib.series,
        series_id,
        &vec![airing(series_id, 1, 1_700_000_000, 24)],
        NOW,
    )
    .unwrap();

    delete_series(&mut lib, series_id).unwrap();
    assert_eq!(lib.airings.rows.len(), 0, "deleting a series clears its airings");
}

#[test]
fn prune_drops_only_past_rows() {
    let mut series = Vec::new();
    let mut db = AiringStore::new();
    let series_id = add_series(&mut series, 1, "Test");
    upsert_for_series(
        &mut db,
        &series,
        series_id,
        &vec![
            airing(series_id, 1, 1_000, 24),
            airing(series_id, 2, 2_000, 24),
            airing(series_id, 3, 3_000, 24),
        ],
        NOW,
    )
    .unwrap();

    let dropped = prune_older_than(&mut db, 2_500);
    assert_eq!(dropped, 2);
    assert_eq!(db.rows.len(), 1);
}

#[test]
fn a_time_at_the_limit_stays() {
    let mut series = Vec::new();
    let mut db = AiringStore::new();
    let id = add_series(&mut series, 1, "Test");
    upsert_for_series(&mut db, &series, id, &vec![airing(id, 1, 2_500, 24)], NOW).unwrap();
    assert_eq!(prune_older_than(&mut db, 2_500), 0);
    assert_eq!(prune_older_than(&mut db, 2_501), 1);
}

#[test]
fn times_of_an_unknown_series_are_refused() {
    let mut db = AiringStore::new();
    let rows = vec![airing(9, 1, 1_000, 24)];
    let r = upsert_for_series(&mut db, &Vec::new(), 9, &rows, NOW);
    assert_eq!(r, Err(StoreError::MissingParent));
    assert_eq!(upsert_for_series(&mut db, &Vec::new(), 9, &Vec::new(), NOW), Ok(()));
    assert!(db.rows.is_empty());
}

#[test]
fn of_two_times_for_an_episode_the_last_counts() {
    let mut series = Vec::new();
    let mut db = AiringStore::new();
    let a = add_series(&mut series, 1, "A");
    let b = add_series(&mut series, 2, "B");
    upsert_for_series(&mut db, &series, b, &vec![airing(b, 1, 5, 24)], NOW).unwrap();
    let rows = vec![airing(a, 1, 10, 24), airing(a, 1, 20, 25)];
    upsert_for_series(&mut db, &series, a, &rows, NOW).unwrap();
    let of = |id: i64| -> Vec<i64> {
        db.rows.iter().filter(|r| r.series_id == id).map(|r| r.airing_at).collect()
    };
    assert_eq!(of(a), vec![20]);
    assert_eq!(of(b), vec![5]);
    assert!(db.check());
}
