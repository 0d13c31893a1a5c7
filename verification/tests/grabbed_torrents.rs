use ryokan::models::grabbed_torrents::{
    client_id_for_hash, delete_all_for_series, drop_duplicate_grabs, find_imported_for_episode,
    find_pending_for_episode, get_all_for_series, get_all_pending, get_all_with_series,
    get_blocked, get_client_content_path, get_imported_source_paths, get_is_batch_by_name,
    get_series_routes, get_series_routes_for_grabs, imported_grabs_for_series,
    imported_source_paths_for_series, is_blocklisted, is_known_hash, mark_all_pending_failed,
    mark_completed_no_import, mark_failed, mark_failed_by_name, mark_imported, mark_removed,
    mark_replaced, record_grab, record_grab_series_routes, remove, respects_seed_rules,
    set_download_client, set_indexer_attribution, stamp_client_content_path,
    stamp_imported_source_paths, unblock_by_hash, GrabSeriesRoute, GrabStore, RouteRow,
};
use ryokan::models::series::SeriesRow;
use ryokan::models::StoreError;

const NOW: &str = "2024-06-01 00:00:00";
const LATER: &str = "2024-06-01 00:00:01";

fn add_series(series: &mut Vec<SeriesRow>, anilist_id: i64, title: &str) -> i64 {
    let id = series.len() as i64 + 1;
    series.push(SeriesRow {
        id,
        anilist_id,
        title: title.to_string(),
        title_english: title.to_string(),
        title_romaji: title.to_string(),
        title_native: String::new(),
        cover_url: String::new(),
        folder_name: String::new(),
        user_score: None,
        synced_from_external_account_id: None,
    });
    id
}

fn grab(db: &mut GrabStore, series: &Vec<SeriesRow>, hash: &str, name: &str, eps: &[i32]) -> i64 {
    record_grab(db, series, hash, name, 1, eps, false, NOW).unwrap().unwrap()
}

#[test]
fn grab_series_route_round_trip_preserves_episode_offset() {
    let mut series = Vec::new();
    let mut db = GrabStore::new();
    let parent_id = add_series(&mut series, 21320, "Owarimonogatari");
    let sibling_id = add_series(&mut series, 21860, "Owarimonogatari Second Season");

    let grab_id = record_grab(
        &mut db,
        &series,
        "roundtriphash0000000000000000000000000000",
        "[smol] Monogatari S07 (Owarimonogatari) [BD 1080p]",
        parent_id,
        &[],
        true,
        NOW,
    )
    .expect("record_grab")
    .expect("grab inserted");

    let routes = vec![
        GrabSeriesRoute {
            grab_id,
            series_id: parent_id,
            file_indices: vec![0, 1, 2, 3, 4, 5, 6, 7, 8, 9, 10, 11, 12],
            episode_numbers: (1..=13).collect(),
            matched_subtitle: String::new(),
            episode_offset: 0,
        },
        GrabSeriesRoute {
            grab_id,
            series_id: sibling_id,
            file_indices: vec![13, 14, 15, 16, 17, 18, 19],
            episode_numbers: (14..=20).collect(),
            matched_subtitle: "episode-range fallback (14..=20)".to_string(),
            episode_offset: 13,
        },
    ];

    record_grab_series_routes(&mut db, &series, &routes).expect("record routes");

    let read_back = get_series_routes(&db, grab_id);
    assert_eq!(read_back.len(), 2);

    let parent_route = read_back.iter().find(|r| r.series_id == parent_id).expect("parent route");
    assert_eq!(parent_route.episode_offset, 0);

    let sibling_route =
        read_back.iter().find(|r| r.series_id == sibling_id).expect("sibling route");
    assert_eq!(sibling_route.episode_offset, 13);
    assert_eq!(sibling_route.matched_subtitle, "episode-range fallback (14..=20)");
    assert_eq!(sibling_route.file_indices.len(), 7);
    assert_eq!(sibling_route.file_indices, vec![13, 14, 15, 16, 17, 18, 19]);
    assert_eq!(sibling_route.episode_numbers, (14..=20).collect::<Vec<i32>>());
    assert_eq!(db.routes[1].file_indices, "[13,14,15,16,17,18,19]");
}

#[test]
fn find_imported_for_episode_preserves_is_batch() {
    let mut series = Vec::new();
    let mut db = GrabStore::new();
    let series_id = add_series(&mut series, 21202, "Show");

    let batch_eps: Vec<i32> = (1..=24).collect();
    let batch_grab_id = record_grab(
        &mut db,
        &series,
        "batchhash00000000000000000000000000000000",
        "[Group] Show 01-24 [BD 1080p]",
        series_id,
        &batch_eps,
        true,
        NOW,
    )
    .expect("record batch grab")
    .expect("batch grab inserted");
    mark_imported(&mut db, batch_grab_id, NOW).expect("mark batch imported");

    let single_grab_id = record_grab(
        &mut db,
        &series,
        "singlehash0000000000000000000000000000000",
        "[Group] Show - 07 [WEB-DL 1080p]",
        series_id,
        &[7],
        false,
        NOW,
    )
    .expect("record single grab")
    .expect("single grab inserted");
    mark_imported(&mut db, single_grab_id, NOW).expect("mark single imported");

    let ep5 = find_imported_for_episode(&db, series_id, 5).unwrap();
    assert_eq!(ep5.len(), 1, "expected one grab covering episode 5");
    assert!(ep5[0].is_batch, "batch grab for episode 5 must report is_batch=true");

    let ep7 = find_imported_for_episode(&db, series_id, 7).unwrap();
    assert_eq!(ep7.len(), 2, "expected both grabs covering episode 7");
    let single = ep7.iter().find(|g| g.id == single_grab_id).expect("single grab present");
    assert!(!single.is_batch, "single-episode grab is_batch=false");
    let batch = ep7.iter().find(|g| g.id == batch_grab_id).expect("batch grab present");
    assert!(batch.is_batch, "batch grab is_batch=true");
}

#[test]
fn record_grab_dedups_and_reactivates_same_hash() {
    let mut series = Vec::new();
    let mut db = GrabStore::new();
    let series_id = add_series(&mut series, 12345, "Show");

    let id1 =
        record_grab(&mut db, &series, "racehash", "release a", series_id, &[1], false, NOW)
            .expect("first record_grab")
            .expect("first must insert");

    let id2 =
        record_grab(&mut db, &series, "racehash", "release b", series_id, &[2], false, NOW)
            .expect("second record_grab");
    assert!(id2.is_none(), "pending-row dedup must not reactivate: {id2:?}");

    assert_eq!(db.rows.iter().filter(|r| r.hash == "racehash").count(), 1);

    let row = db.rows.iter().find(|r| r.id == id1).expect("fetch row");
    assert_eq!(row.torrent_name, "release a", "pending row's fields must be untouched");
    assert_eq!(row.episode_numbers, "[1]", "pending row's episode_numbers must be untouched");
    assert_eq!(row.state, "pending", "pending row stays pending");

    mark_imported(&mut db, id1, NOW).expect("mark imported");
    assert!(
        db.rows.iter().find(|r| r.id == id1).unwrap().imported_at.is_some(),
        "mark_imported stamps imported_at"
    );

    let id3 =
        record_grab(&mut db, &series, "racehash", "release c", series_id, &[1], false, NOW)
            .expect("third record_grab")
            .expect("re-grab of imported hash must yield an id");
    assert_eq!(id3, id1, "reactivation preserves the row id");

    let row = db.rows.iter().find(|r| r.id == id1).unwrap();
    assert_eq!(row.state, "pending", "imported to pending flip on re-grab");
    assert!(row.imported_at.is_none(), "imported_at must be cleared on reactivation");

    mark_failed(&mut db, id1);
    let id4 =
        record_grab(&mut db, &series, "racehash", "release d", series_id, &[1], false, NOW)
            .expect("fourth record_grab")
            .expect("re-record after failed must insert");
    assert_ne!(id4, id1, "post-failed re-grab inserts a new row");

    let id5 = record_grab(&mut db, &series, "", "no hash a", series_id, &[1], false, NOW)
        .expect("empty-hash a");
    let id6 = record_grab(&mut db, &series, "", "no hash b", series_id, &[1], false, NOW)
        .expect("empty-hash b");
    assert!(id5.is_some() && id6.is_some(), "empty-hash never dedups");
    assert_ne!(id5, id6, "empty-hash inserts are distinct rows");
    assert!(db.check());
}

#[test]
fn find_pending_filters_by_state_and_series() {
    let mut series = Vec::new();
    let mut db = GrabStore::new();
    let series_id = add_series(&mut series, 99999, "Show");

    let pending_id = record_grab(
        &mut db,
        &series,
        "pending0000000000000000000000000000000001",
        "[Group] Show - 05",
        series_id,
        &[5],
        false,
        NOW,
    )
    .expect("pending grab")
    .expect("id");

    let imported_id = record_grab(
        &mut db,
        &series,
        "imported000000000000000000000000000000002",
        "[Group] Show - 06",
        series_id,
        &[6],
        false,
        NOW,
    )
    .expect("imported grab")
    .expect("id");
    mark_imported(&mut db, imported_id, NOW).expect("mark imported");

    let hits_ep5 = find_pending_for_episode(&db, series_id, 5).unwrap();
    assert_eq!(hits_ep5.len(), 1, "should find the one pending grab for ep 5");
    assert_eq!(hits_ep5[0].id, pending_id);
    assert_eq!(hits_ep5[0].state, "pending");

    let hits_ep6 = find_pending_for_episode(&db, series_id, 6).unwrap();
    assert!(hits_ep6.is_empty(), "imported grabs must not leak into pending lookup");

    mark_removed(&mut db, pending_id);
    let hits_after_remove = find_pending_for_episode(&db, series_id, 5).unwrap();
    assert!(
        hits_after_remove.is_empty(),
        "removed grabs must not reappear in pending lookup"
    );
}

#[test]
fn mark_replaced_flips_state_and_stamps_back_pointer() {
    let mut series = Vec::new();
    let mut db = GrabStore::new();
    let series_id = add_series(&mut series, 424242, "Show");

    let old_id = record_grab(
        &mut db,
        &series,
        "old00000000000000000000000000000000000001",
        "[OldGroup] Show - 01",
        series_id,
        &[1],
        false,
        NOW,
    )
    .expect("old")
    .expect("id");
    mark_imported(&mut db, old_id, NOW).expect("mark imported");

    let new_id = record_grab(
        &mut db,
        &series,
        "new00000000000000000000000000000000000001",
        "[BetterGroup] Show - Batch [BD]",
        series_id,
        &[1, 2, 3],
        true,
        NOW,
    )
    .expect("new")
    .expect("id");

    mark_replaced(&mut db, old_id, new_id);

    let row = db.rows.iter().find(|r| r.id == old_id).expect("lookup");
    assert_eq!(row.state, "replaced");
    assert_eq!(row.replaced_by_grab_id, Some(new_id));

    let history = get_all_with_series(&db, &series, 10, "english");
    let new_row = history.iter().find(|r| r.id == new_id).expect("new grab present");
    assert_eq!(new_row.replaces_count, 1);
    let old_row = history.iter().find(|r| r.id == old_id).expect("old grab present");
    assert_eq!(old_row.state, "replaced");
    assert_eq!(old_row.replaced_by_grab_id, Some(new_id));
    assert_eq!(old_row.replaced_by_torrent_name, "[BetterGroup] Show - Batch [BD]");
}

fn seed_a_grab(series: &mut Vec<SeriesRow>, db: &mut GrabStore) -> (i64, String) {
    let series_id = add_series(series, 1, "Show");
    let hash = "abc123def456".to_string();
    let id =
        record_grab(db, series, &hash, "[Group] Show - 01.mkv", series_id, &[1], false, NOW)
            .expect("record")
            .expect("inserted");
    (id, hash)
}

#[test]
fn set_indexer_attribution_writes_indexer_id_and_flag() {
    let mut series = Vec::new();
    let mut db = GrabStore::new();
    let (grab_id, _) = seed_a_grab(&mut series, &mut db);

    set_indexer_attribution(&mut db, grab_id, Some(42), true);

    let row = db.rows.iter().find(|r| r.id == grab_id).unwrap();
    assert_eq!(row.indexer_id, Some(42));
    assert!(row.respect_seed_rules);
}

#[test]
fn set_indexer_attribution_with_none_clears_indexer_id() {
    let mut series = Vec::new();
    let mut db = GrabStore::new();
    let (grab_id, _) = seed_a_grab(&mut series, &mut db);

    set_indexer_attribution(&mut db, grab_id, None, false);

    let row = db.rows.iter().find(|r| r.id == grab_id).unwrap();
    assert_eq!(row.indexer_id, None);
    assert!(!row.respect_seed_rules);
}

#[test]
fn respects_seed_rules_returns_true_when_flag_set() {
    let mut series = Vec::new();
    let mut db = GrabStore::new();
    let (grab_id, hash) = seed_a_grab(&mut series, &mut db);

    assert!(!respects_seed_rules(&db, &hash));

    set_indexer_attribution(&mut db, grab_id, Some(7), true);
    assert!(respects_seed_rules(&db, &hash));
}

#[test]
fn respects_seed_rules_false_for_empty_hash_or_missing_row() {
    let db = GrabStore::new();
    assert!(!respects_seed_rules(&db, ""));
    assert!(!respects_seed_rules(&db, "no-such-hash"));
}

#[test]
fn set_download_client_round_trips_through_get_all_pending() {
    let mut series = Vec::new();
    let mut db = GrabStore::new();
    let (grab_id, _) = seed_a_grab(&mut series, &mut db);

    let pending = get_all_pending(&db);
    let row = pending.iter().find(|g| g.id == grab_id).expect("present");
    assert_eq!(row.download_client_id, None);

    set_download_client(&mut db, grab_id, Some(42));
    let pending = get_all_pending(&db);
    let row = pending.iter().find(|g| g.id == grab_id).expect("present");
    assert_eq!(row.download_client_id, Some(42));

    set_download_client(&mut db, grab_id, None);
    let pending = get_all_pending(&db);
    let row = pending.iter().find(|g| g.id == grab_id).expect("present");
    assert_eq!(row.download_client_id, None);
}

#[test]
fn find_pending_for_episode_round_trips_download_client_id() {
    let mut series = Vec::new();
    let mut db = GrabStore::new();
    let (grab_id, _) = seed_a_grab(&mut series, &mut db);
    set_download_client(&mut db, grab_id, Some(99));

    let series_id = db.rows.iter().find(|r| r.id == grab_id).unwrap().series_id;
    let pending = find_pending_for_episode(&db, series_id, 1).unwrap();
    let row = pending.iter().find(|g| g.id == grab_id).expect("present");
    assert_eq!(row.download_client_id, Some(99));
}

#[test]
fn find_imported_for_episode_round_trips_download_client_id() {
    let mut series = Vec::new();
    let mut db = GrabStore::new();
    let (grab_id, _) = seed_a_grab(&mut series, &mut db);
    set_download_client(&mut db, grab_id, Some(123));
    mark_imported(&mut db, grab_id, NOW).expect("imported");

    let series_id = db.rows.iter().find(|r| r.id == grab_id).unwrap().series_id;
    let imported = find_imported_for_episode(&db, series_id, 1).unwrap();
    let row = imported.iter().find(|g| g.id == grab_id).expect("present");
    assert_eq!(row.download_client_id, Some(123));
}

#[test]
fn a_grab_for_an_unknown_series_is_refused() {
    let mut db = GrabStore::new();
    let r = record_grab(&mut db, &Vec::new(), "h", "n", 1, &[1], false, NOW);
    assert_eq!(r, Err(StoreError::MissingParent));
    let mut series = Vec::new();
    add_series(&mut series, 1, "Show");
    db.last_id = i64::MAX;
    let r = record_grab(&mut db, &series, "h", "n", 1, &[1], false, NOW);
    assert_eq!(r, Err(StoreError::Full));
}

#[test]
fn a_grab_that_failed_blocks_its_hash_until_it_is_taken_up_again() {
    let mut series = Vec::new();
    add_series(&mut series, 1, "Show");
    let mut db = GrabStore::new();
    let a = grab(&mut db, &series, "h", "a", &[1]);
    assert!(!is_blocklisted(&db, "h"));
    mark_failed(&mut db, a);
    assert!(is_blocklisted(&db, "h"));
    assert_eq!(get_blocked(&db, &series, "english").len(), 1);
    let b = grab(&mut db, &series, "h", "b", &[1]);
    assert_eq!(unblock_by_hash(&mut db, "h", b), 1);
    assert!(!is_blocklisted(&db, "h"));
    assert!(get_blocked(&db, &series, "english").is_empty());
    assert!(is_known_hash(&db, "h"));
    assert!(!is_known_hash(&db, "g"));
}

#[test]
fn pending_grabs_can_all_be_given_up() {
    let mut series = Vec::new();
    add_series(&mut series, 1, "Show");
    let mut db = GrabStore::new();
    let a = grab(&mut db, &series, "a", "a", &[1]);
    grab(&mut db, &series, "b", "b", &[2]);
    mark_imported(&mut db, a, NOW).unwrap();
    assert_eq!(mark_all_pending_failed(&mut db), 1);
    assert!(get_all_pending(&db).is_empty());
    assert_eq!(db.rows[0].state, "imported");
    assert_eq!(mark_failed_by_name(&mut db, 1, "a"), 1);
    assert_eq!(mark_failed_by_name(&mut db, 1, "c"), 0);
    assert_eq!(db.rows[0].state, "failed");
}

#[test]
fn two_active_grabs_of_a_hash_are_refused() {
    let mut series = Vec::new();
    add_series(&mut series, 1, "Show");
    let mut db = GrabStore::new();
    let a = grab(&mut db, &series, "h", "a", &[1]);
    mark_failed(&mut db, a);
    grab(&mut db, &series, "h", "b", &[1]);
    assert_eq!(mark_imported(&mut db, a, NOW), Err(StoreError::Duplicate));
    assert_eq!(db.rows[0].state, "failed");
    assert_eq!(mark_completed_no_import(&mut db, 99), Ok(()));
}

#[test]
fn the_paths_of_an_import_are_kept() {
    let mut series = Vec::new();
    add_series(&mut series, 1, "Show");
    let mut db = GrabStore::new();
    let a = grab(&mut db, &series, "h", "a", &[1]);
    assert!(get_imported_source_paths(&db, a).is_empty());
    let paths = vec!["/dl/a \"1\".mkv".to_string(), "/dl/\u{e9}.mkv".to_string()];
    stamp_imported_source_paths(&mut db, a, &paths);
    assert_eq!(get_imported_source_paths(&db, a), paths);
    assert_eq!(
        db.rows[0].imported_source_paths.as_deref(),
        Some("[\"/dl/a \\\"1\\\".mkv\",\"/dl/\u{e9}.mkv\"]")
    );
    mark_imported(&mut db, a, NOW).unwrap();
    assert_eq!(imported_source_paths_for_series(&db, 1).len(), 1);
    stamp_client_content_path(&mut db, a, "/dl/first");
    stamp_client_content_path(&mut db, a, "/dl/second");
    assert_eq!(get_client_content_path(&db, a), "/dl/first");
    assert_eq!(get_client_content_path(&db, 99), "");
}

#[test]
fn texts_that_are_no_lists_are_read_as_empty_ones() {
    let mut series = Vec::new();
    add_series(&mut series, 1, "Show");
    let mut db = GrabStore::new();
    let a = grab(&mut db, &series, "h", "a", &[1, -2]);
    assert_eq!(db.rows[0].episode_numbers, "[1,-2]");
    assert_eq!(get_all_pending(&db)[0].episode_numbers, vec![1, -2]);
    db.rows[0].episode_numbers = "[1,\"x\"]".to_string();
    assert_eq!(get_all_pending(&db)[0].episode_numbers.len(), 0);
    db.rows[0].imported_source_paths = Some("oops".to_string());
    assert!(get_imported_source_paths(&db, a).is_empty());
}

#[test]
fn grabs_reach_a_series_through_their_routes() {
    let mut series = Vec::new();
    add_series(&mut series, 1, "Parent");
    let sibling = add_series(&mut series, 2, "Sibling");
    let mut db = GrabStore::new();
    let a = grab(&mut db, &series, "h", "pack", &[1]);
    let route = |series_id: i64, eps: Vec<i32>, offset: i32| GrabSeriesRoute {
        grab_id: a,
        series_id,
        file_indices: vec![0],
        episode_numbers: eps,
        matched_subtitle: String::new(),
        episode_offset: offset,
    };
    record_grab_series_routes(&mut db, &series, &[route(sibling, vec![14], 13)]).unwrap();
    assert_eq!(find_pending_for_episode(&db, sibling, 14).unwrap().len(), 1);
    assert_eq!(get_series_routes_for_grabs(&db, &[a, 99]).len(), 1);
    let gone = record_grab_series_routes(&mut db, &series, &[route(77, vec![1], 0)]);
    assert_eq!(gone, Err(StoreError::MissingParent));
    remove(&mut db, a);
    assert!(db.rows.is_empty());
}

#[test]
fn what_is_known_of_the_grabs_of_a_series() {
    let mut series = Vec::new();
    add_series(&mut series, 1, "Show");
    let mut db = GrabStore::new();
    let a = grab(&mut db, &series, "h", "a", &[1]);
    set_download_client(&mut db, a, Some(3));
    assert_eq!(client_id_for_hash(&db, "h"), Some(3));
    assert_eq!(client_id_for_hash(&db, "x"), None);
    assert_eq!(get_is_batch_by_name(&db, 1, "a"), Some(false));
    assert_eq!(get_is_batch_by_name(&db, 1, "b"), None);
    assert_eq!(get_all_for_series(&db, 1), vec![(a, "h".to_string(), Some(3))]);
    mark_imported(&mut db, a, NOW).unwrap();
    assert_eq!(imported_grabs_for_series(&db, 1), vec![("a".to_string(), vec![1])]);
    assert_eq!(delete_all_for_series(&mut db, 1), 1);
    assert!(db.rows.is_empty());
}

#[test]
fn the_newest_grabs_come_first() {
    let mut series = Vec::new();
    add_series(&mut series, 1, "Show");
    let mut db = GrabStore::new();
    let a = grab(&mut db, &series, "a", "a", &[1]);
    let b = record_grab(&mut db, &series, "b", "b", 1, &[1], false, LATER).unwrap().unwrap();
    let ids: Vec<i64> =
        get_all_with_series(&db, &series, 10, "romaji").iter().map(|g| g.id).collect();
    assert_eq!(ids, vec![b, a]);
    assert_eq!(get_all_with_series(&db, &series, 1, "romaji").len(), 1);
}

#[test]
fn dropping_duplicates_leaves_one_active_grab_for_each_hash() {
    let mut series = Vec::new();
    add_series(&mut series, 1, "Show");
    let mut db = GrabStore::new();
    let a = grab(&mut db, &series, "a", "old", &[1]);
    grab(&mut db, &series, "b", "other", &[1]);
    let mut twin = db.rows[0].clone();
    twin.id = 9;
    twin.torrent_name = "new".to_string();
    db.rows.push(twin);
    db.last_id = 9;
    assert_eq!(drop_duplicate_grabs(&mut db), 1);
    let left: Vec<i64> =
        db.rows.iter().filter(|r| r.hash == "a" && r.state == "pending").map(|r| r.id).collect();
    assert_eq!(left, vec![a]);
    assert_eq!(drop_duplicate_grabs(&mut db), 0);
    assert!(db.check());
}

#[test]
fn a_list_that_cannot_be_read_is_an_error() {
    let mut series = Vec::new();
    add_series(&mut series, 1, "Show");
    add_series(&mut series, 2, "Other");
    let mut db = GrabStore::new();
    let id = grab(&mut db, &series, "a", "a", &[1, 2]);
    assert_eq!(find_pending_for_episode(&db, 1, 2).unwrap().len(), 1);
    for broken in ["", "[1", "1, 2", "[1 2]"] {
        db.rows[0].episode_numbers = broken.to_string();
        assert_eq!(find_pending_for_episode(&db, 1, 2).unwrap_err(), StoreError::Malformed);
        assert!(find_imported_for_episode(&db, 1, 2).unwrap().is_empty(), "another state");
        assert!(find_pending_for_episode(&db, 2, 2).unwrap().is_empty(), "another series");
    }
    db.rows[0].episode_numbers = " [1, 2] ".to_string();
    assert_eq!(find_pending_for_episode(&db, 1, 2).unwrap().len(), 1);
    db.routes.push(RouteRow {
        grab_id: id,
        series_id: 2,
        file_indices: "[]".to_string(),
        episode_numbers: "{".to_string(),
        matched_subtitle: String::new(),
        episode_offset: 0,
    });
    assert_eq!(find_pending_for_episode(&db, 2, 2).unwrap_err(), StoreError::Malformed);
    assert_eq!(find_pending_for_episode(&db, 1, 2).unwrap().len(), 1);
}

#[test]
fn a_number_is_found_in_any_json() {
    let mut series = Vec::new();
    add_series(&mut series, 1, "Show");
    let mut db = GrabStore::new();
    grab(&mut db, &series, "a", "a", &[1]);
    for (stored, episode, found) in [
        ("[1, null]", 1, true),
        ("[1, null]", 0, false),
        ("[1.0]", 1, true),
        ("[1.5]", 1, false),
        ("[12e0]", 12, true),
        ("[-3.0]", -3, true),
        ("[-3.0]", 3, false),
        ("[3.0]", -3, false),
        ("[-0.0]", 0, true),
        ("[0.5]", 0, false),
        ("[2147483647.0]", i32::MAX, true),
        ("[-2147483648.0]", i32::MIN, true),
        ("[2147483648.0]", i32::MIN, false),
        ("[1e300]", 0, false),
        ("[5e-324]", 0, false),
        ("[4294967297]", 1, false),
        ("[18446744073709551615]", -1, false),
        ("[true]", 1, true),
        ("[false]", 0, true),
        ("[true]", 0, false),
        ("[\"1\"]", 1, false),
        ("[[1]]", 1, false),
        ("{\"a\": 7, \"b\": 8}", 8, true),
        ("{\"8\": 7}", 8, false),
        ("3", 3, true),
        ("[]", 0, false),
    ] {
        db.rows[0].episode_numbers = stored.to_string();
        let hits = find_pending_for_episode(&db, 1, episode).unwrap();
        assert_eq!(hits.len() == 1, found, "{stored} {episode}");
    }
    db.rows[0].episode_numbers = "[1, null]".to_string();
    assert!(find_pending_for_episode(&db, 1, 1).unwrap()[0].episode_numbers.is_empty());
}
