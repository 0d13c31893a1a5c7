use ryokan::models::indexers::{
    delete, forget_client, get_by_id, insert, list_all, list_enabled, set_download_client, update,
    update_caps, IndexerForm, IndexerStore, KIND_NEWZNAB, KIND_TORZNAB,
};
use ryokan::models::StoreError;

const NOW: i64 = 1_700_000_000;

fn sample_form<'a>() -> IndexerForm<'a> {
    IndexerForm {
        name: "Test Indexer",
        kind: KIND_TORZNAB,
        url: "https://prowlarr.local/1/api",
        api_key: "secret",
        priority: 25,
        enabled: true,
        is_private_tracker: false,
        seed_ratio: None,
        seed_time_minutes: None,
        min_seeders: 1,
        request_timeout_secs: None,
    }
}

#[test]
fn insert_then_get_round_trips_fields() {
    let mut db = IndexerStore::new();
    let id = insert(&mut db, sample_form(), NOW).unwrap();
    let row = get_by_id(&db, id).expect("row exists");
    assert_eq!(row.name, "Test Indexer");
    assert_eq!(row.kind, KIND_TORZNAB);
    assert_eq!(row.url, "https://prowlarr.local/1/api");
    assert_eq!(row.api_key, "secret");
    assert_eq!(row.priority, 25);
    assert!(row.enabled);
    assert!(!row.is_private_tracker);
    assert_eq!(row.seed_ratio, None);
    assert_eq!(row.min_seeders, 1);
}

#[test]
fn list_all_orders_by_priority_ascending() {
    let mut db = IndexerStore::new();
    let mut high_prio = sample_form();
    high_prio.name = "High Priority";
    high_prio.priority = 5;
    let mut low_prio = sample_form();
    low_prio.name = "Low Priority";
    low_prio.priority = 50;
    insert(&mut db, low_prio, NOW).unwrap();
    insert(&mut db, high_prio, NOW).unwrap();

    let rows = list_all(&db);
    assert_eq!(rows.len(), 2);
    assert_eq!(rows[0].name, "High Priority");
    assert_eq!(rows[1].name, "Low Priority");
}

#[test]
fn indexers_list_enabled_filters_disabled_rows() {
    let mut db = IndexerStore::new();
    let mut on = sample_form();
    on.name = "On";
    on.enabled = true;
    let mut off = sample_form();
    off.name = "Off";
    off.enabled = false;
    insert(&mut db, on, NOW).unwrap();
    insert(&mut db, off, NOW).unwrap();

    let enabled = list_enabled(&db);
    assert_eq!(enabled.len(), 1);
    assert_eq!(enabled[0].name, "On");
}

#[test]
fn update_changes_fields_and_bumps_updated_at() {
    let mut db = IndexerStore::new();
    let id = insert(&mut db, sample_form(), NOW).unwrap();
    let original_updated_at = get_by_id(&db, id).unwrap().updated_at;

    let mut edited = sample_form();
    edited.name = "Renamed";
    edited.priority = 10;
    edited.enabled = false;
    update(&mut db, id, edited, NOW + 1);

    let row = get_by_id(&db, id).unwrap();
    assert_eq!(row.name, "Renamed");
    assert_eq!(row.priority, 10);
    assert!(!row.enabled);
    assert!(row.updated_at >= original_updated_at, "updated_at must not regress");
    assert_eq!(row.updated_at, NOW + 1);
    assert_eq!(row.created_at, NOW);
}

#[test]
fn indexers_delete_removes_row() {
    let mut db = IndexerStore::new();
    let id = insert(&mut db, sample_form(), NOW).unwrap();
    assert!(get_by_id(&db, id).is_some());
    delete(&mut db, id);
    assert!(get_by_id(&db, id).is_none());
}

#[test]
fn update_caps_persists_json_and_timestamp() {
    let mut db = IndexerStore::new();
    let id = insert(&mut db, sample_form(), NOW).unwrap();
    let pre = get_by_id(&db, id).unwrap();
    assert_eq!(pre.caps_json, "");
    assert!(pre.caps_refreshed_at.is_none());

    update_caps(&mut db, id, r#"{"limits":{"max":100}}"#, NOW);
    let post = get_by_id(&db, id).unwrap();
    assert_eq!(post.caps_json, r#"{"limits":{"max":100}}"#);
    assert!(post.caps_refreshed_at.is_some());
}

#[test]
fn indexers_of_one_priority_are_asked_by_id() {
    let mut db = IndexerStore::new();
    let a = insert(&mut db, sample_form(), NOW).unwrap();
    let mut f = sample_form();
    f.name = "A";
    let b = insert(&mut db, f, NOW).unwrap();
    let ids: Vec<i64> = list_all(&db).iter().map(|i| i.id).collect();
    assert_eq!(ids, vec![a, b]);
}

#[test]
fn an_edit_of_an_indexer_keeps_what_it_told() {
    let mut db = IndexerStore::new();
    let id = insert(&mut db, sample_form(), NOW).unwrap();
    update_caps(&mut db, id, "{}", NOW);
    set_download_client(&mut db, id, Some(3));
    let mut f = sample_form();
    f.kind = KIND_NEWZNAB;
    update(&mut db, id, f, NOW + 1);
    assert_eq!(get_by_id(&db, id).unwrap().caps_json, "{}");
    assert_eq!(db.rows[0].download_client_id, Some(3));
    forget_client(&mut db, 4);
    assert_eq!(db.rows[0].download_client_id, Some(3));
    forget_client(&mut db, 3);
    assert_eq!(db.rows[0].download_client_id, None);
    assert!(db.check());
}

#[test]
fn an_id_is_not_given_twice() {
    let mut db = IndexerStore::new();
    let a = insert(&mut db, sample_form(), NOW).unwrap();
    delete(&mut db, a);
    assert_ne!(insert(&mut db, sample_form(), NOW).unwrap(), a);
    let mut full = IndexerStore { rows: Vec::new(), last_id: i64::MAX };
    assert_eq!(insert(&mut full, sample_form(), NOW), Err(StoreError::Full));
}

#[test]
fn a_ratio_that_is_no_number_counts_as_none() {
    let mut db = IndexerStore::new();
    for (given, kept) in [
        (Some(f64::NAN), None),
        (Some(-f64::NAN), None),
        (Some(f64::INFINITY), Some(f64::INFINITY)),
        (Some(1.5), Some(1.5)),
        (None, None),
    ] {
        let mut form = sample_form();
        form.seed_ratio = given.map(f64::to_bits);
        let id = insert(&mut db, form, NOW).unwrap();
        assert_eq!(get_by_id(&db, id).unwrap().seed_ratio.map(f64::from_bits), kept);
        let mut form = sample_form();
        form.seed_ratio = given.map(f64::to_bits);
        update(&mut db, id, form, NOW);
        assert_eq!(get_by_id(&db, id).unwrap().seed_ratio.map(f64::from_bits), kept);
    }
}
