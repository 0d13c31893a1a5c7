use ryokan::models::config::ConfigStore;
use ryokan::models::direct_rss_feeds::FeedStore;
use ryokan::models::download_clients::{
    delete, get_by_id, get_default, insert, list_all, list_enabled, set_default, update,
    ClientStore, DownloadClientForm,
};
use ryokan::models::grabbed_torrents::{record_grab, set_download_client, GrabStore};
use ryokan::models::indexers::{self, IndexerForm, IndexerStore, KIND_TORZNAB};
use ryokan::models::series::SeriesRow;
use ryokan::models::StoreError;

const NOW: i64 = 1_700_000_000;

fn form<'a>(name: &'a str, kind: &'a str, url: &'a str) -> DownloadClientForm<'a> {
    DownloadClientForm {
        name,
        kind,
        url,
        username: "",
        password: "",
        label: "",
        download_path: "",
        enabled: true,
        is_default: false,
    }
}

#[test]
fn insert_and_get_roundtrip() {
    let mut db = ClientStore::new();
    let id = insert(&mut db, form("Local qBit", "qbittorrent", "http://localhost:8080"), NOW)
        .unwrap();
    let row = get_by_id(&db, id).unwrap();
    assert_eq!(row.name, "Local qBit");
    assert_eq!(row.kind, "qbittorrent");
    assert_eq!(row.url, "http://localhost:8080");
    assert!(row.enabled);
    assert!(!row.is_default);
}

#[test]
fn insert_with_is_default_clears_prior_default() {
    let mut db = ClientStore::new();
    let mut f = form("First", "qbittorrent", "http://1");
    f.is_default = true;
    let first = insert(&mut db, f, NOW).unwrap();

    let mut f2 = form("Second", "deluge", "http://2");
    f2.is_default = true;
    let second = insert(&mut db, f2, NOW).unwrap();

    let first_row = get_by_id(&db, first).unwrap();
    let second_row = get_by_id(&db, second).unwrap();
    assert!(!first_row.is_default, "first must lose its default flag");
    assert!(second_row.is_default);

    let default_row = get_default(&db).unwrap();
    assert_eq!(default_row.id, second);
}

#[test]
fn set_default_is_idempotent_and_unique() {
    let mut db = ClientStore::new();
    let a = insert(&mut db, form("A", "qbittorrent", "http://a"), NOW).unwrap();
    let b = insert(&mut db, form("B", "deluge", "http://b"), NOW).unwrap();

    set_default(&mut db, a, NOW);
    set_default(&mut db, a, NOW);
    let default_row = get_default(&db).unwrap();
    assert_eq!(default_row.id, a);

    set_default(&mut db, b, NOW);
    assert_eq!(db.rows.iter().filter(|r| r.client.is_default).count(), 1);
}

#[test]
fn delete_nulls_out_indexer_and_nyaa_pins() {
    let mut db = ClientStore::new();
    let id = insert(&mut db, form("X", "qbittorrent", "http://x"), NOW).unwrap();

    let mut ix = IndexerStore::new();
    let indexer = indexers::insert(
        &mut ix,
        IndexerForm {
            name: "AB",
            kind: KIND_TORZNAB,
            url: "http://prowlarr/1/api",
            api_key: "k",
            priority: 25,
            enabled: true,
            is_private_tracker: false,
            seed_ratio: None,
            seed_time_minutes: None,
            min_seeders: 1,
            request_timeout_secs: None,
        },
        NOW,
    )
    .unwrap();
    indexers::set_download_client(&mut ix, indexer, Some(id));
    let mut config = ConfigStore { row: None, nyaa_download_client_id: Some(id) };

    delete(&mut db, &mut ix, &mut config, &mut GrabStore::new(), &mut FeedStore::new(), id);

    assert!(ix.rows[0].download_client_id.is_none(), "indexer pin must be cleared on delete");
    assert!(config.nyaa_download_client_id.is_none(), "Nyaa pin must be cleared on delete");
    assert!(get_by_id(&db, id).is_none());
}

#[test]
fn delete_nulls_out_grabbed_torrents_stamp() {
    let mut db = ClientStore::new();
    let id = insert(&mut db, form("X", "qbittorrent", "http://x"), NOW).unwrap();
    let series = vec![SeriesRow {
        id: 1,
        anilist_id: 1,
        title: "Show".to_string(),
        title_english: "Show".to_string(),
        title_romaji: "Show".to_string(),
        title_native: String::new(),
        cover_url: String::new(),
        folder_name: String::new(),
        user_score: None,
        synced_from_external_account_id: None,
    }];
    let mut grabs = GrabStore::new();
    let grab_id = record_grab(
        &mut grabs,
        &series,
        "deadbeef",
        "[Group] Show - 01.mkv",
        1,
        &[1],
        false,
        "2024-01-01 00:00:00",
    )
    .expect("record")
    .expect("inserted");
    set_download_client(&mut grabs, grab_id, Some(id));
    assert_eq!(grabs.rows[0].download_client_id, Some(id));

    let mut config = ConfigStore { row: None, nyaa_download_client_id: None };
    delete(
        &mut db,
        &mut IndexerStore::new(),
        &mut config,
        &mut grabs,
        &mut FeedStore::new(),
        id,
    );
    assert!(grabs.rows[0].download_client_id.is_none());
}

#[test]
fn download_clients_list_enabled_filters_disabled_rows() {
    let mut db = ClientStore::new();
    insert(&mut db, form("On", "qbittorrent", "http://a"), NOW).unwrap();
    let mut off = form("Off", "deluge", "http://b");
    off.enabled = false;
    insert(&mut db, off, NOW).unwrap();

    let enabled = list_enabled(&db);
    assert_eq!(enabled.len(), 1);
    assert_eq!(enabled[0].name, "On");
}

#[test]
fn update_round_trip() {
    let mut db = ClientStore::new();
    let id = insert(&mut db, form("Initial", "qbittorrent", "http://1"), NOW).unwrap();
    let mut f = form("Renamed", "deluge", "http://2");
    f.username = "u";
    f.password = "p";
    f.label = "ryokan";
    update(&mut db, id, f, NOW);
    let row = get_by_id(&db, id).unwrap();
    assert_eq!(row.name, "Renamed");
    assert_eq!(row.kind, "deluge");
    assert_eq!(row.url, "http://2");
    assert_eq!(row.username, "u");
    assert_eq!(row.password, "p");
    assert_eq!(row.label, "ryokan");
}

#[test]
fn list_all_orders_default_first_then_alphabetical() {
    let mut db = ClientStore::new();
    insert(&mut db, form("zeta", "qbittorrent", "http://z"), NOW).unwrap();
    insert(&mut db, form("alpha", "deluge", "http://a"), NOW).unwrap();
    let mut def = form("middle", "transmission", "http://m");
    def.is_default = true;
    insert(&mut db, def, NOW).unwrap();

    let rows = list_all(&db);
    assert_eq!(rows[0].name, "middle");
    assert_eq!(rows[1].name, "alpha");
    assert_eq!(rows[2].name, "zeta");
}

#[test]
fn names_are_listed_in_any_case() {
    let mut db = ClientStore::new();
    for name in ["b", "A", "C"] {
        insert(&mut db, form(name, "k", "u"), NOW).unwrap();
    }
    let names: Vec<String> = list_all(&db).into_iter().map(|r| r.name).collect();
    assert_eq!(names, vec!["A", "b", "C"]);
}

#[test]
fn texts_are_trimmed_but_for_the_password() {
    let mut db = ClientStore::new();
    let id = insert(
        &mut db,
        DownloadClientForm {
            name: " n ",
            kind: " k ",
            url: " http://x/ ",
            username: "\tu ",
            password: " p ",
            label: " l\n",
            download_path: " /data/dl// ",
            enabled: true,
            is_default: false,
        },
        NOW,
    )
    .unwrap();
    let row = get_by_id(&db, id).unwrap();
    assert_eq!(row.name, "n");
    assert_eq!(row.kind, " k ");
    assert_eq!(row.url, "http://x/");
    assert_eq!(row.username, "u");
    assert_eq!(row.password, " p ");
    assert_eq!(row.label, "l");
    assert_eq!(row.download_path, "/data/dl");
}

#[test]
fn a_change_can_move_the_default() {
    let mut db = ClientStore::new();
    let mut f = form("A", "k", "u");
    f.is_default = true;
    let a = insert(&mut db, f, NOW).unwrap();
    let b = insert(&mut db, form("B", "k", "u"), NOW).unwrap();
    update(&mut db, b, f, NOW);
    assert!(!get_by_id(&db, a).unwrap().is_default);
    assert_eq!(get_default(&db).unwrap().id, b);
}

#[test]
fn making_an_unknown_client_the_default_leaves_none() {
    let mut db = ClientStore::new();
    let mut f = form("A", "k", "u");
    f.is_default = true;
    insert(&mut db, f, NOW).unwrap();
    set_default(&mut db, 99, NOW);
    assert!(get_default(&db).is_none());
}

#[test]
fn no_client_is_added_when_the_ids_are_used_up() {
    let mut db = ClientStore { rows: Vec::new(), last_id: i64::MAX };
    assert_eq!(insert(&mut db, form("A", "k", "u"), NOW), Err(StoreError::Full));
}
