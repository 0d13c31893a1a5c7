use ryokan::models::config::ConfigStore;
use ryokan::models::direct_rss_feeds::{
    delete, get_by_id, insert, list_all, list_enabled, record_poll_metrics,
    set_detected_protocol, update, DirectRssFeedForm, FeedStore,
};
use ryokan::models::download_clients::{self, ClientStore, DownloadClientForm};
use ryokan::models::grabbed_torrents::GrabStore;
use ryokan::models::indexers::IndexerStore;
use ryokan::models::StoreError;

const NOW: i64 = 1_700_000_000;

fn form<'a>(name: &'a str, url: &'a str) -> DirectRssFeedForm<'a> {
    DirectRssFeedForm {
        name,
        url,
        enabled: true,
        download_client_id: None,
        request_timeout_secs: None,
    }
}

fn qbit(clients: &mut ClientStore) -> i64 {
    download_clients::insert(
        clients,
        DownloadClientForm {
            name: "qbit",
            kind: "qbittorrent",
            url: "http://qbit",
            username: "",
            password: "",
            label: "",
            download_path: "",
            enabled: true,
            is_default: true,
        },
        NOW,
    )
    .unwrap()
}

#[test]
fn insert_then_list_round_trips() {
    let clients = ClientStore::new();
    let mut db = FeedStore::new();
    let id = insert(
        &mut db,
        &clients.rows,
        form("SubsPlease 1080p", "https://subsplease.org/rss/?t&r=1080"),
        NOW,
    )
    .unwrap();
    assert!(id > 0);

    let rows = list_all(&db);
    assert_eq!(rows.len(), 1);
    let r = &rows[0];
    assert_eq!(r.name, "SubsPlease 1080p");
    assert_eq!(r.url, "https://subsplease.org/rss/?t&r=1080");
    assert!(r.enabled);
    assert!(r.download_client_id.is_none());
    assert!(r.request_timeout_secs.is_none());
    assert_eq!(r.detected_protocol, "");
    assert!(r.last_polled_at.is_none());
    assert_eq!(r.last_poll_error, "");
    assert_eq!(r.last_item_count, 0);
    assert!(r.created_at > 0);
}

#[test]
fn url_uniqueness_prevents_duplicates() {
    let clients = ClientStore::new();
    let mut db = FeedStore::new();
    insert(&mut db, &clients.rows, form("First", "https://example.com/rss"), NOW).unwrap();
    let err = insert(&mut db, &clients.rows, form("Second", "https://example.com/rss"), NOW);
    assert!(err.is_err(), "duplicate URL must be rejected");
    assert_eq!(err, Err(StoreError::Duplicate));
}

#[test]
fn direct_rss_feeds_list_enabled_filters_disabled_rows() {
    let clients = ClientStore::new();
    let mut db = FeedStore::new();
    insert(&mut db, &clients.rows, form("Active", "https://a.example/rss"), NOW).unwrap();
    let off_id =
        insert(&mut db, &clients.rows, form("Inactive", "https://b.example/rss"), NOW).unwrap();
    update(
        &mut db,
        &clients.rows,
        off_id,
        DirectRssFeedForm {
            name: "Inactive",
            url: "https://b.example/rss",
            enabled: false,
            download_client_id: None,
            request_timeout_secs: None,
        },
        NOW,
    )
    .unwrap();

    let enabled = list_enabled(&db);
    assert_eq!(enabled.len(), 1);
    assert_eq!(enabled[0].name, "Active");
    assert_eq!(list_all(&db).len(), 2);
}

#[test]
fn get_by_id_returns_none_on_miss() {
    let db = FeedStore::new();
    assert!(get_by_id(&db, 9999).is_none());
}

#[test]
fn update_persists_download_client_pin_and_timeout_override() {
    let mut clients = ClientStore::new();
    let dc_id = qbit(&mut clients);
    let mut db = FeedStore::new();
    let id = insert(&mut db, &clients.rows, form("Feed", "https://example.com/v1"), NOW).unwrap();
    update(
        &mut db,
        &clients.rows,
        id,
        DirectRssFeedForm {
            name: "Feed (renamed)",
            url: "https://example.com/v2",
            enabled: true,
            download_client_id: Some(dc_id),
            request_timeout_secs: Some(45),
        },
        NOW,
    )
    .unwrap();

    let row = get_by_id(&db, id).unwrap();
    assert_eq!(row.name, "Feed (renamed)");
    assert_eq!(row.url, "https://example.com/v2");
    assert_eq!(row.download_client_id, Some(dc_id));
    assert_eq!(row.request_timeout_secs, Some(45));
}

#[test]
fn fk_set_null_on_download_client_delete_clears_pin() {
    let mut clients = ClientStore::new();
    let dc_id = qbit(&mut clients);
    let mut db = FeedStore::new();
    let id = insert(
        &mut db,
        &clients.rows,
        DirectRssFeedForm {
            name: "Feed",
            url: "https://example.com/feed",
            enabled: true,
            download_client_id: Some(dc_id),
            request_timeout_secs: None,
        },
        NOW,
    )
    .unwrap();

    let mut config = ConfigStore { row: None, nyaa_download_client_id: None };
    download_clients::delete(
        &mut clients,
        &mut IndexerStore::new(),
        &mut config,
        &mut GrabStore::new(),
        &mut db,
        dc_id,
    );

    let row = get_by_id(&db, id).unwrap();
    assert!(row.download_client_id.is_none(), "removing the client must clear the pin");
}

#[test]
fn set_detected_protocol_round_trips() {
    let clients = ClientStore::new();
    let mut db = FeedStore::new();
    let id = insert(&mut db, &clients.rows, form("Feed", "https://x.example/rss"), NOW).unwrap();
    set_detected_protocol(&mut db, id, "torrent", NOW);
    let row = get_by_id(&db, id).unwrap();
    assert_eq!(row.detected_protocol, "torrent");
}

#[test]
fn record_poll_metrics_writes_success_path() {
    let clients = ClientStore::new();
    let mut db = FeedStore::new();
    let id = insert(&mut db, &clients.rows, form("Feed", "https://x.example/rss"), NOW).unwrap();
    record_poll_metrics(&mut db, id, 12, "", NOW);
    let row = get_by_id(&db, id).unwrap();
    assert!(row.last_polled_at.unwrap_or(0) > 0);
    assert_eq!(row.last_poll_error, "");
    assert_eq!(row.last_item_count, 12);
}

#[test]
fn record_poll_metrics_resets_count_on_failure() {
    let clients = ClientStore::new();
    let mut db = FeedStore::new();
    let id = insert(&mut db, &clients.rows, form("Feed", "https://x.example/rss"), NOW).unwrap();
    record_poll_metrics(&mut db, id, 12, "", NOW);
    record_poll_metrics(&mut db, id, 0, "503 upstream", NOW);

    let row = get_by_id(&db, id).unwrap();
    assert_eq!(row.last_item_count, 0);
    assert_eq!(row.last_poll_error, "503 upstream");
}

#[test]
fn delete_drops_row() {
    let clients = ClientStore::new();
    let mut db = FeedStore::new();
    let id =
        insert(&mut db, &clients.rows, form("Doomed", "https://gone.example/rss"), NOW).unwrap();
    delete(&mut db, id);
    assert!(get_by_id(&db, id).is_none());
}

#[test]
fn a_failed_reading_found_nothing_whatever_it_says() {
    let clients = ClientStore::new();
    let mut db = FeedStore::new();
    let id = insert(&mut db, &clients.rows, form("Feed", "u"), NOW).unwrap();
    record_poll_metrics(&mut db, id, 7, "timeout", NOW);
    assert_eq!(get_by_id(&db, id).unwrap().last_item_count, 0);
}

#[test]
fn a_feed_cannot_be_pinned_to_a_client_that_is_not_there() {
    let clients = ClientStore::new();
    let mut db = FeedStore::new();
    let mut f = form("Feed", "u");
    f.download_client_id = Some(5);
    assert_eq!(insert(&mut db, &clients.rows, f, NOW), Err(StoreError::MissingParent));
    let id = insert(&mut db, &clients.rows, form("Feed", "u"), NOW).unwrap();
    assert_eq!(update(&mut db, &clients.rows, id, f, NOW), Err(StoreError::MissingParent));
    assert_eq!(update(&mut db, &clients.rows, 99, f, NOW), Ok(()));
}

#[test]
fn a_change_keeps_what_was_learnt_of_a_feed_and_refuses_a_taken_address() {
    let clients = ClientStore::new();
    let mut db = FeedStore::new();
    let a = insert(&mut db, &clients.rows, form("A", "a"), NOW).unwrap();
    insert(&mut db, &clients.rows, form("B", "b"), NOW).unwrap();
    set_detected_protocol(&mut db, a, "usenet", NOW);
    record_poll_metrics(&mut db, a, 3, "", NOW);
    assert_eq!(update(&mut db, &clients.rows, a, form("A", "b"), NOW), Err(StoreError::Duplicate));
    update(&mut db, &clients.rows, a, form("A2", "a"), NOW + 1).unwrap();
    let row = get_by_id(&db, a).unwrap();
    assert_eq!(row.name, "A2");
    assert_eq!(row.detected_protocol, "usenet");
    assert_eq!(row.last_item_count, 3);
    assert_eq!(row.updated_at, NOW + 1);
}

#[test]
fn no_feed_is_added_when_the_ids_are_used_up() {
    let mut db = FeedStore { feeds: Vec::new(), last_id: i64::MAX };
    assert_eq!(insert(&mut db, &Vec::new(), form("A", "a"), NOW), Err(StoreError::Full));
}
