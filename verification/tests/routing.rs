use ryokan::models::indexers::{insert, set_download_client, IndexerForm, IndexerStore};
use ryokan::routing::DownloadClientPool;

fn pool(default_id: Option<i64>) -> DownloadClientPool<String> {
    let mut p = DownloadClientPool::default();
    p.clients.insert(1, "qbit".to_string());
    p.clients.insert(2, "deluge".to_string());
    p.default_id = default_id;
    p
}

fn indexers(pin: Option<i64>) -> IndexerStore {
    let mut db = IndexerStore::new();
    let form = IndexerForm {
        name: "AB",
        kind: "torznab",
        url: "u",
        api_key: "k",
        priority: 25,
        enabled: true,
        is_private_tracker: false,
        seed_ratio: None,
        seed_time_minutes: None,
        min_seeders: 1,
        request_timeout_secs: None,
    };
    let id = insert(&mut db, form, 0).unwrap();
    set_download_client(&mut db, id, pin);
    db
}

#[test]
fn a_find_goes_to_the_client_it_is_pinned_to() {
    let p = pool(Some(1));
    let ix = indexers(Some(2));
    let (c, id) = p.client_for_indexer_with_id(&ix.rows, Some(1)).unwrap();
    assert_eq!((c.as_str(), id), ("deluge", 2));
    assert_eq!(p.client_for_nyaa(Some(2)).unwrap(), "deluge");
    assert_eq!(p.client_by_id(2).unwrap(), "deluge");
}

#[test]
fn a_find_without_a_pin_or_with_a_lost_one_goes_to_the_default() {
    let p = pool(Some(1));
    assert_eq!(p.client_for_indexer(&indexers(None).rows, Some(1)).unwrap(), "qbit");
    assert_eq!(p.client_for_indexer(&indexers(Some(9)).rows, Some(1)).unwrap(), "qbit");
    assert_eq!(p.client_for_indexer(&indexers(Some(2)).rows, Some(7)).unwrap(), "qbit");
    assert_eq!(p.client_for_indexer(&indexers(Some(2)).rows, None).unwrap(), "qbit");
    assert_eq!(p.client_for_nyaa_with_id(Some(9)).unwrap().1, 1);
    assert_eq!(p.default_download_client_with_id().unwrap().1, 1);
    assert_eq!(p.default_download_client().unwrap(), "qbit");
}

#[test]
fn without_a_default_only_a_pin_helps() {
    for p in [pool(None), pool(Some(9))] {
        assert!(p.default_download_client().is_none());
        assert!(p.client_for_nyaa(None).is_none());
        assert!(p.client_for_nyaa(Some(8)).is_none());
        assert_eq!(p.client_for_nyaa(Some(2)).unwrap(), "deluge");
        assert!(p.client_by_id(9).is_none());
    }
}
