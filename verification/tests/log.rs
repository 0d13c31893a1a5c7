use ryokan::models::log::{
    cleanup, count, entries_after, insert, latest_id, levels_at_or_above, query, LogCategory,
    LogLevel, LogQuery, LogStore,
};
use ryokan::models::StoreError;

const NOW: &str = "2024-06-01 00:00:00";

fn store() -> LogStore {
    let mut db = LogStore::new();
    insert(&mut db, LogLevel::Info, LogCategory::Search, "Found 3", "one 100% fit", NOW).unwrap();
    insert(&mut db, LogLevel::Warn, LogCategory::Grab, "Slow", "", NOW).unwrap();
    insert(&mut db, LogLevel::Error, LogCategory::Grab, "Failed", "no peers", NOW).unwrap();
    db
}

fn messages(db: &LogStore, q: LogQuery) -> Vec<String> {
    query(db, &q).into_iter().map(|e| e.message).collect()
}

#[test]
fn levels_and_categories_are_read_from_their_names() {
    for level in
        [LogLevel::Trace, LogLevel::Debug, LogLevel::Info, LogLevel::Warn, LogLevel::Error]
    {
        assert_eq!(LogLevel::from_str(level.as_str()), level);
        assert_eq!(LogLevel::from_str(&level.as_str().to_uppercase()), level);
    }
    assert_eq!(LogLevel::from_str("loud"), LogLevel::Info);
    for category in [
        LogCategory::Search,
        LogCategory::Grab,
        LogCategory::AutoSearch,
        LogCategory::Nyaa,
        LogCategory::AniList,
        LogCategory::Jikan,
        LogCategory::QBit,
        LogCategory::Jellyfin,
        LogCategory::Media,
        LogCategory::Library,
        LogCategory::Auth,
        LogCategory::System,
    ] {
        assert_eq!(LogCategory::from_str(category.as_str()), Some(category));
    }
    assert_eq!(LogCategory::from_str("not-a-category"), None);
    assert_eq!(LogCategory::QBit.label(), "qBittorrent");
    assert_eq!(LogCategory::AutoSearch.label(), "Auto Search");
}

#[test]
fn the_kelvin_sign_lowers_to_a_plain_letter() {
    assert_eq!("ji\u{212a}an".to_lowercase(), "jikan");
    assert_eq!(LogCategory::from_str("ji\u{212a}an"), Some(LogCategory::Jikan));
}

#[test]
fn a_level_stands_for_the_graver_ones_too() {
    assert_eq!(levels_at_or_above("warn"), vec!["warn", "error"]);
    assert_eq!(levels_at_or_above("ERROR"), vec!["error"]);
    assert_eq!(levels_at_or_above("none"), vec!["trace", "debug", "info", "warn", "error"]);
}

#[test]
fn a_query_gives_the_newest_entries_first() {
    let db = store();
    assert_eq!(messages(&db, LogQuery::default()), vec!["Failed", "Slow", "Found 3"]);
    assert_eq!(LogQuery::default().limit, 200);
    let q = LogQuery { level: Some("warn".into()), ..LogQuery::default() };
    assert_eq!(messages(&db, q), vec!["Failed", "Slow"]);
    let q = LogQuery { category: Some("search".into()), ..LogQuery::default() };
    assert_eq!(messages(&db, q), vec!["Found 3"]);
    let q = LogQuery { before_id: Some(2), ..LogQuery::default() };
    assert_eq!(messages(&db, q), vec!["Found 3"]);
    let q = LogQuery { limit: 1, ..LogQuery::default() };
    assert_eq!(messages(&db, q), vec!["Failed"]);
}

#[test]
fn a_search_is_for_a_part_of_the_texts() {
    let db = store();
    let search = |s: &str| LogQuery { search: Some(s.into()), ..LogQuery::default() };
    assert_eq!(messages(&db, search("PEERS")), vec!["Failed"]);
    assert_eq!(messages(&db, search("o_nd")), vec!["Found 3"]);
    assert_eq!(messages(&db, search("one%fit")), vec!["Found 3"]);
    assert!(messages(&db, search("peers!")).is_empty());
}

#[test]
fn nothing_comes_after_the_newest_entry() {
    let mut db = store();
    assert_eq!(count(&db), 3);
    assert_eq!(latest_id(&db), 3);
    assert!(entries_after(&db, latest_id(&db), 10).is_empty());
    let after: Vec<i64> = entries_after(&db, 1, 10).iter().map(|e| e.id).collect();
    assert_eq!(after, vec![3, 2]);
    assert_eq!(latest_id(&LogStore::new()), 0);
    db.entries[0].timestamp = "2024-01-01 00:00:00".into();
    assert_eq!(cleanup(&mut db, "2024-02-01 00:00:00"), 1);
    assert_eq!(count(&db), 2);
    assert!(db.check());
}

#[test]
fn no_entry_is_written_when_the_ids_are_used_up() {
    let mut db = LogStore { entries: Vec::new(), last_id: i64::MAX };
    let r = insert(&mut db, LogLevel::Info, LogCategory::System, "m", "d", NOW);
    assert_eq!(r, Err(StoreError::Full));
}
