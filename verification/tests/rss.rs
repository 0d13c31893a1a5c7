use ryokan::models::rss::{
    cleanup_old_decisions, clear_all_history, clear_grab_history, finish_run, grabbed_item_keys,
    grabbed_item_keys_scoped, grabbed_titles, latest_run, recent_decisions,
    recent_decisions_paginated, record_decision, start_run, DecisionRecord, RssStore, RunSummary,
};
use ryokan::models::StoreError;

const NOW: &str = "2024-06-01 00:00:00";
const DAYS_AGO_5: &str = "2024-05-27 00:00:00";
const DAYS_AGO_30: &str = "2024-05-02 00:00:00";
const DAYS_AGO_35: &str = "2024-04-27 00:00:00";
const DAYS_AGO_60: &str = "2024-04-02 00:00:00";

fn record<'a>(item_key: &'a str, title: &'a str, decision: &'a str) -> DecisionRecord<'a> {
    DecisionRecord {
        item_key,
        title,
        link: "https://nyaa.si/view/123",
        series_id: None,
        series_title: "Show",
        group_name: "GroupX",
        is_batch: false,
        decision,
        reason: "test",
        source: "nyaa",
        source_id: None,
    }
}

fn decide(db: &mut RssStore, item_key: &str, title: &str, decision: &str) {
    record_decision(db, &Vec::new(), record(item_key, title, decision), NOW).unwrap();
}

#[test]
fn start_run_then_finish_run_round_trips_summary() {
    let mut db = RssStore::new();
    let id = start_run(&mut db, "scheduled", NOW).unwrap();
    finish_run(
        &mut db,
        id,
        RunSummary {
            status: "ok",
            items_seen: 100,
            matched: 5,
            grabbed: 3,
            skipped: 2,
            detail: "done",
        },
        NOW,
    );

    let run = latest_run(&db).expect("a run");
    assert_eq!(run.id, id);
    assert_eq!(run.trigger_source, "scheduled");
    assert_eq!(run.status, "ok");
    assert_eq!(run.items_seen, 100);
    assert_eq!(run.matched, 5);
    assert_eq!(run.grabbed, 3);
    assert_eq!(run.skipped, 2);
    assert_eq!(run.detail, "done");
    assert!(!run.finished_at.is_empty());
}

#[test]
fn latest_run_returns_none_on_empty_table() {
    let db = RssStore::new();
    assert!(latest_run(&db).is_none());
}

#[test]
fn latest_run_returns_most_recent_by_id() {
    let mut db = RssStore::new();
    let _first = start_run(&mut db, "scheduled", NOW).unwrap();
    let second = start_run(&mut db, "manual", NOW).unwrap();
    let run = latest_run(&db).expect("latest");
    assert_eq!(run.id, second);
    assert_eq!(run.trigger_source, "manual");
    assert!(run.finished_at.is_empty());
}

#[test]
fn record_decision_inserts_row_and_upserts_on_conflict() {
    let mut db = RssStore::new();
    decide(&mut db, "guid:1", "Title v1", "skipped");
    decide(&mut db, "guid:1", "Title v2", "grabbed");

    let recents = recent_decisions(&db, 10);
    assert_eq!(recents.len(), 1);
    assert_eq!(recents[0].title, "Title v2");
    assert_eq!(recents[0].decision, "grabbed");
}

#[test]
fn grabbed_item_keys_returns_only_grabbed() {
    let mut db = RssStore::new();
    decide(&mut db, "k:1", "Grabbed", "grabbed");
    decide(&mut db, "k:2", "Skipped", "skipped");
    decide(&mut db, "k:3", "Failed", "failed");

    let keys = grabbed_item_keys(&db);
    assert_eq!(keys.len(), 1);
    assert!(keys.contains(&"k:1".to_string()));
}

#[test]
fn recent_decisions_orders_desc_and_respects_limit() {
    let mut db = RssStore::new();
    for i in 0..5 {
        decide(&mut db, &format!("k:{i}"), &format!("Title {i}"), "grabbed");
    }
    let rows = recent_decisions(&db, 3);
    assert_eq!(rows.len(), 3);
    assert_eq!(rows[0].title, "Title 4");
    assert_eq!(rows[2].title, "Title 2");
}

#[test]
fn recent_decisions_paginated_skips_entries_at_or_above_cursor() {
    let mut db = RssStore::new();
    for i in 0..6 {
        decide(&mut db, &format!("k:{i}"), &format!("Title {i}"), "grabbed");
    }
    let first_page = recent_decisions_paginated(&db, 3, None);
    assert_eq!(first_page.len(), 3);
    assert_eq!(first_page[0].title, "Title 5");
    assert_eq!(first_page[2].title, "Title 3");

    let cursor = first_page.last().unwrap().id;
    let second_page = recent_decisions_paginated(&db, 3, Some(cursor));
    assert_eq!(second_page.len(), 3);
    assert_eq!(second_page[0].title, "Title 2");
    assert!(
        !second_page.iter().any(|r| r.title == "Title 3"),
        "boundary row at the cursor must NOT appear on the next page"
    );
}

#[test]
fn recent_decisions_paginated_returns_empty_when_cursor_past_oldest() {
    let mut db = RssStore::new();
    decide(&mut db, "only", "Only", "grabbed");
    let only = recent_decisions_paginated(&db, 10, None);
    let cursor = only[0].id;
    let past = recent_decisions_paginated(&db, 10, Some(cursor));
    assert!(past.is_empty(), "cursor at the oldest row's id must return empty page");
}

#[test]
fn grabbed_titles_returns_only_grabbed_in_recent_first_order() {
    let mut db = RssStore::new();
    decide(&mut db, "k:1", "First", "grabbed");
    decide(&mut db, "k:2", "Skipped", "skipped");
    decide(&mut db, "k:3", "Second", "grabbed");

    let titles = grabbed_titles(&db, 10);
    assert_eq!(titles, vec!["Second".to_string(), "First".to_string()]);
}

#[test]
fn cleanup_old_decisions_removes_only_aged_rows() {
    let mut db = RssStore::new();
    decide(&mut db, "k:5d", "Recent", "grabbed");
    decide(&mut db, "k:35d", "Older", "grabbed");
    decide(&mut db, "k:60d", "Oldest", "grabbed");
    db.seen[0].created_at = DAYS_AGO_5.to_string();
    db.seen[1].created_at = DAYS_AGO_35.to_string();
    db.seen[2].created_at = DAYS_AGO_60.to_string();

    let removed = cleanup_old_decisions(&mut db, DAYS_AGO_30);
    assert_eq!(removed, 2);

    let remaining = recent_decisions(&db, 10);
    assert_eq!(remaining.len(), 1);
    assert_eq!(remaining[0].title, "Recent");
}

#[test]
fn clear_grab_history_only_removes_grabbed_rows() {
    let mut db = RssStore::new();
    decide(&mut db, "k:1", "G", "grabbed");
    decide(&mut db, "k:2", "S", "skipped");

    let removed = clear_grab_history(&mut db);
    assert_eq!(removed, 1);

    let remaining = recent_decisions(&db, 10);
    assert_eq!(remaining.len(), 1);
    assert_eq!(remaining[0].decision, "skipped");
}

#[test]
fn clear_all_history_drops_every_row() {
    let mut db = RssStore::new();
    decide(&mut db, "k:1", "G", "grabbed");
    decide(&mut db, "k:2", "S", "skipped");

    let removed = clear_all_history(&mut db);
    assert_eq!(removed, 2);
    assert!(recent_decisions(&db, 10).is_empty());
}

#[test]
fn deciding_again_keeps_the_place_of_an_item() {
    let mut db = RssStore::new();
    decide(&mut db, "k:1", "A", "skipped");
    decide(&mut db, "k:2", "B", "skipped");
    decide(&mut db, "k:1", "A2", "grabbed");
    let titles: Vec<String> = recent_decisions(&db, 10).into_iter().map(|d| d.title).collect();
    assert_eq!(titles, vec!["B", "A2"]);
    assert!(db.check());
}

#[test]
fn a_limit_below_zero_is_none() {
    let mut db = RssStore::new();
    decide(&mut db, "k:1", "A", "grabbed");
    decide(&mut db, "k:2", "B", "grabbed");
    assert_eq!(recent_decisions(&db, -1).len(), 2);
    assert_eq!(recent_decisions(&db, 0).len(), 0);
}

#[test]
fn a_decision_about_an_unknown_series_is_refused() {
    let mut db = RssStore::new();
    let mut r = record("k", "t", "grabbed");
    r.series_id = Some(7);
    assert_eq!(record_decision(&mut db, &Vec::new(), r, NOW), Err(StoreError::MissingParent));
    assert!(db.seen.is_empty());
}

#[test]
fn no_run_starts_when_the_ids_are_used_up() {
    let mut db = RssStore::new();
    db.last_run_id = i64::MAX;
    assert_eq!(start_run(&mut db, "manual", NOW), Err(StoreError::Full));
    db.last_seen_id = i64::MAX;
    let r = record_decision(&mut db, &Vec::new(), record("k", "t", "grabbed"), NOW);
    assert_eq!(r, Err(StoreError::Full));
}

#[test]
fn grabbed_items_are_told_apart_by_their_source() {
    let mut db = RssStore::new();
    let mut r = record("k", "t", "grabbed");
    r.source = "direct_rss";
    r.source_id = Some(4);
    record_decision(&mut db, &Vec::new(), r, NOW).unwrap();
    assert_eq!(
        grabbed_item_keys_scoped(&db),
        vec![("k".to_string(), "direct_rss".to_string(), Some(4))]
    );
}

#[test]
fn the_pages_list_every_decision_once() {
    for rows in 0..8 {
        for limit in 1..5 {
            let mut db = RssStore::new();
            for i in 0..rows {
                decide(&mut db, &format!("key-{i}"), "Title", "skipped");
            }
            let mut sizes: Vec<i64> = Vec::new();
            let mut ids: Vec<i64> = Vec::new();
            let mut cursor = None;
            loop {
                let page = recent_decisions_paginated(&db, limit, cursor);
                if page.is_empty() {
                    break;
                }
                sizes.push(page.len() as i64);
                ids.extend(page.iter().map(|d| d.id));
                cursor = Some(page[page.len() - 1].id);
            }
            let mut expected: Vec<i64> = db.seen.iter().map(|r| r.id).collect();
            expected.reverse();
            assert_eq!(ids, expected);
            for k in 1..sizes.len() {
                assert_eq!(sizes[k - 1], limit);
            }
        }
    }
}
