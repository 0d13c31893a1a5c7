use ryokan::models::episode_tags::{
    clear_episode_tag, clear_tags_for_removal, get_for_series, get_grab_history, get_needs_review,
    label, mark_completed, mark_grab_failed, mark_grab_history_completed, record_grab,
    set_manual_override, update_classification, ClassificationResult, TagStore,
};
use ryokan::models::series::SeriesRow;
use ryokan::models::StoreError;
use ryokan::source::{Resolution, Source, WebKind};

const NOW: &str = "2024-06-01 00:00:00";
const LATER: &str = "2024-06-01 00:00:01";

fn show() -> Vec<SeriesRow> {
    vec![SeriesRow {
        id: 1,
        anilist_id: 10,
        title: "Show".into(),
        title_english: "The Show".into(),
        title_romaji: String::new(),
        title_native: String::new(),
        cover_url: String::new(),
        folder_name: String::new(),
        user_score: None,
        synced_from_external_account_id: None,
    }]
}

fn verdict(source: &str, resolution: &str, needs_review: bool) -> ClassificationResult {
    ClassificationResult {
        source: Source::from_str(source),
        resolution: Resolution::from_str(resolution),
        is_remux: false,
        is_bdmv: false,
        web_kind: WebKind::Unspecified,
        confidence: 0.9f32.to_bits(),
        needs_review,
        evidence: "[]".into(),
    }
}

fn grab(db: &mut TagStore, c: &ClassificationResult, title: &str, now: &str) -> i64 {
    record_grab(db, &show(), 1, 1, c, title, "Group", 100, false, now).unwrap()
}

#[test]
fn labels_name_source_and_resolution() {
    for (source, resolution, kind, remux, raw, expected) in [
        ("BluRay", "1080p", "", true, false, "BD-1080p Remux"),
        ("BluRay", "1080p", "", true, true, "BD-1080p RAW"),
        ("BluRay", "1080p", "", false, false, "BD-1080p"),
        ("Web", "720p", "", true, true, "WEB-720p"),
        ("Web", "720p", "WEBRip", false, false, "WEBRip-720p"),
        ("HDTV", "720p", "", false, false, "HDTV-720p"),
        ("Unknown", "1080p", "", false, false, "1080p"),
        ("Unknown", "Unknown", "", false, false, "Unknown"),
        ("", "", "", false, false, "Unknown"),
        ("DVD", "", "", false, false, "DVD"),
    ] {
        assert_eq!(label(source, resolution, kind, remux, raw), expected);
    }
}

#[test]
fn a_grab_is_written_to_the_tag_and_to_the_history() {
    let mut db = TagStore::new();
    let first = grab(&mut db, &verdict("Web", "720p", true), "Release A", NOW);
    let second = grab(&mut db, &verdict("BluRay", "1080p", false), "Release B", LATER);
    let tags = get_for_series(&db, 1);
    assert_eq!(tags.len(), 1);
    assert_eq!(tags[&1].quality_tag, "BD-1080p");
    assert_eq!(tags[&1].release_title, "Release B");
    assert_eq!(tags[&1].state, "grabbed");
    let history = get_grab_history(&db, 1, 1);
    let ids: Vec<i64> = history.iter().map(|h| h.id).collect();
    assert_eq!(ids, vec![second, first]);
    assert_eq!(history[0].file_name, "Release B");
    assert!(db.check());
}

#[test]
fn what_the_user_set_is_not_overwritten() {
    let mut db = TagStore::new();
    set_manual_override(&mut db, &show(), 1, 1, "BluRay", "1080p", true, false, "", NOW).unwrap();
    grab(&mut db, &verdict("Web", "720p", false), "Release", NOW);
    update_classification(&mut db, 1, 1, &verdict("DVD", "480p", false), NOW).unwrap();
    let tags = get_for_series(&db, 1);
    assert_eq!(tags[&1].quality_tag, "BD-1080p Remux");
    assert!(tags[&1].manual_override);
    assert_eq!(f32::from_bits(tags[&1].classification_confidence), 1.0);
    set_manual_override(&mut db, &show(), 1, 1, "", "", false, false, "", NOW).unwrap();
    update_classification(&mut db, 1, 1, &verdict("DVD", "480p", false), NOW).unwrap();
    assert_eq!(get_for_series(&db, 1)[&1].quality_tag, "DVD-480p");
}

#[test]
fn a_grab_of_an_unknown_series_is_not_recorded() {
    let mut db = TagStore::new();
    let c = verdict("Web", "720p", false);
    let r = record_grab(&mut db, &Vec::new(), 1, 1, &c, "t", "g", 0, false, NOW);
    assert_eq!(r, Err(StoreError::MissingParent));
    let r = set_manual_override(&mut db, &Vec::new(), 1, 1, "Web", "", false, false, "", NOW);
    assert_eq!(r, Err(StoreError::MissingParent));
    db.last_id = i64::MAX;
    let r = record_grab(&mut db, &show(), 1, 1, &c, "t", "g", 0, false, NOW);
    assert_eq!(r, Err(StoreError::Full));
}

#[test]
fn an_import_completes_the_tag_and_the_history() {
    let mut db = TagStore::new();
    grab(&mut db, &verdict("Web", "720p", false), "Release", NOW);
    mark_completed(&mut db, 1, &[1, 2], LATER);
    mark_grab_history_completed(&mut db, 1, 1, "Show - 01.mkv", 4096);
    assert_eq!(get_for_series(&db, 1)[&1].state, "completed");
    let h = &get_grab_history(&db, 1, 1)[0];
    assert_eq!(h.state, "completed");
    assert_eq!(h.file_name, "Show - 01.mkv");
    assert_eq!(h.size_bytes, 4096);
    clear_episode_tag(&mut db, 1, 1);
    assert!(!get_for_series(&db, 1).contains_key(&1));
}

#[test]
fn a_failed_grab_is_marked_in_the_history() {
    let mut db = TagStore::new();
    let id = grab(&mut db, &verdict("Web", "720p", false), "Release", NOW);
    mark_grab_failed(&mut db, id, LATER).unwrap();
    assert_eq!(get_grab_history(&db, 1, 1)[0].state, "failed");
    clear_tags_for_removal(&mut db, 1, &[1]);
    assert!(db.check());
}

#[test]
fn doubtful_classifications_are_listed_with_their_series() {
    let mut db = TagStore::new();
    grab(&mut db, &verdict("Web", "720p", true), "Release", NOW);
    let list = get_needs_review(&db, &show());
    assert_eq!(list.len(), 1);
    assert_eq!(list[0].series_anilist_id, 10);
    assert_eq!(list[0].episode_number, 1);
    assert!(get_needs_review(&db, &Vec::new()).is_empty());
    set_manual_override(&mut db, &show(), 1, 1, "Web", "720p", false, false, "", NOW).unwrap();
    assert!(get_needs_review(&db, &show()).is_empty());
}

#[test]
fn what_the_user_says_is_stored_under_its_names() {
    for (source, resolution, kind, stored, label) in [
        ("bluray", "1080P", "", ("BluRay", "1080p", ""), "BD-1080p"),
        ("Blu-Ray", "2160p", "", ("BluRay", "2160p", ""), "BD-2160p"),
        ("bd", "576p", "webrip", ("BluRay", "576p", "WEBRip"), "BD-576p"),
        ("WEB", "720p", "web-rip", ("Web", "720p", "WEBRip"), "WEBRip-720p"),
        ("web", "720p", "webdl", ("Web", "720p", "WEB-DL"), "WEB-720p"),
        ("dvd", "4K", "?", ("DVD", "Unknown", ""), "DVD"),
        ("hdtv", "480p", "", ("HDTV", "480p", ""), "HDTV-480p"),
        ("Laserdisc", "480p", "", ("Unknown", "480p", ""), "480p"),
        ("Laserdisc", "", "", ("Unknown", "Unknown", ""), "Unknown"),
        (" ", "1080p", "", ("Unknown", "1080p", ""), "1080p"),
    ] {
        let mut db = TagStore::new();
        let c = verdict("DVD", "480p", true);
        grab(&mut db, &c, "Release", NOW);
        set_manual_override(
            &mut db, &show(), 1, 1, source, resolution, false, false, kind, LATER,
        )
        .unwrap();
        let t = &db.tags[0];
        let names = (t.source.as_str(), t.resolution.as_str(), t.web_kind.as_str());
        assert_eq!(names, stored);
        assert_eq!(t.quality_tag, label);
        assert!(t.manual_override);
        assert!(!t.needs_review);
        assert_eq!(f32::from_bits(t.classification_confidence), 1.0);
        assert_eq!(t.classification_evidence, "");
        assert_eq!(t.release_title, "Release");
        assert_eq!(t.state, "grabbed");
    }
}

#[test]
fn an_override_of_an_episode_without_a_tag_adds_one() {
    let mut db = TagStore::new();
    set_manual_override(&mut db, &show(), 1, 7, "web", "", false, false, "", NOW).unwrap();
    let t = &db.tags[0];
    assert_eq!((t.series_id, t.episode_number), (1, 7));
    assert_eq!(t.state, "completed");
    assert_eq!(t.release_title, "");
    assert_eq!(t.release_group, "");
    assert_eq!(t.source, "Web");
    assert_eq!(t.resolution, "Unknown");
    assert_eq!(t.quality_tag, "WEB");
}

#[test]
fn a_classification_is_stored_under_its_names() {
    let mut db = TagStore::new();
    let mut c = verdict("Web", "1080p", false);
    c.web_kind = WebKind::WebDl;
    grab(&mut db, &c, "Release", NOW);
    assert_eq!(db.tags[0].source, "Web");
    assert_eq!(db.tags[0].resolution, "1080p");
    assert_eq!(db.tags[0].web_kind, "WEB-DL");
    assert_eq!(db.history[0].quality_tag, "WEB-1080p");
    assert_eq!(c.label(), "WEB-1080p");
}

#[test]
fn names_are_read_as_what_they_name() {
    for r in [
        Resolution::P480,
        Resolution::P576,
        Resolution::P720,
        Resolution::P1080,
        Resolution::P2160,
        Resolution::Unknown,
    ] {
        assert_eq!(Resolution::from_str(r.as_str()), r);
    }
    for k in [WebKind::Unspecified, WebKind::WebDl, WebKind::WebRip] {
        assert_eq!(WebKind::from_str(k.as_str()), k);
    }
    assert_eq!(Resolution::from_str("1080"), Resolution::Unknown);
}

#[test]
fn a_confidence_that_is_no_number_is_refused() {
    let mut db = TagStore::new();
    let mut c = verdict("Web", "720p", false);
    c.confidence = f32::NAN.to_bits();
    assert_eq!(update_classification(&mut db, 1, 1, &c, NOW), Ok(()), "no tag to put it on");
    let r = record_grab(&mut db, &show(), 1, 1, &c, "Release", "Group", 1, false, NOW);
    assert_eq!(r, Err(StoreError::MissingValue));
    assert!(db.tags.is_empty());
    assert_eq!(db.history.len(), 1, "the history is written first");
    grab(&mut db, &verdict("Web", "720p", false), "Release", NOW);
    let r = update_classification(&mut db, 1, 1, &c, LATER);
    assert_eq!(r, Err(StoreError::MissingValue));
    assert_eq!(f32::from_bits(db.tags[0].classification_confidence), 0.9);
    c.confidence = f32::INFINITY.to_bits();
    assert_eq!(update_classification(&mut db, 1, 1, &c, LATER), Ok(()));
    assert!(db.check());
}
