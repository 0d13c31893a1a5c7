use ryokan::models::episode_tags::{TagRow, TagStore};
use ryokan::models::group_source_map::{
    compute_suggestions, delete, get, list_all, migrate, reconcile_seed_drift, seed_defaults,
    seed_list, upsert_user_edit, GroupStore, SURE, UNSURE,
};
use ryokan::source::{Source, WebKind};
use ryokan::models::StoreError;

const NOW: &str = "2024-06-01 00:00:00";

fn tag(episode_number: i32, group: &str, source: &str, manual: bool) -> TagRow {
    TagRow {
        series_id: 1,
        episode_number,
        quality_tag: String::new(),
        release_title: String::new(),
        release_group: group.to_string(),
        state: "completed".to_string(),
        source: source.to_string(),
        resolution: String::new(),
        is_remux: false,
        is_bdmv: false,
        web_kind: String::new(),
        classification_confidence: 0,
        needs_review: false,
        manual_override: manual,
        classification_evidence: String::new(),
        updated_at: NOW.to_string(),
    }
}

#[test]
fn confidences_are_kept_as_bits() {
    assert_eq!(f32::from_bits(SURE), 0.95);
    assert_eq!(f32::from_bits(UNSURE), 0.6);
}

#[test]
fn every_seed_is_written_down_at_the_start() {
    let seeds = seed_list();
    assert_eq!(seeds.len(), 218);
    let mut db = GroupStore::new();
    seed_defaults(&mut db, NOW);
    for s in &seeds {
        let e = get(&db, &s.group_name.to_uppercase()).expect("a seed");
        assert_eq!(e.source, s.source);
        assert_eq!(e.confidence, s.confidence);
        assert!(!e.is_user_edit);
    }
    let rows = db.rows.len();
    seed_defaults(&mut db, NOW);
    assert_eq!(db.rows.len(), rows);
    assert_eq!(get(&db, "subsplease").unwrap().source, Source::Web);
    assert_eq!(get(&db, "VCB-Studio").unwrap().notes, "legacy BD encode specialist");
    assert_eq!(get(&db, "Judas").unwrap().confidence, UNSURE);
    assert!(get(&db, "nobody").is_none());
    assert!(db.check());
}

#[test]
fn what_the_user_says_stays_over_a_start() {
    let mut db = GroupStore::new();
    migrate(&mut db, NOW);
    let half = 0.5f32.to_bits();
    upsert_user_edit(&mut db, "SUBSPLEASE", Source::Dvd, half, "mine", NOW).unwrap();
    upsert_user_edit(&mut db, "Newcomer", Source::Hdtv, half, "", NOW).unwrap();
    migrate(&mut db, "2024-07-01 00:00:00");
    let e = get(&db, "SubsPlease").unwrap();
    assert_eq!(e.group_name, "SubsPlease");
    assert_eq!(e.source, Source::Dvd);
    assert_eq!(e.notes, "mine");
    assert!(e.is_user_edit);
    assert_eq!(get(&db, "newcomer").unwrap().source, Source::Hdtv);
    assert_eq!(db.rows.len(), 219);
    delete(&mut db, "NEWCOMER");
    assert!(get(&db, "Newcomer").is_none());
}

#[test]
fn a_start_brings_seeds_back_to_what_is_known() {
    let mut db = GroupStore::new();
    seed_defaults(&mut db, NOW);
    db.rows[0].source = "DVD".to_string();
    db.rows[0].confidence = 0;
    reconcile_seed_drift(&mut db);
    assert_eq!(db.rows[0].source, "BluRay");
    assert_eq!(db.rows[0].confidence, SURE);
}

#[test]
fn a_confidence_is_kept_between_nothing_and_all() {
    let mut db = GroupStore::new();
    for c in [-1.0f32, -0.0, 0.0, 0.25, 1.0, 1.5, f32::INFINITY, f32::NEG_INFINITY, 1.0e-40] {
        upsert_user_edit(&mut db, "g", Source::Web, c.to_bits(), "", NOW).unwrap();
        assert_eq!(get(&db, "g").unwrap().confidence, c.clamp(0.0, 1.0).to_bits(), "{c}");
    }
    let r = upsert_user_edit(&mut db, "g", Source::Web, f32::NAN.to_bits(), "", NOW);
    assert_eq!(r, Err(StoreError::MissingValue));
    assert_eq!(get(&db, "g").unwrap().confidence, 1.0e-40f32.to_bits());
}

#[test]
fn sources_are_read_from_their_names() {
    for s in [
        Source::BluRay,
        Source::Web,
        Source::Dvd,
        Source::Hdtv,
        Source::Tv,
        Source::Unknown,
    ] {
        assert_eq!(Source::from_str(s.as_str()), s);
    }
    assert_eq!(Source::from_str("bd"), Source::BluRay);
    assert_eq!(WebKind::from_str("WEB-DL"), WebKind::WebDl);
    assert_eq!(WebKind::from_str("webrip"), WebKind::WebRip);
    assert_eq!(WebKind::from_str(""), WebKind::Unspecified);
}

#[test]
fn groups_are_listed_by_name() {
    let mut db = GroupStore::new();
    for name in ["b", "A", "C"] {
        upsert_user_edit(&mut db, name, Source::Web, SURE, "", NOW).unwrap();
    }
    let names: Vec<String> = list_all(&db).into_iter().map(|e| e.group_name).collect();
    assert_eq!(names, vec!["A", "b", "C"]);
}

#[test]
fn corrections_suggest_what_is_not_known() {
    let mut db = GroupStore::new();
    upsert_user_edit(&mut db, "Known", Source::Web, SURE, "", NOW).unwrap();
    let mut tags = TagStore::new();
    let mut n = 0;
    for (group, source, manual) in [
        ("Fresh", "BluRay", true),
        ("FRESH", "BluRay", true),
        ("Known", "Web", true),
        ("Known", "Web", true),
        ("Once", "DVD", true),
        ("Auto", "DVD", false),
        ("Auto", "DVD", false),
        ("Odd", "nonsense", true),
        ("Odd", "nonsense", true),
    ] {
        n += 1;
        tags.tags.push(tag(n, group, source, manual));
    }
    let found = compute_suggestions(&db, &tags, 2);
    assert_eq!(found.len(), 1);
    assert_eq!(found[0].group_name, "Fresh");
    assert_eq!(found[0].source, Source::BluRay);
    assert_eq!(found[0].episode_count, 2);
    assert_eq!(found[0].existing_source, None);
    for t in tags.tags.iter_mut().filter(|t| t.release_group == "Known") {
        t.source = "DVD".to_string();
    }
    let found = compute_suggestions(&db, &tags, 2);
    assert_eq!(found.len(), 2);
    let known = found.iter().find(|s| s.group_name == "Known").unwrap();
    assert_eq!(known.existing_source, Some(Source::Web));
}
