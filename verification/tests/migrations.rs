use ryokan::models::episode_tags::{label, HistoryRow, TagRow};
use ryokan::models::grabbed_torrents::record_grab;
use ryokan::models::library::{delete_series, remove_series, Library};
use ryokan::models::migrations::{
    folder_title, plan_column_rename, plan_file_name_column,
    reconcile_column_rename, reconcile_column_rename_typed, regenerate_labels, rewrite_history,
    rewrite_label, upgrade_config, ColumnPlan, LegacyConfig, NumberCells, NumberColumns,
    TextCells, TextColumns,
};
use ryokan::models::rss::{record_decision, DecisionRecord};
use ryokan::models::local_metadata::{CachedEpisodeMetadata, EpisodeRow};
use ryokan::models::series::{owned_folders, SeriesRow};
use ryokan::models::startup::{backfill_folders, migrate, Records};
use ryokan::models::StoreError;

const NOW: &str = "2024-06-01 00:00:00";

fn text_columns(legacy: Option<&str>, current: Option<&str>) -> TextColumns {
    TextColumns {
        has_legacy: legacy.is_some(),
        has_current: current.is_some(),
        rows: vec![TextCells {
            legacy: legacy.map(|s| s.to_string()),
            current: current.map(|s| s.to_string()),
        }],
    }
}

fn entry(quality_tag: &str) -> HistoryRow {
    HistoryRow {
        id: 1,
        series_id: 1,
        episode_number: 1,
        quality_tag: quality_tag.to_string(),
        release_title: String::new(),
        release_group: String::new(),
        file_name: String::new(),
        size_bytes: 0,
        is_batch: false,
        state: "grabbed".to_string(),
        grabbed_at: NOW.to_string(),
    }
}

fn renames_torrent_name() {
    let mut db = Records::new();
    db.file_names = text_columns(Some("[Group] Show - 01 [WEB-DL 1080p].mkv"), None);
    db.history.push(entry("WEB-DL 1080p"));
    assert!(db.check());

    migrate(&mut db, &Vec::new(), NOW);

    assert_eq!(
        db.file_names.rows[0].current.as_deref(),
        Some("[Group] Show - 01 [WEB-DL 1080p].mkv")
    );
    assert!(!db.file_names.has_legacy);
    assert_eq!(db.history[0].file_name, "[Group] Show - 01 [WEB-DL 1080p].mkv");
    assert_eq!(db.history[0].quality_tag, "WEB-1080p");
}

#[test]
fn mod_migrate_renames_legacy_torrent_name_to_file_name_preserving_data() {
    renames_torrent_name();
}

#[test]
fn tests_migrate_renames_legacy_torrent_name_to_file_name_preserving_data() {
    renames_torrent_name();
}

#[test]
fn migrate_on_empty_db_succeeds() {
    let mut db = Records::new();
    assert!(db.check());
    migrate(&mut db, &Vec::new(), NOW);
    assert!(db.default_uploader.has_current);
    assert!(db.check());
}

#[test]
fn migrate_is_idempotent_on_second_invocation() {
    let mut db = Records::new();
    migrate(&mut db, &Vec::new(), NOW);
    let once = format!("{db:?}");
    migrate(&mut db, &Vec::new(), NOW);
    assert_eq!(format!("{db:?}"), once);
}

fn recovers_half_migrated() {
    let mut columns = text_columns(Some("SubsPlease"), Some(""));
    reconcile_column_rename(&mut columns);
    assert_eq!(
        columns.rows[0].current.as_deref(),
        Some("SubsPlease"),
        "user's uploader value must be copied forward into the new column"
    );
    assert!(
        !columns.has_legacy,
        "orphan legacy column must be dropped once data has been copied"
    );
}

fn brings_legacy_forward() {
    let mut columns = text_columns(Some("SubsPlease"), None);
    reconcile_column_rename(&mut columns);
    assert_eq!(columns.rows[0].current.as_deref(), Some("SubsPlease"));
    assert!(!columns.has_legacy);
}

fn does_not_overwrite() {
    let mut columns = text_columns(Some("StaleLegacy"), Some("LiveNew"));
    reconcile_column_rename(&mut columns);
    assert_eq!(
        columns.rows[0].current.as_deref(),
        Some("LiveNew"),
        "non-empty new column must not be overwritten by stale legacy"
    );
}

fn adds_on_fresh_install() {
    let mut columns = text_columns(None, None);
    reconcile_column_rename(&mut columns);
    assert!(columns.has_current);
    assert_eq!(
        columns.rows[0].current.as_deref(),
        Some(""),
        "fresh install starts with the default empty"
    );
}

#[test]
fn mod_reconcile_rename_recovers_half_migrated_restrict_to_group() {
    recovers_half_migrated();
}

#[test]
fn tests_reconcile_rename_recovers_half_migrated_restrict_to_group() {
    recovers_half_migrated();
}

#[test]
fn mod_reconcile_rename_brings_legacy_column_forward() {
    brings_legacy_forward();
}

#[test]
fn tests_reconcile_rename_brings_legacy_column_forward() {
    brings_legacy_forward();
}

#[test]
fn mod_reconcile_rename_does_not_overwrite_populated_new_column() {
    does_not_overwrite();
}

#[test]
fn tests_reconcile_rename_does_not_overwrite_populated_new_column() {
    does_not_overwrite();
}

#[test]
fn mod_reconcile_rename_adds_new_column_on_fresh_install() {
    adds_on_fresh_install();
}

#[test]
fn tests_reconcile_rename_adds_new_column_on_fresh_install() {
    adds_on_fresh_install();
}

fn number_columns(legacy: Option<i64>, current: Option<i64>) -> NumberColumns {
    NumberColumns {
        has_legacy: legacy.is_some(),
        has_current: current.is_some(),
        rows: vec![NumberCells { legacy, current }],
    }
}

#[test]
fn reconcile_typed_rename_recovers_half_migrated_integer_column() {
    let mut columns = number_columns(Some(1), Some(0));
    reconcile_column_rename_typed(&mut columns, 0);
    assert_eq!(
        columns.rows[0].current,
        Some(1),
        "user's enable bit must move from the legacy to the new column"
    );
    assert!(!columns.has_legacy, "legacy column must be dropped, not duplicated");
}

#[test]
fn reconcile_typed_rename_adds_integer_column_on_fresh_install() {
    let mut columns = number_columns(None, None);
    reconcile_column_rename_typed(&mut columns, 0);
    assert!(columns.has_current);
    assert_eq!(columns.rows[0].current, Some(0), "fresh-install default must be the integer 0");
    assert!(!columns.has_legacy, "fresh-install path must not create the legacy column");
}

fn add_series(lib: &mut Library, anilist_id: i64) -> i64 {
    let id = lib.series.len() as i64 + 1;
    lib.series.push(SeriesRow {
        id,
        anilist_id,
        title: "Show".to_string(),
        title_english: String::new(),
        title_romaji: "Show".to_string(),
        title_native: String::new(),
        cover_url: String::new(),
        folder_name: "show".to_string(),
        user_score: None,
        synced_from_external_account_id: None,
    });
    id
}

fn tag(series_id: i64, quality_tag: &str) -> TagRow {
    TagRow {
        series_id,
        episode_number: 1,
        quality_tag: quality_tag.to_string(),
        release_title: String::new(),
        release_group: String::new(),
        state: "grabbed".to_string(),
        source: String::new(),
        resolution: String::new(),
        is_remux: false,
        is_bdmv: false,
        web_kind: String::new(),
        classification_confidence: 0,
        needs_review: false,
        manual_override: false,
        classification_evidence: String::new(),
        updated_at: NOW.to_string(),
    }
}

fn seen<'a>(item_key: &'a str, series_id: i64) -> DecisionRecord<'a> {
    DecisionRecord {
        item_key,
        title: "",
        link: "",
        series_id: Some(series_id),
        series_title: "Show",
        group_name: "",
        is_batch: false,
        decision: "grabbed",
        reason: "",
        source: "nyaa",
        source_id: None,
    }
}

#[test]
fn deleting_a_series_cascades_to_grabbed_torrents() {
    let mut lib = Library::new();
    let series_id = add_series(&mut lib, 1);
    record_grab(&mut lib.grabs, &lib.series, "h1", "name", series_id, &[1], false, NOW)
        .unwrap()
        .unwrap();
    assert_eq!(lib.grabs.rows[0].state, "pending");

    delete_series(&mut lib, series_id).expect("series delete should succeed");
    assert_eq!(
        lib.grabs.rows.iter().filter(|r| r.series_id == series_id).count(),
        0,
        "grabs must go with their series"
    );
}

#[test]
fn deleting_a_series_cascades_to_episode_quality_tags() {
    let mut lib = Library::new();
    let series_id = add_series(&mut lib, 2);
    lib.tags.tags.push(tag(series_id, "WEBDL-1080p"));

    delete_series(&mut lib, series_id).unwrap();
    assert_eq!(lib.tags.tags.iter().filter(|t| t.series_id == series_id).count(), 0);
}

#[test]
fn rss_seen_is_no_action_not_cascade_on_series() {
    let mut lib = Library::new();
    let series_id = add_series(&mut lib, 3);
    record_decision(&mut lib.rss, &lib.series, seen("guid-keep", series_id), NOW).unwrap();

    remove_series(&mut lib, series_id);

    assert!(lib.series.is_empty());
    let kept: Vec<_> = lib.rss.seen.iter().filter(|r| r.item_key == "guid-keep").collect();
    assert_eq!(kept.len(), 1, "the decision must survive the series");
    assert_eq!(kept[0].series_id, None);
    assert_eq!(kept[0].series_title, "Show");
}

#[test]
fn direct_series_delete_without_null_out_fails_fk_constraint() {
    let mut lib = Library::new();
    let series_id = add_series(&mut lib, 4);
    record_decision(&mut lib.rss, &lib.series, seen("guid-fail", series_id), NOW).unwrap();

    let result = delete_series(&mut lib, series_id);
    assert!(result.is_err(), "delete while a decision names the series must fail ({result:?})");
    assert_eq!(result, Err(StoreError::Referenced));
    assert_eq!(lib.series.len(), 1);
}

fn legacy() -> LegacyConfig {
    LegacyConfig {
        jellyfin_url: String::new(),
        jellyfin_host: String::new(),
        jellyfin_port: String::new(),
        jellyfin_use_ssl: false,
        preferred_source: String::new(),
        cutoff_source: String::new(),
        cutoff_resolution: String::new(),
        quality_profile: String::new(),
        quality_cutoff: String::new(),
    }
}

#[test]
fn migrate_does_not_overwrite_user_values_on_second_invocation() {
    let mut db = Records::new();
    migrate(&mut db, &Vec::new(), NOW);

    let mut config = legacy();
    config.jellyfin_url = "https://my.real.jellyfin.example/jf".to_string();
    config.jellyfin_host = "derived.example".to_string();
    config.jellyfin_port = "8096".to_string();
    db.config = Some(config);

    migrate(&mut db, &Vec::new(), NOW);
    assert_eq!(
        db.config.unwrap().jellyfin_url,
        "https://my.real.jellyfin.example/jf",
        "second migrate must not overwrite the user's custom jellyfin_url"
    );
}

#[test]
fn settings_are_made_from_their_earlier_form() {
    let mut c = legacy();
    c.jellyfin_host = "media.example".to_string();
    c.jellyfin_port = "8096".to_string();
    c.quality_profile = "bd_1080".to_string();
    c.quality_cutoff = "remux_2160".to_string();
    upgrade_config(&mut c);
    assert_eq!(c.jellyfin_url, "http://media.example:8096");
    assert_eq!(c.preferred_source, "bluray");
    assert_eq!(c.cutoff_source, "bluray");
    assert_eq!(c.cutoff_resolution, "2160");

    let mut c = legacy();
    c.jellyfin_host = "media.example".to_string();
    c.jellyfin_use_ssl = true;
    c.quality_profile = "dvd".to_string();
    c.quality_cutoff = "dvd".to_string();
    upgrade_config(&mut c);
    assert_eq!(c.jellyfin_url, "https://media.example");
    assert_eq!(c.preferred_source, "dvd");
    assert_eq!(c.cutoff_source, "dvd");
    assert_eq!(c.cutoff_resolution, "480");

    let mut c = legacy();
    c.quality_cutoff = "web_720".to_string();
    upgrade_config(&mut c);
    assert_eq!(c.jellyfin_url, "");
    assert_eq!(c.preferred_source, "web");
    assert_eq!(c.cutoff_source, "web");
    assert_eq!(c.cutoff_resolution, "720");
    let once = format!("{c:?}");
    upgrade_config(&mut c);
    assert_eq!(format!("{c:?}"), once);
}

#[test]
fn labels_are_brought_to_their_present_form() {
    for (before, after) in [
        ("BluRay BDMV 1080p", "BD-1080p RAW"),
        ("BluRay Remux 2160p", "BD-2160p Remux"),
        ("BluRay 1080p", "BD-1080p"),
        ("WEB-DL 720p", "WEB-720p"),
        ("WEBRip 1080p", "WEBRip-1080p"),
        ("Web 480p", "WEB-480p"),
        ("HDTV 720p", "HDTV-720p"),
        ("DVD 480p", "DVD-480p"),
        ("WEBDL-1080p", "WEB-1080p"),
        ("WEBRIP-1080p", "WEBRip-1080p"),
        ("BD-1080p", "BD-1080p"),
        ("Unknown", "Unknown"),
    ] {
        assert_eq!(rewrite_label(before), after);
    }
    let mut history = vec![entry("WEB-DL 1080p")];
    rewrite_history(&mut history);
    assert_eq!(history[0].quality_tag, "WEB-1080p");
}

#[test]
fn labels_are_made_again_from_source_and_resolution() {
    let mut tags = vec![tag(1, "old"), tag(2, "BD-1080p Remux")];
    tags[0].source = "web".to_string();
    tags[0].resolution = "720p".to_string();
    tags[1].source = "BluRay".to_string();
    tags[1].resolution = "1080p".to_string();
    tags[1].is_remux = true;
    assert_eq!(regenerate_labels(&mut tags), 1);
    assert_eq!(tags[0].quality_tag, "WEB-720p");
    assert_eq!(tags[1].quality_tag, "BD-1080p Remux");
    assert_eq!(regenerate_labels(&mut tags), 0);
}

#[test]
fn what_to_do_to_a_renamed_column() {
    assert_eq!(plan_column_rename(true, true), ColumnPlan::CopyThenDrop);
    assert_eq!(plan_column_rename(true, false), ColumnPlan::Rename);
    assert_eq!(plan_column_rename(false, true), ColumnPlan::Keep);
    assert_eq!(plan_column_rename(false, false), ColumnPlan::Add);
    assert_eq!(plan_file_name_column(true, true), ColumnPlan::Keep);
    assert_eq!(plan_file_name_column(false, false), ColumnPlan::Add);
}

#[test]
fn a_number_under_the_new_name_stays() {
    let mut columns = number_columns(Some(1), Some(5));
    reconcile_column_rename_typed(&mut columns, 0);
    assert_eq!(columns.rows[0].current, Some(5));
    reconcile_column_rename_typed(&mut columns, 0);
    assert_eq!(columns.rows[0].current, Some(5));
}

#[test]
fn a_series_without_a_folder_gets_one() {
    let mut lib = Library::new();
    add_series(&mut lib, 1);
    assert_eq!(folder_title(&lib.series[0]), "Show");
    lib.series[0].title_english = "The Show".to_string();
    assert_eq!(folder_title(&lib.series[0]), "The Show");
    let folder = |name: &str| vec![name.to_string()];
    backfill_folders(&mut lib.series, &folder("other"));
    assert_eq!(lib.series[0].folder_name, "show");
    lib.series[0].folder_name = String::new();
    backfill_folders(&mut lib.series, &folder(""));
    backfill_folders(&mut lib.series, &Vec::new());
    assert_eq!(lib.series[0].folder_name, "");
    backfill_folders(&mut lib.series, &folder("The Show"));
    assert_eq!(lib.series[0].folder_name, "The Show");
}

#[test]
fn a_start_brings_every_record_to_its_present_form() {
    let mut lib = Library::new();
    add_series(&mut lib, 1);
    lib.series[0].folder_name = String::new();
    let mut db = Records::new();
    record_grab(&mut db.grabs, &lib.series, "h", "old", 1, &[1], false, NOW).unwrap();
    let mut twin = db.grabs.rows[0].clone();
    twin.id = 2;
    db.grabs.rows.push(twin);
    db.grabs.last_id = 2;
    db.series = lib.series;
    db.tags.push(tag(1, "old"));
    db.kitsu_fallback = number_columns(Some(1), Some(0));
    db.default_uploader = text_columns(Some("SubsPlease"), Some(""));
    assert!(db.check());
    migrate(&mut db, &vec!["Show".to_string()], NOW);
    assert_eq!(db.grabs.rows.len(), 1);
    assert_eq!(db.grabs.rows[0].id, 1);
    assert_eq!(db.series[0].folder_name, "Show");
    assert_eq!(db.tags[0].quality_tag, "Unknown");
    assert_eq!(db.kitsu_fallback.rows[0].current, Some(1));
    assert_eq!(db.default_uploader.rows[0].current.as_deref(), Some("SubsPlease"));
    assert_eq!(db.groups.rows.len(), 218);
    let once = format!("{db:?}");
    migrate(&mut db, &vec!["Show".to_string()], NOW);
    assert_eq!(format!("{db:?}"), once);
}

#[test]
fn a_label_between_two_forms_takes_two_starts() {
    assert_eq!(rewrite_label("Web DL 1080p"), "WEB-DL 1080p");
    assert_eq!(rewrite_label("WEB-DL 1080p"), "WEB-1080p");
}

#[test]
fn removing_a_series_keeps_the_others() {
    let mut lib = Library::new();
    let a = add_series(&mut lib, 1);
    let b = add_series(&mut lib, 2);
    for id in [a, b] {
        let hash = format!("h{id}");
        record_grab(&mut lib.grabs, &lib.series, &hash, "n", id, &[1], false, NOW).unwrap();
        lib.tags.tags.push(tag(id, "WEB-1080p"));
    }
    remove_series(&mut lib, a);
    assert_eq!(lib.series.len(), 1);
    assert_eq!(lib.series[0].id, b);
    assert_eq!(lib.grabs.rows.len(), 1);
    assert_eq!(lib.tags.tags.len(), 1);
    assert_eq!(delete_series(&mut lib, 99), Ok(()));
    assert_eq!(lib.series.len(), 1);
}

#[test]
fn a_series_without_a_folder_owns_none() {
    let mut lib = Library::new();
    add_series(&mut lib, 1);
    add_series(&mut lib, 2);
    add_series(&mut lib, 3);
    lib.series[0].folder_name = "First".to_string();
    lib.series[1].folder_name = String::new();
    lib.series[2].folder_name = "Third".to_string();
    assert_eq!(owned_folders(&lib.series), vec!["First".to_string(), "Third".to_string()]);
    assert!(owned_folders(&Vec::new()).is_empty());
}

fn known_episode(owner_id: i64, episode_number: i32) -> EpisodeRow {
    EpisodeRow {
        owner_id,
        episode: CachedEpisodeMetadata {
            episode_number,
            title: "Title".to_string(),
            title_romaji: String::new(),
            title_english: String::new(),
            title_native: String::new(),
            aired: String::new(),
            source: "anilist".to_string(),
        },
        cached_at: NOW.to_string(),
    }
}

#[test]
fn a_library_with_two_rows_for_an_episode_is_not_accepted() {
    let mut lib = Library::new();
    let id = add_series(&mut lib, 1);
    assert!(lib.check());
    lib.episodes.push(known_episode(id, 1));
    lib.episodes.push(known_episode(id, 2));
    assert!(lib.check());
    lib.episodes.push(known_episode(id, 1));
    assert!(!lib.check());
    lib.episodes.pop();
    lib.tags.tags.push(tag(id, "WEB-1080p"));
    lib.tags.tags.push(tag(id, "WEB-1080p"));
    assert!(!lib.check());
}

#[test]
fn every_ordinary_label_settles_at_the_first_start() {
    let mut labels: Vec<String> = vec![String::new()];
    for resolution in ["480p", "576p", "720p", "1080p", "2160p", "Unknown"] {
        for source in ["BluRay", "Web", "DVD", "HDTV", "TV", "Unknown"] {
            for kind in ["", "WEB-DL", "WEBRip"] {
                for (remux, raw) in [(false, false), (true, false), (false, true)] {
                    labels.push(label(source, resolution, kind, remux, raw));
                }
            }
        }
        for old in [
            "BluRay BDMV", "BluRay Remux", "BluRay", "WEB-DL", "WEBRip", "Web", "HDTV", "DVD", "TV",
        ] {
            labels.push(old.to_string());
            labels.push(format!("{old} {resolution}"));
        }
        for joined in ["BD-RAW", "BD-Remux", "WEBRIP", "WEBDL"] {
            labels.push(format!("{joined}-{resolution}"));
        }
    }
    for old in labels {
        let once = rewrite_label(&old);
        assert_eq!(rewrite_label(&once), once, "{old}");
    }
}

#[test]
fn an_entry_without_its_name_cells_is_not_accepted() {
    let mut db = Records::new();
    db.history.push(entry("BD-1080p"));
    assert!(!db.check());
    db.file_names = text_columns(None, Some("Show - 01.mkv"));
    assert!(db.check());
    migrate(&mut db, &Vec::new(), NOW);
    assert_eq!(db.history[0].file_name, "Show - 01.mkv");
}
