use ryokan::models::local_metadata::{
    get_episode_map_for_provider, get_episode_map_for_series, get_incoming_relations_for_provider,
    get_relations_for_provider, get_relations_for_series, normalize_relation_type,
    relation_dedupe_key, relation_identity_key, relation_is_cacheable, replace_episode_metadata,
    replace_episode_metadata_for_provider, replace_relations_for_provider,
    replace_relations_for_series, reverse_relation_type, AnimeDetail, CachedEpisodeMetadata,
    ProviderMetadata, RelatedEntry,
};
use ryokan::models::series::SeriesRow;
use ryokan::models::StoreError;

const NOW: &str = "2024-06-01 00:00:00";

fn related(id: i64, kind: &str) -> RelatedEntry {
    RelatedEntry {
        id,
        id_mal: None,
        title_romaji: format!("Title {id}"),
        title_english: String::new(),
        title_native: String::new(),
        cover_url: String::new(),
        format: "TV".into(),
        status: "NOT_YET_RELEASED".into(),
        status_display: String::new(),
        episodes: Some(12),
        relation_type: kind.into(),
        season_year: Some(2020),
        media_type: "ANIME".into(),
    }
}

fn detail(id: i64, relations: Vec<RelatedEntry>) -> AnimeDetail {
    AnimeDetail {
        id,
        id_mal: Some(id * 10),
        title_romaji: format!("Owner {id}"),
        title_english: String::new(),
        title_native: String::new(),
        cover_url: String::new(),
        format: "TV".into(),
        status: "FINISHED".into(),
        episodes: None,
        season_year: None,
        relations,
    }
}

fn show(id: i64) -> SeriesRow {
    SeriesRow {
        id,
        anilist_id: id,
        title: "Show".into(),
        title_english: String::new(),
        title_romaji: String::new(),
        title_native: String::new(),
        cover_url: String::new(),
        folder_name: String::new(),
        user_score: None,
        synced_from_external_account_id: None,
    }
}

#[test]
fn relations_have_one_name_and_another_side() {
    assert_eq!(normalize_relation_type("PARENT_STORY"), "PARENT");
    assert_eq!(normalize_relation_type("SEQUEL"), "SEQUEL");
    for (kind, reverse) in [
        ("PREQUEL", Some("SEQUEL")),
        ("SEQUEL", Some("PREQUEL")),
        ("SIDE_STORY", Some("PARENT")),
        ("PARENT", Some("SIDE_STORY")),
        ("PARENT_STORY", Some("SIDE_STORY")),
        ("CHARACTER", Some("CHARACTER")),
        ("SPIN_OFF", Some("PARENT")),
        ("ADAPTATION", None),
    ] {
        assert_eq!(reverse_relation_type(kind), reverse, "{kind}");
    }
    assert_eq!(relation_identity_key(5, None), "provider:5");
    assert_eq!(relation_identity_key(-5, Some(7)), "mal:7");
    assert_eq!(relation_identity_key(i64::MIN, None), format!("provider:{}", i64::MIN));
    assert_eq!(
        relation_dedupe_key(&related(5, "PARENT_STORY")),
        ("provider:5".to_string(), "PARENT".to_string())
    );
    let mut r = related(5, "SEQUEL");
    assert!(relation_is_cacheable(&r));
    r.media_type = "MUSIC".into();
    assert!(relation_is_cacheable(&r));
    r.media_type = "MANGA".into();
    assert!(!relation_is_cacheable(&r));
}

#[test]
fn the_relations_of_a_series_are_replaced() {
    let series = vec![show(1)];
    let mut rows = Vec::new();
    let mut manga = related(9, "ADAPTATION");
    manga.media_type = "MANGA".into();
    let d = detail(
        1,
        vec![
            related(3, "SEQUEL"),
            related(2, "SEQUEL"),
            related(2, "SEQUEL"),
            related(4, "PARENT_STORY"),
            related(1, "SEQUEL"),
            manga,
        ],
    );
    replace_relations_for_series(&mut rows, &series, 1, &d, NOW).unwrap();
    let got = get_relations_for_series(&rows, 1);
    let keys: Vec<(i64, &str)> = got.iter().map(|r| (r.id, r.relation_type.as_str())).collect();
    assert_eq!(keys, vec![(4, "PARENT"), (2, "SEQUEL"), (3, "SEQUEL")]);
    assert_eq!(got[0].status_display, "NOT YET RELEASED");
    replace_relations_for_series(&mut rows, &series, 1, &detail(1, Vec::new()), NOW).unwrap();
    assert!(rows.is_empty());
    let r = replace_relations_for_series(&mut rows, &Vec::new(), 1, &d, NOW);
    assert_eq!(r, Err(StoreError::MissingParent));
}

#[test]
fn relations_of_a_work_are_kept_from_both_sides() {
    let mut rows = Vec::new();
    let d = detail(1, vec![related(2, "SEQUEL"), related(3, "ADAPTATION")]);
    replace_relations_for_provider(&mut rows, 1, &d, NOW);
    assert_eq!(get_relations_for_provider(&rows, 1).len(), 2);
    let back = get_relations_for_provider(&rows, 2);
    assert_eq!(back.len(), 1);
    assert_eq!(back[0].id, 1);
    assert_eq!(back[0].relation_type, "PREQUEL");
    assert_eq!(back[0].title_romaji, "Owner 1");
    assert!(get_relations_for_provider(&rows, 3).is_empty());
}

#[test]
fn relations_that_lead_to_a_work_are_seen_from_it() {
    let mut rows = Vec::new();
    let series = vec![show(7), show(8)];
    for id in [8, 7] {
        let d = detail(id, vec![related(2, "PREQUEL"), related(2, "OTHER")]);
        replace_relations_for_series(&mut rows, &series, id, &d, NOW).unwrap();
    }
    let kept = vec![ProviderMetadata {
        provider_id: 7,
        mal_id: Some(70),
        title_romaji: "Seven".into(),
        title_english: String::new(),
        title_native: String::new(),
        cover_url: String::new(),
        format: "TV".into(),
        status: "FINISHED".into(),
        episodes: Some(3),
        season_year: None,
    }];
    let got = get_incoming_relations_for_provider(&rows, &kept, 2, None);
    assert_eq!(got.len(), 2);
    assert_eq!((got[0].id, got[0].id_mal), (7, Some(70)));
    assert_eq!(got[0].title_romaji, "Seven");
    assert_eq!(got[0].relation_type, "SEQUEL");
    assert_eq!((got[1].id, got[1].id_mal), (8, None));
    assert_eq!(got[1].title_romaji, "");
    assert!(get_incoming_relations_for_provider(&rows, &kept, 99, Some(5)).is_empty());
}

fn episode(n: i32, title: &str) -> CachedEpisodeMetadata {
    CachedEpisodeMetadata {
        episode_number: n,
        title: title.into(),
        title_romaji: String::new(),
        title_english: String::new(),
        title_native: String::new(),
        aired: "2020-01-01".into(),
        source: "kitsu".into(),
    }
}

#[test]
fn stored_episodes_are_read_by_number() {
    let series = vec![show(1)];
    let mut rows = Vec::new();
    replace_episode_metadata(&mut rows, &series, 1, &vec![episode(1, "a"), episode(2, "b")], NOW)
        .unwrap();
    let map = get_episode_map_for_series(&rows, 1);
    assert_eq!(map.len(), 2);
    assert_eq!(map[&2].title, "b");
    replace_episode_metadata(&mut rows, &series, 1, &vec![episode(3, "c")], NOW).unwrap();
    assert_eq!(get_episode_map_for_series(&rows, 1).len(), 1);
    let twice = vec![episode(1, "a"), episode(1, "b")];
    let r = replace_episode_metadata(&mut rows, &series, 1, &twice, NOW);
    assert_eq!(r, Err(StoreError::Duplicate));
    let r = replace_episode_metadata(&mut rows, &series, 2, &vec![episode(1, "a")], NOW);
    assert_eq!(r, Err(StoreError::MissingParent));
    assert_eq!(rows.len(), 1);
    let r = replace_episode_metadata_for_provider(&mut rows, 5, &twice, NOW);
    assert_eq!(r, Err(StoreError::Duplicate));
    replace_episode_metadata_for_provider(&mut rows, 5, &vec![episode(1, "x")], NOW).unwrap();
    assert_eq!(get_episode_map_for_provider(&rows, 5)[&1].title, "x");
}
