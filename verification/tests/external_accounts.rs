use ryokan::models::external_accounts::{
    current_raw, get_current, link, stamp_list_synced, unlink, update_last_sync_auth_failed,
    update_last_sync_deferred_count, update_preferences, update_score_format, update_tokens,
    AccountStore, CustomListRow, ExternalAccount, ImportPreferences, LinkRequest,
    PROVIDER_ANILIST, PROVIDER_MAL,
};
use ryokan::models::series::SeriesRow;

const NOW: i64 = 1_700_000_000;

fn sample_anilist_request() -> LinkRequest {
    LinkRequest {
        provider: PROVIDER_ANILIST.to_string(),
        provider_user_id: "12345".to_string(),
        username: "user123".to_string(),
        access_token: "al-access-token-abc".to_string(),
        refresh_token: String::new(),
        access_token_expires_at: None,
        score_format: "POINT_10".to_string(),
    }
}

fn sample_mal_request() -> LinkRequest {
    LinkRequest {
        provider: PROVIDER_MAL.to_string(),
        provider_user_id: "mal_user".to_string(),
        username: "mal_user".to_string(),
        access_token: "mal-access-token-xyz".to_string(),
        refresh_token: "mal-refresh-token-uvw".to_string(),
        access_token_expires_at: Some(1_800_000_000),
        score_format: "POINT_10".to_string(),
    }
}

/// Stands for the sealing of a token: every byte is flipped.
fn seal(token: &str) -> Result<Vec<u8>, String> {
    Ok(token.bytes().map(|b| !b).collect())
}

fn open(sealed: &[u8]) -> Result<Vec<u8>, String> {
    Ok(sealed.iter().map(|b| !b).collect())
}

fn linked(db: &mut AccountStore, req: LinkRequest) -> Result<i64, String> {
    let access = seal(&req.access_token);
    let refresh = seal(&req.refresh_token);
    link(db, req, access, refresh, NOW)
}

fn current(db: &AccountStore) -> Option<ExternalAccount> {
    let (access, refresh) = match current_raw(db) {
        Some(raw) => (open(&raw.access_token_encrypted), open(&raw.refresh_token_encrypted)),
        None => (Ok(Vec::new()), Ok(Vec::new())),
    };
    get_current(db, access, refresh).unwrap()
}

#[test]
fn get_current_returns_none_when_no_account_linked() {
    let db = AccountStore::new();
    assert!(current(&db).is_none());
}

#[test]
fn link_then_get_roundtrips_plaintext_tokens() {
    let mut db = AccountStore::new();
    let id = linked(&mut db, sample_mal_request()).unwrap();
    let got = current(&db).expect("linked");
    assert_eq!(got.id, id);
    assert_eq!(got.access_token, "mal-access-token-xyz");
    assert_eq!(got.refresh_token, "mal-refresh-token-uvw");
    assert_eq!(got.provider, PROVIDER_MAL);
    assert_eq!(got.access_token_expires_at, Some(1_800_000_000));
}

#[test]
fn link_second_provider_is_rejected_while_first_exists() {
    let mut db = AccountStore::new();
    linked(&mut db, sample_anilist_request()).unwrap();
    let err = linked(&mut db, sample_mal_request()).unwrap_err();
    assert!(
        err.to_lowercase().contains("already linked"),
        "error must call out the one-at-a-time rule: {err}"
    );
}

#[test]
fn link_same_provider_and_user_is_idempotent_and_updates_tokens() {
    let mut db = AccountStore::new();
    let first_id = linked(&mut db, sample_mal_request()).unwrap();

    let mut updated = sample_mal_request();
    updated.access_token = "mal-rotated-access".to_string();
    updated.refresh_token = "mal-rotated-refresh".to_string();
    updated.access_token_expires_at = Some(1_900_000_000);
    let second_id = linked(&mut db, updated).unwrap();
    assert_eq!(first_id, second_id, "same row re-used on re-link");

    let got = current(&db).expect("still linked");
    assert_eq!(got.access_token, "mal-rotated-access");
    assert_eq!(got.refresh_token, "mal-rotated-refresh");
    assert_eq!(got.access_token_expires_at, Some(1_900_000_000));
}

#[test]
fn link_same_provider_different_user_id_is_rejected() {
    let mut db = AccountStore::new();
    linked(&mut db, sample_mal_request()).unwrap();
    let mut other_user = sample_mal_request();
    other_user.provider_user_id = "different_mal_user".to_string();
    let err = linked(&mut db, other_user).unwrap_err();
    assert!(
        err.contains("Another external account is already linked"),
        "expected friendly unlink-first message, got: {err}"
    );
    assert!(
        !err.to_lowercase().contains("unique"),
        "raw constraint error must not leak through to the user: {err}"
    );
}

#[test]
fn unlink_removes_row_and_leaves_slot_open() {
    let mut db = AccountStore::new();
    let id = linked(&mut db, sample_anilist_request()).unwrap();
    unlink(&mut db, &mut Vec::new(), &mut Vec::new(), id);
    assert!(current(&db).is_none());

    linked(&mut db, sample_mal_request()).unwrap();
    assert_eq!(current(&db).unwrap().provider, PROVIDER_MAL);
}

#[test]
fn update_tokens_encrypts_new_plaintext_and_roundtrips() {
    let mut db = AccountStore::new();
    let id = linked(&mut db, sample_mal_request()).unwrap();
    update_tokens(&mut db, id, seal("new-access"), seal("new-refresh"), Some(2_000_000_000))
        .unwrap();
    let got = current(&db).unwrap();
    assert_eq!(got.access_token, "new-access");
    assert_eq!(got.refresh_token, "new-refresh");
    assert_eq!(got.access_token_expires_at, Some(2_000_000_000));
}

#[test]
fn update_preferences_persists_all_six_flags() {
    let mut db = AccountStore::new();
    let id = linked(&mut db, sample_anilist_request()).unwrap();
    let prefs = ImportPreferences {
        import_watching: true,
        import_planning: false,
        import_paused: true,
        import_dropped: true,
        import_completed: true,
        skip_already_watched: true,
    };
    update_preferences(&mut db, id, prefs);
    let got = current(&db).unwrap();
    assert!(got.import_watching);
    assert!(!got.import_planning);
    assert!(got.import_paused);
    assert!(got.import_dropped);
    assert!(got.import_completed);
    assert!(got.skip_already_watched);
}

#[test]
fn default_preferences_match_the_plan_doc() {
    let mut db = AccountStore::new();
    linked(&mut db, sample_anilist_request()).unwrap();
    let got = current(&db).unwrap();
    assert!(got.import_watching, "Watching default on");
    assert!(got.import_planning, "PTW default on");
    assert!(!got.import_paused, "Paused default off");
    assert!(!got.import_dropped, "Dropped default off");
    assert!(!got.import_completed, "Completed default off");
    assert!(!got.skip_already_watched, "Skip-watched default off");
}

#[test]
fn stamp_list_synced_delta_only_writes_last_synced_at() {
    let mut db = AccountStore::new();
    let id = linked(&mut db, sample_anilist_request()).unwrap();
    stamp_list_synced(&mut db, id, 1_700_000_000, false);
    let got = current(&db).unwrap();
    assert_eq!(got.list_last_synced_at, Some(1_700_000_000));
    assert!(
        got.list_full_resync_at.is_none(),
        "delta tick must not advance the full-resync cursor"
    );
}

#[test]
fn stamp_list_synced_full_writes_both_cursors() {
    let mut db = AccountStore::new();
    let id = linked(&mut db, sample_anilist_request()).unwrap();
    stamp_list_synced(&mut db, id, 1_700_000_000, true);
    let got = current(&db).unwrap();
    assert_eq!(got.list_last_synced_at, Some(1_700_000_000));
    assert_eq!(got.list_full_resync_at, Some(1_700_000_000));
}

#[test]
fn stamp_list_synced_delta_after_full_keeps_full_cursor() {
    let mut db = AccountStore::new();
    let id = linked(&mut db, sample_anilist_request()).unwrap();
    stamp_list_synced(&mut db, id, 100, true);
    stamp_list_synced(&mut db, id, 500, false);
    let got = current(&db).unwrap();
    assert_eq!(got.list_last_synced_at, Some(500));
    assert_eq!(got.list_full_resync_at, Some(100));
}

#[test]
fn empty_refresh_token_roundtrips_as_empty_string() {
    let mut db = AccountStore::new();
    linked(&mut db, sample_anilist_request()).unwrap();
    let got = current(&db).unwrap();
    assert!(got.refresh_token.is_empty(), "AL refresh token must roundtrip as empty");
}

#[test]
fn a_token_that_cannot_be_opened_is_an_error() {
    let mut db = AccountStore::new();
    linked(&mut db, sample_mal_request()).unwrap();
    let no = || -> Result<Vec<u8>, String> { Err("wrong key".to_string()) };
    let yes = || -> Result<Vec<u8>, String> { Ok(b"t".to_vec()) };
    let message = |r: Result<Option<ExternalAccount>, String>| r.err().unwrap();
    assert_eq!(message(get_current(&db, no(), no())), "decrypt access token: wrong key");
    assert_eq!(message(get_current(&db, yes(), no())), "decrypt refresh token: wrong key");
    let bad: Vec<u8> = vec![b'a', 0xff];
    let reason = String::from_utf8(bad.clone()).unwrap_err().to_string();
    assert_eq!(
        message(get_current(&db, Ok(bad.clone()), yes())),
        format!("access token is not UTF-8: {reason}")
    );
    assert_eq!(
        message(get_current(&db, yes(), Ok(bad))),
        format!("refresh token is not UTF-8: {reason}")
    );
}

#[test]
fn an_empty_sealed_refresh_token_is_not_opened() {
    let mut db = AccountStore::new();
    linked(&mut db, sample_anilist_request()).unwrap();
    let got = get_current(&db, Ok(b"t".to_vec()), Err("unused".to_string())).unwrap().unwrap();
    assert_eq!(got.access_token, "t");
    assert_eq!(got.refresh_token, "");
}

#[test]
fn a_token_that_cannot_be_sealed_is_not_kept() {
    let mut db = AccountStore::new();
    let no = || -> Result<Vec<u8>, String> { Err("no key".to_string()) };
    let r = link(&mut db, sample_mal_request(), no(), no(), NOW);
    assert_eq!(r, Err("encrypt access token: no key".to_string()));
    let r = link(&mut db, sample_mal_request(), seal("a"), no(), NOW);
    assert_eq!(r, Err("encrypt refresh token: no key".to_string()));
    assert!(db.accounts.is_empty());
    let id = linked(&mut db, sample_mal_request()).unwrap();
    let r = update_tokens(&mut db, id, no(), seal("b"), None);
    assert_eq!(r, Err("encrypt access: no key".to_string()));
    let r = update_tokens(&mut db, id, seal("a"), no(), None);
    assert_eq!(r, Err("encrypt refresh: no key".to_string()));
    assert_eq!(current(&db).unwrap().access_token, "mal-access-token-xyz");
}

#[test]
fn what_is_shown_of_an_account_holds_no_token() {
    let mut db = AccountStore::new();
    linked(&mut db, sample_mal_request()).unwrap();
    let shown = current(&db).unwrap().redacted();
    assert_eq!(shown.access_token, "<redacted>");
    assert_eq!(shown.refresh_token, "<redacted>");
    assert_eq!(shown.username, "mal_user");
    let shown = sample_mal_request().redacted();
    assert_eq!(shown.access_token, "<redacted>");
    assert_eq!(shown.refresh_token, "<redacted>");
    assert_eq!(shown.provider, PROVIDER_MAL);
}

#[test]
fn unlinking_keeps_the_series_without_their_scores() {
    let mut db = AccountStore::new();
    let id = linked(&mut db, sample_mal_request()).unwrap();
    let row = |n: i64, from: Option<i64>| SeriesRow {
        id: n,
        anilist_id: n,
        title: "Show".to_string(),
        title_english: String::new(),
        title_romaji: String::new(),
        title_native: String::new(),
        cover_url: String::new(),
        folder_name: String::new(),
        user_score: Some(80),
        synced_from_external_account_id: from,
    };
    let mut series = vec![row(1, Some(id)), row(2, None)];
    let list = |provider: &str| CustomListRow {
        series_id: 1,
        provider: provider.to_string(),
        list_name: "Seasonal".to_string(),
    };
    let mut lists = vec![list(PROVIDER_MAL), list(PROVIDER_ANILIST)];
    unlink(&mut db, &mut series, &mut lists, id);
    assert_eq!(series.len(), 2);
    assert_eq!(series[0].user_score, None);
    assert_eq!(series[0].synced_from_external_account_id, None);
    assert_eq!(series[1].user_score, Some(80));
    assert_eq!(lists.len(), 1);
    assert_eq!(lists[0].provider, PROVIDER_ANILIST);
}

#[test]
fn the_outcome_of_a_sync_is_kept() {
    let mut db = AccountStore::new();
    let id = linked(&mut db, sample_anilist_request()).unwrap();
    update_last_sync_deferred_count(&mut db, id, 4);
    update_last_sync_auth_failed(&mut db, id, true);
    update_score_format(&mut db, id, "POINT_100");
    let got = current(&db).unwrap();
    assert_eq!(got.last_sync_deferred_count, 4);
    assert!(got.last_sync_auth_failed);
    assert_eq!(got.score_format, "POINT_100");
    assert!(db.check());
}

#[test]
fn no_account_is_linked_when_the_ids_are_used_up() {
    let mut db = AccountStore { accounts: Vec::new(), last_id: i64::MAX };
    let err = linked(&mut db, sample_mal_request()).unwrap_err();
    assert!(err.starts_with("external_accounts INSERT failed: "));
}

#[test]
fn a_store_with_two_accounts_is_not_accepted() {
    let mut db = AccountStore::new();
    linked(&mut db, sample_anilist_request()).unwrap();
    assert!(db.check());
    let mut other = db.accounts[0].clone();
    other.id = 2;
    other.provider = PROVIDER_MAL.to_string();
    db.accounts.push(other);
    db.last_id = 2;
    assert!(!db.check());
}
