use ryokan::handlers::system::manual_import::{
    apply_group_action, base_template, build_card, cancel, checkbox_on, confirm, discard,
    duplicate_for, duplicate_picks, echo_form, empty_form, format_display, get_session,
    group_action, group_action_gate, is_under, oob_totals, page as wizard_page, picker_candidates, picker_query,
    recent_sessions, recent_status, render_session_page, session_url, start, validate_start, AnimeEntry,
    CandidateFile, ConfirmStep, ExistingSeries, FileView, GroupActionForm, GroupCard, GroupCounts,
    GroupReply, GroupReport, GroupStep, GroupView, ImportMode, ImportPage, ImportReport,
    ImportSession, PageQuery, PathFacts, PickerQuery, RenderContext, SeriesGroup, SessionStatus,
    SessionSummary, StartForm, StartStep, WalkStats,
};

fn form(path: &str, mode: &str) -> StartForm {
    StartForm {
        path: path.to_string(),
        mode: mode.to_string(),
        follow_symlinks: Some("1".into()),
        include_hidden: None,
    }
}

fn facts(is_dir: bool, root: &str, media: &str) -> PathFacts {
    PathFacts { is_dir, canonical_root: root.to_string(), canonical_media: media.to_string() }
}

#[test]
fn validate_requires_media_root_then_path() {
    let here = facts(true, "/tmp", "/srv/media");
    let err = validate_start(&form("/tmp", "hardlink"), "", &here, "s").unwrap_err();
    assert!(err.contains("media root"), "{err}");
    let err = validate_start(&form("  ", "hardlink"), "/srv/media", &here, "s").unwrap_err();
    assert!(err.contains("Enter the folder"), "{err}");
    let err =
        validate_start(&form("relative/path", "hardlink"), "/srv/media", &here, "s").unwrap_err();
    assert!(err.contains("absolute"), "{err}");
}

#[test]
fn validate_rejects_missing_dir_and_media_root_subtree() {
    let missing = facts(false, "/srv/missing", "/srv/media");
    let err =
        validate_start(&form("/srv/missing", "copy"), "/srv/media", &missing, "s").unwrap_err();
    assert!(err.contains("not a folder"), "{err}");

    let inside = facts(true, "/srv/media/Show", "/srv/media");
    let err =
        validate_start(&form("/srv/media/Show", "copy"), "/srv/media", &inside, "s").unwrap_err();
    assert!(err.contains("inside your Ryokan media root"), "{err}");
    let itself = facts(true, "/srv/media", "/srv/media");
    let err = validate_start(&form("/srv/media", "copy"), "/srv/media", &itself, "s").unwrap_err();
    assert!(err.contains("inside your Ryokan media root"), "{err}");
}

#[test]
fn validate_builds_session_with_mode_and_toggles() {
    let src = facts(true, "/srv/src", "/srv/media");
    let s = validate_start(&form("/srv/src", "move"), "/srv/media", &src, "fresh").unwrap();
    assert_eq!(s.mode, ImportMode::Move);
    assert!(s.follow_symlinks);
    assert!(!s.include_hidden);
    assert_eq!(s.id, "fresh");
    assert!(matches!(s.status, SessionStatus::Scanning));

    let s = validate_start(&form("/srv/src", ""), "/srv/media", &src, "fresh").unwrap();
    assert_eq!(s.mode, ImportMode::Hardlink);
    let err =
        validate_start(&form("/srv/src", "symlink"), "/srv/media", &src, "fresh").unwrap_err();
    assert!(err.contains("Unknown import mode"), "{err}");
}

#[test]
fn format_display_maps_al_enums() {
    assert_eq!(format_display("TV"), "TV");
    assert_eq!(format_display("TV_SHORT"), "TV Short");
    assert_eq!(format_display("MOVIE"), "Movie");
    assert_eq!(format_display(""), "TBA");
}

fn entry(id: i64, english: &str) -> AnimeEntry {
    AnimeEntry {
        id,
        id_mal: None,
        title: english.to_string(),
        title_romaji: format!("{english} Romaji"),
        title_english: english.to_string(),
        title_native: String::new(),
        cover_url: String::new(),
        format: "TV".into(),
        episodes: Some(12),
        season_year: Some(2020),
        source: "anilist".into(),
    }
}

fn file(name: &str) -> CandidateFile {
    CandidateFile {
        rel_path: format!("Show/{name}"),
        size_bytes: 1024,
        title_from_folder: false,
        episode_label: String::new(),
        quality_label: "WEB-1080p".into(),
        selected: true,
    }
}

/// A scan that is ready, with one matched series and two candidates.
fn ready_session() -> ImportSession {
    ImportSession {
        id: "ready".into(),
        root: "/src".into(),
        mode: ImportMode::Hardlink,
        follow_symlinks: false,
        include_hidden: false,
        status: SessionStatus::Ready,
        groups: vec![SeriesGroup {
            parsed_title: "Show".into(),
            season: None,
            year: None,
            query: "Show".into(),
            files: vec![file("Show - 01.mkv"), file("Show - 02.mkv")],
            total_bytes: 2048,
            candidates: vec![entry(100, "Show"), entry(101, "Show Alternative")],
            pick: Some(0),
            low_confidence: false,
            search_error: None,
            skipped: false,
            existing: None,
        }],
        unmatched_files: Vec::new(),
        stats: WalkStats { files: 2, skipped_non_video: 0, total_bytes: 2048 },
        cross_fs: None,
        cancel: false,
    }
}

/// What an import would do with the series of a scan, as far as the files'
/// ticks decide it.
fn plan(group: &SeriesGroup, folder: &str) -> GroupView {
    let kind = if group.skipped {
        "skipped"
    } else if group.pick.is_none() {
        "nomatch"
    } else if group.existing.is_some() {
        "merge"
    } else {
        "new"
    };
    let files: Vec<FileView> = if group.skipped {
        Vec::new()
    } else {
        group
            .files
            .iter()
            .map(|f| FileView {
                rel_path: f.rel_path.clone(),
                destination: f.rel_path.replace("Show/", &format!("{folder}/Season 01/")),
                status: if f.selected { "import".into() } else { "excluded".into() },
                selected: f.selected,
            })
            .collect()
    };
    let chosen = files.iter().filter(|f| f.selected).count();
    GroupView {
        kind: kind.into(),
        kind_label: kind.into(),
        counts: GroupCounts { to_import: chosen, excluded: files.len() - chosen, present: 0 },
        files,
    }
}

fn ctx(media_root: &str) -> RenderContext {
    RenderContext { media_root: media_root.into(), title_pref: "english".into() }
}

fn totals(new_series: usize, skipped: usize, files_to_write: usize) -> SessionSummary {
    SessionSummary { new_series, merged_series: 0, skipped, files_to_write, write_bytes: 0 }
}

fn page(media_root: &str, id: &str, sessions: &Vec<ImportSession>) -> ImportPage {
    let found = get_session(sessions, id);
    let shown: Vec<GroupView> = match &found {
        Some(s) => s.groups.iter().map(|g| plan(g, "Show")).collect(),
        None => Vec::new(),
    };
    render_session_page(
        &ctx(media_root),
        id,
        found.as_ref(),
        &shown,
        &totals(1, 0, 2),
        recent_sessions(sessions),
        String::new(),
    )
}

#[test]
fn start_form_renders_and_warns_without_media_root() {
    let t = page("", "", &Vec::new());
    assert_eq!(t.step, "start");
    assert_eq!(t.page, "system");
    assert_eq!(t.tab, "import");
    assert!(t.media_root.is_empty(), "warns when media root is unset");
    assert!(t.error.is_empty());
    assert!(t.recent.is_empty());
}

#[test]
fn start_page_lists_live_sessions() {
    let mut sessions = vec![ready_session()];
    let t = page("", "", &sessions);
    assert_eq!(t.recent.len(), 1);
    assert_eq!(session_url(&t.recent[0].id), "/system/import?session=ready");
    assert_eq!(t.recent[0].root, "/src");
    sessions[0].status = SessionStatus::Importing;
    assert_eq!(page("", "", &sessions).recent[0].status, "Importing");
}

#[test]
fn unknown_or_malformed_session_shows_expired() {
    let t = page("", "nope", &Vec::new());
    assert!(t.error.contains("That preview has expired"));
    assert_eq!(t.step, "start");
    let t = page("", "fresh", &vec![ready_session()]);
    assert!(t.error.contains("That preview has expired"));
    assert_eq!(t.recent.len(), 1);
}

#[test]
fn start_with_bad_path_rerenders_form_with_error_and_echo() {
    let sent = StartForm {
        path: "/definitely/missing/dir".into(),
        mode: "copy".into(),
        follow_symlinks: None,
        include_hidden: Some("1".into()),
    };
    let nowhere = facts(false, "/definitely/missing/dir", "/srv/media");
    let recent = recent_sessions(&vec![ready_session()]);
    match start(&ctx("/srv/media"), &sent, &nowhere, "s", recent) {
        StartStep::Show(t) => {
            assert_eq!(t.step, "start");
            assert!(t.error.contains("is not a folder Ryokan can read"), "{}", t.error);
            assert_eq!(t.form.path, "/definitely/missing/dir", "echoes the typed path");
            assert_eq!(t.form.mode, "copy", "echoes the chosen mode");
            assert!(t.form.include_hidden, "echoes the hidden toggle");
            assert!(!t.form.follow_symlinks);
            assert_eq!(t.recent.len(), 1);
        }
        StartStep::Begin(_) => panic!("a folder that is not there was accepted"),
    }
}

#[test]
fn a_form_that_can_be_used_begins_a_scan() {
    let there = facts(true, "/srv/src", "/srv/media");
    match start(&ctx("/srv/media"), &form("/srv/src", "copy"), &there, "fresh", Vec::new()) {
        StartStep::Begin(s) => {
            assert_eq!(s.id, "fresh");
            assert_eq!(s.mode, ImportMode::Copy);
            assert!(matches!(s.status, SessionStatus::Scanning));
        }
        StartStep::Show(t) => panic!("{}", t.error),
    }
}

#[test]
fn the_address_names_a_scan_with_space_around_its_id() {
    let sessions = vec![ready_session()];
    let shown: Vec<GroupView> = sessions[0].groups.iter().map(|g| plan(g, "Show")).collect();
    let asked = PageQuery { session: " ready ".into() };
    let t = wizard_page(&ctx("/media"), &asked, &sessions, &shown, &totals(1, 0, 2));
    assert_eq!(t.step, "ready");
    assert_eq!(t.groups.len(), 1);
    assert_eq!(t.summary.files_to_write, 2);
    let asked = PageQuery { session: "gone".into() };
    let t = wizard_page(&ctx("/media"), &asked, &sessions, &Vec::new(), &totals(0, 0, 0));
    assert_eq!(t.step, "start");
    assert!(t.error.contains("That preview has expired"));
    assert_eq!(t.recent.len(), 1);
    let asked = PageQuery { session: "".into() };
    let t = wizard_page(&ctx("/media"), &asked, &sessions, &Vec::new(), &totals(0, 0, 0));
    assert!(t.error.is_empty());
}

#[test]
fn ready_page_renders_group_card_and_summary() {
    let t = page("/media", "ready", &vec![ready_session()]);
    assert_eq!(t.step, "ready");
    let card = &t.groups[0];
    assert_eq!(card.kind, "new", "new-series card");
    assert_eq!(card.picker_rows[1].title, "Show Alternative", "alternative offered");
    assert_eq!(card.files[0].destination, "Show/Season 01/Show - 01.mkv");
    assert_eq!(t.summary.new_series, 1, "summary counts one new series");
    assert_eq!(t.summary.files_to_write, 2);
    assert_eq!(t.stats.files, 2);
}

fn act(action: &str) -> GroupActionForm {
    GroupActionForm {
        action: action.into(),
        candidate: None,
        file: None,
        query: String::new(),
        id: None,
    }
}

fn card_of(session: &Option<ImportSession>, error: &str) -> GroupCard {
    let s = session.as_ref().unwrap();
    let shown = plan(&s.groups[0], "Show");
    match group_action(true, &s.id, 0, session.as_ref(), &shown, error.to_string()) {
        GroupReply::Card(c) => c,
        GroupReply::Redirect(url) => panic!("went to {url}"),
    }
}

#[test]
fn group_actions_swap_card_via_htmx_and_redirect_otherwise() {
    let mut session = Some(ready_session());

    let step = apply_group_action(&mut session, 0, &act("skip"));
    assert!(matches!(step, GroupStep::Finished(Ok(()))));
    let card = card_of(&session, "");
    assert_eq!(card.kind, "skipped");
    assert!(card.skipped);
    assert!(card.files.is_empty(), "skipped card hides the file table");
    let (strip, bar) = oob_totals(session.as_ref().unwrap(), &totals(0, 1, 0));
    assert!(strip.oob);
    assert!(bar.oob);
    assert_eq!(strip.summary.skipped, 1);
    assert_eq!(bar.summary.files_to_write, 0);

    apply_group_action(&mut session, 0, &act("unskip"));
    let shown = plan(&session.as_ref().unwrap().groups[0], "Show");
    let reply = group_action(false, "ready", 0, session.as_ref(), &shown, String::new());
    match reply {
        GroupReply::Redirect(url) => {
            assert_eq!(url, "/system/import?session=ready#import-group-0")
        }
        GroupReply::Card(_) => panic!("a plain form goes back to the page"),
    }
    assert!(!session.as_ref().unwrap().groups[0].skipped);

    let mut off = act("toggle_file");
    off.file = Some(1);
    apply_group_action(&mut session, 0, &off);
    let card = card_of(&session, "");
    assert!(!card.files[1].selected);
    assert_eq!((card.counts.to_import, card.counts.excluded), (1, 1));
    apply_group_action(&mut session, 0, &act("select_all"));
    assert!(card_of(&session, "").files.iter().all(|f| f.selected));
    apply_group_action(&mut session, 0, &act("select_none"));
    let card = card_of(&session, "");
    assert_eq!((card.counts.to_import, card.counts.excluded), (0, 2));

    let mut pick = act("pick");
    pick.candidate = Some(1);
    let step = apply_group_action(&mut session, 0, &pick);
    assert!(matches!(step, GroupStep::PickCandidate(Some(1))));
    session.as_mut().unwrap().groups[0].pick = Some(1);
    let card = card_of(&session, "");
    assert!(card.pick.unwrap().external_href.contains("anilist.co/anime/101"));
    assert_eq!(card_of(&session, "Unknown candidate").action_error, "Unknown candidate");
    let step = apply_group_action(&mut session, 0, &act("unpick"));
    assert!(matches!(step, GroupStep::PickCandidate(None)));
    session.as_mut().unwrap().groups[0].pick = None;
    let card = card_of(&session, "");
    assert!(card.pick.is_none());
    assert_eq!(card.kind, "nomatch");

    let mut again = act("research");
    again.query = " ".into();
    match apply_group_action(&mut session, 0, &again) {
        GroupStep::Research(q) => assert_eq!(q, " "),
        _ => panic!("a search is asked for"),
    }
}

#[test]
fn picker_lists_ranked_candidates_and_pick_id_switches() {
    let mut session = Some(ready_session());
    let card = card_of(&session, "");
    assert!(card.picker_rows[0].is_current);
    assert!(!card.picker_rows[1].is_current);
    assert_eq!(card.picker_rows[1].id, 101);

    let group = &session.as_ref().unwrap().groups[0];
    let list = picker_candidates(0, String::new(), Some(group), Ok(Vec::new()));
    assert_eq!(list.picker_rows[1].title, "Show Alternative");
    assert!(list.picker_error.is_empty());

    let mut by_id = act("pick_id");
    by_id.id = Some(101);
    let step = apply_group_action(&mut session, 0, &by_id);
    assert!(matches!(step, GroupStep::PickById(101)));
    session.as_mut().unwrap().groups[0].pick = Some(1);
    let card = card_of(&session, "");
    assert!(card.pick.unwrap().external_href.contains("anilist.co/anime/101"));
    assert!(card.picker_rows[1].is_current);
}

#[test]
fn merge_card_marks_existing_series_and_present_episode() {
    let mut s = ready_session();
    s.groups[0].existing =
        Some(ExistingSeries { anilist_id: 100, title: "Show On Disk".into() });
    let mut shown = plan(&s.groups[0], "Show On Disk");
    shown.files[0].status = "have BD-1080p".into();
    shown.counts = GroupCounts { to_import: 1, excluded: 0, present: 1 };
    let card = build_card(0, &s.groups[0], &shown, String::new(), String::new());
    assert_eq!(card.kind, "merge");
    assert_eq!(card.existing_title, "Show On Disk");
    assert_eq!(card.existing_anilist_id, 100);
    assert_eq!(card.files[0].status, "have BD-1080p");
    assert_eq!(card.files[1].destination, "Show On Disk/Season 01/Show - 02.mkv");
    assert_eq!(card.counts.present, 1);
}

#[test]
fn expired_session_actions_redirect_and_discard_removes() {
    assert_eq!(
        group_action_gate(false, "ghost").as_deref(),
        Some("/system/import?session=ghost")
    );
    assert_eq!(group_action_gate(true, "ready"), None);
    let mut sessions = vec![ready_session()];
    discard(&mut sessions, "ghost");
    assert_eq!(sessions.len(), 1);
    discard(&mut sessions, "ready");
    assert!(get_session(&sessions, "ready").is_none());
}

#[test]
fn confirm_refuses_when_nothing_would_be_written() {
    let s = ready_session();
    match confirm(Some(&s), "ready", "/srv/media", 0) {
        ConfirmStep::Refuse(m) => {
            assert!(m.contains("Nothing to import: every file is excluded"), "{m}")
        }
        _ => panic!("nothing would be written"),
    }
}

#[test]
fn confirm_refuses_without_media_root() {
    let s = ready_session();
    match confirm(Some(&s), "ready", "", 2) {
        ConfirmStep::Refuse(m) => {
            assert!(m.contains("Set a media root under Settings before importing"), "{m}")
        }
        _ => panic!("there is no media root"),
    }
}

#[test]
fn cancel_flags_only_a_running_import() {
    let mut sessions = vec![ready_session()];
    cancel(&mut sessions[0]);
    assert!(!sessions[0].cancel, "Ready session: no-op");

    sessions[0].status = SessionStatus::Importing;
    let t = page("", "ready", &sessions);
    assert_eq!(t.step, "importing");
    assert_eq!(t.progress_id, "ready-import");
    cancel(&mut sessions[0]);
    assert!(sessions[0].cancel);
}

#[test]
fn done_page_renders_the_report() {
    let mut s = ready_session();
    s.status = SessionStatus::Done(ImportReport {
        series_created: 1,
        files_written: 1,
        files_failed: 1,
        bytes_written: 2048,
        groups: vec![GroupReport {
            parsed_title: "Show".into(),
            series_title: "Show".into(),
            anilist_id: 100,
            folder_name: "Show".into(),
            created: true,
            written: 1,
            errors: vec!["Show/Show - 02.mkv: permission denied".into()],
        }],
    });
    let t = page("", "ready", &vec![s]);
    assert_eq!(t.step, "done");
    assert_eq!(t.report.files_failed, 1);
    assert_eq!(t.report.bytes_written, 2048);
    assert_eq!(t.report.groups[0].anilist_id, 100);
    assert!(t.report.groups[0].errors[0].contains("permission denied"));
}

#[test]
fn a_confirmed_preview_starts_and_a_second_confirmation_goes_to_its_page() {
    let mut s = ready_session();
    assert!(matches!(confirm(Some(&s), "ready", "/srv/media", 2), ConfirmStep::Start));
    s.status = SessionStatus::Importing;
    match confirm(Some(&s), "ready", "/srv/media", 2) {
        ConfirmStep::Redirect(url) => assert_eq!(url, "/system/import?session=ready"),
        _ => panic!("the import runs already"),
    }
    assert!(matches!(confirm(None, "gone", "/srv/media", 2), ConfirmStep::Redirect(_)));
}

#[test]
fn a_path_lies_under_a_folder_by_whole_names() {
    for (path, base, want) in [
        ("/srv/media", "/srv/media", true),
        ("/srv/media/Show", "/srv/media", true),
        ("/srv/media2", "/srv/media", false),
        ("/srv", "/srv/media", false),
        ("/srv//media/./Show", "/srv/media", true),
        ("/anything", "/", true),
    ] {
        assert_eq!(is_under(path, base), want, "{path} under {base}");
        assert_eq!(
            std::path::Path::new(path).starts_with(base),
            want,
            "{path} starts with {base}"
        );
    }
}

#[test]
fn modes_and_checkboxes_are_read_as_forms_send_them() {
    assert_eq!(ImportMode::parse(" HardLink "), Some(ImportMode::Hardlink));
    assert_eq!(ImportMode::parse("copy"), Some(ImportMode::Copy));
    assert_eq!(ImportMode::parse("MOVE"), Some(ImportMode::Move));
    assert_eq!(ImportMode::parse("symlink"), None);
    for on in ["1", "on", "true"] {
        assert!(checkbox_on(&Some(on.to_string())));
    }
    assert!(!checkbox_on(&Some("yes".to_string())));
    assert!(!checkbox_on(&None));
    assert_eq!(echo_form(&form(" /a ", "symlink")).mode, "hardlink");
    assert_eq!(echo_form(&form(" /a ", " Copy ")).mode, "copy");
    assert_eq!(empty_form().mode, "hardlink");
    assert_eq!(picker_query(&PickerQuery { q: "  x y ".into() }), "x y");
}

#[test]
fn a_pick_that_another_series_has_is_marked() {
    let mut s = ready_session();
    let mut twin = ready_session().groups.remove(0);
    twin.parsed_title = "Show (again)".into();
    s.groups.push(twin);
    let firsts = duplicate_picks(&s.groups);
    assert_eq!(duplicate_for(&firsts, &s.groups[0]), "");
    assert_eq!(duplicate_for(&firsts, &s.groups[1]), "Show");
    s.groups[0].skipped = true;
    let firsts = duplicate_picks(&s.groups);
    assert_eq!(duplicate_for(&firsts, &s.groups[1]), "");
}

#[test]
fn corrections_that_name_nothing_are_refused() {
    let refused = |session: &mut Option<ImportSession>, idx: usize, f: &GroupActionForm| {
        match apply_group_action(session, idx, f) {
            GroupStep::Finished(Err(m)) => m,
            _ => panic!("not refused"),
        }
    };
    let mut s = Some(ready_session());
    assert_eq!(refused(&mut s, 0, &act("pick")), "Pick a series");
    assert_eq!(refused(&mut s, 0, &act("pick_id")), "Pick a series");
    assert_eq!(refused(&mut s, 0, &act("toggle_file")), "Unknown file");
    assert_eq!(refused(&mut s, 5, &act("skip")), "Unknown series in this preview");
    assert_eq!(refused(&mut s, 0, &act("dance")), "Unknown action dance");
    assert_eq!(refused(&mut None, 0, &act("skip")), "Preview session not found");
    assert!(!s.unwrap().groups[0].skipped);
}

#[test]
fn toggling_a_file_twice_leaves_it_as_it_was() {
    let mut s = Some(ready_session());
    let mut f = act("toggle_file");
    f.file = Some(0);
    apply_group_action(&mut s, 0, &f);
    apply_group_action(&mut s, 0, &f);
    assert!(s.as_ref().unwrap().groups[0].files[0].selected);
    f.file = Some(9);
    apply_group_action(&mut s, 0, &f);
    assert!(s.unwrap().groups[0].files.iter().all(|f| f.selected));
}

#[test]
fn a_search_in_the_picker_marks_the_current_pick() {
    let s = ready_session();
    let hits = Ok(vec![entry(7, "Other"), entry(100, "Show")]);
    let list = picker_candidates(0, "x".into(), Some(&s.groups[0]), hits);
    assert_eq!(list.picker_rows.len(), 2);
    assert!(!list.picker_rows[0].is_current);
    assert!(list.picker_rows[1].is_current);
    let list = picker_candidates(0, "x".into(), Some(&s.groups[0]), Err("offline".into()));
    assert_eq!(list.picker_error, "Search failed: offline");
    let list = picker_candidates(3, "x".into(), None, Ok(Vec::new()));
    assert_eq!(list.picker_error, "This preview has expired. Start a new scan.");
    assert_eq!(list.idx, 3);
}

#[test]
fn the_states_of_a_scan_are_told_in_words() {
    let mut s = ready_session();
    assert_eq!(recent_status(&s.status), "Ready to review");
    s.cross_fs = Some(true);
    assert!(page("", "ready", &vec![s.clone()]).cross_fs_warning);
    s.status = SessionStatus::Scanning;
    assert_eq!(recent_status(&s.status), "Scanning");
    let t = page("", "ready", &vec![s.clone()]);
    assert_eq!((t.step.as_str(), t.progress_id.as_str()), ("scanning", "ready"));
    s.status = SessionStatus::Failed("no space".into());
    assert_eq!(recent_status(&s.status), "Failed");
    let t = page("", "ready", &vec![s]);
    assert_eq!((t.step.as_str(), t.failed_message.as_str()), ("failed", "no space"));
    assert_eq!(base_template(&ctx("/m")).media_root, "/m");
}
