use ryokan::models::config::{get_config, render_context, save_config, Config, ConfigStore};

#[test]
fn settings_are_read_as_they_were_saved() {
    let mut db = ConfigStore { row: None, nyaa_download_client_id: Some(4) };
    assert!(get_config(&db).is_none());
    let mut c = Config::default();
    c.media_root = " /media ".into();
    c.rss_interval_minutes = -7;
    c.sonarr_enabled = true;
    c.custom_format_minimum_score = i32::MIN;
    save_config(&mut db, &c);
    let got = get_config(&db).unwrap();
    assert_eq!(format!("{got:?}"), format!("{c:?}"));
    assert_eq!(db.nyaa_download_client_id, Some(4));
    assert_eq!(db.row.as_ref().unwrap().sonarr_enabled, 1);
    let ctx = render_context(&Some(got));
    assert_eq!(ctx.media_root, "/media");
    assert_eq!(ctx.title_pref, c.title_language);
    let ctx = render_context(&None);
    assert_eq!((ctx.media_root.as_str(), ctx.title_pref.as_str()), ("", "english"));
}

#[test]
fn every_number_but_zero_switches_on() {
    let mut db = ConfigStore { row: None, nyaa_download_client_id: None };
    save_config(&mut db, &Config::default());
    db.row.as_mut().unwrap().radarr_enabled = 2;
    assert!(get_config(&db).unwrap().radarr_enabled);
}

#[test]
fn a_new_installation_prefers_streams() {
    let c = Config::default();
    assert_eq!(c.preferred_source, "web");
    assert_eq!(c.preferred_resolution, "1080");
    assert_eq!(c.cutoff_source, "bluray");
    assert_eq!(c.rss_interval_minutes, 5);
    assert_eq!(c.post_processing_mode, "hardlink");
    assert!(c.auto_grab_on_add);
    assert_eq!(c.custom_format_minimum_score, i32::MIN);
}

#[test]
fn white_space_is_what_the_standard_library_says() {
    for code in 0..=0x10ffffu32 {
        if let Some(ch) = char::from_u32(code) {
            assert_eq!(ryokan::text::is_white_space(ch), ch.is_whitespace(), "{code:x}");
        }
    }
}
