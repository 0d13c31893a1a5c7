use ryokan::models::config::Config;
use ryokan::scheduler::{
    classify_report, cleanup_report, mappings_report, metadata_report, rss_report, rss_schedule,
    upgrade_report, wants_jellyfin, wants_qbit, CleanupStep, RssClock, RssSettings,
    UpgradeOutcome,
};

fn every(interval_minutes: i32) -> Option<RssSettings> {
    Some(RssSettings { enabled: true, interval_minutes })
}

/// The minutes until the feeds are read next.
fn wait(clock: &mut RssClock, settings: Option<RssSettings>) -> i64 {
    let mut minutes = 1;
    while !clock.tick(settings) {
        minutes += 1;
    }
    minutes
}

#[test]
fn the_feeds_are_read_right_after_a_start() {
    assert!(RssClock::new().tick(every(60)));
    assert!(!RssClock::new().tick(None));
    assert!(!RssClock::new().tick(Some(RssSettings { enabled: false, interval_minutes: 1 })));
}

#[test]
fn the_feeds_are_read_at_their_interval() {
    let mut clock = RssClock::new();
    clock.tick(every(15));
    assert_eq!(wait(&mut clock, every(15)), 15);
    assert_eq!(wait(&mut clock, every(0)), 1);
    assert_eq!(wait(&mut clock, every(-5)), 1);
    assert_eq!(wait(&mut clock, every(600)), 60);
}

#[test]
fn failures_double_the_wait_up_to_five_times() {
    let mut clock = RssClock::new();
    clock.tick(every(5));
    for expected in [5, 10, 20, 40, 80, 160, 160, 160] {
        assert_eq!(wait(&mut clock, every(5)), expected);
        clock.finished(false);
    }
    clock.finished(true);
    assert_eq!(clock.consecutive_errors, 0);
    assert_eq!(wait(&mut clock, every(5)), 5);
}

#[test]
fn a_switched_off_reader_still_counts_the_minutes() {
    let mut clock = RssClock::new();
    clock.tick(every(5));
    for _ in 0..10 {
        assert!(!clock.tick(Some(RssSettings { enabled: false, interval_minutes: 5 })));
    }
    assert!(clock.tick(every(5)));
}

#[test]
fn schedules_are_told_in_words() {
    assert_eq!(rss_schedule(15), "Every 15 minutes");
    assert_eq!(rss_schedule(0), "Every 1 minutes");
    assert_eq!(rss_schedule(90), "Every 60 minutes");
}

#[test]
fn reports_say_how_a_task_went() {
    let r = rss_report(Ok("3 grabbed".into()), 0);
    assert_eq!((r.status.as_str(), r.detail.as_str()), ("ok", "3 grabbed"));
    assert!(r.log_message.is_none());
    let r = rss_report(Err("timeout".into()), 3);
    assert_eq!((r.status.as_str(), r.detail.as_str()), ("error", "timeout"));
    assert_eq!(r.log_message.as_deref(), Some("Auto RSS sync failed"));
    assert_eq!(r.log_detail.as_deref(), Some("timeout (backoff: 3 consecutive errors)"));

    let r = metadata_report(7, 0);
    assert_eq!((r.status.as_str(), r.detail.as_str()), ("ok", "refreshed=7, failed=0"));
    assert_eq!(metadata_report(7, 2).status, "warn");

    let r = classify_report(1, 20, 18, 2);
    assert_eq!(r.detail, "series=1, files_scanned=20, classified=18, needs_review=2");

    assert_eq!(upgrade_report(UpgradeOutcome::Done("none".into())).status, "ok");
    let r = upgrade_report(UpgradeOutcome::Failed("no net".into()));
    assert_eq!(r.log_detail.as_deref(), Some("no net"));
    let r = upgrade_report(UpgradeOutcome::TimedOut);
    assert_eq!(r.detail, "Timed out after 30 minutes");
    assert_eq!(r.log_message.as_deref(), Some("Upgrade search timed out"));

    assert_eq!(mappings_report(true).status, "ok");
    assert_eq!(mappings_report(false).detail, "Failed to download mappings");
}

#[test]
fn a_cleaning_tells_which_steps_failed() {
    let step = |name: &str, error: Option<&str>| CleanupStep {
        name: name.into(),
        error: error.map(|e| e.to_string()),
    };
    let r = cleanup_report(&vec![step("logs", None), step("rss", None)]);
    assert_eq!((r.status.as_str(), r.detail.as_str()), ("ok", "Cleanup completed"));
    let r = cleanup_report(&vec![
        step("logs", Some("locked")),
        step("rss", None),
        step("artwork", Some("gone")),
    ]);
    assert_eq!((r.status.as_str(), r.detail.as_str()), ("warn", "logs: locked; artwork: gone"));
}

#[test]
fn servers_are_used_when_the_settings_name_them() {
    let mut c = Config::default();
    assert!(!wants_qbit(&c) && !wants_jellyfin(&c));
    c.qbit_url = "http://q".into();
    c.jellyfin_url = "http://j".into();
    assert!(wants_qbit(&c) && !wants_jellyfin(&c));
    c.jellyfin_api_key = "k".into();
    assert!(wants_jellyfin(&c));
}
