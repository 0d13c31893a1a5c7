//! When the background tasks run, and what is reported of them.
use crate::json::texts;
use crate::models::config::Config;
use crate::table::Dup;
use crate::text::{
    decimal, dup_optional, join2, natural, optional_text, own, push_decimal, push_natural,
};
use vstd::prelude::*;

verus! {

/// The minutes that count as passed when the manager starts, so that the first
/// run is not put off.
pub const LONG_AGO: i64 = 10_000;

/// When the feeds are read next.
#[derive(Debug, Clone, Copy, PartialEq, Eq, Structural)]
pub struct RssClock {
    pub minutes_since_last: i64,
    pub consecutive_errors: i64,
}

/// What the settings say of reading the feeds.
#[derive(Debug, Clone, Copy, PartialEq, Eq, Structural)]
pub struct RssSettings {
    pub enabled: bool,
    pub interval_minutes: i32,
}

/// The minutes between two runs: what the settings say, but no less than 1 and
/// no more than 60.
pub open spec fn pace(interval_minutes: i32) -> int {
    if interval_minutes < 1 {
        1
    } else if interval_minutes > 60 {
        60
    } else {
        interval_minutes as int
    }
}

/// `n` doubled `times` times.
pub open spec fn doubled(n: int, times: nat) -> int
    decreases times,
{
    if times == 0 {
        n
    } else {
        2 * doubled(n, (times - 1) as nat)
    }
}

/// The minutes to wait after some failures in a row: twice as long for each,
/// up to five.
pub open spec fn wait_minutes(interval_minutes: i32, errors: int) -> int {
    doubled(
        pace(interval_minutes),
        (if errors <= 0 {
            0int
        } else if errors > 5 {
            5
        } else {
            errors
        }) as nat,
    )
}

fn clamp_interval(interval_minutes: i32) -> (r: i64)
    ensures
        r == pace(interval_minutes),
{
    if interval_minutes < 1 {
        1
    } else if interval_minutes > 60 {
        60
    } else {
        interval_minutes as i64
    }
}

/// How often the feeds are read, in words.
pub fn rss_schedule(interval_minutes: i32) -> (text: String)
    ensures
        text@ == "Every "@ + decimal(pace(interval_minutes)) + " minutes"@,
{
    let mut text = own("Every ");
    push_decimal(&mut text, clamp_interval(interval_minutes));
    text.append(" minutes");
    text
}

impl RssClock {
    /// The clock when the manager starts.
    pub fn new() -> (clock: RssClock)
        ensures
            clock == (RssClock { minutes_since_last: LONG_AGO, consecutive_errors: 0 }),
    {
        RssClock { minutes_since_last: LONG_AGO, consecutive_errors: 0 }
    }

    /// Whether a run is due, a minute later.
    pub open spec fn due(self, settings: Option<RssSettings>) -> bool {
        settings matches Some(s) && s.enabled && self.minutes_since_last + 1 >= wait_minutes(
            s.interval_minutes,
            self.consecutive_errors as int,
        )
    }

    /// Lets a minute pass and says whether the feeds are to be read now. They
    /// are not without settings, or where these say so.
    pub fn tick(&mut self, settings: Option<RssSettings>) -> (run: bool)
        requires
            old(self).minutes_since_last < i64::MAX,
        ensures
            run == old(self).due(settings),
            *final(self) == (RssClock {
                minutes_since_last: if run {
                    0
                } else {
                    (old(self).minutes_since_last + 1) as i64
                },
                consecutive_errors: old(self).consecutive_errors,
            }),
            run ==> final(self).minutes_since_last == 0,
            !run ==> final(self).minutes_since_last == old(self).minutes_since_last + 1,
            final(self).consecutive_errors == old(self).consecutive_errors,
    {
        self.minutes_since_last = self.minutes_since_last + 1;
        let s = match settings {
            Some(s) => s,
            None => {
                return false;
            },
        };
        if !s.enabled {
            return false;
        }
        let times: i64 = if self.consecutive_errors <= 0 {
            0
        } else if self.consecutive_errors > 5 {
            5
        } else {
            self.consecutive_errors
        };
        let every: i64 = clamp_interval(s.interval_minutes);
        let mut wait: i64 = every;
        let mut done: i64 = 0;
        proof {
            reveal_with_fuel(doubled, 6);
        }
        while done < times
            invariant
                0 <= done <= times <= 5,
                1 <= every <= 60,
                wait == doubled(every as int, done as nat),
                1 <= wait,
                done == 0 ==> wait <= 60,
                done == 1 ==> wait <= 120,
                done == 2 ==> wait <= 240,
                done == 3 ==> wait <= 480,
                done == 4 ==> wait <= 960,
            decreases times - done,
        {
            wait = 2 * wait;
            done = done + 1;
        }
        if self.minutes_since_last < wait {
            return false;
        }
        self.minutes_since_last = 0;
        true
    }

    /// Notes how a run went.
    pub fn finished(&mut self, ok: bool)
        requires
            old(self).consecutive_errors < i64::MAX,
        ensures
            *final(self) == (RssClock {
                consecutive_errors: if ok {
                    0
                } else {
                    (old(self).consecutive_errors + 1) as i64
                },
                ..*old(self)
            }),
            ok ==> final(self).consecutive_errors == 0,
            !ok ==> final(self).consecutive_errors == old(self).consecutive_errors + 1,
            final(self).minutes_since_last == old(self).minutes_since_last,
    {
        if ok {
            self.consecutive_errors = 0;
        } else {
            self.consecutive_errors = self.consecutive_errors + 1;
        }
    }
}

/// What is reported of a run of a task.
#[derive(Debug)]
pub struct TaskReport {
    /// `ok`, `warn` or `error`.
    pub status: String,
    pub detail: String,
    /// What goes to the log as an error, if anything.
    pub log_message: Option<String>,
    pub log_detail: Option<String>,
}

/// The contents of a [`TaskReport`].
#[verifier::ext_equal]
pub struct TaskReportView {
    pub status: Seq<char>,
    pub detail: Seq<char>,
    pub log_message: Option<Seq<char>>,
    pub log_detail: Option<Seq<char>>,
}

impl View for TaskReport {
    type V = TaskReportView;

    open spec fn view(&self) -> TaskReportView {
        TaskReportView {
            status: self.status@,
            detail: self.detail@,
            log_message: optional_text(self.log_message),
            log_detail: optional_text(self.log_detail),
        }
    }
}

impl Dup for TaskReport {
    fn dup(&self) -> (copy: Self) {
        TaskReport {
            status: self.status.clone(),
            detail: self.detail.clone(),
            log_message: dup_optional(&self.log_message),
            log_detail: dup_optional(&self.log_detail),
        }
    }
}

impl Clone for TaskReport {
    fn clone(&self) -> (copy: Self)
        ensures
            copy@ == self@,
    {
        self.dup()
    }
}

pub open spec fn quiet(status: Seq<char>, detail: Seq<char>) -> TaskReportView {
    TaskReportView { status, detail, log_message: None, log_detail: None }
}

pub open spec fn loud(
    status: Seq<char>,
    detail: Seq<char>,
    message: Seq<char>,
    log_detail: Seq<char>,
) -> TaskReportView {
    TaskReportView { status, detail, log_message: Some(message), log_detail: Some(log_detail) }
}

fn report(status: &str, detail: String) -> (r: TaskReport)
    ensures
        r@ == quiet(status@, detail@),
{
    TaskReport { status: own(status), detail, log_message: None, log_detail: None }
}

/// What is reported of reading the feeds; `errors` is how often in a row it
/// failed, this time included.
pub fn rss_report(outcome: Result<String, String>, errors: i64) -> (r: TaskReport)
    ensures
        r@ == (match outcome {
            Ok(detail) => quiet("ok"@, detail@),
            Err(e) => loud(
                "error"@,
                e@,
                "Auto RSS sync failed"@,
                e@ + " (backoff: "@ + decimal(errors as int) + " consecutive errors)"@,
            ),
        }),
{
    match outcome {
        Ok(detail) => report("ok", detail),
        Err(e) => {
            let mut text = join2(&e, " (backoff: ");
            push_decimal(&mut text, errors);
            text.append(" consecutive errors)");
            TaskReport {
                status: own("error"),
                detail: e,
                log_message: Some(own("Auto RSS sync failed")),
                log_detail: Some(text),
            }
        },
    }
}

/// What is reported of a refresh of what is known of the series.
pub fn metadata_report(refreshed: u64, failed: u64) -> (r: TaskReport)
    ensures
        r@ == quiet(
            if failed > 0 {
                "warn"@
            } else {
                "ok"@
            },
            "refreshed="@ + natural(refreshed as int) + ", failed="@ + natural(failed as int),
        ),
{
    let mut detail = own("refreshed=");
    push_natural(&mut detail, refreshed);
    detail.append(", failed=");
    push_natural(&mut detail, failed);
    report(
        if failed > 0 {
            "warn"
        } else {
            "ok"
        },
        detail,
    )
}

/// The texts one after the other, with `; ` between them.
pub open spec fn listed(parts: Seq<Seq<char>>) -> Seq<char>
    decreases parts.len(),
{
    if parts.len() == 0 {
        Seq::empty()
    } else if parts.len() == 1 {
        parts[0]
    } else {
        listed(parts.drop_last()) + "; "@ + parts.last()
    }
}

fn list(parts: &Vec<String>) -> (text: String)
    ensures
        text@ == listed(texts(parts@)),
{
    let ghost all = texts(parts@);
    assert(all.len() == parts.len());
    let mut text = String::new();
    let mut i: usize = 0;
    assert(all.take(0).len() == 0);
    while i < parts.len()
        invariant
            i <= parts.len(),
            all == texts(parts@),
            all.len() == parts.len(),
            text@ == listed(all.take(i as int)),
        decreases parts.len() - i,
    {
        let ghost before = text@;
        if i > 0 {
            text.append("; ");
        }
        text.append(&parts[i]);
        proof {
            let t = all.take(i + 1);
            assert(t.drop_last() =~= all.take(i as int));
            assert(t.last() == parts[i as int]@);
            if i == 0 {
                assert(before =~= Seq::<char>::empty());
                assert(text@ =~= t[0]);
            }
        }
        i += 1;
    }
    assert(all.take(i as int) =~= all);
    text
}

/// How the cleaning of one kind of record went.
#[derive(Debug)]
pub struct CleanupStep {
    /// `logs`, `rss` and so on.
    pub name: String,
    pub error: Option<String>,
}

/// The contents of a [`CleanupStep`].
#[verifier::ext_equal]
pub struct CleanupStepView {
    pub name: Seq<char>,
    pub error: Option<Seq<char>>,
}

impl View for CleanupStep {
    type V = CleanupStepView;

    open spec fn view(&self) -> CleanupStepView {
        CleanupStepView {
            name: self.name@,
            error: optional_text(self.error),
        }
    }
}

impl Dup for CleanupStep {
    fn dup(&self) -> (copy: Self) {
        CleanupStep {
            name: self.name.clone(),
            error: dup_optional(&self.error),
        }
    }
}

impl Clone for CleanupStep {
    fn clone(&self) -> (copy: Self)
        ensures
            copy@ == self@,
    {
        self.dup()
    }
}

/// The step as it is reported, when it failed.
pub open spec fn complaint(s: CleanupStepView) -> Option<Seq<char>> {
    match s.error {
        Some(e) => Some(s.name + ": "@ + e),
        None => None,
    }
}

/// What the steps that failed have to say.
pub open spec fn complaints(steps: Seq<CleanupStepView>) -> Seq<Seq<char>>
    decreases steps.len(),
{
    if steps.len() == 0 {
        Seq::empty()
    } else {
        match complaint(steps.last()) {
            Some(c) => complaints(steps.drop_last()).push(c),
            None => complaints(steps.drop_last()),
        }
    }
}

/// What is reported of a cleaning: that it is done, or which steps failed.
pub fn cleanup_report(steps: &Vec<CleanupStep>) -> (r: TaskReport)
    ensures
        ({
            let errors = complaints(crate::table::views(steps@));
            r@ == (if errors.len() == 0 {
                quiet("ok"@, "Cleanup completed"@)
            } else {
                quiet("warn"@, listed(errors))
            })
        }),
{
    let ghost all = crate::table::views(steps@);
    assert(all.len() == steps.len());
    let mut errors: Vec<String> = Vec::new();
    let mut i: usize = 0;
    proof {
        assert(all.take(0).len() == 0);
        assert(texts(errors@) =~= complaints(all.take(0)));
    }
    while i < steps.len()
        invariant
            i <= steps.len(),
            all == crate::table::views(steps@),
            all.len() == steps.len(),
            texts(errors@) == complaints(all.take(i as int)),
        decreases steps.len() - i,
    {
        let ghost had = errors@;
        proof {
            let t = all.take(i + 1);
            assert(t.drop_last() =~= all.take(i as int));
            assert(t.last() == steps[i as int]@);
        }
        match &steps[i].error {
            Some(e) => {
                let mut text = join2(&steps[i].name, ": ");
                text.append(e);
                let ghost said = text@;
                errors.push(text);
                assert(texts(errors@) =~= texts(had).push(said));
            },
            None => {},
        }
        i += 1;
    }
    assert(all.take(i as int) =~= all);
    assert(texts(errors@).len() == errors.len());
    if errors.len() == 0 {
        report("ok", own("Cleanup completed"))
    } else {
        report("warn", list(&errors))
    }
}

/// What is reported of a sweep over the library.
pub fn classify_report(series: u64, files: u64, classified: u64, needing_review: u64) -> (r:
    TaskReport)
    ensures
        r@ == quiet(
            "ok"@,
            "series="@ + natural(series as int) + ", files_scanned="@ + natural(files as int)
                + ", classified="@ + natural(classified as int) + ", needs_review="@ + natural(
                needing_review as int,
            ),
        ),
{
    let mut detail = own("series=");
    push_natural(&mut detail, series);
    detail.append(", files_scanned=");
    push_natural(&mut detail, files);
    detail.append(", classified=");
    push_natural(&mut detail, classified);
    detail.append(", needs_review=");
    push_natural(&mut detail, needing_review);
    report("ok", detail)
}

/// How a search for better releases ended.
#[derive(Debug)]
pub enum UpgradeOutcome {
    Done(String),
    Failed(String),
    TimedOut,
}

/// What is reported of a search for better releases.
pub fn upgrade_report(outcome: UpgradeOutcome) -> (r: TaskReport)
    ensures
        r@ == (match outcome {
            UpgradeOutcome::Done(detail) => quiet("ok"@, detail@),
            UpgradeOutcome::Failed(e) => loud("error"@, e@, "Upgrade search failed"@, e@),
            UpgradeOutcome::TimedOut => loud(
                "error"@,
                "Timed out after 30 minutes"@,
                "Upgrade search timed out"@,
                "Exceeded 30-minute limit"@,
            ),
        }),
{
    match outcome {
        UpgradeOutcome::Done(detail) => report("ok", detail),
        UpgradeOutcome::Failed(e) => TaskReport {
            status: own("error"),
            detail: e.clone(),
            log_message: Some(own("Upgrade search failed")),
            log_detail: Some(e),
        },
        UpgradeOutcome::TimedOut => TaskReport {
            status: own("error"),
            detail: own("Timed out after 30 minutes"),
            log_message: Some(own("Upgrade search timed out")),
            log_detail: Some(own("Exceeded 30-minute limit")),
        },
    }
}

/// What is reported of a refresh of the id mappings.
pub fn mappings_report(loaded: bool) -> (r: TaskReport)
    ensures
        r@ == (if loaded {
            quiet("ok"@, "Mappings refreshed"@)
        } else {
            quiet("error"@, "Failed to download mappings"@)
        }),
{
    if loaded {
        report("ok", own("Mappings refreshed"))
    } else {
        report("error", own("Failed to download mappings"))
    }
}

/// Whether the settings name a qBittorrent server.
pub fn wants_qbit(config: &Config) -> (r: bool)
    ensures
        r == (config@.qbit_url.len() > 0),
{
    !config.qbit_url.as_str().is_empty()
}

/// Whether the settings name a Jellyfin server and a key for it.
pub fn wants_jellyfin(config: &Config) -> (r: bool)
    ensures
        r == (config@.jellyfin_url.len() > 0 && config@.jellyfin_api_key.len() > 0),
{
    !config.jellyfin_url.as_str().is_empty() && !config.jellyfin_api_key.as_str().is_empty()
}

/// The feeds are read right after a start, whatever the interval.
pub proof fn a_new_clock_is_due(s: RssSettings)
    requires
        s.enabled,
    ensures
        (RssClock { minutes_since_last: LONG_AGO, consecutive_errors: 0 }).due(Some(s)),
{
}

/// However often reading failed, the wait is at least the interval and at most
/// 32 times as long.
pub proof fn a_wait_is_bounded(interval_minutes: i32, errors: int)
    ensures
        pace(interval_minutes) <= wait_minutes(interval_minutes, errors) <= 32 * pace(
            interval_minutes,
        ),
{
    reveal_with_fuel(doubled, 6);
}

/// A further failure never shortens the wait.
pub proof fn failures_lengthen_the_wait(interval_minutes: i32, errors: int)
    requires
        errors >= 0,
    ensures
        wait_minutes(interval_minutes, errors) <= wait_minutes(interval_minutes, errors + 1),
{
    reveal_with_fuel(doubled, 6);
}

/// After a run that went well the wait is the interval again.
pub proof fn success_ends_the_waiting(clock: RssClock, s: RssSettings)
    requires
        s.enabled,
        clock.consecutive_errors == 0,
    ensures
        clock.due(Some(s)) <==> clock.minutes_since_last + 1 >= pace(s.interval_minutes),
{
}

/// A clock that is not due becomes so in time.
pub proof fn every_wait_ends(clock: RssClock, s: RssSettings)
    requires
        s.enabled,
        clock.minutes_since_last + 1 >= 32 * pace(s.interval_minutes),
    ensures
        clock.due(Some(s)),
{
    a_wait_is_bounded(s.interval_minutes, clock.consecutive_errors as int);
}

/// The feeds are read no more than once a minute and no less than once an
/// hour, and in between as often as the settings say.
pub proof fn the_pace_is_what_the_settings_say(interval_minutes: i32)
    ensures
        1 <= pace(interval_minutes) <= 60,
        1 <= interval_minutes <= 60 ==> pace(interval_minutes) == interval_minutes,
        interval_minutes < 1 ==> pace(interval_minutes) == 1,
        interval_minutes > 60 ==> pace(interval_minutes) == 60,
{
}

/// Each failure in a row doubles the wait, until there were five; without one
/// it is the pace.
pub proof fn each_failure_doubles_the_wait(interval_minutes: i32, errors: int)
    ensures
        errors <= 0 ==> wait_minutes(interval_minutes, errors) == pace(interval_minutes),
        0 <= errors < 5 ==> wait_minutes(interval_minutes, errors + 1) == 2 * wait_minutes(
            interval_minutes,
            errors,
        ),
        errors >= 5 ==> wait_minutes(interval_minutes, errors) == 32 * pace(interval_minutes),
{
    reveal_with_fuel(doubled, 6);
}

/// Nothing is due where reading is switched off or nothing is set; else it is
/// due once the wait has passed, the minute that begins included.
pub proof fn a_run_is_due_after_its_wait(clock: RssClock, s: RssSettings)
    ensures
        !clock.due(None),
        !s.enabled ==> !clock.due(Some(s)),
        s.enabled ==> (clock.due(Some(s)) <==> clock.minutes_since_last >= wait_minutes(
            s.interval_minutes,
            clock.consecutive_errors as int,
        ) - 1),
{
}

/// A cleaning complains of each step that failed, by name and reason, and of
/// no other.
pub proof fn a_cleaning_complains_of_what_failed(steps: Seq<CleanupStepView>, text: Seq<char>)
    ensures
        complaints(steps).contains(text) <==> exists|i: int|
            0 <= i < steps.len() && (#[trigger] steps[i]).error is Some && text == steps[i].name
                + ": "@ + steps[i].error->0,
        complaints(steps).len() == 0 <==> forall|i: int|
            0 <= i < steps.len() ==> (#[trigger] steps[i]).error is None,
        complaints(steps).len() <= steps.len(),
    decreases steps.len(),
{
    if steps.len() > 0 {
        let rest = steps.drop_last();
        let x = steps.last();
        let had = complaints(rest);
        let all = complaints(steps);
        a_cleaning_complains_of_what_failed(rest, text);
        assert(steps[steps.len() - 1] == x);
        assert(forall|i: int| 0 <= i < rest.len() ==> #[trigger] rest[i] == steps[i]);
        if x.error is Some {
            let c = x.name + ": "@ + x.error->0;
            assert(all == had.push(c));
            assert(all[had.len() as int] == c);
            if had.contains(text) {
                let k = choose|k: int| 0 <= k < had.len() && had[k] == text;
                assert(all[k] == text);
            }
            if all.contains(text) && text != c {
                let k = choose|k: int| 0 <= k < all.len() && all[k] == text;
                assert(had[k] == text);
            }
        }
        if exists|i: int|
            0 <= i < steps.len() && (#[trigger] steps[i]).error is Some && text == steps[i].name
                + ": "@ + steps[i].error->0 {
            let i = choose|i: int|
                0 <= i < steps.len() && (#[trigger] steps[i]).error is Some && text
                    == steps[i].name + ": "@ + steps[i].error->0;
            if i < rest.len() {
                assert(rest[i] == steps[i]);
            }
        }
        if had.contains(text) {
            let i = choose|i: int|
                0 <= i < rest.len() && (#[trigger] rest[i]).error is Some && text == rest[i].name
                    + ": "@ + rest[i].error->0;
            assert(steps[i] == rest[i]);
        }
        if had.len() > 0 {
            let i = choose|i: int| 0 <= i < rest.len() && !((#[trigger] rest[i]).error is None);
            assert(steps[i] == rest[i]);
        }
        if had.len() == 0 && x.error is None {
            assert forall|i: int| 0 <= i < steps.len() implies (
            #[trigger] steps[i]).error is None by {
                if i < rest.len() {
                    assert(rest[i].error is None);
                }
            }
        }
    }
}

/// What is listed is put one behind the other with a semicolon between.
pub proof fn a_list_is_put_one_behind_the_other(parts: Seq<Seq<char>>, more: Seq<char>)
    ensures
        listed(Seq::empty()).len() == 0,
        listed(seq![more]) == more,
        parts.len() > 0 ==> listed(parts.push(more)) == listed(parts) + "; "@ + more,
{
    assert(parts.push(more).drop_last() =~= parts);
}

} // verus!
