//! Runs over the feeds, and what was decided of each item.
use crate::json::texts;
use crate::models::series::{is_known, known, SeriesRow, SeriesRowView};
use crate::models::StoreError;
use crate::table::{
    check_numbered, delete_where, distinct, dup_all, every_pair, first_where, head, limit, limited,
    numbered, order_by, ordered, position, project, select, update_where, updated, views, without,
    Dup,
};
use crate::text::{at_most, dup_optional, optional_text, own, same, text_lt};
use vstd::prelude::*;

verus! {

/// A run as it is stored.
#[derive(Debug)]
pub struct RunRow {
    pub id: i64,
    pub started_at: String,
    pub finished_at: Option<String>,
    pub trigger_source: String,
    pub status: String,
    pub items_seen: i32,
    pub matched: i32,
    pub grabbed: i32,
    pub skipped: i32,
    pub detail: String,
}

/// The contents of a [`RunRow`].
#[verifier::ext_equal]
pub struct RunRowView {
    pub id: i64,
    pub started_at: Seq<char>,
    pub finished_at: Option<Seq<char>>,
    pub trigger_source: Seq<char>,
    pub status: Seq<char>,
    pub items_seen: i32,
    pub matched: i32,
    pub grabbed: i32,
    pub skipped: i32,
    pub detail: Seq<char>,
}

impl View for RunRow {
    type V = RunRowView;

    open spec fn view(&self) -> RunRowView {
        RunRowView {
            id: self.id,
            started_at: self.started_at@,
            finished_at: optional_text(self.finished_at),
            trigger_source: self.trigger_source@,
            status: self.status@,
            items_seen: self.items_seen,
            matched: self.matched,
            grabbed: self.grabbed,
            skipped: self.skipped,
            detail: self.detail@,
        }
    }
}

impl Dup for RunRow {
    fn dup(&self) -> (copy: Self) {
        RunRow {
            id: self.id,
            started_at: self.started_at.clone(),
            finished_at: dup_optional(&self.finished_at),
            trigger_source: self.trigger_source.clone(),
            status: self.status.clone(),
            items_seen: self.items_seen,
            matched: self.matched,
            grabbed: self.grabbed,
            skipped: self.skipped,
            detail: self.detail.clone(),
        }
    }
}

impl Clone for RunRow {
    fn clone(&self) -> (copy: Self)
        ensures
            copy@ == self@,
    {
        self.dup()
    }
}

/// A run as it is shown; one that is not finished has an empty time.
#[derive(Debug)]
pub struct RssRun {
    pub id: i64,
    pub started_at: String,
    pub finished_at: String,
    pub trigger_source: String,
    pub status: String,
    pub items_seen: i32,
    pub matched: i32,
    pub grabbed: i32,
    pub skipped: i32,
    pub detail: String,
}

/// The contents of a [`RssRun`].
#[verifier::ext_equal]
pub struct RssRunView {
    pub id: i64,
    pub started_at: Seq<char>,
    pub finished_at: Seq<char>,
    pub trigger_source: Seq<char>,
    pub status: Seq<char>,
    pub items_seen: i32,
    pub matched: i32,
    pub grabbed: i32,
    pub skipped: i32,
    pub detail: Seq<char>,
}

impl View for RssRun {
    type V = RssRunView;

    open spec fn view(&self) -> RssRunView {
        RssRunView {
            id: self.id,
            started_at: self.started_at@,
            finished_at: self.finished_at@,
            trigger_source: self.trigger_source@,
            status: self.status@,
            items_seen: self.items_seen,
            matched: self.matched,
            grabbed: self.grabbed,
            skipped: self.skipped,
            detail: self.detail@,
        }
    }
}

impl Dup for RssRun {
    fn dup(&self) -> (copy: Self) {
        RssRun {
            id: self.id,
            started_at: self.started_at.clone(),
            finished_at: self.finished_at.clone(),
            trigger_source: self.trigger_source.clone(),
            status: self.status.clone(),
            items_seen: self.items_seen,
            matched: self.matched,
            grabbed: self.grabbed,
            skipped: self.skipped,
            detail: self.detail.clone(),
        }
    }
}

impl Clone for RssRun {
    fn clone(&self) -> (copy: Self)
        ensures
            copy@ == self@,
    {
        self.dup()
    }
}

/// What was decided of an item, as it is stored.
#[derive(Debug)]
pub struct SeenRow {
    pub id: i64,
    pub item_key: String,
    pub title: String,
    pub link: String,
    pub series_id: Option<i64>,
    pub series_title: String,
    pub group_name: String,
    pub is_batch: bool,
    /// `grabbed`, `skipped` and so on.
    pub decision: String,
    pub reason: String,
    /// Where the item came from: `nyaa`, `indexer` or `direct`.
    pub source: String,
    /// Which indexer or feed.
    pub source_id: Option<i64>,
    pub created_at: String,
}

/// The contents of a [`SeenRow`].
#[verifier::ext_equal]
pub struct SeenRowView {
    pub id: i64,
    pub item_key: Seq<char>,
    pub title: Seq<char>,
    pub link: Seq<char>,
    pub series_id: Option<i64>,
    pub series_title: Seq<char>,
    pub group_name: Seq<char>,
    pub is_batch: bool,
    pub decision: Seq<char>,
    pub reason: Seq<char>,
    pub source: Seq<char>,
    pub source_id: Option<i64>,
    pub created_at: Seq<char>,
}

impl View for SeenRow {
    type V = SeenRowView;

    open spec fn view(&self) -> SeenRowView {
        SeenRowView {
            id: self.id,
            item_key: self.item_key@,
            title: self.title@,
            link: self.link@,
            series_id: self.series_id,
            series_title: self.series_title@,
            group_name: self.group_name@,
            is_batch: self.is_batch,
            decision: self.decision@,
            reason: self.reason@,
            source: self.source@,
            source_id: self.source_id,
            created_at: self.created_at@,
        }
    }
}

impl Dup for SeenRow {
    fn dup(&self) -> (copy: Self) {
        SeenRow {
            id: self.id,
            item_key: self.item_key.clone(),
            title: self.title.clone(),
            link: self.link.clone(),
            series_id: self.series_id,
            series_title: self.series_title.clone(),
            group_name: self.group_name.clone(),
            is_batch: self.is_batch,
            decision: self.decision.clone(),
            reason: self.reason.clone(),
            source: self.source.clone(),
            source_id: self.source_id,
            created_at: self.created_at.clone(),
        }
    }
}

impl Clone for SeenRow {
    fn clone(&self) -> (copy: Self)
        ensures
            copy@ == self@,
    {
        self.dup()
    }
}

/// What was decided of an item, as it is shown.
#[derive(Debug)]
pub struct RssDecision {
    pub id: i64,
    pub created_at: String,
    pub title: String,
    pub series_title: String,
    pub group_name: String,
    pub decision: String,
    pub reason: String,
    pub source: String,
    pub is_batch: bool,
}

/// The contents of a [`RssDecision`].
#[verifier::ext_equal]
pub struct RssDecisionView {
    pub id: i64,
    pub created_at: Seq<char>,
    pub title: Seq<char>,
    pub series_title: Seq<char>,
    pub group_name: Seq<char>,
    pub decision: Seq<char>,
    pub reason: Seq<char>,
    pub source: Seq<char>,
    pub is_batch: bool,
}

impl View for RssDecision {
    type V = RssDecisionView;

    open spec fn view(&self) -> RssDecisionView {
        RssDecisionView {
            id: self.id,
            created_at: self.created_at@,
            title: self.title@,
            series_title: self.series_title@,
            group_name: self.group_name@,
            decision: self.decision@,
            reason: self.reason@,
            source: self.source@,
            is_batch: self.is_batch,
        }
    }
}

impl Dup for RssDecision {
    fn dup(&self) -> (copy: Self) {
        RssDecision {
            id: self.id,
            created_at: self.created_at.clone(),
            title: self.title.clone(),
            series_title: self.series_title.clone(),
            group_name: self.group_name.clone(),
            decision: self.decision.clone(),
            reason: self.reason.clone(),
            source: self.source.clone(),
            is_batch: self.is_batch,
        }
    }
}

impl Clone for RssDecision {
    fn clone(&self) -> (copy: Self)
        ensures
            copy@ == self@,
    {
        self.dup()
    }
}

/// The counts of a run that has ended.
pub struct RunSummary<'a> {
    pub status: &'a str,
    pub items_seen: i32,
    pub matched: i32,
    pub grabbed: i32,
    pub skipped: i32,
    pub detail: &'a str,
}

/// What is decided of an item.
pub struct DecisionRecord<'a> {
    pub item_key: &'a str,
    pub title: &'a str,
    pub link: &'a str,
    pub series_id: Option<i64>,
    pub series_title: &'a str,
    pub group_name: &'a str,
    pub is_batch: bool,
    pub decision: &'a str,
    pub reason: &'a str,
    pub source: &'a str,
    pub source_id: Option<i64>,
}

/// The runs and the decisions.
#[derive(Debug)]
pub struct RssStore {
    pub runs: Vec<RunRow>,
    pub seen: Vec<SeenRow>,
    /// The largest id of a run given out so far.
    pub last_run_id: i64,
    /// The largest id of a decision given out so far.
    pub last_seen_id: i64,
}

/// The contents of an [`RssStore`].
#[verifier::ext_equal]
pub struct RssStoreView {
    pub runs: Seq<RunRowView>,
    pub seen: Seq<SeenRowView>,
    pub last_run_id: i64,
    pub last_seen_id: i64,
}

impl View for RssStore {
    type V = RssStoreView;

    open spec fn view(&self) -> RssStoreView {
        RssStoreView {
            runs: views(self.runs@),
            seen: views(self.seen@),
            last_run_id: self.last_run_id,
            last_seen_id: self.last_seen_id,
        }
    }
}

pub open spec fn run_id() -> spec_fn(RunRowView) -> i64 {
    |r: RunRowView| r.id
}

pub open spec fn seen_id() -> spec_fn(SeenRowView) -> i64 {
    |r: SeenRowView| r.id
}

pub open spec fn item_key() -> spec_fn(SeenRowView) -> Seq<char> {
    |r: SeenRowView| r.item_key
}

pub open spec fn has_key(key: Seq<char>) -> spec_fn(SeenRowView) -> bool {
    |r: SeenRowView| r.item_key == key
}

impl RssStoreView {
    /// Runs and decisions have ids of their own, and an item has one decision.
    pub open spec fn wf(self) -> bool {
        &&& numbered(self.runs, run_id(), self.last_run_id)
        &&& numbered(self.seen, seen_id(), self.last_seen_id)
        &&& distinct(self.seen, item_key())
    }
}

pub open spec fn fresh_run(id: i64, trigger_source: Seq<char>, now: Seq<char>) -> RunRowView {
    RunRowView {
        id,
        started_at: now,
        finished_at: None,
        trigger_source,
        status: "running"@,
        items_seen: 0,
        matched: 0,
        grabbed: 0,
        skipped: 0,
        detail: Seq::empty(),
    }
}

/// Begins a run and gives its id.
pub fn start_run(db: &mut RssStore, trigger_source: &str, now: &str) -> (r: Result<i64, StoreError>)
    requires
        old(db)@.wf(),
    ensures
        r is Err <==> old(db)@.last_run_id == i64::MAX,
        r matches Err(e) ==> e == StoreError::Full && final(db)@ == old(db)@,
        r matches Ok(id) ==> id == old(db)@.last_run_id + 1 && final(db)@ == (RssStoreView {
            runs: old(db)@.runs.push(fresh_run(id, trigger_source@, now@)),
            last_run_id: id,
            ..old(db)@
        }),
        final(db)@.wf(),
        r matches Ok(id) ==> {
            let run = final(db)@.runs.last();
            &&& final(db)@.runs.len() == old(db)@.runs.len() + 1
            &&& forall|i: int|
                0 <= i < old(db)@.runs.len() ==> #[trigger] final(db)@.runs[i] == old(db)@.runs[i]
            &&& run.id == id && run.started_at == now@ && run.finished_at is None
            &&& run.trigger_source == trigger_source@ && run.status == "running"@
            &&& run.items_seen == 0 && run.matched == 0 && run.grabbed == 0 && run.skipped == 0
                && run.detail.len() == 0
            &&& final(db)@.seen == old(db)@.seen
        },
{
    if db.last_run_id == i64::MAX {
        return Err(StoreError::Full);
    }
    let id: i64 = db.last_run_id + 1;
    let row = RunRow {
        id,
        started_at: own(now),
        finished_at: None,
        trigger_source: own(trigger_source),
        status: own("running"),
        items_seen: 0,
        matched: 0,
        grabbed: 0,
        skipped: 0,
        detail: String::new(),
    };
    let ghost had = db.runs@;
    proof {
        crate::table::lemma_views_push(had, row);
        crate::table::lemma_numbered_push(db@.runs, run_id(), db.last_run_id, row@);
    }
    db.runs.push(row);
    db.last_run_id = id;
    Ok(id)
}

pub open spec fn is_run(id: i64) -> spec_fn(RunRowView) -> bool {
    |r: RunRowView| r.id == id
}

pub open spec fn finished(summary: RunSummary, now: Seq<char>) -> spec_fn(RunRowView) -> RunRowView {
    |r: RunRowView|
        RunRowView {
            finished_at: Some(now),
            status: summary.status@,
            items_seen: summary.items_seen,
            matched: summary.matched,
            grabbed: summary.grabbed,
            skipped: summary.skipped,
            detail: summary.detail@,
            ..r
        }
}

/// Ends a run with its counts.
pub fn finish_run(db: &mut RssStore, id: i64, summary: RunSummary<'_>, now: &str)
    requires
        old(db)@.wf(),
    ensures
        final(db)@ == (RssStoreView {
            runs: updated(old(db)@.runs, is_run(id), finished(summary, now@)),
            ..old(db)@
        }),
        final(db)@.wf(),
        final(db)@.runs.len() == old(db)@.runs.len(),
        final(db)@.seen == old(db)@.seen,
        forall|i: int|
            0 <= i < old(db)@.runs.len() ==> (#[trigger] final(db)@.runs[i]) == ({
                let r = old(db)@.runs[i];
                if r.id == id {
                    RunRowView {
                        id: r.id,
                        started_at: r.started_at,
                        trigger_source: r.trigger_source,
                        finished_at: Some(now@),
                        status: summary.status@,
                        items_seen: summary.items_seen,
                        matched: summary.matched,
                        grabbed: summary.grabbed,
                        skipped: summary.skipped,
                        detail: summary.detail@,
                    }
                } else {
                    r
                }
            }),
{
    let ghost change = finished(summary, now@);
    proof {
        crate::table::lemma_numbered_updated(
            db@.runs,
            run_id(),
            db.last_run_id,
            is_run(id),
            change,
        );
    }
    let by_id = |r: &RunRow| -> (b: bool)
        ensures b == is_run(id)(r@)
        { r.id == id };
    let make = |r: RunRow| -> (o: RunRow)
        ensures o@ == change(r@)
        {
            RunRow {
                finished_at: Some(own(now)),
                status: own(summary.status),
                items_seen: summary.items_seen,
                matched: summary.matched,
                grabbed: summary.grabbed,
                skipped: summary.skipped,
                detail: own(summary.detail),
                ..r
            }
        };
    let _n: usize = update_where(&mut db.runs, by_id, make, Ghost(is_run(id)), Ghost(change));
}

pub open spec fn was_grabbed() -> spec_fn(SeenRowView) -> bool {
    |r: SeenRowView| r.decision == "grabbed"@
}

pub open spec fn keys_of(rows: Seq<SeenRowView>) -> Seq<Seq<char>> {
    rows.map_values(|r: SeenRowView| r.item_key)
}

fn select_grabbed(db: &RssStore) -> (out: Vec<SeenRow>)
    ensures
        views(out@) == db@.seen.filter(was_grabbed()),
{
    let test = |r: &SeenRow| -> (b: bool)
        ensures b == was_grabbed()(r@)
        { same(&r.decision, "grabbed") };
    select(&db.seen, test, Ghost(was_grabbed()))
}

/// The keys of the items that were grabbed, each once.
pub fn grabbed_item_keys(db: &RssStore) -> (keys: Vec<String>)
    requires
        db@.wf(),
    ensures
        texts(keys@) == keys_of(db@.seen.filter(was_grabbed())),
        forall|i: int, j: int|
            0 <= i < j < keys.len() ==> #[trigger] keys[i]@ != #[trigger] keys[j]@,
{
    let rows = select_grabbed(db);
    let ghost all = keys_of(views(rows@));
    let mut keys: Vec<String> = Vec::new();
    let mut i: usize = 0;
    assert(texts(keys@) =~= all.take(0));
    while i < rows.len()
        invariant
            i <= rows.len(),
            all == keys_of(views(rows@)),
            texts(keys@) == all.take(i as int),
        decreases rows.len() - i,
    {
        let ghost had = keys@;
        keys.push(rows[i].item_key.clone());
        proof {
            assert(texts(keys@) =~= texts(had).push(all[i as int]));
            assert(all.take(i + 1) =~= all.take(i as int).push(all[i as int]));
        }
        i += 1;
    }
    proof {
        assert(all.take(i as int) =~= all);
        let f = db@.seen.filter(was_grabbed());
        crate::table::lemma_filter_distinct(db@.seen, was_grabbed(), item_key());
        assert forall|x: int, y: int| 0 <= x < y < keys.len() implies #[trigger] keys[x]@
            != #[trigger] keys[y]@ by {
            assert(texts(keys@)[x] == keys[x]@ && texts(keys@)[y] == keys[y]@);
            assert(item_key()(f[x]) != item_key()(f[y]));
        }
    }
    keys
}

/// The items that were grabbed, by key and by where they came from.
pub fn grabbed_item_keys_scoped(db: &RssStore) -> (keys: Vec<(String, String, Option<i64>)>)
    ensures
        keys.len() == db@.seen.filter(was_grabbed()).len(),
        forall|i: int|
            0 <= i < keys.len() ==> {
                let r = db@.seen.filter(was_grabbed())[i];
                (#[trigger] keys[i]).0@ == r.item_key && keys[i].1@ == r.source && keys[i].2
                    == r.source_id
            },
{
    let rows = select_grabbed(db);
    assert(views(rows@).len() == rows.len());
    let mut keys: Vec<(String, String, Option<i64>)> = Vec::new();
    let mut i: usize = 0;
    while i < rows.len()
        invariant
            i <= rows.len(),
            keys.len() == i,
            forall|k: int|
                0 <= k < i ==> {
                    let r = views(rows@)[k];
                    (#[trigger] keys[k]).0@ == r.item_key && keys[k].1@ == r.source && keys[k].2
                        == r.source_id
                },
        decreases rows.len() - i,
    {
        assert(views(rows@)[i as int] == rows[i as int]@);
        keys.push((rows[i].item_key.clone(), rows[i].source.clone(), rows[i].source_id));
        i += 1;
    }
    keys
}

/// A decision as it is stored.
pub open spec fn decided(id: i64, d: DecisionRecord, now: Seq<char>) -> SeenRowView {
    SeenRowView {
        id,
        item_key: d.item_key@,
        title: d.title@,
        link: d.link@,
        series_id: d.series_id,
        series_title: d.series_title@,
        group_name: d.group_name@,
        is_batch: d.is_batch,
        decision: d.decision@,
        reason: d.reason@,
        source: d.source@,
        source_id: d.source_id,
        created_at: now,
    }
}

pub open spec fn redecided(d: DecisionRecord, now: Seq<char>) -> spec_fn(SeenRowView) -> SeenRowView {
    |r: SeenRowView| SeenRowView { item_key: r.item_key, ..decided(r.id, d, now) }
}

/// Whether the series of a decision, if it names one, is in the library.
pub open spec fn series_fits(series: Seq<SeriesRowView>, series_id: Option<i64>) -> bool {
    series_id matches Some(id) ==> known(series, id)
}

impl RssStoreView {
    /// The store after a decision: in place of the one for the same item,
    /// under its id.
    pub open spec fn record_decision(
        self,
        series: Seq<SeriesRowView>,
        d: DecisionRecord,
        now: Seq<char>,
    ) -> (RssStoreView, Result<(), StoreError>) {
        if first_where(self.seen, has_key(d.item_key@)) is Some {
            if !series_fits(series, d.series_id) {
                (self, Err(StoreError::MissingParent))
            } else {
                (
                    RssStoreView {
                        seen: updated(self.seen, has_key(d.item_key@), redecided(d, now)),
                        ..self
                    },
                    Ok(()),
                )
            }
        } else if self.last_seen_id == i64::MAX {
            (self, Err(StoreError::Full))
        } else if !series_fits(series, d.series_id) {
            (self, Err(StoreError::MissingParent))
        } else {
            let id = (self.last_seen_id + 1) as i64;
            (
                RssStoreView {
                    seen: self.seen.push(decided(id, d, now)),
                    last_seen_id: id,
                    ..self
                },
                Ok(()),
            )
        }
    }
}

fn to_row(id: i64, d: &DecisionRecord, now: &str) -> (r: SeenRow)
    ensures
        r@ == decided(id, *d, now@),
{
    SeenRow {
        id,
        item_key: own(d.item_key),
        title: own(d.title),
        link: own(d.link),
        series_id: d.series_id,
        series_title: own(d.series_title),
        group_name: own(d.group_name),
        is_batch: d.is_batch,
        decision: own(d.decision),
        reason: own(d.reason),
        source: own(d.source),
        source_id: d.source_id,
        created_at: own(now),
    }
}

/// Records what is decided of an item. A decision for the same item is
/// replaced and keeps its id.
pub fn record_decision(
    db: &mut RssStore,
    series: &Vec<SeriesRow>,
    record: DecisionRecord<'_>,
    now: &str,
) -> (r: Result<(), StoreError>)
    requires
        old(db)@.wf(),
    ensures
        (final(db)@, r) == old(db)@.record_decision(views(series@), record, now@),
        final(db)@.wf(),
{
    let key = record.item_key;
    let ghost here = has_key(record.item_key@);
    let by_key = |r: &SeenRow| -> (b: bool)
        ensures b == here(r@)
        { same(&r.item_key, key) };
    let fits: bool = match record.series_id {
        Some(id) => is_known(series, id),
        None => true,
    };
    match position(&db.seen, by_key, Ghost(here)) {
        Some(_) => {
            if !fits {
                return Err(StoreError::MissingParent);
            }
            let ghost change = redecided(record, now@);
            proof {
                crate::table::lemma_numbered_updated(
                    db@.seen,
                    seen_id(),
                    db.last_seen_id,
                    here,
                    change,
                );
                crate::table::lemma_distinct_updated(db@.seen, item_key(), here, change);
            }
            let again = |r: &SeenRow| -> (b: bool)
                ensures b == here(r@)
                { same(&r.item_key, key) };
            let make = |r: SeenRow| -> (o: SeenRow)
                ensures o@ == change(r@)
                {
                    let fresh = to_row(r.id, &record, now);
                    SeenRow { item_key: r.item_key, ..fresh }
                };
            let _n: usize = update_where(&mut db.seen, again, make, Ghost(here), Ghost(change));
            Ok(())
        },
        None => {
            if db.last_seen_id == i64::MAX {
                return Err(StoreError::Full);
            }
            if !fits {
                return Err(StoreError::MissingParent);
            }
            let id: i64 = db.last_seen_id + 1;
            let row = to_row(id, &record, now);
            let ghost had = db.seen@;
            proof {
                crate::table::lemma_views_push(had, row);
                crate::table::lemma_numbered_push(db@.seen, seen_id(), db.last_seen_id, row@);
                assert forall|i: int| 0 <= i < db@.seen.len() implies item_key()(
                    #[trigger] db@.seen[i],
                ) != item_key()(row@) by {
                    assert(!here(db@.seen[i]));
                }
                crate::table::lemma_distinct_push(db@.seen, item_key(), row@);
            }
            db.seen.push(row);
            db.last_seen_id = id;
            Ok(())
        },
    }
}

pub open spec fn last_run_first() -> spec_fn(RunRowView, RunRowView) -> bool {
    |a: RunRowView, b: RunRowView| a.id >= b.id
}

/// A run as it is shown.
pub open spec fn shown_run(r: RunRowView) -> RssRunView {
    RssRunView {
        id: r.id,
        started_at: r.started_at,
        finished_at: match r.finished_at {
            Some(t) => t,
            None => Seq::empty(),
        },
        trigger_source: r.trigger_source,
        status: r.status,
        items_seen: r.items_seen,
        matched: r.matched,
        grabbed: r.grabbed,
        skipped: r.skipped,
        detail: r.detail,
    }
}

/// The run that began last.
pub fn latest_run(db: &RssStore) -> (r: Option<RssRun>)
    ensures
        match (r, head(ordered(db@.runs, last_run_first()))) {
            (Some(run), Some(row)) => run@ == shown_run(row),
            (None, None) => true,
            _ => false,
        },
        r is None <==> db@.runs.len() == 0,
        r matches Some(run) ==> {
            &&& forall|i: int| 0 <= i < db@.runs.len() ==> (#[trigger] db@.runs[i]).id <= run.id
            &&& exists|i: int|
                0 <= i < db@.runs.len() && ({
                    let row = #[trigger] db@.runs[i];
                    &&& run.id == row.id && run.started_at@ == row.started_at && run.trigger_source@
                        == row.trigger_source && run.status@ == row.status
                    &&& run.items_seen == row.items_seen && run.matched == row.matched && run.grabbed
                        == row.grabbed && run.skipped == row.skipped && run.detail@ == row.detail
                    &&& row.finished_at is Some ==> run.finished_at@ == row.finished_at->0
                    &&& row.finished_at is None ==> run.finished_at@.len() == 0
                })
        },
{
    proof {
        let o = ordered(db@.runs, last_run_first());
        crate::table::ordered_is_a_sorted_rearrangement(db@.runs, last_run_first());
        crate::table::lemma_ordered_members(db@.runs, last_run_first());
        crate::table::lemma_ordered_holds_all(db@.runs, last_run_first());
        if o.len() > 0 {
            assert(db@.runs.contains(o[0]));
            assert forall|i: int| 0 <= i < db@.runs.len() implies (#[trigger] db@.runs[i]).id
                <= o[0].id by {
                assert(o.contains(db@.runs[i]));
                let k = choose|k: int| 0 <= k < o.len() && o[k] == db@.runs[i];
                if k > 0 {
                    assert(last_run_first()(o[0], o[k]));
                }
            }
        }
    }
    let before = |a: &RunRow, b: &RunRow| -> (r: bool)
        ensures r == last_run_first()(a@, b@)
        { a.id >= b.id };
    let rows = order_by(dup_all(&db.runs), before, Ghost(last_run_first()));
    assert(views(rows@).len() == rows.len());
    if rows.len() == 0 {
        return None;
    }
    assert(views(rows@)[0] == rows[0]@);
    let r = &rows[0];
    Some(
        RssRun {
            id: r.id,
            started_at: r.started_at.clone(),
            finished_at: match &r.finished_at {
                Some(t) => t.clone(),
                None => String::new(),
            },
            trigger_source: r.trigger_source.clone(),
            status: r.status.clone(),
            items_seen: r.items_seen,
            matched: r.matched,
            grabbed: r.grabbed,
            skipped: r.skipped,
            detail: r.detail.clone(),
        },
    )
}

pub open spec fn last_first() -> spec_fn(SeenRowView, SeenRowView) -> bool {
    |a: SeenRowView, b: SeenRowView| a.id >= b.id
}

pub open spec fn before_cursor(before_id: Option<i64>) -> spec_fn(SeenRowView) -> bool {
    |r: SeenRowView| before_id matches Some(b) ==> r.id < b
}

pub open spec fn shown_decision() -> spec_fn(SeenRowView) -> RssDecisionView {
    |r: SeenRowView|
        RssDecisionView {
            id: r.id,
            created_at: r.created_at,
            title: r.title,
            series_title: r.series_title,
            group_name: r.group_name,
            decision: r.decision,
            reason: r.reason,
            source: r.source,
            is_batch: r.is_batch,
        }
}

impl RssStoreView {
    /// The decisions of a page: the last ones first, those before the cursor,
    /// at most `limit`.
    pub open spec fn page(self, limit_to: i64, before_id: Option<i64>) -> Seq<SeenRowView> {
        limited(
            ordered(self.seen.filter(before_cursor(before_id)), last_first()),
            limit_to as int,
        )
    }

    /// The pages from a cursor on, each from the last row of the one before, up
    /// to the last that holds any row.
    pub open spec fn pages(self, limit_to: i64, before_id: Option<i64>) -> Seq<Seq<SeenRowView>>
        decreases self.seen.filter(before_cursor(before_id)).len(),
    {
        let page = self.page(limit_to, before_id);
        if page.len() == 0 {
            Seq::empty()
        } else {
            proof {
                lemma_less_is_left(self, limit_to, before_id);
            }
            seq![page] + self.pages(limit_to, Some(page.last().id))
        }
    }
}

/// Less is left from the last row of a page on than from its cursor on.
pub proof fn lemma_less_is_left(db: RssStoreView, limit_to: i64, before_id: Option<i64>)
    requires
        db.page(limit_to, before_id).len() > 0,
    ensures
        db.seen.filter(before_cursor(Some(db.page(limit_to, before_id).last().id))).len()
            < db.seen.filter(before_cursor(before_id)).len(),
{
    let page = db.page(limit_to, before_id);
    let chosen = before_cursor(before_id);
    lemma_last_first_total();
    crate::table::lemma_page(db.seen, chosen, last_first(), limit_to as int);
    let last = page[page.len() - 1];
    assert(chosen(last) && db.seen.contains(last));
    let k = choose|k: int| 0 <= k < db.seen.len() && db.seen[k] == last;
    crate::table::lemma_filter_fewer(db.seen, before_cursor(Some(last.id)), chosen, k);
}

fn sort_last_first(rows: Vec<SeenRow>) -> (out: Vec<SeenRow>)
    ensures
        views(out@) == ordered(views(rows@), last_first()),
{
    let before = |a: &SeenRow, b: &SeenRow| -> (r: bool)
        ensures r == last_first()(a@, b@)
        { a.id >= b.id };
    order_by(rows, before, Ghost(last_first()))
}

/// The last decisions, the newest first, at most `limit_to` of them.
pub fn recent_decisions(db: &RssStore, limit_to: i64) -> (out: Vec<RssDecision>)
    ensures
        views(out@) == db@.page(limit_to, None).map_values(shown_decision()),
{
    recent_decisions_paginated(db, limit_to, None)
}

/// The decisions with ids below `before_id`, the newest first, at most
/// `limit_to` of them; without a cursor from the newest on.
pub fn recent_decisions_paginated(db: &RssStore, limit_to: i64, before_id: Option<i64>) -> (out: Vec<
    RssDecision,
>)
    ensures
        views(out@) == db@.page(limit_to, before_id).map_values(shown_decision()),
{
    let test = |r: &SeenRow| -> (b: bool)
        ensures b == before_cursor(before_id)(r@)
        {
            match before_id {
                Some(b) => r.id < b,
                None => true,
            }
        };
    let rows = limit(
        sort_last_first(select(&db.seen, test, Ghost(before_cursor(before_id)))),
        limit_to,
    );
    let make = |r: &SeenRow| -> (o: RssDecision)
        ensures o@ == shown_decision()(r@)
        {
            RssDecision {
                id: r.id,
                created_at: r.created_at.clone(),
                title: r.title.clone(),
                series_title: r.series_title.clone(),
                group_name: r.group_name.clone(),
                decision: r.decision.clone(),
                reason: r.reason.clone(),
                source: r.source.clone(),
                is_batch: r.is_batch,
            }
        };
    project(&rows, make, Ghost(shown_decision()), Ghost(|r: SeenRowView| true))
}

pub open spec fn titles_of(rows: Seq<SeenRowView>) -> Seq<Seq<char>> {
    rows.map_values(|r: SeenRowView| r.title)
}

/// The titles of the items that were grabbed, the newest first, at most
/// `limit_to` of them.
pub fn grabbed_titles(db: &RssStore, limit_to: i64) -> (out: Vec<String>)
    ensures
        texts(out@) == titles_of(
            limited(
                ordered(db@.seen.filter(was_grabbed()), last_first()),
                limit_to as int,
            ),
        ),
{
    let rows = limit(sort_last_first(select_grabbed(db)), limit_to);
    let ghost all = titles_of(views(rows@));
    let mut out: Vec<String> = Vec::new();
    let mut i: usize = 0;
    assert(texts(out@) =~= all.take(0));
    while i < rows.len()
        invariant
            i <= rows.len(),
            all == titles_of(views(rows@)),
            texts(out@) == all.take(i as int),
        decreases rows.len() - i,
    {
        let ghost had = out@;
        out.push(rows[i].title.clone());
        proof {
            assert(texts(out@) =~= texts(had).push(all[i as int]));
            assert(all.take(i + 1) =~= all.take(i as int).push(all[i as int]));
        }
        i += 1;
    }
    assert(all.take(i as int) =~= all);
    out
}

pub open spec fn older_than(cutoff: Seq<char>) -> spec_fn(SeenRowView) -> bool {
    |r: SeenRowView| text_lt(r.created_at, cutoff)
}

fn delete_seen<F: Fn(&SeenRow) -> bool>(
    db: &mut RssStore,
    test: F,
    Ghost(chosen): Ghost<spec_fn(SeenRowView) -> bool>,
) -> (n: u64)
    requires
        old(db)@.wf(),
        forall|t: &SeenRow| #[trigger] call_requires(test, (t,)),
        forall|t: &SeenRow, b: bool| #[trigger] call_ensures(test, (t,), b) ==> b == chosen(t@),
    ensures
        final(db)@ == (RssStoreView { seen: without(old(db)@.seen, chosen), ..old(db)@ }),
        n == old(db)@.seen.len() - final(db)@.seen.len(),
        final(db)@.wf(),
{
    proof {
        crate::table::lemma_numbered_without(db@.seen, seen_id(), db.last_seen_id, chosen);
        crate::table::lemma_without_distinct(db@.seen, chosen, item_key());
    }
    delete_where(&mut db.seen, test, Ghost(chosen)) as u64
}

/// Forgets the decisions made before `cutoff`, grabbed or not, and says how
/// many there were.
pub fn cleanup_old_decisions(db: &mut RssStore, cutoff: &str) -> (n: u64)
    requires
        old(db)@.wf(),
    ensures
        final(db)@ == (RssStoreView {
            seen: without(old(db)@.seen, older_than(cutoff@)),
            ..old(db)@
        }),
        n == old(db)@.seen.len() - final(db)@.seen.len(),
        final(db)@.wf(),
        forall|r: SeenRowView| #[trigger]
            final(db)@.seen.contains(r) <==> old(db)@.seen.contains(r) && !(text_lt(r.created_at, cutoff@)),
        final(db)@.runs == old(db)@.runs,
{
    proof {
        crate::table::lemma_without_contains(db@.seen, older_than(cutoff@));
    }
    let test = |r: &SeenRow| -> (b: bool)
        ensures b == older_than(cutoff@)(r@)
        { !at_most(cutoff, &r.created_at) };
    delete_seen(db, test, Ghost(older_than(cutoff@)))
}

/// Forgets the items that were grabbed, so that they are looked at again.
pub fn clear_grab_history(db: &mut RssStore) -> (n: u64)
    requires
        old(db)@.wf(),
    ensures
        final(db)@ == (RssStoreView {
            seen: without(old(db)@.seen, was_grabbed()),
            ..old(db)@
        }),
        n == old(db)@.seen.len() - final(db)@.seen.len(),
        final(db)@.wf(),
        forall|r: SeenRowView| #[trigger]
            final(db)@.seen.contains(r) <==> old(db)@.seen.contains(r) && !(r.decision == "grabbed"@),
        final(db)@.runs == old(db)@.runs,
{
    proof {
        crate::table::lemma_without_contains(db@.seen, was_grabbed());
    }
    let test = |r: &SeenRow| -> (b: bool)
        ensures b == was_grabbed()(r@)
        { same(&r.decision, "grabbed") };
    delete_seen(db, test, Ghost(was_grabbed()))
}

pub open spec fn about_series(series_id: i64) -> spec_fn(SeenRowView) -> bool {
    |r: SeenRowView| r.series_id == Some(series_id)
}

pub open spec fn about_none() -> spec_fn(SeenRowView) -> SeenRowView {
    |r: SeenRowView| SeenRowView { series_id: None, ..r }
}

/// Detaches the decisions about a series that leaves the library. They stay,
/// with the title of the series.
pub fn forget_series(db: &mut RssStore, series_id: i64)
    requires
        old(db)@.wf(),
    ensures
        final(db)@ == (RssStoreView {
            seen: updated(old(db)@.seen, about_series(series_id), about_none()),
            ..old(db)@
        }),
        final(db)@.wf(),
        final(db)@.seen.len() == old(db)@.seen.len(),
        final(db)@.runs == old(db)@.runs,
        forall|i: int|
            0 <= i < old(db)@.seen.len() ==> (#[trigger] final(db)@.seen[i]) == ({
                let r = old(db)@.seen[i];
                if r.series_id == Some(series_id) {
                    SeenRowView { series_id: None, ..r }
                } else {
                    r
                }
            }),
{
    let ghost chosen = about_series(series_id);
    proof {
        crate::table::lemma_numbered_updated(
            db@.seen,
            seen_id(),
            db.last_seen_id,
            chosen,
            about_none(),
        );
        crate::table::lemma_distinct_updated(db@.seen, item_key(), chosen, about_none());
    }
    let test = |r: &SeenRow| -> (b: bool)
        ensures b == chosen(r@)
        { r.series_id == Some(series_id) };
    let make = |r: SeenRow| -> (o: SeenRow)
        ensures o@ == about_none()(r@)
        { SeenRow { series_id: None, ..r } };
    let _n: usize = update_where(&mut db.seen, test, make, Ghost(chosen), Ghost(about_none()));
}

/// Forgets all decisions and says how many there were.
pub fn clear_all_history(db: &mut RssStore) -> (n: u64)
    requires
        old(db)@.wf(),
    ensures
        final(db)@ == (RssStoreView { seen: Seq::empty(), ..old(db)@ }),
        n == old(db)@.seen.len(),
        final(db)@.wf(),
        final(db)@.seen.len() == 0,
        final(db)@.runs == old(db)@.runs,
        final(db)@.last_seen_id == old(db)@.last_seen_id,
{
    let n: usize = db.seen.len();
    db.seen = Vec::new();
    assert(db@.seen =~= Seq::<SeenRowView>::empty());
    n as u64
}

impl RssStore {
    /// A store without runs and decisions.
    pub fn new() -> (db: RssStore)
        ensures
            db@ == (RssStoreView {
                runs: Seq::empty(),
                seen: Seq::empty(),
                last_run_id: 0,
                last_seen_id: 0,
            }),
            db@.wf(),
    {
        let db = RssStore {
            runs: Vec::new(),
            seen: Vec::new(),
            last_run_id: 0,
            last_seen_id: 0,
        };
        assert(db@.runs =~= Seq::<RunRowView>::empty());
        assert(db@.seen =~= Seq::<SeenRowView>::empty());
        db
    }

    /// Whether the store is as the rules leave it.
    pub fn check(&self) -> (r: bool)
        ensures
            r == self@.wf(),
    {
        let run_no = |r: &RunRow| -> (n: i64)
            ensures n == run_id()(r@)
            { r.id };
        let seen_no = |r: &SeenRow| -> (n: i64)
            ensures n == seen_id()(r@)
            { r.id };
        let ghost differ = |a: SeenRowView, b: SeenRowView| a.item_key != b.item_key;
        let other_key = |a: &SeenRow, b: &SeenRow| -> (r: bool)
            ensures r == differ(a@, b@)
            { !same(&a.item_key, &b.item_key) };
        let a: bool = check_numbered(&self.runs, self.last_run_id, run_no, Ghost(run_id()));
        let b: bool = check_numbered(&self.seen, self.last_seen_id, seen_no, Ghost(seen_id()));
        let c: bool = every_pair(&self.seen, other_key, Ghost(differ));
        assert(c == distinct(self@.seen, item_key()));
        a && b && c
    }
}

proof fn lemma_last_first_total()
    ensures
        crate::table::total_preorder(last_first()),
{
}

/// A page holds only decisions before its cursor, the newest first.
pub proof fn a_page_stays_before_its_cursor(db: RssStoreView, limit_to: i64, before: i64)
    ensures
        forall|i: int|
            0 <= i < db.page(limit_to, Some(before)).len() ==> (#[trigger] db.page(
                limit_to,
                Some(before),
            )[i]).id < before,
        crate::table::in_order(db.page(limit_to, Some(before)), last_first()),
{
    let chosen = before_cursor(Some(before));
    lemma_last_first_total();
    crate::table::lemma_page(db.seen, chosen, last_first(), limit_to as int);
    let page = db.page(limit_to, Some(before));
    assert forall|i: int| 0 <= i < page.len() implies (#[trigger] page[i]).id < before by {
        assert(chosen(page[i]));
    }
}

/// Two pages, the second from the last row of the first on, have no row in
/// common.
pub proof fn pages_do_not_overlap(
    db: RssStoreView,
    first_limit: i64,
    before: Option<i64>,
    second_limit: i64,
    i: int,
    j: int,
)
    requires
        db.page(first_limit, before).len() > 0,
        0 <= i < db.page(first_limit, before).len(),
        0 <= j < db.page(second_limit, Some(db.page(first_limit, before).last().id)).len(),
    ensures
        db.page(first_limit, before)[i].id > db.page(
            second_limit,
            Some(db.page(first_limit, before).last().id),
        )[j].id,
{
    let first = db.page(first_limit, before);
    let cursor = first.last().id;
    a_page_stays_before_its_cursor(db, second_limit, cursor);
    lemma_last_first_total();
    crate::table::lemma_page(db.seen, before_cursor(before), last_first(), first_limit as int);
    if i < first.len() - 1 {
        assert(last_first()(first[i], first[first.len() - 1]));
    }
    assert(db.page(second_limit, Some(cursor))[j].id < cursor);
}

/// All decisions, the newest first, with ids that grow smaller.
proof fn lemma_all_descend(db: RssStoreView)
    requires
        db.wf(),
    ensures
        ({
            let all = ordered(db.seen, last_first());
            &&& all.to_multiset() == db.seen.to_multiset()
            &&& forall|i: int, j: int|
                0 <= i < j < all.len() ==> (#[trigger] all[i]).id > (#[trigger] all[j]).id
        }),
{
    let all = ordered(db.seen, last_first());
    lemma_last_first_total();
    crate::table::ordered_is_a_sorted_rearrangement(db.seen, last_first());
    crate::table::lemma_ordered_distinct(db.seen, seen_id(), last_first());
    assert forall|i: int, j: int| 0 <= i < j < all.len() implies (#[trigger] all[i]).id > (
    #[trigger] all[j]).id by {
        assert(last_first()(all[i], all[j]));
        assert(seen_id()(all[i]) != seen_id()(all[j]));
    }
}

/// From the last row of a page on, the rows behind that page are left.
proof fn lemma_rows_behind(all: Seq<SeenRowView>, p: int)
    requires
        0 < p <= all.len(),
        forall|i: int, j: int|
            0 <= i < j < all.len() ==> (#[trigger] all[i]).id > (#[trigger] all[j]).id,
    ensures
        all.filter(before_cursor(Some(all[p - 1].id))) == all.skip(p),
{
    let chosen = before_cursor(Some(all[p - 1].id));
    let first = all.take(p);
    let rest = all.skip(p);
    assert(all =~= first + rest);
    Seq::filter_distributes_over_add(first, rest, chosen);
    assert forall|i: int| 0 <= i < first.len() implies !chosen(#[trigger] first[i]) by {
        if i < p - 1 {
            assert(all[i].id > all[p - 1].id);
        }
    }
    crate::table::lemma_filter_none(first, chosen);
    assert forall|i: int| 0 <= i < rest.len() implies chosen(#[trigger] rest[i]) by {
        assert(all[p - 1].id > all[p + i].id);
    }
    crate::table::lemma_filter_all(rest, chosen);
    assert(Seq::<SeenRowView>::empty() + rest =~= rest);
}

/// The pages from a cursor on, where `k` rows stand before it.
proof fn lemma_pages(db: RssStoreView, limit_to: i64, before_id: Option<i64>, k: int)
    requires
        db.wf(),
        limit_to > 0,
        0 <= k <= ordered(db.seen, last_first()).len(),
        ordered(db.seen.filter(before_cursor(before_id)), last_first()) == ordered(
            db.seen,
            last_first(),
        ).skip(k),
    ensures
        ({
            let pages = db.pages(limit_to, before_id);
            &&& pages.flatten() == ordered(db.seen, last_first()).skip(k)
            &&& forall|i: int| 0 <= i < pages.len() - 1 ==> (#[trigger] pages[i]).len() == limit_to
            &&& pages.len() > 0 ==> 0 < pages.last().len() <= limit_to
            &&& pages.len() > 0 ==> pages[0] == db.page(limit_to, before_id)
            &&& pages.len() == 0 ==> db.page(limit_to, before_id).len() == 0
            &&& forall|i: int|
                0 <= i < pages.len() - 1 ==> #[trigger] pages[i + 1] == db.page(
                    limit_to,
                    Some(pages[i].last().id),
                )
            &&& pages.len() > 0 ==> db.page(limit_to, Some(pages.last().last().id)).len() == 0
        }),
    decreases ordered(db.seen, last_first()).len() - k,
{
    let all = ordered(db.seen, last_first());
    let page = db.page(limit_to, before_id);
    let pages = db.pages(limit_to, before_id);
    lemma_all_descend(db);
    lemma_last_first_total();
    if page.len() == 0 {
        assert(all.skip(k).len() == 0);
        assert(pages.flatten() =~= all.skip(k));
    } else {
        let p = k + page.len();
        assert(page =~= all.subrange(k, p));
        let cursor = page.last().id;
        assert(cursor == all[p - 1].id);
        lemma_rows_behind(all, p);
        crate::table::ordering_and_choosing_commute(
            db.seen,
            before_cursor(Some(cursor)),
            last_first(),
        );
        let rest = db.pages(limit_to, Some(cursor));
        lemma_pages(db, limit_to, Some(cursor), p);
        assert(pages == seq![page] + rest);
        assert(pages.first() == page);
        assert(pages.drop_first() =~= rest);
        assert(pages.flatten() =~= page + rest.flatten());
        assert(pages.flatten() =~= all.skip(k));
        assert forall|i: int| 0 <= i < pages.len() - 1 implies (#[trigger] pages[i]).len()
            == limit_to by {
            if i == 0 {
                assert(rest.len() > 0);
                assert(rest[0].len() > 0);
                if page.len() < limit_to {
                    assert(page == all.skip(k));
                    assert(p == all.len());
                    assert(db.page(limit_to, Some(cursor)).len() == 0);
                }
            } else {
                assert(pages[i] == rest[i - 1]);
            }
        }
        assert forall|i: int| 0 <= i < pages.len() - 1 implies #[trigger] pages[i + 1] == db.page(
            limit_to,
            Some(pages[i].last().id),
        ) by {
            assert(pages[i + 1] == rest[i]);
            if i > 0 {
                assert(pages[i] == rest[i - 1]);
                assert(rest[(i - 1) + 1] == db.page(limit_to, Some(rest[i - 1].last().id)));
            }
        }
        if rest.len() > 0 {
            assert(pages.last() == rest.last());
        } else {
            assert(pages.last() == page);
        }
    }
}

/// Turning the pages, each from the last row of the one before until one is
/// empty, lists every decision exactly once, the newest first. Every page but
/// the last holds as many rows as were asked for.
pub proof fn the_pages_list_every_decision_once(db: RssStoreView, limit_to: i64)
    requires
        db.wf(),
        limit_to > 0,
    ensures
        ({
            let pages = db.pages(limit_to, None);
            let all = pages.flatten();
            &&& all.to_multiset() == db.seen.to_multiset()
            &&& all == ordered(db.seen, last_first())
            &&& forall|i: int, j: int|
                0 <= i < j < all.len() ==> (#[trigger] all[i]).id > (#[trigger] all[j]).id
            &&& forall|i: int| 0 <= i < pages.len() - 1 ==> (#[trigger] pages[i]).len() == limit_to
            &&& pages.len() > 0 ==> 0 < pages.last().len() <= limit_to
            &&& pages.len() > 0 ==> pages[0] == db.page(limit_to, None)
            &&& forall|i: int|
                0 <= i < pages.len() - 1 ==> #[trigger] pages[i + 1] == db.page(
                    limit_to,
                    Some(pages[i].last().id),
                )
            &&& pages.len() > 0 ==> db.page(limit_to, Some(pages.last().last().id)).len() == 0
            &&& pages.len() == 0 ==> db.page(limit_to, None).len() == 0
        }),
{
    let all = ordered(db.seen, last_first());
    lemma_all_descend(db);
    assert forall|i: int| 0 <= i < db.seen.len() implies before_cursor(None)(
        #[trigger] db.seen[i],
    ) by {
    }
    crate::table::lemma_filter_all(db.seen, before_cursor(None));
    assert(all.skip(0) =~= all);
    lemma_pages(db, limit_to, None, 0);
}

/// Deciding an item again replaces the decision under its id.
pub proof fn deciding_again_keeps_the_id(
    db: RssStoreView,
    series: Seq<SeriesRowView>,
    d: DecisionRecord,
    now: Seq<char>,
)
    requires
        db.wf(),
        first_where(db.seen, has_key(d.item_key@)) is Some,
        series_fits(series, d.series_id),
    ensures
        ({
            let (after, r) = db.record_decision(series, d, now);
            let was = first_where(db.seen, has_key(d.item_key@))->0;
            &&& r is Ok
            &&& after.seen.len() == db.seen.len()
            &&& first_where(after.seen, has_key(d.item_key@)) == Some(decided(was.id, d, now))
        }),
{
    let here = has_key(d.item_key@);
    let after = db.record_decision(series, d, now).0;
    crate::table::lemma_first_where_any(db.seen, here);
    let was = first_where(db.seen, here)->0;
    let k = choose|k: int| 0 <= k < db.seen.len() && db.seen[k] == was;
    assert(here(after.seen[k]));
    assert forall|j: int| 0 <= j < k implies !here(#[trigger] after.seen[j]) by {
        assert(item_key()(db.seen[j]) != item_key()(db.seen[k]));
    }
    crate::table::lemma_first_where(after.seen, here, k);
    assert(after.seen[k] =~= decided(was.id, d, now));
}

/// A decision that was recorded is found under its item with everything that
/// was given and the time, under the id it had or a new one, and the decisions
/// on other items stay.
pub proof fn a_recorded_decision_is_found(
    db: RssStoreView,
    series: Seq<SeriesRowView>,
    d: DecisionRecord,
    now: Seq<char>,
    other: Seq<char>,
)
    requires
        db.wf(),
        db.record_decision(series, d, now).1 is Ok,
    ensures
        ({
            let after = db.record_decision(series, d, now).0;
            let had = first_where(db.seen, has_key(d.item_key@));
            &&& first_where(after.seen, has_key(d.item_key@)) matches Some(r)
            &&& r.item_key == d.item_key@
            &&& r.title == d.title@
            &&& r.link == d.link@
            &&& r.series_id == d.series_id
            &&& r.series_title == d.series_title@
            &&& r.group_name == d.group_name@
            &&& r.is_batch == d.is_batch
            &&& r.decision == d.decision@
            &&& r.reason == d.reason@
            &&& r.source == d.source@
            &&& r.source_id == d.source_id
            &&& r.created_at == now
            &&& had is Some ==> r.id == (had->0).id && after.seen.len() == db.seen.len()
            &&& had is None ==> after.seen.len() == db.seen.len() + 1 && forall|i: int|
                0 <= i < db.seen.len() ==> (#[trigger] db.seen[i]).id < r.id
            &&& other != d.item_key@ ==> first_where(after.seen, has_key(other)) == first_where(
                db.seen,
                has_key(other),
            )
            &&& after.runs == db.runs
        }),
{
    let here = has_key(d.item_key@);
    let change = redecided(d, now);
    crate::table::lemma_first_where_any(db.seen, here);
    crate::table::lemma_first_where_updated(db.seen, here, change, here);
    crate::table::lemma_first_where_updated(db.seen, here, change, has_key(other));
    crate::table::lemma_first_where_any(db.seen, has_key(other));
    if first_where(db.seen, here) is None {
        let fresh = decided((db.last_seen_id + 1) as i64, d, now);
        crate::table::lemma_first_where_push(db.seen, fresh, here);
        crate::table::lemma_first_where_push(db.seen, fresh, has_key(other));
        assert forall|i: int| 0 <= i < db.seen.len() implies (#[trigger] db.seen[i]).id
            < fresh.id by {
            assert(seen_id()(db.seen[i]) <= db.last_seen_id);
        }
    }
}

/// A decision about a series that is not there is refused, and so is one that
/// finds no number left.
pub proof fn a_decision_needs_its_series(
    db: RssStoreView,
    series: Seq<SeriesRowView>,
    d: DecisionRecord,
    now: Seq<char>,
)
    requires
        db.last_seen_id < i64::MAX,
    ensures
        ({
            let (after, r) = db.record_decision(series, d, now);
            let fits = d.series_id is None || exists|i: int|
                0 <= i < series.len() && (#[trigger] series[i]).id == d.series_id->0;
            &&& fits ==> r is Ok
            &&& !fits ==> r == Err::<(), StoreError>(StoreError::MissingParent) && after == db
        }),
{
    if d.series_id is Some {
        assert(known(series, d.series_id->0) <==> exists|i: int|
            0 <= i < series.len() && (#[trigger] series[i]).id == d.series_id->0);
    }
}

/// A decision is shown with what its row holds.
pub proof fn a_decision_is_shown_as_it_is_stored(r: SeenRowView)
    ensures
        ({
            let d = shown_decision()(r);
            d.id == r.id && d.created_at == r.created_at && d.title == r.title && d.series_title
                == r.series_title && d.group_name == r.group_name && d.decision == r.decision
                && d.reason == r.reason && d.source == r.source && d.is_batch == r.is_batch
        }),
{
}

/// The keys of the items that were grabbed, and no others, are listed.
pub proof fn the_grabbed_keys_are_listed(db: RssStoreView, key: Seq<char>)
    ensures
        keys_of(db.seen.filter(was_grabbed())).contains(key) <==> exists|i: int|
            0 <= i < db.seen.len() && (#[trigger] db.seen[i]).item_key == key
                && db.seen[i].decision == "grabbed"@,
{
    let f = db.seen.filter(was_grabbed());
    crate::table::lemma_filter_members(db.seen, was_grabbed());
    if keys_of(f).contains(key) {
        let k = choose|k: int| 0 <= k < keys_of(f).len() && keys_of(f)[k] == key;
        assert(f.contains(f[k]));
        assert(db.seen.contains(f[k]) && was_grabbed()(f[k]));
        let i = choose|i: int| 0 <= i < db.seen.len() && db.seen[i] == f[k];
        assert(db.seen[i].item_key == key);
    }
    if exists|i: int|
        0 <= i < db.seen.len() && (#[trigger] db.seen[i]).item_key == key && db.seen[i].decision
            == "grabbed"@ {
        let i = choose|i: int|
            0 <= i < db.seen.len() && (#[trigger] db.seen[i]).item_key == key
                && db.seen[i].decision == "grabbed"@;
        db.seen.lemma_filter_contains(was_grabbed(), i);
        let k = choose|k: int| 0 <= k < f.len() && f[k] == db.seen[i];
        assert(keys_of(f)[k] == key);
    }
}

/// The titles of what was grabbed come from decisions that were to grab, the
/// last one first, and no more of them than asked for.
pub proof fn the_grabbed_titles_are_the_last_ones(db: RssStoreView, limit_to: i64, k: int)
    requires
        0 <= k < limited(
            ordered(db.seen.filter(was_grabbed()), last_first()),
            limit_to as int,
        ).len(),
    ensures
        ({
            let rows = limited(
                ordered(db.seen.filter(was_grabbed()), last_first()),
                limit_to as int,
            );
            &&& titles_of(rows).len() == rows.len()
            &&& titles_of(rows)[k] == rows[k].title
            &&& db.seen.contains(rows[k]) && rows[k].decision == "grabbed"@
            &&& limit_to >= 0 ==> rows.len() <= limit_to
            &&& forall|j: int| 0 <= j < k ==> (#[trigger] rows[j]).id >= rows[k].id
            &&& forall|i: int|
                0 <= i < db.seen.len() && (#[trigger] db.seen[i]).decision == "grabbed"@
                    && db.seen[i].id > rows[k].id ==> rows.contains(db.seen[i])
        }),
{
    let o = ordered(db.seen.filter(was_grabbed()), last_first());
    let rows = limited(o, limit_to as int);
    lemma_last_first_total();
    crate::table::lemma_listed(db.seen, was_grabbed(), last_first());
    crate::table::lemma_page(db.seen, was_grabbed(), last_first(), limit_to as int);
    assert(rows[k] == o[k]);
    assert forall|j: int| 0 <= j < k implies (#[trigger] rows[j]).id >= rows[k].id by {
        assert(last_first()(o[j], o[k]));
    }
    assert forall|i: int|
        0 <= i < db.seen.len() && (#[trigger] db.seen[i]).decision == "grabbed"@ && db.seen[i].id
            > rows[k].id implies rows.contains(db.seen[i]) by {
        assert(was_grabbed()(db.seen[i]));
        assert(o.contains(db.seen[i]));
        let m = choose|m: int| 0 <= m < o.len() && o[m] == db.seen[i];
        if m > k {
            assert(last_first()(o[k], o[m]));
        }
        assert(m < k);
        assert(rows[m] == o[m]);
    }
}

/// With no cursor every decision is on the pages; with one, those before it.
pub proof fn a_page_begins_behind_its_cursor(r: SeenRowView, before: i64)
    ensures
        before_cursor(None)(r),
        before_cursor(Some(before))(r) <==> r.id < before,
{
}

} // verus!
