//! When episodes air.
use crate::models::series::{is_known, known, SeriesRow};
use crate::models::StoreError;
use crate::table::{
    delete_where, distinct, every_pair, first_where, upsert, upserted, views, without, Dup,
};
use vstd::prelude::*;

verus! {

/// When an episode of a series airs.
#[derive(Debug)]
pub struct EpisodeAiring {
    pub series_id: i64,
    pub episode: i32,
    /// In seconds since 1970.
    pub airing_at: i64,
    pub duration_minutes: i32,
}

/// The contents of a [`EpisodeAiring`].
#[verifier::ext_equal]
pub struct EpisodeAiringView {
    pub series_id: i64,
    pub episode: i32,
    pub airing_at: i64,
    pub duration_minutes: i32,
}

impl View for EpisodeAiring {
    type V = EpisodeAiringView;

    open spec fn view(&self) -> EpisodeAiringView {
        EpisodeAiringView {
            series_id: self.series_id,
            episode: self.episode,
            airing_at: self.airing_at,
            duration_minutes: self.duration_minutes,
        }
    }
}

impl Dup for EpisodeAiring {
    fn dup(&self) -> (copy: Self) {
        EpisodeAiring {
            series_id: self.series_id,
            episode: self.episode,
            airing_at: self.airing_at,
            duration_minutes: self.duration_minutes,
        }
    }
}

impl Clone for EpisodeAiring {
    fn clone(&self) -> (copy: Self)
        ensures
            copy@ == self@,
    {
        self.dup()
    }
}

/// When an episode airs, and when that was learnt.
#[derive(Debug)]
pub struct AiringRow {
    pub series_id: i64,
    pub episode: i32,
    pub airing_at: i64,
    pub duration_minutes: i32,
    pub refreshed_at: i64,
}

/// The contents of a [`AiringRow`].
#[verifier::ext_equal]
pub struct AiringRowView {
    pub series_id: i64,
    pub episode: i32,
    pub airing_at: i64,
    pub duration_minutes: i32,
    pub refreshed_at: i64,
}

impl View for AiringRow {
    type V = AiringRowView;

    open spec fn view(&self) -> AiringRowView {
        AiringRowView {
            series_id: self.series_id,
            episode: self.episode,
            airing_at: self.airing_at,
            duration_minutes: self.duration_minutes,
            refreshed_at: self.refreshed_at,
        }
    }
}

impl Dup for AiringRow {
    fn dup(&self) -> (copy: Self) {
        AiringRow {
            series_id: self.series_id,
            episode: self.episode,
            airing_at: self.airing_at,
            duration_minutes: self.duration_minutes,
            refreshed_at: self.refreshed_at,
        }
    }
}

impl Clone for AiringRow {
    fn clone(&self) -> (copy: Self)
        ensures
            copy@ == self@,
    {
        self.dup()
    }
}

/// The times at which episodes air.
#[derive(Debug)]
pub struct AiringStore {
    pub rows: Vec<AiringRow>,
}

impl View for AiringStore {
    type V = Seq<AiringRowView>;

    open spec fn view(&self) -> Seq<AiringRowView> {
        views(self.rows@)
    }
}

pub open spec fn episode_key() -> spec_fn(AiringRowView) -> (i64, i32) {
    |r: AiringRowView| (r.series_id, r.episode)
}

pub open spec fn is_episode(series_id: i64, episode: i32) -> spec_fn(AiringRowView) -> bool {
    |r: AiringRowView| r.series_id == series_id && r.episode == episode
}

pub open spec fn of_series(series_id: i64) -> spec_fn(AiringRowView) -> bool {
    |r: AiringRowView| r.series_id == series_id
}

/// Every episode airs at one time.
pub open spec fn one_time_each(rows: Seq<AiringRowView>) -> bool {
    distinct(rows, episode_key())
}

pub open spec fn shifted(a: EpisodeAiringView, now: i64) -> spec_fn(AiringRowView) -> AiringRowView {
    |r: AiringRowView|
        AiringRowView {
            airing_at: a.airing_at,
            duration_minutes: a.duration_minutes,
            refreshed_at: now,
            ..r
        }
}

pub open spec fn fresh(series_id: i64, a: EpisodeAiringView, now: i64) -> AiringRowView {
    AiringRowView {
        series_id,
        episode: a.episode,
        airing_at: a.airing_at,
        duration_minutes: a.duration_minutes,
        refreshed_at: now,
    }
}

/// The rows with one more time written down.
pub open spec fn stamped(
    rows: Seq<AiringRowView>,
    series_id: i64,
    a: EpisodeAiringView,
    now: i64,
) -> Seq<AiringRowView> {
    upserted(
        rows,
        is_episode(series_id, a.episode),
        shifted(a, now),
        fresh(series_id, a, now),
    )
}

/// The rows with several times written down, one after the other.
pub open spec fn all_stamped(
    rows: Seq<AiringRowView>,
    series_id: i64,
    airings: Seq<EpisodeAiringView>,
    now: i64,
) -> Seq<AiringRowView>
    decreases airings.len(),
{
    if airings.len() == 0 {
        rows
    } else {
        stamped(
            all_stamped(rows, series_id, airings.drop_last(), now),
            series_id,
            airings.last(),
            now,
        )
    }
}

fn stamp(db: &mut AiringStore, series_id: i64, a: &EpisodeAiring, now: i64)
    requires
        one_time_each(old(db)@),
    ensures
        final(db)@ == stamped(old(db)@, series_id, a@, now),
        one_time_each(final(db)@),
{
    let episode: i32 = a.episode;
    let airing_at: i64 = a.airing_at;
    let duration_minutes: i32 = a.duration_minutes;
    let ghost here = is_episode(series_id, episode);
    let ghost change = shifted(a@, now);
    let row = AiringRow { series_id, episode, airing_at, duration_minutes, refreshed_at: now };
    proof {
        crate::table::lemma_upserted_distinct(db@, episode_key(), here, change, row@);
    }
    let test = |r: &AiringRow| -> (b: bool)
        ensures b == here(r@)
        { r.series_id == series_id && r.episode == episode };
    let make = |r: AiringRow| -> (o: AiringRow)
        ensures o@ == change(r@)
        { AiringRow { airing_at, duration_minutes, refreshed_at: now, ..r } };
    upsert(&mut db.rows, test, make, row, Ghost(here), Ghost(change));
}

/// Writes down when episodes of a series air, over what was known of them.
pub fn upsert_for_series(
    db: &mut AiringStore,
    series: &Vec<SeriesRow>,
    series_id: i64,
    rows: &Vec<EpisodeAiring>,
    now: i64,
) -> (r: Result<(), StoreError>)
    requires
        one_time_each(old(db)@),
    ensures
        r is Ok <==> rows.len() == 0 || known(views(series@), series_id),
        r matches Err(e) ==> e == StoreError::MissingParent && final(db)@ == old(db)@,
        r is Ok ==> final(db)@ == all_stamped(old(db)@, series_id, views(rows@), now),
        one_time_each(final(db)@),
{
    if rows.len() == 0 {
        assert(views(rows@).len() == 0);
        return Ok(());
    }
    if !is_known(series, series_id) {
        return Err(StoreError::MissingParent);
    }
    let ghost before = db@;
    let ghost all = views(rows@);
    let mut i: usize = 0;
    assert(all.take(0).len() == 0);
    while i < rows.len()
        invariant
            i <= rows.len(),
            all == views(rows@),
            one_time_each(db@),
            db@ == all_stamped(before, series_id, all.take(i as int), now),
        decreases rows.len() - i,
    {
        stamp(db, series_id, &rows[i], now);
        proof {
            let t = all.take(i + 1);
            assert(t.drop_last() =~= all.take(i as int));
            assert(t.last() == all[i as int]);
        }
        i += 1;
    }
    assert(all.take(i as int) =~= all);
    Ok(())
}

pub open spec fn aired_before(time: i64) -> spec_fn(AiringRowView) -> bool {
    |r: AiringRowView| r.airing_at < time
}

/// Forgets the episodes that aired before a time and says how many there were.
pub fn prune_older_than(db: &mut AiringStore, older_than_unix: i64) -> (n: u64)
    requires
        one_time_each(old(db)@),
    ensures
        final(db)@ == without(old(db)@, aired_before(older_than_unix)),
        n == old(db)@.len() - final(db)@.len(),
        one_time_each(final(db)@),
        forall|r: AiringRowView| #[trigger]
            final(db)@.contains(r) <==> old(db)@.contains(r) && !(r.airing_at < older_than_unix),
{
    proof {
        crate::table::lemma_without_contains(db@, aired_before(older_than_unix));
    }
    proof {
        crate::table::lemma_without_distinct(db@, aired_before(older_than_unix), episode_key());
    }
    let test = |r: &AiringRow| -> (b: bool)
        ensures b == aired_before(older_than_unix)(r@)
        { r.airing_at < older_than_unix };
    delete_where(&mut db.rows, test, Ghost(aired_before(older_than_unix))) as u64
}

/// Forgets the episodes of a series that leaves the library.
pub fn forget_series(db: &mut AiringStore, series_id: i64)
    requires
        one_time_each(old(db)@),
    ensures
        final(db)@ == without(old(db)@, of_series(series_id)),
        one_time_each(final(db)@),
        forall|r: AiringRowView| #[trigger]
            final(db)@.contains(r) <==> old(db)@.contains(r) && !(r.series_id == series_id),
{
    proof {
        crate::table::lemma_without_contains(db@, of_series(series_id));
    }
    proof {
        crate::table::lemma_without_distinct(db@, of_series(series_id), episode_key());
    }
    let test = |r: &AiringRow| -> (b: bool)
        ensures b == of_series(series_id)(r@)
        { r.series_id == series_id };
    let _n: usize = delete_where(&mut db.rows, test, Ghost(of_series(series_id)));
}

impl AiringStore {
    /// A store without times.
    pub fn new() -> (db: AiringStore)
        ensures
            db@ == Seq::<AiringRowView>::empty(),
            one_time_each(db@),
    {
        let db = AiringStore { rows: Vec::new() };
        assert(db@ =~= Seq::<AiringRowView>::empty());
        db
    }

    /// Whether the store is as the rules leave it.
    pub fn check(&self) -> (r: bool)
        ensures
            r == one_time_each(self@),
    {
        let ghost keys = |a: AiringRowView, b: AiringRowView| episode_key()(a) != episode_key()(b);
        let other = |a: &AiringRow, b: &AiringRow| -> (r: bool)
            ensures r == keys(a@, b@)
            { a.series_id != b.series_id || a.episode != b.episode };
        let r: bool = every_pair(&self.rows, other, Ghost(keys));
        assert(r == distinct(self@, episode_key()));
        r
    }
}

/// The time that was written down last for an episode is the one found.
pub proof fn the_last_time_counts(
    rows: Seq<AiringRowView>,
    series_id: i64,
    airings: Seq<EpisodeAiringView>,
    now: i64,
)
    requires
        airings.len() > 0,
    ensures
        ({
            let a = airings.last();
            let found = first_where(
                all_stamped(rows, series_id, airings, now),
                is_episode(series_id, a.episode),
            );
            &&& found is Some
            &&& (found->0).airing_at == a.airing_at
            &&& (found->0).duration_minutes == a.duration_minutes
            &&& (found->0).refreshed_at == now
        }),
{
    let a = airings.last();
    crate::table::lemma_first_where_upserted(
        all_stamped(rows, series_id, airings.drop_last(), now),
        is_episode(series_id, a.episode),
        shifted(a, now),
        fresh(series_id, a, now),
    );
}

/// Writing down the times of one series leaves those of the others alone.
pub proof fn other_series_keep_their_times(
    rows: Seq<AiringRowView>,
    series_id: i64,
    airings: Seq<EpisodeAiringView>,
    now: i64,
    other: i64,
    episode: i32,
)
    requires
        other != series_id,
    ensures
        first_where(all_stamped(rows, series_id, airings, now), is_episode(other, episode))
            == first_where(rows, is_episode(other, episode)),
    decreases airings.len(),
{
    if airings.len() > 0 {
        let before = all_stamped(rows, series_id, airings.drop_last(), now);
        let a = airings.last();
        let here = is_episode(series_id, a.episode);
        let wanted = is_episode(other, episode);
        other_series_keep_their_times(rows, series_id, airings.drop_last(), now, other, episode);
        if crate::table::any_where(before, here) {
            crate::table::lemma_first_where_any(before, wanted);
            crate::table::lemma_first_where_updated(before, here, shifted(a, now), wanted);
        } else {
            crate::table::lemma_first_where_push(before, fresh(series_id, a, now), wanted);
        }
    }
}

/// What airs at the given time or later is kept.
pub proof fn later_episodes_stay(rows: Seq<AiringRowView>, time: i64, i: int)
    requires
        0 <= i < rows.len(),
        rows[i].airing_at >= time,
    ensures
        without(rows, aired_before(time)).contains(rows[i]),
{
    crate::table::lemma_without_members(rows, aired_before(time));
}

/// The last time that is given for an episode is the one that it has, with its
/// length; the row names the series and the episode.
pub proof fn an_episode_has_the_last_time_given(
    rows: Seq<AiringRowView>,
    series_id: i64,
    airings: Seq<EpisodeAiringView>,
    now: i64,
    k: int,
)
    requires
        0 <= k < airings.len(),
        forall|l: int|
            k < l < airings.len() ==> (#[trigger] airings[l]).episode != airings[k].episode,
    ensures
        ({
            let found = first_where(
                all_stamped(rows, series_id, airings, now),
                is_episode(series_id, airings[k].episode),
            );
            &&& found matches Some(r)
            &&& r.series_id == series_id
            &&& r.episode == airings[k].episode
            &&& r.airing_at == airings[k].airing_at
            &&& r.duration_minutes == airings[k].duration_minutes
            &&& r.refreshed_at == now
        }),
    decreases airings.len(),
{
    let rest = airings.drop_last();
    let mid = all_stamped(rows, series_id, rest, now);
    let a = airings.last();
    let here = is_episode(series_id, a.episode);
    let wanted = is_episode(series_id, airings[k].episode);
    crate::table::lemma_first_where_any(all_stamped(rows, series_id, airings, now), wanted);
    if k == airings.len() - 1 {
        crate::table::lemma_first_where_upserted(
            mid,
            here,
            shifted(a, now),
            fresh(series_id, a, now),
        );
    } else {
        assert(rest[k] == airings[k]);
        assert forall|l: int| k < l < rest.len() implies (#[trigger] rest[l]).episode
            != rest[k].episode by {
            assert(rest[l] == airings[l]);
        }
        an_episode_has_the_last_time_given(rows, series_id, rest, now, k);
        assert(airings[airings.len() - 1] == a);
        crate::table::lemma_first_where_updated(mid, here, shifted(a, now), wanted);
        crate::table::lemma_first_where_push(mid, fresh(series_id, a, now), wanted);
        crate::table::lemma_first_where_any(mid, wanted);
    }
}

/// An episode for which no time is given keeps the one it had, or none.
pub proof fn an_episode_not_given_keeps_its_time(
    rows: Seq<AiringRowView>,
    series_id: i64,
    airings: Seq<EpisodeAiringView>,
    now: i64,
    episode: i32,
)
    requires
        forall|l: int| 0 <= l < airings.len() ==> (#[trigger] airings[l]).episode != episode,
    ensures
        first_where(all_stamped(rows, series_id, airings, now), is_episode(series_id, episode))
            == first_where(rows, is_episode(series_id, episode)),
    decreases airings.len(),
{
    if airings.len() > 0 {
        let rest = airings.drop_last();
        let mid = all_stamped(rows, series_id, rest, now);
        let a = airings.last();
        let here = is_episode(series_id, a.episode);
        let wanted = is_episode(series_id, episode);
        assert forall|l: int| 0 <= l < rest.len() implies (#[trigger] rest[l]).episode
            != episode by {
            assert(rest[l] == airings[l]);
        }
        assert(airings[airings.len() - 1] == a);
        an_episode_not_given_keeps_its_time(rows, series_id, rest, now, episode);
        crate::table::lemma_first_where_updated(mid, here, shifted(a, now), wanted);
        crate::table::lemma_first_where_push(mid, fresh(series_id, a, now), wanted);
        crate::table::lemma_first_where_any(mid, wanted);
    }
}

} // verus!
