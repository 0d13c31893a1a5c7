//! What the providers say of series, and how old that is.
use crate::models::series::{is_known, known, SeriesRow};
use crate::models::StoreError;
use crate::table::{
    delete_where, distinct, every_pair, find_first, first_where, optional_view, upsert as put,
    upserted, views, without, Dup,
};
use crate::text::{at_most, own, text_le};
use vstd::prelude::*;

verus! {

/// After how many hours what is known of a series is out of date.
pub const METADATA_REFRESH_INTERVAL_HOURS: i64 = 12;

/// How a time is written: year, month, day, hour, minute and second.
pub const TIME_SHAPE: &'static str = "%Y-%m-%d %H:%M:%S";

/// What `NaiveDateTime::parse_from_str` of chrono makes of a text and a
/// format: the seconds since 1970, taken as UTC, and the nanoseconds in the
/// second, a billion or more in a leap second; nothing when it refuses the text.
pub uninterp spec fn parsed_time(text: Seq<char>, shape: Seq<char>) -> Option<(i64, u32)>;

/// chrono's `NaiveDateTime::parse_from_str`, with the time it gives taken as
/// UTC and handed out as seconds since 1970 and nanoseconds. What it gives
/// depends on the text and the format alone; an empty text holds no time.
#[verifier::external_body]
fn parse_time(text: &str, shape: &str) -> (time: Option<(i64, u32)>)
    ensures
        time == parsed_time(text@, shape@),
        text@.len() == 0 ==> time is None,
{
    chrono::NaiveDateTime::parse_from_str(text, shape).ok().map(|t| {
        let utc = t.and_utc();
        (utc.timestamp(), utc.timestamp_subsec_nanos())
    })
}

/// chrono's `Utc::now`, as seconds since 1970 and nanoseconds. The time is
/// whatever the clock says; the nanoseconds are less than a second.
#[verifier::external_body]
fn utc_now() -> (time: (i64, u32))
    ensures
        time.1 < 1_000_000_000,
{
    let now = chrono::Utc::now();
    (now.timestamp(), now.timestamp_subsec_nanos())
}

/// How many nanoseconds lie between two times. A leap second between them, on
/// the way to a later time of day, counts.
pub open spec fn elapsed(then: (i64, u32), now: (i64, u32)) -> int {
    let leap: int = if then.1 >= 1_000_000_000 && now.0 as int % 86_400 > then.0 as int % 86_400 {
        1
    } else {
        0
    };
    (now.0 - then.0 + leap) * 1_000_000_000 + now.1 - then.1
}

/// Whether a time is longer ago than what is known stays good.
pub open spec fn stale(then: Option<(i64, u32)>, now: (i64, u32)) -> bool {
    match then {
        Some(t) => elapsed(t, now) > METADATA_REFRESH_INTERVAL_HOURS * 3_600 * 1_000_000_000,
        None => false,
    }
}

/// The seconds since midnight.
fn time_of_day(secs: i64) -> (r: u64)
    ensures
        r == secs as int % 86_400,
{
    let shifted: u128 = (secs as i128 + 9_244_800_000_000_000_000) as u128;
    proof {
        vstd::arithmetic::div_mod::lemma_mod_multiples_vanish(
            107_000_000_000_000,
            secs as int,
            86_400,
        );
    }
    (shifted % 86_400) as u64
}

/// Whether a time is longer ago than what is known stays good. A time that
/// could not be read is not.
pub fn is_stale_at(then: Option<(i64, u32)>, now: (i64, u32)) -> (r: bool)
    ensures
        r == stale(then, now),
{
    match then {
        Some(t) => {
            let now_secs: i128 = now.0 as i128;
            let then_secs: i128 = t.0 as i128;
            let now_in_day: u64 = time_of_day(now.0);
            let then_in_day: u64 = time_of_day(t.0);
            let leap: i128 = if t.1 >= 1_000_000_000 && now_in_day > then_in_day {
                1
            } else {
                0
            };
            let passed: i128 = (now_secs - then_secs + leap) * 1_000_000_000 + now.1 as i128
                - t.1 as i128;
            passed > 43_200_000_000_000
        },
        None => false,
    }
}

/// Whether the time, as the database writes it, is longer ago than what is
/// known stays good. A text that is no such time is not.
pub fn is_timestamp_stale(sqlite_timestamp: &str) -> (r: bool)
    ensures
        exists|now: (i64, u32)|
            now.1 < 1_000_000_000 && r == #[trigger] stale(
                parsed_time(sqlite_timestamp@, TIME_SHAPE@),
                now,
            ),
        parsed_time(sqlite_timestamp@, TIME_SHAPE@) is None ==> !r,
        sqlite_timestamp@.len() == 0 ==> !r,
{
    let then = parse_time(sqlite_timestamp, TIME_SHAPE);
    let now = utc_now();
    is_stale_at(then, now)
}

/// What a provider says of a series of the library.
#[derive(Debug)]
pub struct SeriesMetadataRow {
    pub series_id: i64,
    pub provider_id: i64,
    pub mal_id: Option<i64>,
    pub detail_json: String,
    pub cached_at: String,
}

/// The contents of a [`SeriesMetadataRow`].
#[verifier::ext_equal]
pub struct SeriesMetadataRowView {
    pub series_id: i64,
    pub provider_id: i64,
    pub mal_id: Option<i64>,
    pub detail_json: Seq<char>,
    pub cached_at: Seq<char>,
}

impl View for SeriesMetadataRow {
    type V = SeriesMetadataRowView;

    open spec fn view(&self) -> SeriesMetadataRowView {
        SeriesMetadataRowView {
            series_id: self.series_id,
            provider_id: self.provider_id,
            mal_id: self.mal_id,
            detail_json: self.detail_json@,
            cached_at: self.cached_at@,
        }
    }
}

impl Dup for SeriesMetadataRow {
    fn dup(&self) -> (copy: Self) {
        SeriesMetadataRow {
            series_id: self.series_id,
            provider_id: self.provider_id,
            mal_id: self.mal_id,
            detail_json: self.detail_json.clone(),
            cached_at: self.cached_at.clone(),
        }
    }
}

impl Clone for SeriesMetadataRow {
    fn clone(&self) -> (copy: Self)
        ensures
            copy@ == self@,
    {
        self.dup()
    }
}

/// What a provider says of a work that need not be in the library.
#[derive(Debug)]
pub struct ProviderMetadataRow {
    pub provider_id: i64,
    pub mal_id: Option<i64>,
    pub detail_json: String,
    pub cached_at: String,
}

/// The contents of a [`ProviderMetadataRow`].
#[verifier::ext_equal]
pub struct ProviderMetadataRowView {
    pub provider_id: i64,
    pub mal_id: Option<i64>,
    pub detail_json: Seq<char>,
    pub cached_at: Seq<char>,
}

impl View for ProviderMetadataRow {
    type V = ProviderMetadataRowView;

    open spec fn view(&self) -> ProviderMetadataRowView {
        ProviderMetadataRowView {
            provider_id: self.provider_id,
            mal_id: self.mal_id,
            detail_json: self.detail_json@,
            cached_at: self.cached_at@,
        }
    }
}

impl Dup for ProviderMetadataRow {
    fn dup(&self) -> (copy: Self) {
        ProviderMetadataRow {
            provider_id: self.provider_id,
            mal_id: self.mal_id,
            detail_json: self.detail_json.clone(),
            cached_at: self.cached_at.clone(),
        }
    }
}

impl Clone for ProviderMetadataRow {
    fn clone(&self) -> (copy: Self)
        ensures
            copy@ == self@,
    {
        self.dup()
    }
}

/// What is known of a work, and whether that is still good.
#[derive(Debug)]
pub struct CachedSeriesMetadata {
    pub provider_id: i64,
    /// The details as JSON.
    pub detail: String,
    pub cached_at: String,
    pub is_fresh: bool,
}

/// The contents of a [`CachedSeriesMetadata`].
#[verifier::ext_equal]
pub struct CachedSeriesMetadataView {
    pub provider_id: i64,
    pub detail: Seq<char>,
    pub cached_at: Seq<char>,
    pub is_fresh: bool,
}

impl View for CachedSeriesMetadata {
    type V = CachedSeriesMetadataView;

    open spec fn view(&self) -> CachedSeriesMetadataView {
        CachedSeriesMetadataView {
            provider_id: self.provider_id,
            detail: self.detail@,
            cached_at: self.cached_at@,
            is_fresh: self.is_fresh,
        }
    }
}

impl Dup for CachedSeriesMetadata {
    fn dup(&self) -> (copy: Self) {
        CachedSeriesMetadata {
            provider_id: self.provider_id,
            detail: self.detail.clone(),
            cached_at: self.cached_at.clone(),
            is_fresh: self.is_fresh,
        }
    }
}

impl Clone for CachedSeriesMetadata {
    fn clone(&self) -> (copy: Self)
        ensures
            copy@ == self@,
    {
        self.dup()
    }
}

/// What the providers say.
#[derive(Debug)]
pub struct MetadataStore {
    pub series: Vec<SeriesMetadataRow>,
    pub providers: Vec<ProviderMetadataRow>,
}

/// The contents of a [`MetadataStore`].
#[verifier::ext_equal]
pub struct MetadataStoreView {
    pub series: Seq<SeriesMetadataRowView>,
    pub providers: Seq<ProviderMetadataRowView>,
}

impl View for MetadataStore {
    type V = MetadataStoreView;

    open spec fn view(&self) -> MetadataStoreView {
        MetadataStoreView { series: views(self.series@), providers: views(self.providers@) }
    }
}

pub open spec fn series_key() -> spec_fn(SeriesMetadataRowView) -> i64 {
    |r: SeriesMetadataRowView| r.series_id
}

pub open spec fn provider_key() -> spec_fn(ProviderMetadataRowView) -> i64 {
    |r: ProviderMetadataRowView| r.provider_id
}

pub open spec fn of_series(id: i64) -> spec_fn(SeriesMetadataRowView) -> bool {
    |r: SeriesMetadataRowView| r.series_id == id
}

pub open spec fn of_provider(id: i64) -> spec_fn(ProviderMetadataRowView) -> bool {
    |r: ProviderMetadataRowView| r.provider_id == id
}

impl MetadataStoreView {
    /// A series, and a work of a provider, has one row.
    pub open spec fn wf(self) -> bool {
        distinct(self.series, series_key()) && distinct(self.providers, provider_key())
    }

    /// What is known of a series. What was learnt at `cutoff` or later is
    /// still good.
    pub open spec fn of_series(self, id: i64, cutoff: Seq<char>) -> Option<
        CachedSeriesMetadataView,
    > {
        match first_where(self.series, of_series(id)) {
            Some(r) => Some(
                CachedSeriesMetadataView {
                    provider_id: r.provider_id,
                    detail: r.detail_json,
                    cached_at: r.cached_at,
                    is_fresh: text_le(cutoff, r.cached_at),
                },
            ),
            None => None,
        }
    }

    /// What is known of a work of a provider.
    pub open spec fn of_provider(self, id: i64, cutoff: Seq<char>) -> Option<
        CachedSeriesMetadataView,
    > {
        match first_where(self.providers, of_provider(id)) {
            Some(r) => Some(
                CachedSeriesMetadataView {
                    provider_id: r.provider_id,
                    detail: r.detail_json,
                    cached_at: r.cached_at,
                    is_fresh: text_le(cutoff, r.cached_at),
                },
            ),
            None => None,
        }
    }
}

/// What is known of a series. What was learnt at `cutoff` or later is still
/// good.
pub fn get_by_series_id(db: &MetadataStore, series_id: i64, cutoff: &str) -> (r: Option<
    CachedSeriesMetadata,
>)
    ensures
        optional_view(r) == db@.of_series(series_id, cutoff@),
{
    let test = |r: &SeriesMetadataRow| -> (b: bool)
        ensures b == of_series(series_id)(r@)
        { r.series_id == series_id };
    match find_first(&db.series, test, Ghost(of_series(series_id))) {
        Some(r) => {
            let is_fresh: bool = at_most(cutoff, &r.cached_at);
            Some(
                CachedSeriesMetadata {
                    provider_id: r.provider_id,
                    detail: r.detail_json,
                    cached_at: r.cached_at,
                    is_fresh,
                },
            )
        },
        None => None,
    }
}

/// What is known of a work of a provider.
pub fn get_by_provider_id(db: &MetadataStore, provider_id: i64, cutoff: &str) -> (r: Option<
    CachedSeriesMetadata,
>)
    ensures
        optional_view(r) == db@.of_provider(provider_id, cutoff@),
{
    let test = |r: &ProviderMetadataRow| -> (b: bool)
        ensures b == of_provider(provider_id)(r@)
        { r.provider_id == provider_id };
    match find_first(&db.providers, test, Ghost(of_provider(provider_id))) {
        Some(r) => {
            let is_fresh: bool = at_most(cutoff, &r.cached_at);
            Some(
                CachedSeriesMetadata {
                    provider_id: r.provider_id,
                    detail: r.detail_json,
                    cached_at: r.cached_at,
                    is_fresh,
                },
            )
        },
        None => None,
    }
}

pub open spec fn series_row(
    series_id: i64,
    provider_id: i64,
    mal_id: Option<i64>,
    detail: Seq<char>,
    now: Seq<char>,
) -> SeriesMetadataRowView {
    SeriesMetadataRowView { series_id, provider_id, mal_id, detail_json: detail, cached_at: now }
}

pub open spec fn series_learnt(
    provider_id: i64,
    mal_id: Option<i64>,
    detail: Seq<char>,
    now: Seq<char>,
) -> spec_fn(SeriesMetadataRowView) -> SeriesMetadataRowView {
    |r: SeriesMetadataRowView| series_row(r.series_id, provider_id, mal_id, detail, now)
}

/// The store with what was learnt of a series.
pub open spec fn with_series(
    db: MetadataStoreView,
    series_id: i64,
    provider_id: i64,
    mal_id: Option<i64>,
    detail: Seq<char>,
    now: Seq<char>,
) -> MetadataStoreView {
    MetadataStoreView {
        series: upserted(
            db.series,
            of_series(series_id),
            series_learnt(provider_id, mal_id, detail, now),
            series_row(series_id, provider_id, mal_id, detail, now),
        ),
        ..db
    }
}

/// Keeps what was learnt of a series of the library.
pub fn upsert(
    db: &mut MetadataStore,
    series: &Vec<SeriesRow>,
    series_id: i64,
    provider_id: i64,
    mal_id: Option<i64>,
    detail: &str,
    now: &str,
) -> (r: Result<(), StoreError>)
    requires
        old(db)@.wf(),
    ensures
        r is Ok <==> known(views(series@), series_id),
        r matches Err(e) ==> e == StoreError::MissingParent && final(db)@ == old(db)@,
        r is Ok ==> final(db)@ == with_series(
            old(db)@,
            series_id,
            provider_id,
            mal_id,
            detail@,
            now@,
        ),
        final(db)@.wf(),
{
    if !is_known(series, series_id) {
        return Err(StoreError::MissingParent);
    }
    let ghost change = series_learnt(provider_id, mal_id, detail@, now@);
    let fresh = SeriesMetadataRow {
        series_id,
        provider_id,
        mal_id,
        detail_json: own(detail),
        cached_at: own(now),
    };
    proof {
        crate::table::lemma_upserted_distinct(
            db@.series,
            series_key(),
            of_series(series_id),
            change,
            fresh@,
        );
    }
    let test = |r: &SeriesMetadataRow| -> (b: bool)
        ensures b == of_series(series_id)(r@)
        { r.series_id == series_id };
    let make = |r: SeriesMetadataRow| -> (o: SeriesMetadataRow)
        ensures o@ == change(r@)
        {
            SeriesMetadataRow {
                series_id: r.series_id,
                provider_id,
                mal_id,
                detail_json: own(detail),
                cached_at: own(now),
            }
        };
    put(&mut db.series, test, make, fresh, Ghost(of_series(series_id)), Ghost(change));
    Ok(())
}

pub open spec fn provider_row(
    provider_id: i64,
    mal_id: Option<i64>,
    detail: Seq<char>,
    now: Seq<char>,
) -> ProviderMetadataRowView {
    ProviderMetadataRowView { provider_id, mal_id, detail_json: detail, cached_at: now }
}

pub open spec fn provider_learnt(mal_id: Option<i64>, detail: Seq<char>, now: Seq<char>) -> spec_fn(
    ProviderMetadataRowView,
) -> ProviderMetadataRowView {
    |r: ProviderMetadataRowView| provider_row(r.provider_id, mal_id, detail, now)
}

/// The store with what was learnt of a work of a provider.
pub open spec fn with_provider(
    db: MetadataStoreView,
    provider_id: i64,
    mal_id: Option<i64>,
    detail: Seq<char>,
    now: Seq<char>,
) -> MetadataStoreView {
    MetadataStoreView {
        providers: upserted(
            db.providers,
            of_provider(provider_id),
            provider_learnt(mal_id, detail, now),
            provider_row(provider_id, mal_id, detail, now),
        ),
        ..db
    }
}

/// Keeps what was learnt of a work of a provider.
pub fn upsert_provider(
    db: &mut MetadataStore,
    provider_id: i64,
    mal_id: Option<i64>,
    detail: &str,
    now: &str,
)
    requires
        old(db)@.wf(),
    ensures
        final(db)@ == with_provider(old(db)@, provider_id, mal_id, detail@, now@),
        final(db)@.wf(),
{
    let ghost change = provider_learnt(mal_id, detail@, now@);
    let fresh = ProviderMetadataRow {
        provider_id,
        mal_id,
        detail_json: own(detail),
        cached_at: own(now),
    };
    proof {
        crate::table::lemma_upserted_distinct(
            db@.providers,
            provider_key(),
            of_provider(provider_id),
            change,
            fresh@,
        );
    }
    let test = |r: &ProviderMetadataRow| -> (b: bool)
        ensures b == of_provider(provider_id)(r@)
        { r.provider_id == provider_id };
    let make = |r: ProviderMetadataRow| -> (o: ProviderMetadataRow)
        ensures o@ == change(r@)
        {
            ProviderMetadataRow {
                provider_id: r.provider_id,
                mal_id,
                detail_json: own(detail),
                cached_at: own(now),
            }
        };
    put(&mut db.providers, test, make, fresh, Ghost(of_provider(provider_id)), Ghost(change));
}

/// Forgets what was learnt of a series that leaves the library.
pub fn forget_series(db: &mut MetadataStore, series_id: i64)
    requires
        old(db)@.wf(),
    ensures
        final(db)@ == (MetadataStoreView {
            series: without(old(db)@.series, of_series(series_id)),
            ..old(db)@
        }),
        final(db)@.wf(),
        forall|r: SeriesMetadataRowView| #[trigger]
            final(db)@.series.contains(r) <==> old(db)@.series.contains(r) && !(r.series_id == series_id),
        final(db)@.providers == old(db)@.providers,
{
    proof {
        crate::table::lemma_without_contains(db@.series, of_series(series_id));
    }
    proof {
        crate::table::lemma_without_distinct(db@.series, of_series(series_id), series_key());
    }
    let test = |r: &SeriesMetadataRow| -> (b: bool)
        ensures b == of_series(series_id)(r@)
        { r.series_id == series_id };
    let _n: usize = delete_where(&mut db.series, test, Ghost(of_series(series_id)));
}

impl MetadataStore {
    /// A store without rows.
    pub fn new() -> (db: MetadataStore)
        ensures
            db@ == (MetadataStoreView { series: Seq::empty(), providers: Seq::empty() }),
            db@.wf(),
    {
        let db = MetadataStore { series: Vec::new(), providers: Vec::new() };
        assert(db@.series =~= Seq::<SeriesMetadataRowView>::empty());
        assert(db@.providers =~= Seq::<ProviderMetadataRowView>::empty());
        db
    }

    /// Whether the store is as the rules leave it.
    pub fn check(&self) -> (r: bool)
        ensures
            r == self@.wf(),
    {
        let ghost keys = |a: SeriesMetadataRowView, b: SeriesMetadataRowView|
            a.series_id != b.series_id;
        let ghost works = |a: ProviderMetadataRowView, b: ProviderMetadataRowView|
            a.provider_id != b.provider_id;
        let other_series = |a: &SeriesMetadataRow, b: &SeriesMetadataRow| -> (r: bool)
            ensures r == keys(a@, b@)
            { a.series_id != b.series_id };
        let other_work = |a: &ProviderMetadataRow, b: &ProviderMetadataRow| -> (r: bool)
            ensures r == works(a@, b@)
            { a.provider_id != b.provider_id };
        let a: bool = every_pair(&self.series, other_series, Ghost(keys));
        let b: bool = every_pair(&self.providers, other_work, Ghost(works));
        assert(a == distinct(self@.series, series_key()));
        assert(b == distinct(self@.providers, provider_key()));
        a && b
    }
}

/// What was learnt last of a series is what is known of it.
pub proof fn what_was_learnt_is_known(
    db: MetadataStoreView,
    series_id: i64,
    provider_id: i64,
    mal_id: Option<i64>,
    detail: Seq<char>,
    now: Seq<char>,
    cutoff: Seq<char>,
)
    ensures
        with_series(db, series_id, provider_id, mal_id, detail, now).of_series(series_id, cutoff)
            == Some(
            CachedSeriesMetadataView {
                provider_id,
                detail,
                cached_at: now,
                is_fresh: text_le(cutoff, now),
            },
        ),
        with_provider(db, provider_id, mal_id, detail, now).of_provider(provider_id, cutoff) == Some(
            CachedSeriesMetadataView {
                provider_id,
                detail,
                cached_at: now,
                is_fresh: text_le(cutoff, now),
            },
        ),
{
    crate::table::lemma_first_where_upserted(
        db.series,
        of_series(series_id),
        series_learnt(provider_id, mal_id, detail, now),
        series_row(series_id, provider_id, mal_id, detail, now),
    );
    crate::table::lemma_first_where_any(db.providers, of_provider(provider_id));
    crate::table::lemma_first_where_upserted(
        db.providers,
        of_provider(provider_id),
        provider_learnt(mal_id, detail, now),
        provider_row(provider_id, mal_id, detail, now),
    );
}

/// What is out of date stays so as time goes on.
pub proof fn what_is_stale_stays_stale(then: (i64, u32), now: (i64, u32), later: (i64, u32))
    requires
        then.1 < 1_000_000_000,
        now.1 < 1_000_000_000,
        later.0 > now.0 || (later.0 == now.0 && later.1 >= now.1),
        stale(Some(then), now),
    ensures
        stale(Some(then), later),
{
}

/// A time is out of date once the interval has passed and not before.
pub proof fn a_time_is_good_for_the_interval(then: i64, now: i64)
    ensures
        stale(Some((then, 0)), (now, 0)) <==> now - then > METADATA_REFRESH_INTERVAL_HOURS * 3_600,
{
}

/// What is learnt of one series, or of one title, does not change what is
/// known of another, and the id at MyAnimeList is kept with it.
pub proof fn what_is_known_of_others_stays(
    db: MetadataStoreView,
    series_id: i64,
    provider_id: i64,
    mal_id: Option<i64>,
    detail: Seq<char>,
    now: Seq<char>,
    other: i64,
    cutoff: Seq<char>,
)
    ensures
        ({
            let a = with_series(db, series_id, provider_id, mal_id, detail, now);
            let b = with_provider(db, provider_id, mal_id, detail, now);
            &&& a.providers == db.providers
            &&& b.series == db.series
            &&& other != series_id ==> a.of_series(other, cutoff) == db.of_series(other, cutoff)
            &&& other != provider_id ==> b.of_provider(other, cutoff) == db.of_provider(
                other,
                cutoff,
            )
            &&& first_where(a.series, of_series(series_id)) matches Some(r) && r.mal_id == mal_id
                && r.series_id == series_id
            &&& first_where(b.providers, of_provider(provider_id)) matches Some(p) && p.mal_id
                == mal_id && p.provider_id == provider_id
        }),
{
    let here = of_series(series_id);
    let change = series_learnt(provider_id, mal_id, detail, now);
    let fresh = series_row(series_id, provider_id, mal_id, detail, now);
    crate::table::lemma_first_where_any(db.series, here);
    crate::table::lemma_first_where_upserted(db.series, here, change, fresh);
    crate::table::lemma_first_where_any(db.series, of_series(other));
    if other != series_id {
        crate::table::lemma_first_where_updated(db.series, here, change, of_series(other));
        crate::table::lemma_first_where_push(db.series, fresh, of_series(other));
    }
    let there = of_provider(provider_id);
    let alter = provider_learnt(mal_id, detail, now);
    let new = provider_row(provider_id, mal_id, detail, now);
    crate::table::lemma_first_where_any(db.providers, there);
    crate::table::lemma_first_where_upserted(db.providers, there, alter, new);
    crate::table::lemma_first_where_any(db.providers, of_provider(other));
    if other != provider_id {
        crate::table::lemma_first_where_updated(db.providers, there, alter, of_provider(other));
        crate::table::lemma_first_where_push(db.providers, new, of_provider(other));
    }
}

/// Twelve hours after it was read, and not before, what is known is stale; what
/// has no time is not.
pub proof fn what_is_known_is_stale_after_twelve_hours(then: (i64, u32), now: (i64, u32))
    requires
        then.1 < 1_000_000_000,
        now.1 < 1_000_000_000,
    ensures
        now.0 - then.0 > 43_200 ==> stale(Some(then), now),
        now.0 - then.0 < 43_200 ==> !stale(Some(then), now),
        now.0 - then.0 == 43_200 ==> (stale(Some(then), now) <==> now.1 > then.1),
        !stale(None, now),
{
}

/// What is known is fresh where it was read at the cutoff or later.
pub proof fn what_was_read_since_the_cutoff_is_fresh(
    db: MetadataStoreView,
    id: i64,
    cutoff: Seq<char>,
)
    ensures
        db.of_series(id, cutoff) matches Some(m) ==> (m.is_fresh <==> text_le(cutoff, m.cached_at)),
        db.of_provider(id, cutoff) matches Some(m) ==> m.provider_id == id && (m.is_fresh
            <==> text_le(cutoff, m.cached_at)),
        db.of_series(id, cutoff) is Some <==> exists|i: int|
            0 <= i < db.series.len() && (#[trigger] db.series[i]).series_id == id,
        db.of_provider(id, cutoff) is Some <==> exists|i: int|
            0 <= i < db.providers.len() && (#[trigger] db.providers[i]).provider_id == id,
{
    let a = of_series(id);
    let b = of_provider(id);
    crate::table::lemma_first_where_any(db.series, a);
    crate::table::lemma_first_where_any(db.providers, b);
    assert(crate::table::any_where(db.series, a) <==> exists|i: int|
        0 <= i < db.series.len() && (#[trigger] db.series[i]).series_id == id);
    assert(crate::table::any_where(db.providers, b) <==> exists|i: int|
        0 <= i < db.providers.len() && (#[trigger] db.providers[i]).provider_id == id);
}

} // verus!
