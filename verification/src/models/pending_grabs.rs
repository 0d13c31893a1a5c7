//! Grabs whose files are still being picked.
use crate::table::{
    any, any_where, delete_where, distinct, every_pair, find_first, first_where, head, optional_view,
    order_by, ordered, select, update_where, updated, views, without, Dup,
};
use crate::text::{join2, own, same};
use crate::models::StoreError;
use vstd::prelude::*;

verus! {

/// After how many seconds without a sign of life a grab is taken up as it is.
pub const HEARTBEAT_TTL_SECS: i64 = 60;

/// A grab whose files are being picked.
#[derive(Debug)]
pub struct PendingGrab {
    pub preview_id: String,
    pub info_hash: String,
    pub client_kind: String,
    pub indexer_id: Option<i64>,
    pub series_id: Option<i64>,
    /// In seconds since 1970.
    pub created_at: i64,
    /// The last sign of life.
    pub heartbeat_at: i64,
    /// The files as a JSON list; empty until they are known.
    pub file_list_json: String,
    /// The release as JSON.
    pub release_metadata_json: String,
}

/// The contents of a [`PendingGrab`].
#[verifier::ext_equal]
pub struct PendingGrabView {
    pub preview_id: Seq<char>,
    pub info_hash: Seq<char>,
    pub client_kind: Seq<char>,
    pub indexer_id: Option<i64>,
    pub series_id: Option<i64>,
    pub created_at: i64,
    pub heartbeat_at: i64,
    pub file_list_json: Seq<char>,
    pub release_metadata_json: Seq<char>,
}

impl View for PendingGrab {
    type V = PendingGrabView;

    open spec fn view(&self) -> PendingGrabView {
        PendingGrabView {
            preview_id: self.preview_id@,
            info_hash: self.info_hash@,
            client_kind: self.client_kind@,
            indexer_id: self.indexer_id,
            series_id: self.series_id,
            created_at: self.created_at,
            heartbeat_at: self.heartbeat_at,
            file_list_json: self.file_list_json@,
            release_metadata_json: self.release_metadata_json@,
        }
    }
}

impl Dup for PendingGrab {
    fn dup(&self) -> (copy: Self) {
        PendingGrab {
            preview_id: self.preview_id.clone(),
            info_hash: self.info_hash.clone(),
            client_kind: self.client_kind.clone(),
            indexer_id: self.indexer_id,
            series_id: self.series_id,
            created_at: self.created_at,
            heartbeat_at: self.heartbeat_at,
            file_list_json: self.file_list_json.clone(),
            release_metadata_json: self.release_metadata_json.clone(),
        }
    }
}

impl Clone for PendingGrab {
    fn clone(&self) -> (copy: Self)
        ensures
            copy@ == self@,
    {
        self.dup()
    }
}

/// The grabs whose files are being picked.
#[derive(Debug)]
pub struct PendingStore {
    pub rows: Vec<PendingGrab>,
}

impl View for PendingStore {
    type V = Seq<PendingGrabView>;

    open spec fn view(&self) -> Seq<PendingGrabView> {
        views(self.rows@)
    }
}

pub open spec fn preview_key() -> spec_fn(PendingGrabView) -> Seq<char> {
    |g: PendingGrabView| g.preview_id
}

pub open spec fn is_preview(id: Seq<char>) -> spec_fn(PendingGrabView) -> bool {
    |g: PendingGrabView| g.preview_id == id
}

pub open spec fn of_hash(hash: Seq<char>) -> spec_fn(PendingGrabView) -> bool {
    |g: PendingGrabView| g.info_hash == hash
}

pub open spec fn newest_first() -> spec_fn(PendingGrabView, PendingGrabView) -> bool {
    |a: PendingGrabView, b: PendingGrabView| a.created_at >= b.created_at
}

pub open spec fn silent_longest_first() -> spec_fn(PendingGrabView, PendingGrabView) -> bool {
    |a: PendingGrabView, b: PendingGrabView| a.heartbeat_at <= b.heartbeat_at
}

/// Every grab has an id of its own.
pub open spec fn one_row_each(rows: Seq<PendingGrabView>) -> bool {
    distinct(rows, preview_key())
}

/// A grab that has just begun: its files are not known, and it is alive.
pub open spec fn begun(
    preview_id: Seq<char>,
    info_hash: Seq<char>,
    client_kind: Seq<char>,
    indexer_id: Option<i64>,
    series_id: Option<i64>,
    release_metadata_json: Seq<char>,
    now: i64,
) -> PendingGrabView {
    PendingGrabView {
        preview_id,
        info_hash,
        client_kind,
        indexer_id,
        series_id,
        created_at: now,
        heartbeat_at: now,
        file_list_json: Seq::empty(),
        release_metadata_json,
    }
}

/// What is said when a grab could not be begun, for the reason that the store
/// gave.
pub open spec fn not_begun(reason: Seq<char>) -> Seq<char> {
    "failed to create pending grab: "@ + reason
}

/// What is said when a grab could not be begun. The reason stands in the words
/// of whatever refused the row: those of the store here, or those of a database
/// that the row is written to.
pub fn create_failure(reason: &str) -> (text: String)
    ensures
        text@ == not_begun(reason@),
{
    join2("failed to create pending grab: ", reason)
}

/// Begins a grab. An id that is taken is refused.
pub fn create(
    db: &mut PendingStore,
    preview_id: &str,
    info_hash: &str,
    client_kind: &str,
    indexer_id: Option<i64>,
    series_id: Option<i64>,
    release_metadata_json: &str,
    now: i64,
) -> (r: Result<(), String>)
    requires
        one_row_each(old(db)@),
    ensures
        r is Err <==> any_where(old(db)@, is_preview(preview_id@)),
        r matches Err(e) ==> e@ == not_begun(StoreError::Duplicate.reason_text()) && final(db)@
            == old(db)@,
        r is Ok ==> final(db)@ == old(db)@.push(
            begun(
                preview_id@,
                info_hash@,
                client_kind@,
                indexer_id,
                series_id,
                release_metadata_json@,
                now,
            ),
        ),
        one_row_each(final(db)@),
        r is Err <==> exists|i: int|
            0 <= i < old(db)@.len() && (#[trigger] old(db)@[i]).preview_id == preview_id@,
        r is Ok ==> {
            let g = final(db)@.last();
            &&& final(db)@.len() == old(db)@.len() + 1
            &&& forall|i: int| 0 <= i < old(db)@.len() ==> #[trigger] final(db)@[i] == old(db)@[i]
            &&& g.preview_id == preview_id@ && g.info_hash == info_hash@ && g.client_kind == client_kind@
                && g.indexer_id == indexer_id && g.series_id == series_id
            &&& g.created_at == now && g.heartbeat_at == now && g.file_list_json.len() == 0
                && g.release_metadata_json == release_metadata_json@
        },
{
    let ghost taken = is_preview(preview_id@);
    let test = |g: &PendingGrab| -> (b: bool)
        ensures b == taken(g@)
        { same(&g.preview_id, preview_id) };
    if any(&db.rows, test, Ghost(taken)) {
        return Err(create_failure(StoreError::Duplicate.reason()));
    }
    let row = PendingGrab {
        preview_id: own(preview_id),
        info_hash: own(info_hash),
        client_kind: own(client_kind),
        indexer_id,
        series_id,
        created_at: now,
        heartbeat_at: now,
        file_list_json: String::new(),
        release_metadata_json: own(release_metadata_json),
    };
    proof {
        let rows = db@;
        crate::table::lemma_views_push(db.rows@, row);
        assert forall|i: int| 0 <= i < rows.len() implies preview_key()(#[trigger] rows[i])
            != preview_key()(row@) by {
            assert(!taken(rows[i]));
        }
        crate::table::lemma_distinct_push(rows, preview_key(), row@);
    }
    db.rows.push(row);
    Ok(())
}

/// The grab with an id.
pub fn get(db: &PendingStore, preview_id: &str) -> (r: Option<PendingGrab>)
    ensures
        optional_view(r) == first_where(db@, is_preview(preview_id@)),
{
    let ghost here = is_preview(preview_id@);
    let test = |g: &PendingGrab| -> (b: bool)
        ensures b == here(g@)
        { same(&g.preview_id, preview_id) };
    find_first(&db.rows, test, Ghost(here))
}

/// The grab of a torrent that began last. Without a hash there is none.
pub open spec fn last_of(rows: Seq<PendingGrabView>, hash: Seq<char>) -> Option<PendingGrabView> {
    if hash.len() == 0 {
        None
    } else {
        head(ordered(rows.filter(of_hash(hash)), newest_first()))
    }
}

/// The grab of a torrent that began last.
pub fn get_by_hash(db: &PendingStore, info_hash: &str) -> (r: Option<PendingGrab>)
    ensures
        optional_view(r) == last_of(db@, info_hash@),
{
    if info_hash.is_empty() {
        return None;
    }
    let ghost theirs = of_hash(info_hash@);
    let test = |g: &PendingGrab| -> (b: bool)
        ensures b == theirs(g@)
        { same(&g.info_hash, info_hash) };
    let before = |a: &PendingGrab, b: &PendingGrab| -> (r: bool)
        ensures r == newest_first()(a@, b@)
        { a.created_at >= b.created_at };
    let rows = order_by(select(&db.rows, test, Ghost(theirs)), before, Ghost(newest_first()));
    assert(views(rows@).len() == rows.len());
    if rows.len() == 0 {
        return None;
    }
    assert(views(rows@)[0] == rows[0]@);
    Some(rows[0].dup())
}

fn change_row<G: Fn(PendingGrab) -> PendingGrab>(
    db: &mut PendingStore,
    preview_id: &str,
    change: G,
    Ghost(changed): Ghost<spec_fn(PendingGrabView) -> PendingGrabView>,
) -> (n: usize)
    requires
        one_row_each(old(db)@),
        forall|v: PendingGrabView| (#[trigger] changed(v)).preview_id == v.preview_id,
        forall|t: PendingGrab| #[trigger] call_requires(change, (t,)),
        forall|t: PendingGrab, r: PendingGrab| #[trigger]
            call_ensures(change, (t,), r) ==> r@ == changed(t@),
    ensures
        final(db)@ == updated(old(db)@, is_preview(preview_id@), changed),
        n > 0 <==> any_where(old(db)@, is_preview(preview_id@)),
        one_row_each(final(db)@),
{
    let ghost here = is_preview(preview_id@);
    let ghost rows = db@;
    proof {
        crate::table::lemma_distinct_updated(db@, preview_key(), here, changed);
    }
    let test = |g: &PendingGrab| -> (b: bool)
        ensures b == here(g@)
        { same(&g.preview_id, preview_id) };
    let n: usize = update_where(&mut db.rows, test, change, Ghost(here), Ghost(changed));
    proof {
        crate::table::lemma_filter_any(rows, here);
    }
    n
}

pub open spec fn with_files(file_list_json: Seq<char>) -> spec_fn(PendingGrabView) -> PendingGrabView {
    |g: PendingGrabView| PendingGrabView { file_list_json, ..g }
}

/// Keeps the files of a grab once they are known.
pub fn set_file_list(db: &mut PendingStore, preview_id: &str, file_list_json: &str)
    requires
        one_row_each(old(db)@),
    ensures
        final(db)@ == updated(old(db)@, is_preview(preview_id@), with_files(file_list_json@)),
        one_row_each(final(db)@),
        final(db)@.len() == old(db)@.len(),
        forall|i: int|
            0 <= i < old(db)@.len() ==> (#[trigger] final(db)@[i]) == ({
                let r = old(db)@[i];
                if r.preview_id == preview_id@ {
                    PendingGrabView { file_list_json: file_list_json@, ..r }
                } else {
                    r
                }
            }),
{
    let ghost changed = with_files(file_list_json@);
    let change = |g: PendingGrab| -> (o: PendingGrab)
        ensures o@ == changed(g@)
        { PendingGrab { file_list_json: own(file_list_json), ..g } };
    let _n: usize = change_row(db, preview_id, change, Ghost(changed));
}

pub open spec fn alive_at(now: i64) -> spec_fn(PendingGrabView) -> PendingGrabView {
    |g: PendingGrabView| PendingGrabView { heartbeat_at: now, ..g }
}

/// Notes a sign of life of a grab, and says whether there is such a grab.
pub fn bump_heartbeat(db: &mut PendingStore, preview_id: &str, now: i64) -> (r: bool)
    requires
        one_row_each(old(db)@),
    ensures
        r == any_where(old(db)@, is_preview(preview_id@)),
        final(db)@ == updated(old(db)@, is_preview(preview_id@), alive_at(now)),
        one_row_each(final(db)@),
        final(db)@.len() == old(db)@.len(),
        forall|i: int|
            0 <= i < old(db)@.len() ==> (#[trigger] final(db)@[i]) == ({
                let r = old(db)@[i];
                if r.preview_id == preview_id@ {
                    PendingGrabView { heartbeat_at: now, ..r }
                } else {
                    r
                }
            }),
        r <==> exists|i: int|
            0 <= i < old(db)@.len() && (#[trigger] old(db)@[i]).preview_id == preview_id@,
{
    let change = |g: PendingGrab| -> (o: PendingGrab)
        ensures o@ == alive_at(now)(g@)
        { PendingGrab { heartbeat_at: now, ..g } };
    let n: usize = change_row(db, preview_id, change, Ghost(alive_at(now)));
    n > 0
}

/// Drops a grab.
pub fn delete(db: &mut PendingStore, preview_id: &str)
    requires
        one_row_each(old(db)@),
    ensures
        final(db)@ == without(old(db)@, is_preview(preview_id@)),
        one_row_each(final(db)@),
        forall|r: PendingGrabView| #[trigger]
            final(db)@.contains(r) <==> old(db)@.contains(r) && !(r.preview_id == preview_id@),
{
    proof {
        crate::table::lemma_without_contains(db@, is_preview(preview_id@));
    }
    let ghost here = is_preview(preview_id@);
    proof {
        crate::table::lemma_without_distinct(db@, here, preview_key());
    }
    let test = |g: &PendingGrab| -> (b: bool)
        ensures b == here(g@)
        { same(&g.preview_id, preview_id) };
    let _n: usize = delete_where(&mut db.rows, test, Ghost(here));
}

/// Whether a grab gave no sign of life for too long.
pub open spec fn silent(now: i64) -> spec_fn(PendingGrabView) -> bool {
    |g: PendingGrabView| g.heartbeat_at < now - HEARTBEAT_TTL_SECS
}

/// The grabs that gave no sign of life for too long, the longest silent first.
pub fn list_expired(db: &PendingStore, now: i64) -> (out: Vec<PendingGrab>)
    requires
        now - HEARTBEAT_TTL_SECS >= i64::MIN,
    ensures
        views(out@) == ordered(db@.filter(silent(now)), silent_longest_first()),
{
    let cutoff: i64 = now - HEARTBEAT_TTL_SECS;
    let test = |g: &PendingGrab| -> (b: bool)
        ensures b == silent(now)(g@)
        { g.heartbeat_at < cutoff };
    let before = |a: &PendingGrab, b: &PendingGrab| -> (r: bool)
        ensures r == silent_longest_first()(a@, b@)
        { a.heartbeat_at <= b.heartbeat_at };
    order_by(
        select(&db.rows, test, Ghost(silent(now))),
        before,
        Ghost(silent_longest_first()),
    )
}

/// How many grabs there are.
pub fn count(db: &PendingStore) -> (n: u64)
    ensures
        n == db@.len(),
{
    assert(db@.len() == db.rows.len());
    db.rows.len() as u64
}

impl PendingStore {
    /// A store without grabs.
    pub fn new() -> (db: PendingStore)
        ensures
            db@ == Seq::<PendingGrabView>::empty(),
            one_row_each(db@),
    {
        let db = PendingStore { rows: Vec::new() };
        assert(db@ =~= Seq::<PendingGrabView>::empty());
        db
    }

    /// Whether the store is as the rules leave it.
    pub fn check(&self) -> (r: bool)
        ensures
            r == one_row_each(self@),
    {
        let ghost ids = |a: PendingGrabView, b: PendingGrabView| a.preview_id != b.preview_id;
        let other = |a: &PendingGrab, b: &PendingGrab| -> (r: bool)
            ensures r == ids(a@, b@)
            { !same(&a.preview_id, &b.preview_id) };
        let r: bool = every_pair(&self.rows, other, Ghost(ids));
        assert(r == distinct(self@, preview_key()));
        r
    }
}

/// A grab that gives signs of life often enough is never listed as expired.
pub proof fn a_live_grab_does_not_expire(
    rows: Seq<PendingGrabView>,
    preview_id: Seq<char>,
    bumped: i64,
    now: i64,
)
    requires
        one_row_each(rows),
        now - bumped <= HEARTBEAT_TTL_SECS,
    ensures
        ({
            let after = updated(rows, is_preview(preview_id), alive_at(bumped));
            let expired = ordered(after.filter(silent(now)), silent_longest_first());
            forall|i: int| 0 <= i < expired.len() ==> (#[trigger] expired[i]).preview_id != preview_id
        }),
{
    let after = updated(rows, is_preview(preview_id), alive_at(bumped));
    let f = after.filter(silent(now));
    let expired = ordered(f, silent_longest_first());
    crate::table::lemma_filter_members(after, silent(now));
    crate::table::lemma_ordered_members(f, silent_longest_first());
    assert forall|i: int| 0 <= i < expired.len() implies (#[trigger] expired[i]).preview_id
        != preview_id by {
        assert(f.contains(expired[i]));
        let j = choose|j: int| 0 <= j < f.len() && f[j] == expired[i];
        assert(after.contains(f[j]) && silent(now)(f[j]));
        let k = choose|k: int| 0 <= k < after.len() && after[k] == f[j];
        assert(is_preview(preview_id)(rows[k]) ==> after[k].heartbeat_at == bumped);
    }
}

/// A grab that was begun is found, alive and without files.
pub proof fn a_begun_grab_is_found(rows: Seq<PendingGrabView>, g: PendingGrabView)
    requires
        !any_where(rows, is_preview(g.preview_id)),
    ensures
        first_where(rows.push(g), is_preview(g.preview_id)) == Some(g),
{
    crate::table::lemma_first_where_any(rows, is_preview(g.preview_id));
    crate::table::lemma_first_where_push(rows, g, is_preview(g.preview_id));
}

/// Keeping the files changes nothing else of a grab.
pub proof fn keeping_the_files_changes_nothing_else(g: PendingGrabView, files: Seq<char>)
    ensures
        with_files(files)(g) == (PendingGrabView { file_list_json: files, ..g }),
        with_files(files)(g).heartbeat_at == g.heartbeat_at,
{
}

/// The grab found by a hash is the newest one of that hash; an empty hash finds
/// none.
pub proof fn a_hash_finds_its_newest_grab(rows: Seq<PendingGrabView>, hash: Seq<char>)
    ensures
        match last_of(rows, hash) {
            Some(g) => hash.len() > 0 && rows.contains(g) && g.info_hash == hash && forall|i: int|
                0 <= i < rows.len() && (#[trigger] rows[i]).info_hash == hash ==> rows[i].created_at
                    <= g.created_at,
            None => hash.len() == 0 || forall|i: int|
                0 <= i < rows.len() ==> (#[trigger] rows[i]).info_hash != hash,
        },
{
    crate::table::lemma_head_of_list(rows, of_hash(hash), newest_first());
}

/// What has expired is what was silent for more than a minute, and nothing
/// else; what was silent longest comes first.
pub proof fn what_was_silent_too_long_has_expired(
    rows: Seq<PendingGrabView>,
    now: i64,
    g: PendingGrabView,
)
    ensures
        ({
            let list = ordered(rows.filter(silent(now)), silent_longest_first());
            &&& list.contains(g) <==> rows.contains(g) && now - g.heartbeat_at > 60
            &&& forall|j: int, k: int|
                0 <= j < k < list.len() ==> (#[trigger] list[j]).heartbeat_at <= (
                #[trigger] list[k]).heartbeat_at
        }),
{
    let list = ordered(rows.filter(silent(now)), silent_longest_first());
    crate::table::lemma_listed(rows, silent(now), silent_longest_first());
    if list.contains(g) {
        let k = choose|k: int| 0 <= k < list.len() && list[k] == g;
        assert(silent(now)(list[k]));
    }
    if rows.contains(g) && silent(now)(g) {
        let i = choose|i: int| 0 <= i < rows.len() && rows[i] == g;
        assert(list.contains(rows[i]));
    }
    assert forall|j: int, k: int| 0 <= j < k < list.len() implies (#[trigger] list[j]).heartbeat_at
        <= (#[trigger] list[k]).heartbeat_at by {
        assert(silent_longest_first()(list[j], list[k]));
    }
}

} // verus!
