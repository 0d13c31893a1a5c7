//! Indexers that are searched for releases.
use crate::models::StoreError;
use crate::number::{stored_real, to_store};
use crate::table::{
    check_numbered, delete_where, dup_all, find_first, first_where, numbered, optional_view,
    order_by, ordered, project, select, update_where, updated, views, without, Dup,
};
use crate::text::own;
use vstd::prelude::*;

verus! {

/// An indexer of torrents.
pub const KIND_TORZNAB: &'static str = "torznab";

/// An indexer of usenet posts.
pub const KIND_NEWZNAB: &'static str = "newznab";

/// An indexer.
#[derive(Debug)]
pub struct Indexer {
    pub id: i64,
    pub name: String,
    pub kind: String,
    pub url: String,
    pub api_key: String,
    /// The lower, the earlier it is asked.
    pub priority: i32,
    pub enabled: bool,
    pub is_private_tracker: bool,
    /// The bits of the ratio to seed to, a number of type `f64`.
    pub seed_ratio: Option<u64>,
    pub seed_time_minutes: Option<i64>,
    pub min_seeders: i32,
    pub request_timeout_secs: Option<i64>,
    /// What the indexer said it can do; empty until it was asked.
    pub caps_json: String,
    pub caps_refreshed_at: Option<i64>,
    pub created_at: i64,
    pub updated_at: i64,
}

/// The contents of a [`Indexer`].
#[verifier::ext_equal]
pub struct IndexerView {
    pub id: i64,
    pub name: Seq<char>,
    pub kind: Seq<char>,
    pub url: Seq<char>,
    pub api_key: Seq<char>,
    pub priority: i32,
    pub enabled: bool,
    pub is_private_tracker: bool,
    pub seed_ratio: Option<u64>,
    pub seed_time_minutes: Option<i64>,
    pub min_seeders: i32,
    pub request_timeout_secs: Option<i64>,
    pub caps_json: Seq<char>,
    pub caps_refreshed_at: Option<i64>,
    pub created_at: i64,
    pub updated_at: i64,
}

impl View for Indexer {
    type V = IndexerView;

    open spec fn view(&self) -> IndexerView {
        IndexerView {
            id: self.id,
            name: self.name@,
            kind: self.kind@,
            url: self.url@,
            api_key: self.api_key@,
            priority: self.priority,
            enabled: self.enabled,
            is_private_tracker: self.is_private_tracker,
            seed_ratio: self.seed_ratio,
            seed_time_minutes: self.seed_time_minutes,
            min_seeders: self.min_seeders,
            request_timeout_secs: self.request_timeout_secs,
            caps_json: self.caps_json@,
            caps_refreshed_at: self.caps_refreshed_at,
            created_at: self.created_at,
            updated_at: self.updated_at,
        }
    }
}

impl Dup for Indexer {
    fn dup(&self) -> (copy: Self) {
        Indexer {
            id: self.id,
            name: self.name.clone(),
            kind: self.kind.clone(),
            url: self.url.clone(),
            api_key: self.api_key.clone(),
            priority: self.priority,
            enabled: self.enabled,
            is_private_tracker: self.is_private_tracker,
            seed_ratio: self.seed_ratio,
            seed_time_minutes: self.seed_time_minutes,
            min_seeders: self.min_seeders,
            request_timeout_secs: self.request_timeout_secs,
            caps_json: self.caps_json.clone(),
            caps_refreshed_at: self.caps_refreshed_at,
            created_at: self.created_at,
            updated_at: self.updated_at,
        }
    }
}

impl Clone for Indexer {
    fn clone(&self) -> (copy: Self)
        ensures
            copy@ == self@,
    {
        self.dup()
    }
}

/// An indexer as it is stored, with the download client that gets its finds.
#[derive(Debug)]
pub struct IndexerRow {
    pub indexer: Indexer,
    pub download_client_id: Option<i64>,
}

/// The contents of a [`IndexerRow`].
#[verifier::ext_equal]
pub struct IndexerRowView {
    pub indexer: IndexerView,
    pub download_client_id: Option<i64>,
}

impl View for IndexerRow {
    type V = IndexerRowView;

    open spec fn view(&self) -> IndexerRowView {
        IndexerRowView {
            indexer: self.indexer@,
            download_client_id: self.download_client_id,
        }
    }
}

impl Dup for IndexerRow {
    fn dup(&self) -> (copy: Self) {
        IndexerRow {
            indexer: self.indexer.dup(),
            download_client_id: self.download_client_id,
        }
    }
}

impl Clone for IndexerRow {
    fn clone(&self) -> (copy: Self)
        ensures
            copy@ == self@,
    {
        self.dup()
    }
}

/// What the user says of an indexer.
#[derive(Debug, Clone, Copy)]
pub struct IndexerForm<'a> {
    pub name: &'a str,
    pub kind: &'a str,
    pub url: &'a str,
    pub api_key: &'a str,
    pub priority: i32,
    pub enabled: bool,
    pub is_private_tracker: bool,
    pub seed_ratio: Option<u64>,
    pub seed_time_minutes: Option<i64>,
    pub min_seeders: i32,
    pub request_timeout_secs: Option<i64>,
}

/// The indexers.
#[derive(Debug)]
pub struct IndexerStore {
    pub rows: Vec<IndexerRow>,
    /// The largest id given out so far.
    pub last_id: i64,
}

/// The contents of an [`IndexerStore`].
#[verifier::ext_equal]
pub struct IndexerStoreView {
    pub rows: Seq<IndexerRowView>,
    pub last_id: i64,
}

impl View for IndexerStore {
    type V = IndexerStoreView;

    open spec fn view(&self) -> IndexerStoreView {
        IndexerStoreView { rows: views(self.rows@), last_id: self.last_id }
    }
}

pub open spec fn row_id() -> spec_fn(IndexerRowView) -> i64 {
    |r: IndexerRowView| r.indexer.id
}

pub open spec fn is_indexer(id: i64) -> spec_fn(IndexerRowView) -> bool {
    |r: IndexerRowView| r.indexer.id == id
}

pub open spec fn switched_on() -> spec_fn(IndexerRowView) -> bool {
    |r: IndexerRowView| r.indexer.enabled
}

pub open spec fn shown() -> spec_fn(IndexerRowView) -> IndexerView {
    |r: IndexerRowView| r.indexer
}

/// The order in which indexers are asked: by priority, then by id.
pub open spec fn by_priority() -> spec_fn(IndexerRowView, IndexerRowView) -> bool {
    |a: IndexerRowView, b: IndexerRowView|
        a.indexer.priority < b.indexer.priority || (a.indexer.priority == b.indexer.priority
            && a.indexer.id <= b.indexer.id)
}

impl IndexerStoreView {
    /// Indexers have ids of their own, among those given out.
    pub open spec fn wf(self) -> bool {
        numbered(self.rows, row_id(), self.last_id)
    }

    /// The indexer with an id.
    pub open spec fn indexer(self, id: i64) -> Option<IndexerView> {
        match first_where(self.rows, is_indexer(id)) {
            Some(r) => Some(r.indexer),
            None => None,
        }
    }
}

fn in_order(rows: Vec<IndexerRow>) -> (out: Vec<Indexer>)
    ensures
        views(out@) == ordered(views(rows@), by_priority()).map_values(shown()),
{
    let before = |a: &IndexerRow, b: &IndexerRow| -> (r: bool)
        ensures r == by_priority()(a@, b@)
        {
            a.indexer.priority < b.indexer.priority || (a.indexer.priority == b.indexer.priority
                && a.indexer.id <= b.indexer.id)
        };
    let sorted = order_by(rows, before, Ghost(by_priority()));
    let make = |r: &IndexerRow| -> (o: Indexer)
        ensures o@ == shown()(r@)
        { r.indexer.dup() };
    project(&sorted, make, Ghost(shown()), Ghost(|r: IndexerRowView| true))
}

/// All indexers, in the order in which they are asked.
pub fn list_all(db: &IndexerStore) -> (out: Vec<Indexer>)
    ensures
        views(out@) == ordered(db@.rows, by_priority()).map_values(shown()),
{
    in_order(dup_all(&db.rows))
}

/// The indexers that are switched on, in the order in which they are asked.
pub fn list_enabled(db: &IndexerStore) -> (out: Vec<Indexer>)
    ensures
        views(out@) == ordered(db@.rows.filter(switched_on()), by_priority()).map_values(shown()),
{
    let test = |r: &IndexerRow| -> (b: bool)
        ensures b == switched_on()(r@)
        { r.indexer.enabled };
    in_order(select(&db.rows, test, Ghost(switched_on())))
}

/// The indexer with an id.
pub fn get_by_id(db: &IndexerStore, id: i64) -> (r: Option<Indexer>)
    ensures
        optional_view(r) == db@.indexer(id),
{
    let test = |r: &IndexerRow| -> (b: bool)
        ensures b == is_indexer(id)(r@)
        { r.indexer.id == id };
    match find_first(&db.rows, test, Ghost(is_indexer(id))) {
        Some(r) => Some(r.indexer),
        None => None,
    }
}

/// A new indexer: it was not asked yet what it can do, and has no download
/// client of its own. A ratio that is no number counts as none.
pub open spec fn new_row(id: i64, form: IndexerForm, now: i64) -> IndexerRowView {
    IndexerRowView {
        indexer: IndexerView {
            id,
            name: form.name@,
            kind: form.kind@,
            url: form.url@,
            api_key: form.api_key@,
            priority: form.priority,
            enabled: form.enabled,
            is_private_tracker: form.is_private_tracker,
            seed_ratio: stored_real(form.seed_ratio),
            seed_time_minutes: form.seed_time_minutes,
            min_seeders: form.min_seeders,
            request_timeout_secs: form.request_timeout_secs,
            caps_json: Seq::empty(),
            caps_refreshed_at: None,
            created_at: now,
            updated_at: now,
        },
        download_client_id: None,
    }
}

pub open spec fn edited(form: IndexerForm, now: i64) -> spec_fn(IndexerRowView) -> IndexerRowView {
    |r: IndexerRowView|
        IndexerRowView {
            indexer: IndexerView {
                caps_json: r.indexer.caps_json,
                caps_refreshed_at: r.indexer.caps_refreshed_at,
                created_at: r.indexer.created_at,
                ..new_row(r.indexer.id, form, now).indexer
            },
            ..r
        }
}

fn to_indexer(id: i64, form: &IndexerForm, now: i64) -> (r: Indexer)
    ensures
        r@ == new_row(id, *form, now).indexer,
{
    Indexer {
        id,
        name: own(form.name),
        kind: own(form.kind),
        url: own(form.url),
        api_key: own(form.api_key),
        priority: form.priority,
        enabled: form.enabled,
        is_private_tracker: form.is_private_tracker,
        seed_ratio: to_store(form.seed_ratio),
        seed_time_minutes: form.seed_time_minutes,
        min_seeders: form.min_seeders,
        request_timeout_secs: form.request_timeout_secs,
        caps_json: String::new(),
        caps_refreshed_at: None,
        created_at: now,
        updated_at: now,
    }
}

/// Adds an indexer and gives its id.
pub fn insert(db: &mut IndexerStore, form: IndexerForm<'_>, now: i64) -> (r: Result<i64, StoreError>)
    requires
        old(db)@.wf(),
    ensures
        r is Err <==> old(db)@.last_id == i64::MAX,
        r matches Err(e) ==> e == StoreError::Full && final(db)@ == old(db)@,
        r matches Ok(id) ==> id == old(db)@.last_id + 1 && final(db)@ == (IndexerStoreView {
            rows: old(db)@.rows.push(new_row(id, form, now)),
            last_id: id,
        }),
        final(db)@.wf(),
        r matches Ok(id) ==> final(db)@.rows.len() == old(db)@.rows.len() + 1 && forall|i: int|
            0 <= i < old(db)@.rows.len() ==> #[trigger] final(db)@.rows[i] == old(db)@.rows[i],
        r matches Ok(id) ==> {
            let x = final(db)@.rows.last().indexer;
            x.id == id && x.name == form.name@ && x.kind == form.kind@ && x.url == form.url@ && x.api_key
                == form.api_key@ && x.priority == form.priority && x.enabled == form.enabled
        },
{
    if db.last_id == i64::MAX {
        return Err(StoreError::Full);
    }
    let id: i64 = db.last_id + 1;
    let row = IndexerRow { indexer: to_indexer(id, &form, now), download_client_id: None };
    proof {
        crate::table::lemma_views_push(db.rows@, row);
        crate::table::lemma_numbered_push(db@.rows, row_id(), db.last_id, row@);
    }
    db.rows.push(row);
    db.last_id = id;
    Ok(id)
}

fn change_row<F: Fn(&IndexerRow) -> bool, G: Fn(IndexerRow) -> IndexerRow>(
    db: &mut IndexerStore,
    test: F,
    change: G,
    Ghost(chosen): Ghost<spec_fn(IndexerRowView) -> bool>,
    Ghost(changed): Ghost<spec_fn(IndexerRowView) -> IndexerRowView>,
)
    requires
        old(db)@.wf(),
        forall|v: IndexerRowView| (#[trigger] changed(v)).indexer.id == v.indexer.id,
        forall|t: &IndexerRow| #[trigger] call_requires(test, (t,)),
        forall|t: &IndexerRow, b: bool| #[trigger] call_ensures(test, (t,), b) ==> b == chosen(t@),
        forall|t: IndexerRow| #[trigger] call_requires(change, (t,)),
        forall|t: IndexerRow, r: IndexerRow| #[trigger]
            call_ensures(change, (t,), r) ==> r@ == changed(t@),
    ensures
        final(db)@ == (IndexerStoreView {
            rows: updated(old(db)@.rows, chosen, changed),
            ..old(db)@
        }),
        final(db)@.wf(),
{
    proof {
        crate::table::lemma_numbered_updated(db@.rows, row_id(), db.last_id, chosen, changed);
    }
    let _n: usize = update_where(&mut db.rows, test, change, Ghost(chosen), Ghost(changed));
}

/// Changes what the user says of an indexer; what it can do stays known.
pub fn update(db: &mut IndexerStore, id: i64, form: IndexerForm<'_>, now: i64)
    requires
        old(db)@.wf(),
    ensures
        final(db)@ == (IndexerStoreView {
            rows: updated(old(db)@.rows, is_indexer(id), edited(form, now)),
            ..old(db)@
        }),
        final(db)@.wf(),
{
    let ghost changed = edited(form, now);
    let test = |r: &IndexerRow| -> (b: bool)
        ensures b == is_indexer(id)(r@)
        { r.indexer.id == id };
    let change = |r: IndexerRow| -> (o: IndexerRow)
        ensures o@ == changed(r@)
        {
            let was = r.indexer;
            let new = to_indexer(was.id, &form, now);
            IndexerRow {
                indexer: Indexer {
                    caps_json: was.caps_json,
                    caps_refreshed_at: was.caps_refreshed_at,
                    created_at: was.created_at,
                    ..new
                },
                download_client_id: r.download_client_id,
            }
        };
    change_row(db, test, change, Ghost(is_indexer(id)), Ghost(changed));
}

/// Removes an indexer.
pub fn delete(db: &mut IndexerStore, id: i64)
    requires
        old(db)@.wf(),
    ensures
        final(db)@ == (IndexerStoreView {
            rows: without(old(db)@.rows, is_indexer(id)),
            ..old(db)@
        }),
        final(db)@.wf(),
        forall|r: IndexerRowView| #[trigger]
            final(db)@.rows.contains(r) <==> old(db)@.rows.contains(r) && !(r.indexer.id == id),
{
    proof {
        crate::table::lemma_without_contains(db@.rows, is_indexer(id));
    }
    proof {
        crate::table::lemma_numbered_without(db@.rows, row_id(), db.last_id, is_indexer(id));
    }
    let test = |r: &IndexerRow| -> (b: bool)
        ensures b == is_indexer(id)(r@)
        { r.indexer.id == id };
    let _n: usize = delete_where(&mut db.rows, test, Ghost(is_indexer(id)));
}

pub open spec fn asked(caps_json: Seq<char>, now: i64) -> spec_fn(IndexerRowView) -> IndexerRowView {
    |r: IndexerRowView|
        IndexerRowView {
            indexer: IndexerView {
                caps_json,
                caps_refreshed_at: Some(now),
                updated_at: now,
                ..r.indexer
            },
            ..r
        }
}

/// Keeps what an indexer said it can do.
pub fn update_caps(db: &mut IndexerStore, id: i64, caps_json: &str, now: i64)
    requires
        old(db)@.wf(),
    ensures
        final(db)@ == (IndexerStoreView {
            rows: updated(old(db)@.rows, is_indexer(id), asked(caps_json@, now)),
            ..old(db)@
        }),
        final(db)@.wf(),
        final(db)@.rows.len() == old(db)@.rows.len(),
        forall|i: int|
            0 <= i < old(db)@.rows.len() ==> (#[trigger] final(db)@.rows[i]) == ({
                let r = old(db)@.rows[i];
                if r.indexer.id == id {
                    IndexerRowView {
                        indexer: IndexerView {
                            caps_json: caps_json@,
                            caps_refreshed_at: Some(now),
                            updated_at: now,
                            ..r.indexer
                        },
                        ..r
                    }
                } else {
                    r
                }
            }),
{
    let ghost changed = asked(caps_json@, now);
    let test = |r: &IndexerRow| -> (b: bool)
        ensures b == is_indexer(id)(r@)
        { r.indexer.id == id };
    let change = |r: IndexerRow| -> (o: IndexerRow)
        ensures o@ == changed(r@)
        {
            IndexerRow {
                indexer: Indexer {
                    caps_json: own(caps_json),
                    caps_refreshed_at: Some(now),
                    updated_at: now,
                    ..r.indexer
                },
                download_client_id: r.download_client_id,
            }
        };
    change_row(db, test, change, Ghost(is_indexer(id)), Ghost(changed));
}

pub open spec fn pinned_to(client_id: Option<i64>) -> spec_fn(IndexerRowView) -> IndexerRowView {
    |r: IndexerRowView| IndexerRowView { download_client_id: client_id, ..r }
}

/// Gives an indexer a download client of its own, or none.
pub fn set_download_client(db: &mut IndexerStore, id: i64, client_id: Option<i64>)
    requires
        old(db)@.wf(),
    ensures
        final(db)@ == (IndexerStoreView {
            rows: updated(old(db)@.rows, is_indexer(id), pinned_to(client_id)),
            ..old(db)@
        }),
        final(db)@.wf(),
        final(db)@.rows.len() == old(db)@.rows.len(),
        forall|i: int|
            0 <= i < old(db)@.rows.len() ==> (#[trigger] final(db)@.rows[i]) == ({
                let r = old(db)@.rows[i];
                if r.indexer.id == id {
                    IndexerRowView { download_client_id: client_id, ..r }
                } else {
                    r
                }
            }),
{
    let test = |r: &IndexerRow| -> (b: bool)
        ensures b == is_indexer(id)(r@)
        { r.indexer.id == id };
    let change = |r: IndexerRow| -> (o: IndexerRow)
        ensures o@ == pinned_to(client_id)(r@)
        { IndexerRow { download_client_id: client_id, ..r } };
    change_row(db, test, change, Ghost(is_indexer(id)), Ghost(pinned_to(client_id)));
}

pub open spec fn uses_client(client_id: i64) -> spec_fn(IndexerRowView) -> bool {
    |r: IndexerRowView| r.download_client_id == Some(client_id)
}

/// Leaves the indexers of a download client without one of their own.
pub fn forget_client(db: &mut IndexerStore, client_id: i64)
    requires
        old(db)@.wf(),
    ensures
        final(db)@ == (IndexerStoreView {
            rows: updated(old(db)@.rows, uses_client(client_id), pinned_to(None)),
            ..old(db)@
        }),
        final(db)@.wf(),
        final(db)@.rows.len() == old(db)@.rows.len(),
        forall|i: int|
            0 <= i < old(db)@.rows.len() ==> (#[trigger] final(db)@.rows[i]) == ({
                let r = old(db)@.rows[i];
                if r.download_client_id == Some(client_id) {
                    IndexerRowView { download_client_id: None, ..r }
                } else {
                    r
                }
            }),
{
    let test = |r: &IndexerRow| -> (b: bool)
        ensures b == uses_client(client_id)(r@)
        { r.download_client_id == Some(client_id) };
    let change = |r: IndexerRow| -> (o: IndexerRow)
        ensures o@ == pinned_to(None)(r@)
        { IndexerRow { download_client_id: None, ..r } };
    change_row(db, test, change, Ghost(uses_client(client_id)), Ghost(pinned_to(None)));
}

impl IndexerStore {
    /// A store without indexers.
    pub fn new() -> (db: IndexerStore)
        ensures
            db@ == (IndexerStoreView { rows: Seq::empty(), last_id: 0 }),
            db@.wf(),
    {
        let db = IndexerStore { rows: Vec::new(), last_id: 0 };
        assert(db@.rows =~= Seq::<IndexerRowView>::empty());
        db
    }

    /// Whether the store is as the rules leave it.
    pub fn check(&self) -> (r: bool)
        ensures
            r == self@.wf(),
    {
        let id_of = |r: &IndexerRow| -> (n: i64)
            ensures n == row_id()(r@)
            { r.indexer.id };
        check_numbered(&self.rows, self.last_id, id_of, Ghost(row_id()))
    }
}

/// The indexers stand in the order of their priorities, those with the same
/// one in that of their ids.
pub proof fn indexers_are_asked_by_priority(db: IndexerStoreView, i: int, j: int)
    requires
        db.wf(),
        0 <= i < j < ordered(db.rows, by_priority()).len(),
    ensures
        ({
            let a = ordered(db.rows, by_priority())[i].indexer;
            let b = ordered(db.rows, by_priority())[j].indexer;
            a.priority < b.priority || (a.priority == b.priority && a.id <= b.id)
        }),
{
    crate::table::ordered_is_a_sorted_rearrangement(db.rows, by_priority());
    let o = ordered(db.rows, by_priority());
    assert(by_priority()(o[i], o[j]));
}

/// An added indexer is found as it was given.
pub proof fn an_added_indexer_is_found(db: IndexerStoreView, form: IndexerForm, now: i64)
    requires
        db.wf(),
        db.last_id < i64::MAX,
    ensures
        ({
            let id = (db.last_id + 1) as i64;
            let after = IndexerStoreView {
                rows: db.rows.push(new_row(id, form, now)),
                last_id: id,
            };
            after.indexer(id) == Some(new_row(id, form, now).indexer)
        }),
{
    let id = (db.last_id + 1) as i64;
    let n = db.rows.len() as int;
    let after = db.rows.push(new_row(id, form, now));
    assert forall|i: int| 0 <= i < n implies !is_indexer(id)(#[trigger] after[i]) by {
        assert(row_id()(db.rows[i]) <= db.last_id);
    }
    crate::table::lemma_first_where(after, is_indexer(id), n);
}

/// A change by the user leaves what the indexer can do, and its download
/// client, as they are.
pub proof fn an_edit_keeps_what_was_learnt(r: IndexerRowView, form: IndexerForm, now: i64)
    ensures
        edited(form, now)(r).indexer.caps_json == r.indexer.caps_json,
        edited(form, now)(r).indexer.caps_refreshed_at == r.indexer.caps_refreshed_at,
        edited(form, now)(r).indexer.created_at == r.indexer.created_at,
        edited(form, now)(r).download_client_id == r.download_client_id,
{
}

/// An indexer that was added stands behind the others, under a new id, with
/// everything that the form says; nothing is known yet of what it can do.
pub proof fn a_new_indexer_is_what_the_form_says(id: i64, form: IndexerForm, now: i64)
    ensures
        ({
            let r = new_row(id, form, now);
            let x = r.indexer;
            &&& x.id == id && x.name == form.name@ && x.kind == form.kind@ && x.url == form.url@
                && x.api_key == form.api_key@
            &&& x.priority == form.priority && x.enabled == form.enabled && x.is_private_tracker
                == form.is_private_tracker
            &&& x.seed_ratio == stored_real(form.seed_ratio) && x.seed_time_minutes
                == form.seed_time_minutes && x.min_seeders == form.min_seeders
                && x.request_timeout_secs == form.request_timeout_secs
            &&& x.caps_json.len() == 0 && x.caps_refreshed_at is None
            &&& x.created_at == now && x.updated_at == now
            &&& r.download_client_id is None
        }),
{
}

/// An indexer that was changed is what the form says now, under the id it had;
/// what was learnt of it, its client and when it was added stay.
pub proof fn a_changed_indexer_is_what_the_form_says(
    rows: Seq<IndexerRowView>,
    id: i64,
    form: IndexerForm,
    now: i64,
    i: int,
)
    requires
        0 <= i < rows.len(),
    ensures
        ({
            let after = updated(rows, is_indexer(id), edited(form, now));
            let was = rows[i];
            let r = after[i];
            let x = r.indexer;
            &&& after.len() == rows.len()
            &&& was.indexer.id != id ==> r == was
            &&& was.indexer.id == id ==> {
                &&& x.id == id && x.name == form.name@ && x.kind == form.kind@ && x.url
                    == form.url@ && x.api_key == form.api_key@
                &&& x.priority == form.priority && x.enabled == form.enabled
                    && x.is_private_tracker == form.is_private_tracker
                &&& x.seed_ratio == stored_real(form.seed_ratio) && x.seed_time_minutes
                    == form.seed_time_minutes && x.min_seeders == form.min_seeders
                    && x.request_timeout_secs == form.request_timeout_secs
                &&& x.caps_json == was.indexer.caps_json && x.caps_refreshed_at
                    == was.indexer.caps_refreshed_at && x.created_at == was.indexer.created_at
                &&& x.updated_at == now && r.download_client_id == was.download_client_id
            }
        }),
{
}

/// The indexers in use are those that are switched on.
pub proof fn indexers_in_use_are_switched_on(db: IndexerStoreView, x: IndexerView)
    ensures
        ordered(db.rows.filter(switched_on()), by_priority()).map_values(shown()).contains(x)
            <==> x.enabled && exists|i: int|
            0 <= i < db.rows.len() && (#[trigger] db.rows[i]).indexer == x,
        forall|j: int, k: int|
            #![trigger ordered(db.rows.filter(switched_on()), by_priority())[j], ordered(db.rows.filter(switched_on()), by_priority())[k]]
            0 <= j < k < ordered(db.rows.filter(switched_on()), by_priority()).len() ==> ordered(
                db.rows.filter(switched_on()),
                by_priority(),
            )[j].indexer.priority <= ordered(
                db.rows.filter(switched_on()),
                by_priority(),
            )[k].indexer.priority,
{
    let o = ordered(db.rows.filter(switched_on()), by_priority());
    let list = o.map_values(shown());
    crate::table::lemma_listed(db.rows, switched_on(), by_priority());
    if list.contains(x) {
        let k = choose|k: int| 0 <= k < list.len() && list[k] == x;
        assert(switched_on()(o[k]) && db.rows.contains(o[k]));
        let i = choose|i: int| 0 <= i < db.rows.len() && db.rows[i] == o[k];
        assert(db.rows[i].indexer == x);
    }
    if x.enabled && exists|i: int| 0 <= i < db.rows.len() && (#[trigger] db.rows[i]).indexer == x {
        let i = choose|i: int| 0 <= i < db.rows.len() && (#[trigger] db.rows[i]).indexer == x;
        assert(switched_on()(db.rows[i]));
        assert(o.contains(db.rows[i]));
        let k = choose|k: int| 0 <= k < o.len() && o[k] == db.rows[i];
        assert(list[k] == x);
    }
    assert forall|j: int, k: int| 0 <= j < k < o.len() implies (#[trigger] o[j]).indexer.priority
        <= (#[trigger] o[k]).indexer.priority by {
        assert(by_priority()(o[j], o[k]));
    }
}

} // verus!
