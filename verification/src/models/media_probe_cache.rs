//! What was found in media files, kept as long as the files stay the same.
use crate::table::{
    delete_where, distinct, every_pair, find_first, first_where, upsert as put, upserted, views,
    without, Dup,
};
use crate::text::{at_most, optional_text, own, same, text_lt};
use vstd::prelude::*;

verus! {

/// What was found in a file.
#[derive(Debug)]
pub struct ProbeRow {
    pub path: String,
    /// When the file was last changed, in seconds since 1970.
    pub mtime: i64,
    pub size: i64,
    pub probe_json: String,
    pub cached_at: String,
}

/// The contents of a [`ProbeRow`].
#[verifier::ext_equal]
pub struct ProbeRowView {
    pub path: Seq<char>,
    pub mtime: i64,
    pub size: i64,
    pub probe_json: Seq<char>,
    pub cached_at: Seq<char>,
}

impl View for ProbeRow {
    type V = ProbeRowView;

    open spec fn view(&self) -> ProbeRowView {
        ProbeRowView {
            path: self.path@,
            mtime: self.mtime,
            size: self.size,
            probe_json: self.probe_json@,
            cached_at: self.cached_at@,
        }
    }
}

impl Dup for ProbeRow {
    fn dup(&self) -> (copy: Self) {
        ProbeRow {
            path: self.path.clone(),
            mtime: self.mtime,
            size: self.size,
            probe_json: self.probe_json.clone(),
            cached_at: self.cached_at.clone(),
        }
    }
}

impl Clone for ProbeRow {
    fn clone(&self) -> (copy: Self)
        ensures
            copy@ == self@,
    {
        self.dup()
    }
}

/// What was found in files.
#[derive(Debug)]
pub struct ProbeStore {
    pub rows: Vec<ProbeRow>,
}

impl View for ProbeStore {
    type V = Seq<ProbeRowView>;

    open spec fn view(&self) -> Seq<ProbeRowView> {
        views(self.rows@)
    }
}

pub open spec fn path_of() -> spec_fn(ProbeRowView) -> Seq<char> {
    |r: ProbeRowView| r.path
}

pub open spec fn at_path(path: Seq<char>) -> spec_fn(ProbeRowView) -> bool {
    |r: ProbeRowView| r.path == path
}

/// A file has one row.
pub open spec fn one_row_each(rows: Seq<ProbeRowView>) -> bool {
    distinct(rows, path_of())
}

/// What was found in a file, if it is still the same: neither the time of its
/// last change nor its size is another.
pub open spec fn found(rows: Seq<ProbeRowView>, path: Seq<char>, mtime: i64, size: i64) -> Option<
    Seq<char>,
> {
    match first_where(rows, at_path(path)) {
        Some(r) => if path.len() > 0 && r.mtime == mtime && r.size == size {
            Some(r.probe_json)
        } else {
            None
        },
        None => None,
    }
}

/// What was found in a file, if it is still the same.
pub fn get(db: &ProbeStore, path: &str, mtime: i64, size: i64) -> (r: Option<String>)
    ensures
        optional_text(r) == found(db@, path@, mtime, size),
{
    if path.is_empty() {
        return None;
    }
    let ghost here = at_path(path@);
    let test = |r: &ProbeRow| -> (b: bool)
        ensures b == here(r@)
        { same(&r.path, path) };
    match find_first(&db.rows, test, Ghost(here)) {
        Some(r) => if r.mtime == mtime && r.size == size {
            Some(r.probe_json)
        } else {
            None
        },
        None => None,
    }
}

pub open spec fn new_row(
    path: Seq<char>,
    mtime: i64,
    size: i64,
    probe_json: Seq<char>,
    now: Seq<char>,
) -> ProbeRowView {
    ProbeRowView { path, mtime, size, probe_json, cached_at: now }
}

pub open spec fn rewritten(mtime: i64, size: i64, probe_json: Seq<char>, now: Seq<char>) -> spec_fn(
    ProbeRowView,
) -> ProbeRowView {
    |r: ProbeRowView| new_row(r.path, mtime, size, probe_json, now)
}

/// The rows with what was found in a file. A file without a path is not kept.
pub open spec fn kept(
    rows: Seq<ProbeRowView>,
    path: Seq<char>,
    mtime: i64,
    size: i64,
    probe_json: Seq<char>,
    now: Seq<char>,
) -> Seq<ProbeRowView> {
    if path.len() == 0 {
        rows
    } else {
        upserted(
            rows,
            at_path(path),
            rewritten(mtime, size, probe_json, now),
            new_row(path, mtime, size, probe_json, now),
        )
    }
}

/// Keeps what was found in a file.
pub fn upsert(
    db: &mut ProbeStore,
    path: &str,
    mtime: i64,
    size: i64,
    probe_json: &str,
    now: &str,
)
    requires
        one_row_each(old(db)@),
    ensures
        final(db)@ == kept(old(db)@, path@, mtime, size, probe_json@, now@),
        one_row_each(final(db)@),
{
    if path.is_empty() {
        return;
    }
    let ghost here = at_path(path@);
    let ghost change = rewritten(mtime, size, probe_json@, now@);
    let fresh = ProbeRow {
        path: own(path),
        mtime,
        size,
        probe_json: own(probe_json),
        cached_at: own(now),
    };
    proof {
        crate::table::lemma_upserted_distinct(db@, path_of(), here, change, fresh@);
    }
    let test = |r: &ProbeRow| -> (b: bool)
        ensures b == here(r@)
        { same(&r.path, path) };
    let make = |r: ProbeRow| -> (o: ProbeRow)
        ensures o@ == change(r@)
        {
            ProbeRow {
                path: r.path,
                mtime,
                size,
                probe_json: own(probe_json),
                cached_at: own(now),
            }
        };
    put(&mut db.rows, test, make, fresh, Ghost(here), Ghost(change));
}

pub open spec fn older_than(cutoff: Seq<char>) -> spec_fn(ProbeRowView) -> bool {
    |r: ProbeRowView| text_lt(r.cached_at, cutoff)
}

/// Forgets what was kept before `cutoff` and says how much there was.
pub fn cleanup(db: &mut ProbeStore, cutoff: &str) -> (n: u64)
    requires
        one_row_each(old(db)@),
    ensures
        final(db)@ == without(old(db)@, older_than(cutoff@)),
        n == old(db)@.len() - final(db)@.len(),
        one_row_each(final(db)@),
        forall|r: ProbeRowView| #[trigger]
            final(db)@.contains(r) <==> old(db)@.contains(r) && !(text_lt(r.cached_at, cutoff@)),
{
    proof {
        crate::table::lemma_without_contains(db@, older_than(cutoff@));
    }
    let ghost old_one = older_than(cutoff@);
    proof {
        crate::table::lemma_without_distinct(db@, old_one, path_of());
    }
    let test = |r: &ProbeRow| -> (b: bool)
        ensures b == old_one(r@)
        { !at_most(cutoff, &r.cached_at) };
    delete_where(&mut db.rows, test, Ghost(old_one)) as u64
}

impl ProbeStore {
    /// A store without rows.
    pub fn new() -> (db: ProbeStore)
        ensures
            db@ == Seq::<ProbeRowView>::empty(),
            one_row_each(db@),
    {
        let db = ProbeStore { rows: Vec::new() };
        assert(db@ =~= Seq::<ProbeRowView>::empty());
        db
    }

    /// Whether the store is as the rules leave it.
    pub fn check(&self) -> (r: bool)
        ensures
            r == one_row_each(self@),
    {
        let ghost paths = |a: ProbeRowView, b: ProbeRowView| a.path != b.path;
        let other = |a: &ProbeRow, b: &ProbeRow| -> (r: bool)
            ensures r == paths(a@, b@)
            { !same(&a.path, &b.path) };
        let r: bool = every_pair(&self.rows, other, Ghost(paths));
        assert(r == distinct(self@, path_of()));
        r
    }
}

/// What was kept of a file is found while the file stays the same, and not
/// once it has changed.
pub proof fn what_was_kept_is_found(
    rows: Seq<ProbeRowView>,
    path: Seq<char>,
    mtime: i64,
    size: i64,
    probe_json: Seq<char>,
    now: Seq<char>,
    mtime_now: i64,
    size_now: i64,
)
    requires
        path.len() > 0,
    ensures
        found(kept(rows, path, mtime, size, probe_json, now), path, mtime_now, size_now) == (if mtime_now
            == mtime && size_now == size {
            Some(probe_json)
        } else {
            None
        }),
{
    crate::table::lemma_first_where_upserted(
        rows,
        at_path(path),
        rewritten(mtime, size, probe_json, now),
        new_row(path, mtime, size, probe_json, now),
    );
}

/// What was kept at `cutoff` or later survives a cleaning.
pub proof fn recent_rows_stay(rows: Seq<ProbeRowView>, cutoff: Seq<char>, i: int)
    requires
        0 <= i < rows.len(),
        !text_lt(rows[i].cached_at, cutoff),
    ensures
        without(rows, older_than(cutoff)).contains(rows[i]),
{
    crate::table::lemma_without_members(rows, older_than(cutoff));
}

/// What is kept of one file does not change what is found for another, and
/// nothing is kept without a path.
pub proof fn other_files_keep_what_was_found(
    rows: Seq<ProbeRowView>,
    path: Seq<char>,
    mtime: i64,
    size: i64,
    probe_json: Seq<char>,
    now: Seq<char>,
    other: Seq<char>,
    m: i64,
    s: i64,
)
    ensures
        other != path ==> found(kept(rows, path, mtime, size, probe_json, now), other, m, s)
            == found(rows, other, m, s),
        path.len() == 0 ==> kept(rows, path, mtime, size, probe_json, now) == rows,
        path.len() > 0 ==> (first_where(
            kept(rows, path, mtime, size, probe_json, now),
            at_path(path),
        ) matches Some(r) && r.path == path && r.mtime == mtime && r.size == size && r.probe_json
            == probe_json && r.cached_at == now),
        found(rows, Seq::empty(), m, s) is None,
{
    let here = at_path(path);
    let change = rewritten(mtime, size, probe_json, now);
    let fresh = new_row(path, mtime, size, probe_json, now);
    crate::table::lemma_first_where_any(rows, here);
    crate::table::lemma_first_where_upserted(rows, here, change, fresh);
    if other != path {
        crate::table::lemma_first_where_updated(rows, here, change, at_path(other));
        crate::table::lemma_first_where_push(rows, fresh, at_path(other));
        crate::table::lemma_first_where_any(rows, at_path(other));
    }
}

} // verus!
