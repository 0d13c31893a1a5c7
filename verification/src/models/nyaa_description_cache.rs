//! Descriptions of torrents, so that they are fetched once.
use crate::table::{
    delete_where, distinct, every_pair, find_first, first_where, upsert as put, upserted, views,
    without, Dup,
};
use crate::text::{
    at_most, equal_nocase, lowered, optional_text, own, same_nocase, text_lt, trim, trimmed,
};
use vstd::prelude::*;

verus! {

/// The description of a torrent.
#[derive(Debug)]
pub struct DescriptionRow {
    pub info_hash: String,
    pub description: String,
    pub cached_at: String,
}

/// The contents of a [`DescriptionRow`].
#[verifier::ext_equal]
pub struct DescriptionRowView {
    pub info_hash: Seq<char>,
    pub description: Seq<char>,
    pub cached_at: Seq<char>,
}

impl View for DescriptionRow {
    type V = DescriptionRowView;

    open spec fn view(&self) -> DescriptionRowView {
        DescriptionRowView {
            info_hash: self.info_hash@,
            description: self.description@,
            cached_at: self.cached_at@,
        }
    }
}

impl Dup for DescriptionRow {
    fn dup(&self) -> (copy: Self) {
        DescriptionRow {
            info_hash: self.info_hash.clone(),
            description: self.description.clone(),
            cached_at: self.cached_at.clone(),
        }
    }
}

impl Clone for DescriptionRow {
    fn clone(&self) -> (copy: Self)
        ensures
            copy@ == self@,
    {
        self.dup()
    }
}

/// The descriptions of torrents.
#[derive(Debug)]
pub struct DescriptionStore {
    pub rows: Vec<DescriptionRow>,
}

impl View for DescriptionStore {
    type V = Seq<DescriptionRowView>;

    open spec fn view(&self) -> Seq<DescriptionRowView> {
        views(self.rows@)
    }
}

pub open spec fn hash_key() -> spec_fn(DescriptionRowView) -> Seq<char> {
    |r: DescriptionRowView| lowered(r.info_hash)
}

pub open spec fn of_hash(hash: Seq<char>) -> spec_fn(DescriptionRowView) -> bool {
    |r: DescriptionRowView| same_nocase(r.info_hash, hash)
}

/// A torrent has one description, in whatever case its hash is written.
pub open spec fn one_row_each(rows: Seq<DescriptionRowView>) -> bool {
    distinct(rows, hash_key())
}

/// The description of a torrent. Space around the hash is dropped; without a
/// hash there is none.
pub open spec fn described(rows: Seq<DescriptionRowView>, info_hash: Seq<char>) -> Option<
    Seq<char>,
> {
    let hash = trimmed(info_hash);
    match first_where(rows, of_hash(hash)) {
        Some(r) => if hash.len() > 0 {
            Some(r.description)
        } else {
            None
        },
        None => None,
    }
}

/// The description of a torrent, when it is known.
pub fn get(db: &DescriptionStore, info_hash: &str) -> (r: Option<String>)
    ensures
        optional_text(r) == described(db@, info_hash@),
{
    let hash = trim(info_hash);
    if hash.as_str().is_empty() {
        return None;
    }
    let ghost here = of_hash(hash@);
    let test = |r: &DescriptionRow| -> (b: bool)
        ensures b == here(r@)
        { equal_nocase(&r.info_hash, &hash) };
    match find_first(&db.rows, test, Ghost(here)) {
        Some(r) => Some(r.description),
        None => None,
    }
}

pub open spec fn new_row(hash: Seq<char>, description: Seq<char>, now: Seq<char>) -> DescriptionRowView {
    DescriptionRowView { info_hash: hash, description, cached_at: now }
}

pub open spec fn rewritten(description: Seq<char>, now: Seq<char>) -> spec_fn(
    DescriptionRowView,
) -> DescriptionRowView {
    |r: DescriptionRowView| new_row(r.info_hash, description, now)
}

/// The rows with the description of a torrent.
pub open spec fn kept(
    rows: Seq<DescriptionRowView>,
    info_hash: Seq<char>,
    description: Seq<char>,
    now: Seq<char>,
) -> Seq<DescriptionRowView> {
    let hash = trimmed(info_hash);
    if hash.len() == 0 {
        rows
    } else {
        upserted(rows, of_hash(hash), rewritten(description, now), new_row(hash, description, now))
    }
}

/// Keeps the description of a torrent, over the one there was.
pub fn upsert(db: &mut DescriptionStore, info_hash: &str, description: &str, now: &str)
    requires
        one_row_each(old(db)@),
    ensures
        final(db)@ == kept(old(db)@, info_hash@, description@, now@),
        one_row_each(final(db)@),
{
    let hash = trim(info_hash);
    if hash.as_str().is_empty() {
        return;
    }
    let ghost here = of_hash(hash@);
    let ghost change = rewritten(description@, now@);
    let fresh = DescriptionRow {
        info_hash: hash.clone(),
        description: own(description),
        cached_at: own(now),
    };
    proof {
        crate::table::lemma_upserted_distinct(db@, hash_key(), here, change, fresh@);
    }
    let test = |r: &DescriptionRow| -> (b: bool)
        ensures b == here(r@)
        { equal_nocase(&r.info_hash, &hash) };
    let make = |r: DescriptionRow| -> (o: DescriptionRow)
        ensures o@ == change(r@)
        {
            DescriptionRow {
                info_hash: r.info_hash,
                description: own(description),
                cached_at: own(now),
            }
        };
    put(&mut db.rows, test, make, fresh, Ghost(here), Ghost(change));
}

pub open spec fn older_than(cutoff: Seq<char>) -> spec_fn(DescriptionRowView) -> bool {
    |r: DescriptionRowView| text_lt(r.cached_at, cutoff)
}

/// Forgets what was kept before `cutoff` and says how much there was.
pub fn cleanup(db: &mut DescriptionStore, cutoff: &str) -> (n: u64)
    requires
        one_row_each(old(db)@),
    ensures
        final(db)@ == without(old(db)@, older_than(cutoff@)),
        n == old(db)@.len() - final(db)@.len(),
        one_row_each(final(db)@),
        forall|r: DescriptionRowView| #[trigger]
            final(db)@.contains(r) <==> old(db)@.contains(r) && !(text_lt(r.cached_at, cutoff@)),
{
    proof {
        crate::table::lemma_without_contains(db@, older_than(cutoff@));
    }
    let ghost old_one = older_than(cutoff@);
    proof {
        crate::table::lemma_without_distinct(db@, old_one, hash_key());
    }
    let test = |r: &DescriptionRow| -> (b: bool)
        ensures b == old_one(r@)
        { !at_most(cutoff, &r.cached_at) };
    delete_where(&mut db.rows, test, Ghost(old_one)) as u64
}

impl DescriptionStore {
    /// A store without descriptions.
    pub fn new() -> (db: DescriptionStore)
        ensures
            db@ == Seq::<DescriptionRowView>::empty(),
            one_row_each(db@),
    {
        let db = DescriptionStore { rows: Vec::new() };
        assert(db@ =~= Seq::<DescriptionRowView>::empty());
        db
    }

    /// Whether the store is as the rules leave it.
    pub fn check(&self) -> (r: bool)
        ensures
            r == one_row_each(self@),
    {
        let ghost hashes = |a: DescriptionRowView, b: DescriptionRowView|
            hash_key()(a) != hash_key()(b);
        let other = |a: &DescriptionRow, b: &DescriptionRow| -> (r: bool)
            ensures r == hashes(a@, b@)
            { !equal_nocase(&a.info_hash, &b.info_hash) };
        let r: bool = every_pair(&self.rows, other, Ghost(hashes));
        assert(r == distinct(self@, hash_key()));
        r
    }
}

/// The case in which a hash is written makes no difference.
pub proof fn case_makes_no_difference(rows: Seq<DescriptionRowView>, a: Seq<char>, b: Seq<char>)
    requires
        same_nocase(trimmed(a), trimmed(b)),
    ensures
        described(rows, a) == described(rows, b),
{
    assert(of_hash(trimmed(a)) =~= of_hash(trimmed(b)));
    assert(lowered(trimmed(a)).len() == trimmed(a).len());
    assert(lowered(trimmed(b)).len() == trimmed(b).len());
}

/// The description that was kept last is the one found, in whatever case the
/// hash is written, and it is as new as that.
pub proof fn the_last_description_counts(
    rows: Seq<DescriptionRowView>,
    info_hash: Seq<char>,
    description: Seq<char>,
    now: Seq<char>,
)
    requires
        trimmed(info_hash).len() > 0,
    ensures
        described(kept(rows, info_hash, description, now), info_hash) == Some(description),
        first_where(
            kept(rows, info_hash, description, now),
            of_hash(trimmed(info_hash)),
        ) matches Some(r) && r.cached_at == now,
{
    crate::table::lemma_first_where_upserted(
        rows,
        of_hash(trimmed(info_hash)),
        rewritten(description, now),
        new_row(trimmed(info_hash), description, now),
    );
}

/// What was kept at `cutoff` or later survives a cleaning.
pub proof fn recent_rows_stay(rows: Seq<DescriptionRowView>, cutoff: Seq<char>, i: int)
    requires
        0 <= i < rows.len(),
        !text_lt(rows[i].cached_at, cutoff),
    ensures
        without(rows, older_than(cutoff)).contains(rows[i]),
{
    crate::table::lemma_without_members(rows, older_than(cutoff));
}

/// What is kept of one release does not change what is found for another, and
/// nothing is kept without a hash.
pub proof fn other_releases_keep_their_description(
    rows: Seq<DescriptionRowView>,
    info_hash: Seq<char>,
    description: Seq<char>,
    now: Seq<char>,
    other: Seq<char>,
)
    ensures
        lowered(trimmed(other)) != lowered(trimmed(info_hash)) ==> described(
            kept(rows, info_hash, description, now),
            other,
        ) == described(rows, other),
        trimmed(info_hash).len() == 0 ==> kept(rows, info_hash, description, now) == rows,
        trimmed(other).len() == 0 ==> described(rows, other) is None,
{
    let hash = trimmed(info_hash);
    let here = of_hash(hash);
    let there = of_hash(trimmed(other));
    let change = rewritten(description, now);
    crate::table::lemma_first_where_any(rows, here);
    if lowered(trimmed(other)) != lowered(hash) {
        crate::table::lemma_first_where_updated(rows, here, change, there);
        crate::table::lemma_first_where_push(rows, new_row(hash, description, now), there);
        crate::table::lemma_first_where_any(rows, there);
    }
}

} // verus!
