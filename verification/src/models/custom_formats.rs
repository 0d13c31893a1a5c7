//! Formats that a release is scored by.
use crate::models::StoreError;
use crate::table::{
    any, any_where, check_numbered, delete_where, distinct, every, every_pair, find_first,
    first_where, numbered, optional_view, order_by, ordered, project, update_where, updated, upsert,
    upserted, views, without, Dup,
};
use crate::text::{at_most_nocase, dup_optional, lowered, optional_text, own, same, text_le};
use vstd::prelude::*;

verus! {

/// The origin of a format that the user wrote.
pub const ORIGIN_MANUAL: &'static str = "manual";

/// The origin of a format that was imported.
pub const ORIGIN_IMPORT: &'static str = "import";

/// The origin of a format that came with the manager.
pub const ORIGIN_DEFAULTS: &'static str = "defaults";

/// The profile that scores belong to.
pub const PROFILE: i64 = 1;

/// A format as it is stored.
#[derive(Debug)]
pub struct FormatRow {
    pub id: i64,
    pub name: String,
    pub trash_id: Option<String>,
    /// The format as it was given, so that it can be handed on as it is.
    pub json: String,
    pub origin: String,
    pub created_at: i64,
    pub updated_at: i64,
}

/// The contents of a [`FormatRow`].
#[verifier::ext_equal]
pub struct FormatRowView {
    pub id: i64,
    pub name: Seq<char>,
    pub trash_id: Option<Seq<char>>,
    pub json: Seq<char>,
    pub origin: Seq<char>,
    pub created_at: i64,
    pub updated_at: i64,
}

impl View for FormatRow {
    type V = FormatRowView;

    open spec fn view(&self) -> FormatRowView {
        FormatRowView {
            id: self.id,
            name: self.name@,
            trash_id: optional_text(self.trash_id),
            json: self.json@,
            origin: self.origin@,
            created_at: self.created_at,
            updated_at: self.updated_at,
        }
    }
}

impl Dup for FormatRow {
    fn dup(&self) -> (copy: Self) {
        FormatRow {
            id: self.id,
            name: self.name.clone(),
            trash_id: dup_optional(&self.trash_id),
            json: self.json.clone(),
            origin: self.origin.clone(),
            created_at: self.created_at,
            updated_at: self.updated_at,
        }
    }
}

impl Clone for FormatRow {
    fn clone(&self) -> (copy: Self)
        ensures
            copy@ == self@,
    {
        self.dup()
    }
}

/// What a format counts in a profile.
#[derive(Debug)]
pub struct ScoreRow {
    pub custom_format_id: i64,
    pub profile_id: i64,
    pub score: i64,
}

/// The contents of a [`ScoreRow`].
#[verifier::ext_equal]
pub struct ScoreRowView {
    pub custom_format_id: i64,
    pub profile_id: i64,
    pub score: i64,
}

impl View for ScoreRow {
    type V = ScoreRowView;

    open spec fn view(&self) -> ScoreRowView {
        ScoreRowView {
            custom_format_id: self.custom_format_id,
            profile_id: self.profile_id,
            score: self.score,
        }
    }
}

impl Dup for ScoreRow {
    fn dup(&self) -> (copy: Self) {
        ScoreRow {
            custom_format_id: self.custom_format_id,
            profile_id: self.profile_id,
            score: self.score,
        }
    }
}

impl Clone for ScoreRow {
    fn clone(&self) -> (copy: Self)
        ensures
            copy@ == self@,
    {
        self.dup()
    }
}

/// A format with its score.
#[derive(Debug)]
pub struct CustomFormatRow {
    pub id: i64,
    pub name: String,
    pub trash_id: Option<String>,
    pub json: String,
    /// 0 where none is stored.
    pub score: i64,
    pub origin: String,
    pub created_at: i64,
    pub updated_at: i64,
}

/// The contents of a [`CustomFormatRow`].
#[verifier::ext_equal]
pub struct CustomFormatRowView {
    pub id: i64,
    pub name: Seq<char>,
    pub trash_id: Option<Seq<char>>,
    pub json: Seq<char>,
    pub score: i64,
    pub origin: Seq<char>,
    pub created_at: i64,
    pub updated_at: i64,
}

impl View for CustomFormatRow {
    type V = CustomFormatRowView;

    open spec fn view(&self) -> CustomFormatRowView {
        CustomFormatRowView {
            id: self.id,
            name: self.name@,
            trash_id: optional_text(self.trash_id),
            json: self.json@,
            score: self.score,
            origin: self.origin@,
            created_at: self.created_at,
            updated_at: self.updated_at,
        }
    }
}

impl Dup for CustomFormatRow {
    fn dup(&self) -> (copy: Self) {
        CustomFormatRow {
            id: self.id,
            name: self.name.clone(),
            trash_id: dup_optional(&self.trash_id),
            json: self.json.clone(),
            score: self.score,
            origin: self.origin.clone(),
            created_at: self.created_at,
            updated_at: self.updated_at,
        }
    }
}

impl Clone for CustomFormatRow {
    fn clone(&self) -> (copy: Self)
        ensures
            copy@ == self@,
    {
        self.dup()
    }
}

/// The formats and their scores.
#[derive(Debug)]
pub struct FormatStore {
    pub formats: Vec<FormatRow>,
    pub scores: Vec<ScoreRow>,
    /// The largest id given out so far.
    pub last_id: i64,
}

/// The contents of a [`FormatStore`].
#[verifier::ext_equal]
pub struct FormatStoreView {
    pub formats: Seq<FormatRowView>,
    pub scores: Seq<ScoreRowView>,
    pub last_id: i64,
}

impl View for FormatStore {
    type V = FormatStoreView;

    open spec fn view(&self) -> FormatStoreView {
        FormatStoreView {
            formats: views(self.formats@),
            scores: views(self.scores@),
            last_id: self.last_id,
        }
    }
}

pub open spec fn format_id() -> spec_fn(FormatRowView) -> i64 {
    |f: FormatRowView| f.id
}

pub open spec fn format_name() -> spec_fn(FormatRowView) -> Seq<char> {
    |f: FormatRowView| f.name
}

pub open spec fn score_key() -> spec_fn(ScoreRowView) -> (i64, i64) {
    |s: ScoreRowView| (s.custom_format_id, s.profile_id)
}

pub open spec fn is_format(id: i64) -> spec_fn(FormatRowView) -> bool {
    |f: FormatRowView| f.id == id
}

pub open spec fn named(name: Seq<char>) -> spec_fn(FormatRowView) -> bool {
    |f: FormatRowView| f.name == name
}

pub open spec fn named_otherwise(id: i64, name: Seq<char>) -> spec_fn(FormatRowView) -> bool {
    |f: FormatRowView| f.name == name && f.id != id
}

pub open spec fn counts(id: i64) -> spec_fn(ScoreRowView) -> bool {
    |s: ScoreRowView| s.custom_format_id == id && s.profile_id == PROFILE
}

pub open spec fn has_format(formats: Seq<FormatRowView>) -> spec_fn(ScoreRowView) -> bool {
    |s: ScoreRowView| any_where(formats, is_format(s.custom_format_id))
}

pub open spec fn by_name() -> spec_fn(FormatRowView, FormatRowView) -> bool {
    |a: FormatRowView, b: FormatRowView| text_le(lowered(a.name), lowered(b.name))
}

impl FormatStoreView {
    /// Formats have ids and names of their own, a format has one score in a
    /// profile, and every score belongs to a format.
    pub open spec fn wf(self) -> bool {
        &&& numbered(self.formats, format_id(), self.last_id)
        &&& distinct(self.formats, format_name())
        &&& distinct(self.scores, score_key())
        &&& forall|i: int|
            0 <= i < self.scores.len() ==> has_format(self.formats)(#[trigger] self.scores[i])
    }

    /// What a format counts.
    pub open spec fn score(self, id: i64) -> i64 {
        match first_where(self.scores, counts(id)) {
            Some(s) => s.score,
            None => 0,
        }
    }

    /// A format with its score.
    pub open spec fn scored(self) -> spec_fn(FormatRowView) -> CustomFormatRowView {
        |f: FormatRowView|
            CustomFormatRowView {
                id: f.id,
                name: f.name,
                trash_id: f.trash_id,
                json: f.json,
                score: self.score(f.id),
                origin: f.origin,
                created_at: f.created_at,
                updated_at: f.updated_at,
            }
    }

    /// The format with an id.
    pub open spec fn format(self, id: i64) -> Option<CustomFormatRowView> {
        match first_where(self.formats, is_format(id)) {
            Some(f) => Some(self.scored()(f)),
            None => None,
        }
    }

    /// The store with a new format.
    pub open spec fn insert(
        self,
        name: Seq<char>,
        trash_id: Option<Seq<char>>,
        json: Seq<char>,
        score: i32,
        origin: Seq<char>,
        now: i64,
    ) -> (FormatStoreView, Result<i64, StoreError>) {
        if self.last_id == i64::MAX {
            (self, Err(StoreError::Full))
        } else if any_where(self.formats, named(name)) {
            (self, Err(StoreError::Duplicate))
        } else {
            let id = (self.last_id + 1) as i64;
            (
                FormatStoreView {
                    formats: self.formats.push(
                        FormatRowView {
                            id,
                            name,
                            trash_id,
                            json,
                            origin,
                            created_at: now,
                            updated_at: now,
                        },
                    ),
                    scores: self.scores.push(
                        ScoreRowView {
                            custom_format_id: id,
                            profile_id: PROFILE,
                            score: score as i64,
                        },
                    ),
                    last_id: id,
                },
                Ok(id),
            )
        }
    }

    /// The store with a format changed.
    pub open spec fn update(
        self,
        id: i64,
        name: Seq<char>,
        trash_id: Option<Seq<char>>,
        json: Seq<char>,
        score: i32,
        now: i64,
    ) -> (FormatStoreView, Result<(), StoreError>) {
        if !any_where(self.formats, is_format(id)) {
            (self, Err(StoreError::MissingParent))
        } else if any_where(self.formats, named_otherwise(id, name)) {
            (self, Err(StoreError::Duplicate))
        } else {
            (
                FormatStoreView {
                    formats: updated(
                        self.formats,
                        is_format(id),
                        rewritten(name, trash_id, json, now),
                    ),
                    scores: upserted(
                        self.scores,
                        counts(id),
                        rescored(score as i64),
                        new_score(id, score as i64),
                    ),
                    ..self
                },
                Ok(()),
            )
        }
    }

    /// The store without some formats and their scores.
    pub open spec fn dropped(self, gone: spec_fn(FormatRowView) -> bool) -> FormatStoreView {
        let formats = without(self.formats, gone);
        FormatStoreView {
            formats,
            scores: without(self.scores, homeless(formats)),
            ..self
        }
    }
}

pub open spec fn homeless(formats: Seq<FormatRowView>) -> spec_fn(ScoreRowView) -> bool {
    |s: ScoreRowView| !any_where(formats, is_format(s.custom_format_id))
}

pub open spec fn rewritten(
    name: Seq<char>,
    trash_id: Option<Seq<char>>,
    json: Seq<char>,
    now: i64,
) -> spec_fn(FormatRowView) -> FormatRowView {
    |f: FormatRowView| FormatRowView { name, trash_id, json, updated_at: now, ..f }
}

pub open spec fn rescored(score: i64) -> spec_fn(ScoreRowView) -> ScoreRowView {
    |s: ScoreRowView| ScoreRowView { score, ..s }
}

pub open spec fn new_score(id: i64, score: i64) -> ScoreRowView {
    ScoreRowView { custom_format_id: id, profile_id: PROFILE, score }
}

fn score_of(db: &FormatStore, id: i64) -> (score: i64)
    ensures
        score == db@.score(id),
{
    let test = |s: &ScoreRow| -> (b: bool)
        ensures b == counts(id)(s@)
        { s.custom_format_id == id && s.profile_id == PROFILE };
    match find_first(&db.scores, test, Ghost(counts(id))) {
        Some(s) => s.score,
        None => 0,
    }
}

fn with_score(db: &FormatStore, f: &FormatRow) -> (row: CustomFormatRow)
    ensures
        row@ == db@.scored()(f@),
{
    CustomFormatRow {
        id: f.id,
        name: f.name.clone(),
        trash_id: dup_optional(&f.trash_id),
        json: f.json.clone(),
        score: score_of(db, f.id),
        origin: f.origin.clone(),
        created_at: f.created_at,
        updated_at: f.updated_at,
    }
}

/// All formats with their scores, by name in any case.
pub fn list_with_scores(db: &FormatStore) -> (out: Vec<CustomFormatRow>)
    ensures
        views(out@) == ordered(db@.formats, by_name()).map_values(db@.scored()),
{
    let before = |a: &FormatRow, b: &FormatRow| -> (r: bool)
        ensures r == by_name()(a@, b@)
        { at_most_nocase(&a.name, &b.name) };
    let rows = order_by(crate::table::dup_all(&db.formats), before, Ghost(by_name()));
    let ghost made = db@.scored();
    let make = |f: &FormatRow| -> (r: CustomFormatRow)
        ensures r@ == made(f@)
        { with_score(db, f) };
    project(&rows, make, Ghost(made), Ghost(|f: FormatRowView| true))
}

/// The format with an id, with its score.
pub fn get_by_id(db: &FormatStore, id: i64) -> (r: Option<CustomFormatRow>)
    ensures
        optional_view(r) == db@.format(id),
{
    let test = |f: &FormatRow| -> (b: bool)
        ensures b == is_format(id)(f@)
        { f.id == id };
    match find_first(&db.formats, test, Ghost(is_format(id))) {
        Some(f) => Some(with_score(db, &f)),
        None => None,
    }
}

fn own_optional(s: Option<&str>) -> (out: Option<String>)
    ensures
        optional_text(out) == optional_view(s),
{
    match s {
        Some(t) => Some(own(t)),
        None => None,
    }
}

proof fn lemma_scores_keep_formats(
    scores: Seq<ScoreRowView>,
    formats: Seq<FormatRowView>,
    after: Seq<FormatRowView>,
)
    requires
        forall|i: int| 0 <= i < scores.len() ==> has_format(formats)(#[trigger] scores[i]),
        formats.len() <= after.len(),
        forall|i: int| 0 <= i < formats.len() ==> (#[trigger] after[i]).id == formats[i].id,
    ensures
        forall|i: int| 0 <= i < scores.len() ==> has_format(after)(#[trigger] scores[i]),
{
    assert forall|i: int| 0 <= i < scores.len() implies has_format(after)(#[trigger] scores[i]) by {
        let id = scores[i].custom_format_id;
        assert(has_format(formats)(scores[i]));
        let k = choose|k: int| 0 <= k < formats.len() && is_format(id)(#[trigger] formats[k]);
        assert(after[k].id == formats[k].id);
        assert(is_format(id)(after[k]));
    }
}

/// Adds a format with its score and gives its id.
pub fn insert(
    db: &mut FormatStore,
    name: &str,
    trash_id: Option<&str>,
    json: &str,
    score: i32,
    origin: &str,
    now: i64,
) -> (r: Result<i64, StoreError>)
    requires
        old(db)@.wf(),
    ensures
        (final(db)@, r) == old(db)@.insert(
            name@,
            optional_view(trash_id),
            json@,
            score,
            origin@,
            now,
        ),
        final(db)@.wf(),
{
    if db.last_id == i64::MAX {
        return Err(StoreError::Full);
    }
    let ghost taken = named(name@);
    let by = |f: &FormatRow| -> (b: bool)
        ensures b == taken(f@)
        { same(&f.name, name) };
    if any(&db.formats, by, Ghost(taken)) {
        return Err(StoreError::Duplicate);
    }
    let id: i64 = db.last_id + 1;
    let row = FormatRow {
        id,
        name: own(name),
        trash_id: own_optional(trash_id),
        json: own(json),
        origin: own(origin),
        created_at: now,
        updated_at: now,
    };
    let count = ScoreRow { custom_format_id: id, profile_id: PROFILE, score: score as i64 };
    proof {
        let formats = db@.formats;
        let scores = db@.scores;
        crate::table::lemma_views_push(db.formats@, row);
        crate::table::lemma_views_push(db.scores@, count);
        crate::table::lemma_numbered_push(formats, format_id(), db.last_id, row@);
        assert forall|i: int| 0 <= i < formats.len() implies format_name()(#[trigger] formats[i])
            != format_name()(row@) by {
            assert(!taken(formats[i]));
        }
        crate::table::lemma_distinct_push(formats, format_name(), row@);
        assert forall|i: int| 0 <= i < scores.len() implies score_key()(#[trigger] scores[i])
            != score_key()(count@) by {
            assert(has_format(formats)(scores[i]));
            let of = is_format(scores[i].custom_format_id);
            let k = choose|k: int| 0 <= k < formats.len() && of(#[trigger] formats[k]);
            assert(format_id()(formats[k]) <= db.last_id);
        }
        crate::table::lemma_distinct_push(scores, score_key(), count@);
        lemma_scores_keep_formats(scores, formats, formats.push(row@));
        assert(is_format(id)(formats.push(row@)[formats.len() as int]));
    }
    db.formats.push(row);
    db.scores.push(count);
    db.last_id = id;
    Ok(id)
}

/// Adds a format as part of a larger change, which the caller keeps or drops.
pub fn insert_with_tx(
    tx: &mut FormatStore,
    name: &str,
    trash_id: Option<&str>,
    json: &str,
    score: i32,
    origin: &str,
    now: i64,
) -> (r: Result<i64, StoreError>)
    requires
        old(tx)@.wf(),
    ensures
        (final(tx)@, r) == old(tx)@.insert(
            name@,
            optional_view(trash_id),
            json@,
            score,
            origin@,
            now,
        ),
        final(tx)@.wf(),
{
    insert(tx, name, trash_id, json, score, origin, now)
}

/// Changes a format and its score; one without a score gets it now.
pub fn update(
    db: &mut FormatStore,
    id: i64,
    name: &str,
    trash_id: Option<&str>,
    json: &str,
    score: i32,
    now: i64,
) -> (r: Result<(), StoreError>)
    requires
        old(db)@.wf(),
    ensures
        (final(db)@, r) == old(db)@.update(
            id,
            name@,
            optional_view(trash_id),
            json@,
            score,
            now,
        ),
        final(db)@.wf(),
{
    let by_id = |f: &FormatRow| -> (b: bool)
        ensures b == is_format(id)(f@)
        { f.id == id };
    if !any(&db.formats, by_id, Ghost(is_format(id))) {
        return Err(StoreError::MissingParent);
    }
    let ghost taken = named_otherwise(id, name@);
    let by_name_of = |f: &FormatRow| -> (b: bool)
        ensures b == taken(f@)
        { same(&f.name, name) && f.id != id };
    if any(&db.formats, by_name_of, Ghost(taken)) {
        return Err(StoreError::Duplicate);
    }
    let counted: i64 = score as i64;
    let ghost change = rewritten(name@, optional_view(trash_id), json@, now);
    let ghost formats = db@.formats;
    let ghost scores = db@.scores;
    let ghost after = updated(formats, is_format(id), change);
    let fresh = ScoreRow { custom_format_id: id, profile_id: PROFILE, score: counted };
    proof {
        crate::table::lemma_numbered_updated(
            formats,
            format_id(),
            db.last_id,
            is_format(id),
            change,
        );
        assert forall|i: int, j: int| 0 <= i < j < after.len() implies format_name()(
            #[trigger] after[i],
        ) != format_name()(#[trigger] after[j]) by {
            assert(format_name()(formats[i]) != format_name()(formats[j]));
            assert(format_id()(formats[i]) != format_id()(formats[j]));
            assert(!taken(formats[i]) && !taken(formats[j]));
        }
        crate::table::lemma_upserted_distinct(
            scores,
            score_key(),
            counts(id),
            rescored(counted),
            fresh@,
        );
        lemma_scores_keep_formats(scores, formats, after);
        let put = upserted(scores, counts(id), rescored(counted), fresh@);
        let k = choose|k: int| 0 <= k < formats.len() && is_format(id)(#[trigger] formats[k]);
        assert(is_format(id)(after[k]));
        assert forall|i: int| 0 <= i < put.len() implies has_format(after)(#[trigger] put[i]) by {
            if i < scores.len() {
                assert(has_format(after)(scores[i]));
            }
        }
    }
    let again = |f: &FormatRow| -> (b: bool)
        ensures b == is_format(id)(f@)
        { f.id == id };
    let make = |f: FormatRow| -> (o: FormatRow)
        ensures o@ == change(f@)
        {
            FormatRow {
                name: own(name),
                trash_id: own_optional(trash_id),
                json: own(json),
                updated_at: now,
                ..f
            }
        };
    let _n: usize = update_where(
        &mut db.formats,
        again,
        make,
        Ghost(is_format(id)),
        Ghost(change),
    );
    let test = |s: &ScoreRow| -> (b: bool)
        ensures b == counts(id)(s@)
        { s.custom_format_id == id && s.profile_id == PROFILE };
    let rescore = |s: ScoreRow| -> (o: ScoreRow)
        ensures o@ == rescored(counted)(s@)
        { ScoreRow { score: counted, ..s } };
    upsert(
        &mut db.scores,
        test,
        rescore,
        fresh,
        Ghost(counts(id)),
        Ghost(rescored(counted)),
    );
    Ok(())
}

fn drop_formats<F: Fn(&FormatRow) -> bool>(
    db: &mut FormatStore,
    test: F,
    Ghost(gone): Ghost<spec_fn(FormatRowView) -> bool>,
) -> (n: u64)
    requires
        old(db)@.wf(),
        forall|t: &FormatRow| #[trigger] call_requires(test, (t,)),
        forall|t: &FormatRow, b: bool| #[trigger] call_ensures(test, (t,), b) ==> b == gone(t@),
    ensures
        final(db)@ == old(db)@.dropped(gone),
        n == old(db)@.formats.len() - final(db)@.formats.len(),
        final(db)@.wf(),
{
    proof {
        crate::table::lemma_numbered_without(db@.formats, format_id(), db.last_id, gone);
        crate::table::lemma_without_distinct(db@.formats, gone, format_name());
    }
    let n: usize = delete_where(&mut db.formats, test, Ghost(gone));
    let formats = &db.formats;
    let ghost lost = homeless(views(formats@));
    let orphan = |s: &ScoreRow| -> (b: bool)
        ensures b == lost(s@)
        {
            let id: i64 = s.custom_format_id;
            let by_id = |f: &FormatRow| -> (b: bool)
                ensures b == is_format(id)(f@)
                { f.id == id };
            !any(formats, by_id, Ghost(is_format(id)))
        };
    proof {
        crate::table::lemma_without_distinct(db@.scores, lost, score_key());
        crate::table::lemma_without_members(db@.scores, lost);
    }
    let _m: usize = delete_where(&mut db.scores, orphan, Ghost(lost));
    proof {
        assert forall|i: int| 0 <= i < db@.scores.len() implies has_format(db@.formats)(
            #[trigger] db@.scores[i],
        ) by {
            assert(!lost(db@.scores[i]));
        }
    }
    n as u64
}

/// Removes a format with its scores.
pub fn delete(db: &mut FormatStore, id: i64)
    requires
        old(db)@.wf(),
    ensures
        final(db)@ == old(db)@.dropped(is_format(id)),
        final(db)@.wf(),
{
    let test = |f: &FormatRow| -> (b: bool)
        ensures b == is_format(id)(f@)
        { f.id == id };
    let _n: u64 = drop_formats(db, test, Ghost(is_format(id)));
}

pub open spec fn bundled() -> spec_fn(FormatRowView) -> bool {
    |f: FormatRowView| f.origin == ORIGIN_DEFAULTS@
}

/// Removes the formats that came with the manager, as part of a larger change,
/// and says how many there were.
pub fn delete_defaults_with_tx(tx: &mut FormatStore) -> (n: u64)
    requires
        old(tx)@.wf(),
    ensures
        final(tx)@ == old(tx)@.dropped(bundled()),
        n == old(tx)@.formats.len() - final(tx)@.formats.len(),
        final(tx)@.wf(),
{
    let test = |f: &FormatRow| -> (b: bool)
        ensures b == bundled()(f@)
        { same(&f.origin, ORIGIN_DEFAULTS) };
    drop_formats(tx, test, Ghost(bundled()))
}

impl FormatStore {
    /// A store without formats.
    pub fn new() -> (db: FormatStore)
        ensures
            db@ == (FormatStoreView { formats: Seq::empty(), scores: Seq::empty(), last_id: 0 }),
            db@.wf(),
    {
        let db = FormatStore { formats: Vec::new(), scores: Vec::new(), last_id: 0 };
        assert(db@.formats =~= Seq::<FormatRowView>::empty());
        assert(db@.scores =~= Seq::<ScoreRowView>::empty());
        db
    }

    /// Whether the store is as the rules leave it.
    pub fn check(&self) -> (r: bool)
        ensures
            r == self@.wf(),
    {
        let id_of = |f: &FormatRow| -> (n: i64)
            ensures n == format_id()(f@)
            { f.id };
        let ghost names = |a: FormatRowView, b: FormatRowView| a.name != b.name;
        let ghost keys = |a: ScoreRowView, b: ScoreRowView|
            score_key()(a) != score_key()(b);
        let other_name = |a: &FormatRow, b: &FormatRow| -> (r: bool)
            ensures r == names(a@, b@)
            { !same(&a.name, &b.name) };
        let other_key = |a: &ScoreRow, b: &ScoreRow| -> (r: bool)
            ensures r == keys(a@, b@)
            { a.custom_format_id != b.custom_format_id || a.profile_id != b.profile_id };
        let formats = &self.formats;
        let ghost home = has_format(self@.formats);
        let homed = |s: &ScoreRow| -> (b: bool)
            ensures b == home(s@)
            {
                let id: i64 = s.custom_format_id;
                let by_id = |f: &FormatRow| -> (b: bool)
                    ensures b == is_format(id)(f@)
                    { f.id == id };
                any(formats, by_id, Ghost(is_format(id)))
            };
        let a: bool = check_numbered(&self.formats, self.last_id, id_of, Ghost(format_id()));
        let b: bool = every_pair(&self.formats, other_name, Ghost(names));
        let c: bool = every_pair(&self.scores, other_key, Ghost(keys));
        let d: bool = every(&self.scores, homed, Ghost(home));
        assert(b == distinct(self@.formats, format_name()));
        assert(c == distinct(self@.scores, score_key()));
        a && b && c && d
    }
}

/// A format that was added is found with its score.
pub proof fn an_added_format_is_found(
    db: FormatStoreView,
    name: Seq<char>,
    trash_id: Option<Seq<char>>,
    json: Seq<char>,
    score: i32,
    origin: Seq<char>,
    now: i64,
)
    requires
        db.wf(),
        db.insert(name, trash_id, json, score, origin, now).1 is Ok,
    ensures
        ({
            let (after, r) = db.insert(name, trash_id, json, score, origin, now);
            after.format(r->Ok_0) == Some(
                CustomFormatRowView {
                    id: r->Ok_0,
                    name,
                    trash_id,
                    json,
                    score: score as i64,
                    origin,
                    created_at: now,
                    updated_at: now,
                },
            )
        }),
{
    let (after, r) = db.insert(name, trash_id, json, score, origin, now);
    let id = r->Ok_0;
    let n = db.formats.len() as int;
    assert forall|i: int| 0 <= i < n implies !is_format(id)(#[trigger] after.formats[i]) by {
        assert(after.formats[i] == db.formats[i]);
        assert(format_id()(db.formats[i]) <= db.last_id);
    }
    crate::table::lemma_first_where(after.formats, is_format(id), n);
    let m = db.scores.len() as int;
    assert forall|i: int| 0 <= i < m implies !counts(id)(#[trigger] after.scores[i]) by {
        assert(after.scores[i] == db.scores[i]);
        assert(has_format(db.formats)(db.scores[i]));
        let of = is_format(db.scores[i].custom_format_id);
        let k = choose|k: int| 0 <= k < db.formats.len() && of(#[trigger] db.formats[k]);
        assert(format_id()(db.formats[k]) <= db.last_id);
    }
    crate::table::lemma_first_where(after.scores, counts(id), m);
}

/// A format that was changed counts what it was set to.
pub proof fn a_changed_format_has_its_score(
    db: FormatStoreView,
    id: i64,
    name: Seq<char>,
    trash_id: Option<Seq<char>>,
    json: Seq<char>,
    score: i32,
    now: i64,
)
    requires
        db.update(id, name, trash_id, json, score, now).1 is Ok,
    ensures
        db.update(id, name, trash_id, json, score, now).0.score(id) == score,
{
    crate::table::lemma_first_where_upserted(
        db.scores,
        counts(id),
        rescored(score as i64),
        new_score(id, score as i64),
    );
}

/// Removing some formats leaves the others as they are, with their scores.
pub proof fn other_formats_stay(db: FormatStoreView, gone: spec_fn(FormatRowView) -> bool, id: i64)
    requires
        db.wf(),
        first_where(db.formats, is_format(id)) is Some,
        !gone(first_where(db.formats, is_format(id))->0),
    ensures
        db.dropped(gone).format(id) == db.format(id),
{
    let after = db.dropped(gone);
    let i = crate::table::lemma_first_index(db.formats, is_format(id));
    assert forall|j: int|
        0 <= j < db.formats.len() && gone(#[trigger] db.formats[j]) implies !is_format(id)(
        db.formats[j],
    ) by {
        if j < i {
            assert(format_id()(db.formats[j]) != format_id()(db.formats[i]));
        } else if j > i {
            assert(format_id()(db.formats[i]) != format_id()(db.formats[j]));
        }
    }
    crate::table::lemma_first_where_without(db.formats, gone, is_format(id));
    crate::table::lemma_first_where_any(after.formats, is_format(id));
    let lost = homeless(after.formats);
    assert forall|j: int| 0 <= j < db.scores.len() && lost(#[trigger] db.scores[j]) implies !counts(
        id,
    )(db.scores[j]) by {
        if db.scores[j].custom_format_id == id {
            assert(any_where(after.formats, is_format(id)));
        }
    }
    crate::table::lemma_first_where_without(db.scores, lost, counts(id));
}

/// What the user wrote or imported survives a reset of the defaults.
pub proof fn a_reset_keeps_what_the_user_added(db: FormatStoreView, id: i64)
    requires
        db.wf(),
        db.format(id) is Some,
        (db.format(id)->0).origin != ORIGIN_DEFAULTS@,
    ensures
        db.dropped(bundled()).format(id) == db.format(id),
{
    other_formats_stay(db, bundled(), id);
}

/// A removed format is gone, and so are its scores.
pub proof fn a_removed_format_is_gone(db: FormatStoreView, id: i64)
    ensures
        db.dropped(is_format(id)).format(id) is None,
        forall|i: int|
            0 <= i < db.dropped(is_format(id)).scores.len() ==> (#[trigger] db.dropped(
                is_format(id),
            ).scores[i]).custom_format_id != id,
{
    let after = db.dropped(is_format(id));
    crate::table::lemma_first_where_gone(db.formats, is_format(id), is_format(id));
    crate::table::lemma_first_where_any(after.formats, is_format(id));
    crate::table::lemma_without_members(db.scores, homeless(after.formats));
    assert forall|i: int| 0 <= i < after.scores.len() implies (
    #[trigger] after.scores[i]).custom_format_id != id by {
        assert(!homeless(after.formats)(after.scores[i]));
    }
}

/// Once a format was changed, it is found under its id with the name, the
/// shared id, the definition and the score that were given and the time of the
/// change. Where it came from and when it was added stay, and so does every
/// other format.
pub proof fn a_changed_format_has_what_was_given(
    db: FormatStoreView,
    id: i64,
    name: Seq<char>,
    trash_id: Option<Seq<char>>,
    json: Seq<char>,
    score: i32,
    now: i64,
    other: i64,
)
    requires
        db.update(id, name, trash_id, json, score, now).1 is Ok,
    ensures
        ({
            let after = db.update(id, name, trash_id, json, score, now).0;
            &&& db.format(id) matches Some(had)
            &&& after.format(id) matches Some(f)
            &&& f.id == id
            &&& f.name == name
            &&& f.trash_id == trash_id
            &&& f.json == json
            &&& f.score == score
            &&& f.updated_at == now
            &&& f.origin == had.origin
            &&& f.created_at == had.created_at
            &&& other != id ==> after.format(other) == db.format(other)
        }),
{
    let after = db.update(id, name, trash_id, json, score, now).0;
    let change = rewritten(name, trash_id, json, now);
    let rescore = rescored(score as i64);
    crate::table::lemma_first_where_any(db.formats, is_format(id));
    crate::table::lemma_first_where_updated(db.formats, is_format(id), change, is_format(id));
    crate::table::lemma_first_where_updated(db.formats, is_format(id), change, is_format(other));
    crate::table::lemma_first_where_any(db.formats, is_format(id));
    crate::table::lemma_first_where_upserted(
        db.scores,
        counts(id),
        rescore,
        new_score(id, score as i64),
    );
    crate::table::lemma_first_where_any(db.scores, counts(id));
    if other != id {
        if any_where(db.scores, counts(id)) {
            crate::table::lemma_first_where_updated(
                db.scores,
                counts(id),
                rescore,
                counts(other),
            );
            crate::table::lemma_first_where_any(db.scores, counts(other));
        } else {
            crate::table::lemma_first_where_push(
                db.scores,
                new_score(id, score as i64),
                counts(other),
            );
        }
        crate::table::lemma_first_where_any(db.formats, is_format(other));
    }
}

/// A change is refused where no format has the id, and where another has the
/// name; elsewhere it is made.
pub proof fn a_change_needs_its_format_and_a_free_name(
    db: FormatStoreView,
    id: i64,
    name: Seq<char>,
    trash_id: Option<Seq<char>>,
    json: Seq<char>,
    score: i32,
    now: i64,
)
    ensures
        ({
            let (after, r) = db.update(id, name, trash_id, json, score, now);
            let there = exists|i: int|
                0 <= i < db.formats.len() && (#[trigger] db.formats[i]).id == id;
            let taken = exists|i: int|
                0 <= i < db.formats.len() && (#[trigger] db.formats[i]).name == name
                    && db.formats[i].id != id;
            &&& !there ==> r == Err::<(), StoreError>(StoreError::MissingParent)
            &&& there && taken ==> r == Err::<(), StoreError>(StoreError::Duplicate)
            &&& there && !taken ==> r is Ok
            &&& r is Err ==> after == db
        }),
{
}

/// A format is added where its name is free, and the others stay.
pub proof fn a_format_is_added_under_a_free_name(
    db: FormatStoreView,
    name: Seq<char>,
    trash_id: Option<Seq<char>>,
    json: Seq<char>,
    score: i32,
    origin: Seq<char>,
    now: i64,
    other: i64,
)
    requires
        db.wf(),
    ensures
        ({
            let (after, r) = db.insert(name, trash_id, json, score, origin, now);
            let taken = exists|i: int|
                0 <= i < db.formats.len() && (#[trigger] db.formats[i]).name == name;
            &&& r is Ok <==> db.last_id < i64::MAX && !taken
            &&& db.last_id < i64::MAX && taken ==> r == Err::<i64, StoreError>(
                StoreError::Duplicate,
            )
            &&& r is Err ==> after == db
            &&& r matches Ok(id) ==> db.format(id) is None && (other != id ==> after.format(other)
                == db.format(other))
        }),
{
    let (after, r) = db.insert(name, trash_id, json, score, origin, now);
    if r is Ok {
        let id = r->Ok_0;
        crate::table::lemma_first_where_any(db.formats, is_format(id));
        if first_where(db.formats, is_format(id)) is Some {
            let k = crate::table::lemma_first_index(db.formats, is_format(id));
            assert(format_id()(db.formats[k]) <= db.last_id);
        }
        crate::table::lemma_first_where_push(
            db.formats,
            after.formats.last(),
            is_format(other),
        );
        crate::table::lemma_first_where_push(db.scores, after.scores.last(), counts(other));
        crate::table::lemma_first_where_any(db.formats, is_format(other));
    }
}

/// Removing a format leaves every other one as it was.
pub proof fn a_removal_leaves_the_other_formats(db: FormatStoreView, id: i64, other: i64)
    requires
        db.wf(),
        other != id,
    ensures
        db.dropped(is_format(id)).format(other) == db.format(other),
{
    let gone = is_format(id);
    crate::table::lemma_first_where_any(db.formats, is_format(other));
    if first_where(db.formats, is_format(other)) is Some {
        other_formats_stay(db, gone, other);
    } else {
        crate::table::lemma_first_where_without(db.formats, gone, is_format(other));
    }
}

/// A reset takes away every bundled format.
pub proof fn a_reset_takes_the_bundled_formats(db: FormatStoreView, i: int)
    requires
        0 <= i < db.dropped(bundled()).formats.len(),
    ensures
        db.dropped(bundled()).formats[i].origin != "defaults"@,
        db.formats.contains(db.dropped(bundled()).formats[i]),
{
    crate::table::lemma_without_members(db.formats, bundled());
}

/// The list holds each format as it is found under its id, by name without
/// regard to case.
pub proof fn the_list_holds_every_format_by_name(db: FormatStoreView)
    requires
        db.wf(),
    ensures
        ({
            let list = ordered(db.formats, by_name()).map_values(db.scored());
            &&& list.len() == db.formats.len()
            &&& forall|k: int|
                0 <= k < list.len() ==> db.format((#[trigger] list[k]).id) == Some(list[k])
            &&& forall|i: int|
                0 <= i < db.formats.len() ==> exists|k: int|
                    0 <= k < list.len() && (#[trigger] list[k]).id == (
                    #[trigger] db.formats[i]).id
            &&& forall|j: int, k: int|
                0 <= j < k < list.len() ==> text_le(
                    lowered((#[trigger] list[j]).name),
                    lowered((#[trigger] list[k]).name),
                )
        }),
{
    assert(crate::table::total_preorder(by_name())) by {
        assert forall|a: FormatRowView, b: FormatRowView| #[trigger] by_name()(a, b) || by_name()(
            b,
            a,
        ) by {
            crate::text::text_order_is_a_total_order(
                lowered(a.name),
                lowered(b.name),
                lowered(b.name),
            );
        }
        assert forall|a: FormatRowView, b: FormatRowView, c: FormatRowView| #[trigger]
            by_name()(a, b) && #[trigger] by_name()(b, c) implies by_name()(a, c) by {
            crate::text::text_order_is_a_total_order(
                lowered(a.name),
                lowered(b.name),
                lowered(c.name),
            );
        }
    }
    let o = ordered(db.formats, by_name());
    let list = o.map_values(db.scored());
    crate::table::ordered_is_a_sorted_rearrangement(db.formats, by_name());
    crate::table::lemma_ordered_members(db.formats, by_name());
    crate::table::lemma_ordered_holds_all(db.formats, by_name());
    assert forall|k: int| 0 <= k < list.len() implies db.format((#[trigger] list[k]).id) == Some(
        list[k],
    ) by {
        assert(db.formats.contains(o[k]));
        let i = choose|i: int| 0 <= i < db.formats.len() && db.formats[i] == o[k];
        let m = is_format(o[k].id);
        assert(m(db.formats[i]));
        crate::table::lemma_first_where_any(db.formats, m);
        let j = crate::table::lemma_first_index(db.formats, m);
        assert(format_id()(db.formats[i]) == format_id()(db.formats[j]));
        assert(i == j);
    }
    assert forall|i: int| 0 <= i < db.formats.len() implies exists|k: int|
        0 <= k < list.len() && (#[trigger] list[k]).id == (#[trigger] db.formats[i]).id by {
        assert(o.contains(db.formats[i]));
        let k = choose|k: int| 0 <= k < o.len() && o[k] == db.formats[i];
        assert(list[k].id == db.formats[i].id);
    }
    assert forall|j: int, k: int| 0 <= j < k < list.len() implies text_le(
        lowered((#[trigger] list[j]).name),
        lowered((#[trigger] list[k]).name),
    ) by {
        assert(by_name()(o[j], o[k]));
    }
}

} // verus!
