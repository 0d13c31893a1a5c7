//! Keys for programs, each with the scopes it grants.
use crate::json::{
    dup_texts, has_text, hex_digit, json_of_texts, load_texts, store_texts, stored_texts, texts,
    texts_read_back,
};
use crate::models::StoreError;
use crate::table::{
    any, any_where, check_numbered, delete_where, dup_all, every_pair, find_first, first_where,
    numbered, optional_view, order_by, ordered, pairwise, position, project, update_where, updated,
    views, without, Dup,
};
use crate::text::{join2, optional_text, own, same, trim, trimmed};
use vstd::prelude::*;

verus! {

/// How a time is shown: month, day, year, hour and minute.
pub const TIME_SHAPE: &'static str = "%b %d, %Y %H:%M";

/// Every scope there is.
pub open spec fn scopes_there_are() -> Seq<Seq<char>> {
    seq!["calendar"@, "search"@, "library:read"@, "library:write"@, "admin"@]
}

/// Every scope there is, in the order in which they are offered.
pub fn all_scopes() -> (scopes: Vec<String>)
    ensures
        texts(scopes@) == scopes_there_are(),
{
    let mut scopes: Vec<String> = Vec::new();
    scopes.push(own("calendar"));
    scopes.push(own("search"));
    scopes.push(own("library:read"));
    scopes.push(own("library:write"));
    scopes.push(own("admin"));
    assert(texts(scopes@) =~= scopes_there_are());
    scopes
}

/// A key as it is stored.
#[derive(Debug)]
pub struct ApiKeyRow {
    pub id: i64,
    pub name: String,
    /// The key itself; empty when it is not known any more.
    pub key: String,
    /// The scopes as a JSON list.
    pub scopes: String,
    pub created_at: i64,
    pub last_used_at: Option<i64>,
    pub enabled: bool,
}

/// The contents of a [`ApiKeyRow`].
#[verifier::ext_equal]
pub struct ApiKeyRowView {
    pub id: i64,
    pub name: Seq<char>,
    pub key: Seq<char>,
    pub scopes: Seq<char>,
    pub created_at: i64,
    pub last_used_at: Option<i64>,
    pub enabled: bool,
}

impl View for ApiKeyRow {
    type V = ApiKeyRowView;

    open spec fn view(&self) -> ApiKeyRowView {
        ApiKeyRowView {
            id: self.id,
            name: self.name@,
            key: self.key@,
            scopes: self.scopes@,
            created_at: self.created_at,
            last_used_at: self.last_used_at,
            enabled: self.enabled,
        }
    }
}

impl Dup for ApiKeyRow {
    fn dup(&self) -> (copy: Self) {
        ApiKeyRow {
            id: self.id,
            name: self.name.clone(),
            key: self.key.clone(),
            scopes: self.scopes.clone(),
            created_at: self.created_at,
            last_used_at: self.last_used_at,
            enabled: self.enabled,
        }
    }
}

impl Clone for ApiKeyRow {
    fn clone(&self) -> (copy: Self)
        ensures
            copy@ == self@,
    {
        self.dup()
    }
}

/// A key as it is shown: without the key itself.
#[derive(Debug)]
pub struct ApiKey {
    pub id: i64,
    pub name: String,
    pub scopes: Vec<String>,
    /// Seconds since 1970.
    pub created_at: i64,
    pub last_used_at: Option<i64>,
    pub enabled: bool,
}

/// The contents of a [`ApiKey`].
#[verifier::ext_equal]
pub struct ApiKeyView {
    pub id: i64,
    pub name: Seq<char>,
    pub scopes: Seq<Seq<char>>,
    pub created_at: i64,
    pub last_used_at: Option<i64>,
    pub enabled: bool,
}

impl View for ApiKey {
    type V = ApiKeyView;

    open spec fn view(&self) -> ApiKeyView {
        ApiKeyView {
            id: self.id,
            name: self.name@,
            scopes: texts(self.scopes@),
            created_at: self.created_at,
            last_used_at: self.last_used_at,
            enabled: self.enabled,
        }
    }
}

impl Dup for ApiKey {
    fn dup(&self) -> (copy: Self) {
        ApiKey {
            id: self.id,
            name: self.name.clone(),
            scopes: dup_texts(&self.scopes),
            created_at: self.created_at,
            last_used_at: self.last_used_at,
            enabled: self.enabled,
        }
    }
}

impl Clone for ApiKey {
    fn clone(&self) -> (copy: Self)
        ensures
            copy@ == self@,
    {
        self.dup()
    }
}

/// What `DateTime::<Utc>::from_timestamp` and `DateTime::format` of chrono make
/// of a number of seconds since 1970 and a format; nothing for a time out of
/// chrono's range.
pub uninterp spec fn utc_text(secs: i64, shape: Seq<char>) -> Option<Seq<char>>;

/// chrono's `DateTime::<Utc>::from_timestamp`, with no nanoseconds, and
/// `DateTime::format` on what it gives: the text depends on the seconds and
/// the format alone. The format is the one whose items chrono knows, so that
/// writing it out does not fail.
#[verifier::external_body]
fn format_utc(secs: i64, shape: &str) -> (text: Option<String>)
    requires
        shape@ == "%b %d, %Y %H:%M"@,
    ensures
        optional_text(text) == utc_text(secs, shape@),
{
    chrono::DateTime::<chrono::Utc>::from_timestamp(secs, 0).map(|t| t.format(shape).to_string())
}

/// `rand::random` for 32 bytes. Nothing is said of the bytes but how many they
/// are: they are chosen at random.
#[verifier::external_body]
fn random_bytes() -> (bytes: Vec<u8>)
    ensures
        bytes.len() == 32,
{
    rand::random::<[u8; 32]>().to_vec()
}

/// Bytes in hexadecimal, two digits each, the higher half first, in lower case.
pub open spec fn hex_of(bytes: Seq<u8>) -> Seq<char> {
    Seq::new(
        2 * bytes.len(),
        |i: int|
            hex_digit(
                if i % 2 == 0 {
                    bytes[i / 2] as int / 16
                } else {
                    bytes[i / 2] as int % 16
                },
            ),
    )
}

/// `hex::encode`: two lower-case digits for each byte, the higher half first.
#[verifier::external_body]
fn hex_encode(bytes: &Vec<u8>) -> (text: String)
    requires
        2 * bytes.len() <= isize::MAX,
    ensures
        text@ == hex_of(bytes@),
{
    hex::encode(bytes)
}

/// Whether a text is the hexadecimal form of 32 bytes.
pub open spec fn is_key(key: Seq<char>) -> bool {
    exists|bytes: Seq<u8>| bytes.len() == 32 && key == #[trigger] hex_of(bytes)
}

/// The key that bytes make.
pub fn key_of(bytes: &Vec<u8>) -> (key: String)
    requires
        2 * bytes.len() <= isize::MAX,
    ensures
        key@ == hex_of(bytes@),
{
    hex_encode(bytes)
}

/// A new key: 32 random bytes in hexadecimal.
pub fn generate_key() -> (key: String)
    ensures
        is_key(key@),
        key@.len() == 64,
{
    let bytes = random_bytes();
    key_of(&bytes)
}

/// A time as it is shown, when chrono could write it.
pub fn shown_time(text: Option<String>) -> (shown: String)
    ensures
        shown@ == (match text {
            Some(t) => t@,
            None => Seq::empty(),
        }),
{
    match text {
        Some(t) => t,
        None => String::new(),
    }
}

/// The time of the last use, if it is one: a key that was never used may hold
/// none, or one before 1970.
pub open spec fn use_time(last_used_at: Option<i64>) -> Option<i64> {
    match last_used_at {
        Some(t) => if t > 0 {
            Some(t)
        } else {
            None
        },
        None => None,
    }
}

/// A time as it is shown.
pub open spec fn time_shown(secs: i64) -> Seq<char> {
    match utc_text(secs, TIME_SHAPE@) {
        Some(t) => t,
        None => Seq::empty(),
    }
}

impl ApiKeyView {
    /// An enabled key grants its scopes, and every one with `admin`.
    pub open spec fn grants(self, required: Seq<char>) -> bool {
        self.enabled && (self.scopes.contains("admin"@) || self.scopes.contains(required))
    }
}

impl ApiKey {
    /// Whether the key grants a scope.
    pub fn grants(&self, required: &str) -> (r: bool)
        ensures
            r == self@.grants(required@),
    {
        if !self.enabled {
            return false;
        }
        has_text(&self.scopes, "admin") || has_text(&self.scopes, required)
    }

    /// When the key was made, as it is shown.
    pub fn created_at_display(&self) -> (shown: String)
        ensures
            shown@ == time_shown(self@.created_at),
    {
        shown_time(format_utc(self.created_at, TIME_SHAPE))
    }

    /// The time to show as that of the last use.
    pub fn used_at(&self) -> (at: Option<i64>)
        ensures
            at == use_time(self@.last_used_at),
    {
        match self.last_used_at {
            Some(t) => if t > 0 {
                Some(t)
            } else {
                None
            },
            None => None,
        }
    }

    /// When the key was last used, as it is shown: `never` when it was not.
    pub fn last_used_display(&self) -> (shown: String)
        ensures
            shown@ == (match use_time(self@.last_used_at) {
                Some(t) => time_shown(t),
                None => "never"@,
            }),
    {
        match self.used_at() {
            Some(t) => shown_time(format_utc(t, TIME_SHAPE)),
            None => own("never"),
        }
    }
}

/// Why a key was not made.
#[derive(Debug)]
pub enum ApiKeyError {
    EmptyName,
    UnknownScope(String),
    Store(StoreError),
}

/// The contents of an [`ApiKeyError`].
#[verifier::ext_equal]
pub enum ApiKeyErrorView {
    EmptyName,
    UnknownScope(Seq<char>),
    Store(StoreError),
}

impl View for ApiKeyError {
    type V = ApiKeyErrorView;

    open spec fn view(&self) -> ApiKeyErrorView {
        match self {
            ApiKeyError::EmptyName => ApiKeyErrorView::EmptyName,
            ApiKeyError::UnknownScope(s) => ApiKeyErrorView::UnknownScope(s@),
            ApiKeyError::Store(e) => ApiKeyErrorView::Store(*e),
        }
    }
}

impl ApiKeyErrorView {
    /// The error as the user reads it.
    pub open spec fn text(self) -> Seq<char> {
        match self {
            ApiKeyErrorView::EmptyName => "Key name cannot be empty"@,
            ApiKeyErrorView::UnknownScope(s) => "Unknown scope: "@ + s,
            ApiKeyErrorView::Store(e) => not_made(e.reason_text()),
        }
    }
}

/// What is said when a key could not be stored, for the reason given.
pub open spec fn not_made(reason: Seq<char>) -> Seq<char> {
    "Failed to create API key: "@ + reason
}

/// What is said when a key could not be stored. The reason stands in the words
/// of whatever refused the row: those of the store here, or those of a database
/// that the row is written to.
pub fn create_failure(reason: &str) -> (text: String)
    ensures
        text@ == not_made(reason@),
{
    join2("Failed to create API key: ", reason)
}

impl ApiKeyError {
    /// The error as the user reads it.
    pub fn message(&self) -> (text: String)
        ensures
            text@ == self@.text(),
    {
        match self {
            ApiKeyError::EmptyName => own("Key name cannot be empty"),
            ApiKeyError::UnknownScope(s) => join2("Unknown scope: ", s),
            ApiKeyError::Store(e) => create_failure(e.reason()),
        }
    }
}

/// The keys.
#[derive(Debug)]
pub struct ApiKeyStore {
    pub keys: Vec<ApiKeyRow>,
    /// The largest id given out so far.
    pub last_id: i64,
}

/// The contents of an [`ApiKeyStore`].
#[verifier::ext_equal]
pub struct ApiKeyStoreView {
    pub keys: Seq<ApiKeyRowView>,
    pub last_id: i64,
}

impl View for ApiKeyStore {
    type V = ApiKeyStoreView;

    open spec fn view(&self) -> ApiKeyStoreView {
        ApiKeyStoreView { keys: views(self.keys@), last_id: self.last_id }
    }
}

pub open spec fn key_id() -> spec_fn(ApiKeyRowView) -> i64 {
    |r: ApiKeyRowView| r.id
}

/// Two keys differ, unless both are not known any more.
pub open spec fn keys_differ() -> spec_fn(ApiKeyRowView, ApiKeyRowView) -> bool {
    |a: ApiKeyRowView, b: ApiKeyRowView| a.key != b.key || a.key.len() == 0
}

pub open spec fn holds_key(key: Seq<char>) -> spec_fn(ApiKeyRowView) -> bool {
    |r: ApiKeyRowView| r.key == key
}

pub open spec fn usable(key: Seq<char>) -> spec_fn(ApiKeyRowView) -> bool {
    |r: ApiKeyRowView| r.key == key && r.enabled
}

pub open spec fn is_row(id: i64) -> spec_fn(ApiKeyRowView) -> bool {
    |r: ApiKeyRowView| r.id == id
}

pub open spec fn newest_first() -> spec_fn(ApiKeyRowView, ApiKeyRowView) -> bool {
    |a: ApiKeyRowView, b: ApiKeyRowView| a.created_at >= b.created_at
}

/// A key as it is shown.
pub open spec fn parsed() -> spec_fn(ApiKeyRowView) -> ApiKeyView {
    |r: ApiKeyRowView|
        ApiKeyView {
            id: r.id,
            name: r.name,
            scopes: stored_texts(r.scopes),
            created_at: r.created_at,
            last_used_at: r.last_used_at,
            enabled: r.enabled,
        }
}

/// Whether the scopes of a row are read as they were written.
pub open spec fn scopes_read_back() -> spec_fn(ApiKeyRowView) -> bool {
    |r: ApiKeyRowView| texts_read_back(r.scopes)
}

/// The first of some scopes that is none.
pub open spec fn first_unknown(scopes: Seq<Seq<char>>) -> Option<Seq<char>> {
    first_where(scopes, |s: Seq<char>| !scopes_there_are().contains(s))
}

impl ApiKeyStoreView {
    /// Keys have ids of their own, and no two are the same.
    pub open spec fn wf(self) -> bool {
        numbered(self.keys, key_id(), self.last_id) && pairwise(self.keys, keys_differ())
    }

    /// The store with a new key, and its id.
    pub open spec fn create(
        self,
        name: Seq<char>,
        scopes: Seq<Seq<char>>,
        key: Seq<char>,
        now: i64,
    ) -> (ApiKeyStoreView, Result<i64, ApiKeyErrorView>) {
        if trimmed(name).len() == 0 {
            (self, Err(ApiKeyErrorView::EmptyName))
        } else if first_unknown(scopes) is Some {
            (self, Err(ApiKeyErrorView::UnknownScope(first_unknown(scopes)->0)))
        } else if self.last_id == i64::MAX {
            (self, Err(ApiKeyErrorView::Store(StoreError::Full)))
        } else if any_where(self.keys, holds_key(key)) {
            (self, Err(ApiKeyErrorView::Store(StoreError::Duplicate)))
        } else {
            let id = (self.last_id + 1) as i64;
            (
                ApiKeyStoreView {
                    keys: self.keys.push(
                        ApiKeyRowView {
                            id,
                            name: trimmed(name),
                            key,
                            scopes: json_of_texts(scopes),
                            created_at: now,
                            last_used_at: None,
                            enabled: true,
                        },
                    ),
                    last_id: id,
                },
                Ok(id),
            )
        }
    }

    /// The key that a program shows, if it may be used.
    pub open spec fn lookup(self, key: Seq<char>) -> Option<ApiKeyView> {
        match first_where(self.keys, usable(key)) {
            Some(r) => Some(parsed()(r)),
            None => None,
        }
    }
}

/// The outcome of making a key.
pub open spec fn outcome(r: Result<(i64, String), ApiKeyError>) -> Result<i64, ApiKeyErrorView> {
    match r {
        Ok(made) => Ok(made.0),
        Err(e) => Err(e@),
    }
}

fn unknown_scope(scopes: &Vec<String>) -> (r: Option<String>)
    ensures
        optional_text(r) == first_unknown(texts(scopes@)),
{
    let known = all_scopes();
    let ghost bad = |s: Seq<char>| !scopes_there_are().contains(s);
    let mut i: usize = 0;
    while i < scopes.len()
        invariant
            i <= scopes.len(),
            texts(known@) == scopes_there_are(),
            bad == (|s: Seq<char>| !scopes_there_are().contains(s)),
            forall|k: int| 0 <= k < i ==> !bad(#[trigger] texts(scopes@)[k]),
        decreases scopes.len() - i,
    {
        assert(texts(scopes@)[i as int] == scopes[i as int]@);
        if !has_text(&known, &scopes[i]) {
            proof {
                crate::table::lemma_first_where(texts(scopes@), bad, i as int);
            }
            return Some(scopes[i].clone());
        }
        i += 1;
    }
    proof {
        crate::table::lemma_first_where(texts(scopes@), bad, i as int);
    }
    None
}

/// Makes a key out of bytes that were chosen before. The name loses the space
/// around it.
pub fn create_with_key(
    db: &mut ApiKeyStore,
    name: &str,
    scopes: &Vec<String>,
    key: String,
    now: i64,
) -> (r: Result<(i64, String), ApiKeyError>)
    requires
        old(db)@.wf(),
    ensures
        (final(db)@, outcome(r)) == old(db)@.create(name@, texts(scopes@), key@, now),
        r matches Ok(made) ==> made.1@ == key@,
        final(db)@.wf(),
{
    let short = trim(name);
    if short.as_str().is_empty() {
        return Err(ApiKeyError::EmptyName);
    }
    match unknown_scope(scopes) {
        Some(s) => {
            return Err(ApiKeyError::UnknownScope(s));
        },
        None => {},
    }
    if db.last_id == i64::MAX {
        return Err(ApiKeyError::Store(StoreError::Full));
    }
    let ghost taken = holds_key(key@);
    let by_key = |r: &ApiKeyRow| -> (b: bool)
        ensures b == taken(r@)
        { same(&r.key, &key) };
    if any(&db.keys, by_key, Ghost(taken)) {
        return Err(ApiKeyError::Store(StoreError::Duplicate));
    }
    let id: i64 = db.last_id + 1;
    let row = ApiKeyRow {
        id,
        name: short,
        key: key.clone(),
        scopes: store_texts(scopes),
        created_at: now,
        last_used_at: None,
        enabled: true,
    };
    proof {
        let had = db@.keys;
        crate::table::lemma_views_push(db.keys@, row);
        crate::table::lemma_numbered_push(had, key_id(), db.last_id, row@);
        assert forall|i: int, j: int| 0 <= i < j < had.push(row@).len() implies keys_differ()(
            #[trigger] had.push(row@)[i],
            #[trigger] had.push(row@)[j],
        ) by {
            if j == had.len() {
                assert(!taken(had[i]));
            } else {
                assert(keys_differ()(had[i], had[j]));
            }
        }
    }
    db.keys.push(row);
    db.last_id = id;
    Ok((id, key))
}

/// Makes a key with a name and scopes, and gives its id and the key itself.
pub fn create(db: &mut ApiKeyStore, name: &str, scopes: &Vec<String>, now: i64) -> (r: Result<
    (i64, String),
    ApiKeyError,
>)
    requires
        old(db)@.wf(),
    ensures
        trimmed(name@).len() == 0 ==> r is Err && outcome(r) == Err::<i64, _>(
            ApiKeyErrorView::EmptyName,
        ) && final(db)@ == old(db)@,
        trimmed(name@).len() > 0 && first_unknown(texts(scopes@)) is Some ==> outcome(r) == Err::<
            i64,
            _,
        >(ApiKeyErrorView::UnknownScope(first_unknown(texts(scopes@))->0)) && final(db)@
            == old(db)@,
        exists|key: Seq<char>|
            is_key(key) && (final(db)@, outcome(r)) == #[trigger] old(db)@.create(
                name@,
                texts(scopes@),
                key,
                now,
            ) && (r matches Ok(made) ==> made.1@ == key),
        final(db)@.wf(),
{
    let key = generate_key();
    let ghost chosen = key@;
    let r = create_with_key(db, name, scopes, key, now);
    assert(is_key(chosen) && (db@, outcome(r)) == old(db)@.create(
        name@,
        texts(scopes@),
        chosen,
        now,
    ));
    r
}

/// The key itself, when it is known.
pub fn get_plaintext(db: &ApiKeyStore, id: i64) -> (r: Option<String>)
    ensures
        optional_text(r) == (match first_where(db@.keys, is_row(id)) {
            Some(row) => if row.key.len() == 0 {
                None
            } else {
                Some(row.key)
            },
            None => None,
        }),
{
    let test = |r: &ApiKeyRow| -> (b: bool)
        ensures b == is_row(id)(r@)
        { r.id == id };
    match find_first(&db.keys, test, Ghost(is_row(id))) {
        Some(row) => if row.key.as_str().is_empty() {
            None
        } else {
            Some(row.key)
        },
        None => None,
    }
}

/// A stored key as it is shown; without scopes when they cannot be read.
fn parse_row(r: &ApiKeyRow) -> (key: ApiKey)
    ensures
        key@ == parsed()(r@),
        scopes_read_back()(r@),
{
    ApiKey {
        id: r.id,
        name: r.name.clone(),
        scopes: load_texts(&r.scopes),
        created_at: r.created_at,
        last_used_at: r.last_used_at,
        enabled: r.enabled,
    }
}

/// All keys, the newest first.
pub fn list(db: &ApiKeyStore) -> (out: Vec<ApiKey>)
    ensures
        views(out@) == ordered(db@.keys, newest_first()).map_values(parsed()),
        forall|i: int|
            0 <= i < out.len() ==> scopes_read_back()(
                #[trigger] ordered(db@.keys, newest_first())[i],
            ),
{
    let before = |a: &ApiKeyRow, b: &ApiKeyRow| -> (r: bool)
        ensures r == newest_first()(a@, b@)
        { a.created_at >= b.created_at };
    let rows = order_by(dup_all(&db.keys), before, Ghost(newest_first()));
    let make = |r: &ApiKeyRow| -> (k: ApiKey)
        ensures k@ == parsed()(r@) && scopes_read_back()(r@)
        { parse_row(r) };
    let out = project(&rows, make, Ghost(parsed()), Ghost(scopes_read_back()));
    assert(views(out@).len() == out.len());
    out
}

/// The key that a program shows, unless it is unknown or switched off.
pub fn lookup_by_plaintext(db: &ApiKeyStore, plaintext: &str) -> (r: Option<ApiKey>)
    ensures
        optional_view(r) == db@.lookup(plaintext@),
        r is Some ==> scopes_read_back()(first_where(db@.keys, usable(plaintext@))->0),
{
    let ghost chosen = usable(plaintext@);
    let test = |r: &ApiKeyRow| -> (b: bool)
        ensures b == chosen(r@)
        { same(&r.key, plaintext) && r.enabled };
    match position(&db.keys, test, Ghost(chosen)) {
        Some(i) => Some(parse_row(&db.keys[i])),
        None => None,
    }
}

pub open spec fn used(now: i64) -> spec_fn(ApiKeyRowView) -> ApiKeyRowView {
    |r: ApiKeyRowView| ApiKeyRowView { last_used_at: Some(now), ..r }
}

pub open spec fn switched(enabled: bool) -> spec_fn(ApiKeyRowView) -> ApiKeyRowView {
    |r: ApiKeyRowView| ApiKeyRowView { enabled, ..r }
}

proof fn lemma_keys_differ_updated(
    s: Seq<ApiKeyRowView>,
    chosen: spec_fn(ApiKeyRowView) -> bool,
    change: spec_fn(ApiKeyRowView) -> ApiKeyRowView,
)
    requires
        pairwise(s, keys_differ()),
        forall|v: ApiKeyRowView| (#[trigger] change(v)).key == v.key,
    ensures
        pairwise(updated(s, chosen, change), keys_differ()),
{
    let after = updated(s, chosen, change);
    assert forall|i: int, j: int| 0 <= i < j < after.len() implies keys_differ()(
        #[trigger] after[i],
        #[trigger] after[j],
    ) by {
        assert(keys_differ()(s[i], s[j]));
        let a = change(s[i]);
        let b = change(s[j]);
        assert(a.key == s[i].key && b.key == s[j].key);
    }
}

/// Notes that a key was used.
pub fn touch_last_used(db: &mut ApiKeyStore, id: i64, now: i64)
    requires
        old(db)@.wf(),
    ensures
        final(db)@ == (ApiKeyStoreView {
            keys: updated(old(db)@.keys, is_row(id), used(now)),
            ..old(db)@
        }),
        final(db)@.wf(),
        final(db)@.keys.len() == old(db)@.keys.len(),
        forall|i: int|
            0 <= i < old(db)@.keys.len() ==> (#[trigger] final(db)@.keys[i]) == ({
                let r = old(db)@.keys[i];
                if r.id == id {
                    ApiKeyRowView { last_used_at: Some(now), ..r }
                } else {
                    r
                }
            }),
{
    proof {
        crate::table::lemma_numbered_updated(
            db@.keys,
            key_id(),
            db.last_id,
            is_row(id),
            used(now),
        );
        lemma_keys_differ_updated(db@.keys, is_row(id), used(now));
    }
    let test = |r: &ApiKeyRow| -> (b: bool)
        ensures b == is_row(id)(r@)
        { r.id == id };
    let make = |r: ApiKeyRow| -> (o: ApiKeyRow)
        ensures o@ == used(now)(r@)
        { ApiKeyRow { last_used_at: Some(now), ..r } };
    let _n: usize = update_where(&mut db.keys, test, make, Ghost(is_row(id)), Ghost(used(now)));
}

/// Removes a key, if it is there.
pub fn delete(db: &mut ApiKeyStore, id: i64)
    requires
        old(db)@.wf(),
    ensures
        final(db)@ == (ApiKeyStoreView { keys: without(old(db)@.keys, is_row(id)), ..old(db)@ }),
        final(db)@.wf(),
        forall|r: ApiKeyRowView| #[trigger]
            final(db)@.keys.contains(r) <==> old(db)@.keys.contains(r) && !(r.id == id),
{
    proof {
        crate::table::lemma_without_contains(db@.keys, is_row(id));
    }
    proof {
        crate::table::lemma_numbered_without(db@.keys, key_id(), db.last_id, is_row(id));
        crate::table::lemma_filter_pairwise(
            db@.keys,
            |r: ApiKeyRowView| !is_row(id)(r),
            keys_differ(),
        );
    }
    let test = |r: &ApiKeyRow| -> (b: bool)
        ensures b == is_row(id)(r@)
        { r.id == id };
    let _n: usize = delete_where(&mut db.keys, test, Ghost(is_row(id)));
}

/// Switches a key on or off.
pub fn set_enabled(db: &mut ApiKeyStore, id: i64, enabled: bool)
    requires
        old(db)@.wf(),
    ensures
        final(db)@ == (ApiKeyStoreView {
            keys: updated(old(db)@.keys, is_row(id), switched(enabled)),
            ..old(db)@
        }),
        final(db)@.wf(),
        final(db)@.keys.len() == old(db)@.keys.len(),
        forall|i: int|
            0 <= i < old(db)@.keys.len() ==> (#[trigger] final(db)@.keys[i]) == ({
                let r = old(db)@.keys[i];
                if r.id == id {
                    ApiKeyRowView { enabled, ..r }
                } else {
                    r
                }
            }),
{
    proof {
        crate::table::lemma_numbered_updated(
            db@.keys,
            key_id(),
            db.last_id,
            is_row(id),
            switched(enabled),
        );
        lemma_keys_differ_updated(db@.keys, is_row(id), switched(enabled));
    }
    let test = |r: &ApiKeyRow| -> (b: bool)
        ensures b == is_row(id)(r@)
        { r.id == id };
    let make = |r: ApiKeyRow| -> (o: ApiKeyRow)
        ensures o@ == switched(enabled)(r@)
        { ApiKeyRow { enabled, ..r } };
    let _n: usize = update_where(
        &mut db.keys,
        test,
        make,
        Ghost(is_row(id)),
        Ghost(switched(enabled)),
    );
}

impl ApiKeyStore {
    /// A store without keys.
    pub fn new() -> (db: ApiKeyStore)
        ensures
            db@ == (ApiKeyStoreView { keys: Seq::empty(), last_id: 0 }),
            db@.wf(),
    {
        let db = ApiKeyStore { keys: Vec::new(), last_id: 0 };
        assert(db@.keys =~= Seq::<ApiKeyRowView>::empty());
        db
    }

    /// Whether the store is as the rules leave it.
    pub fn check(&self) -> (r: bool)
        ensures
            r == self@.wf(),
    {
        let id_of = |r: &ApiKeyRow| -> (n: i64)
            ensures n == key_id()(r@)
            { r.id };
        let differ = |a: &ApiKeyRow, b: &ApiKeyRow| -> (r: bool)
            ensures r == keys_differ()(a@, b@)
            { !same(&a.key, &b.key) || a.key.as_str().is_empty() };
        let a: bool = check_numbered(&self.keys, self.last_id, id_of, Ghost(key_id()));
        let b: bool = every_pair(&self.keys, differ, Ghost(keys_differ()));
        a && b
    }
}

/// A new key is found under its name and with its scopes, and grants what it
/// was made for.
pub proof fn a_new_key_is_found(
    db: ApiKeyStoreView,
    name: Seq<char>,
    scopes: Seq<Seq<char>>,
    key: Seq<char>,
    now: i64,
)
    requires
        db.wf(),
        db.create(name, scopes, key, now).1 is Ok,
        texts_read_back(json_of_texts(scopes)),
    ensures
        ({
            let (after, r) = db.create(name, scopes, key, now);
            after.lookup(key) == Some(
                ApiKeyView {
                    id: r->Ok_0,
                    name: trimmed(name),
                    scopes,
                    created_at: now,
                    last_used_at: None,
                    enabled: true,
                },
            )
        }),
{
    let after = db.create(name, scopes, key, now).0;
    let n = db.keys.len() as int;
    assert forall|i: int| 0 <= i < n implies !usable(key)(#[trigger] after.keys[i]) by {
        assert(after.keys[i] == db.keys[i]);
        assert(!holds_key(key)(db.keys[i]));
    }
    crate::table::lemma_first_where(after.keys, usable(key), n);
}

/// A key that is switched off is not found.
pub proof fn a_key_switched_off_is_not_found(db: ApiKeyStoreView, id: i64)
    requires
        db.wf(),
        first_where(db.keys, is_row(id)) is Some,
        (first_where(db.keys, is_row(id))->0).key.len() > 0,
    ensures
        ({
            let after = ApiKeyStoreView {
                keys: updated(db.keys, is_row(id), switched(false)),
                ..db
            };
            after.lookup((first_where(db.keys, is_row(id))->0).key) is None
        }),
{
    let after = updated(db.keys, is_row(id), switched(false));
    crate::table::lemma_first_where_any(db.keys, is_row(id));
    let row = first_where(db.keys, is_row(id))->0;
    let k = choose|k: int| 0 <= k < db.keys.len() && db.keys[k] == row;
    assert forall|i: int| 0 <= i < after.len() implies !usable(row.key)(#[trigger] after[i]) by {
        if i != k {
            if i < k {
                assert(keys_differ()(db.keys[i], db.keys[k]));
            } else {
                assert(keys_differ()(db.keys[k], db.keys[i]));
            }
        }
    }
    crate::table::lemma_first_where(after, usable(row.key), after.len() as int);
}

/// Switching an enabled key off and on again changes nothing.
pub proof fn switching_off_and_on_changes_nothing(keys: Seq<ApiKeyRowView>, id: i64)
    requires
        forall|i: int| 0 <= i < keys.len() && is_row(id)(#[trigger] keys[i]) ==> keys[i].enabled,
    ensures
        updated(updated(keys, is_row(id), switched(false)), is_row(id), switched(true)) == keys,
{
    let off = updated(keys, is_row(id), switched(false));
    let on = updated(off, is_row(id), switched(true));
    assert forall|i: int| 0 <= i < keys.len() implies on[i] == keys[i] by {
        if is_row(id)(keys[i]) {
            assert(on[i] =~= keys[i]);
        }
    }
    assert(on =~= keys);
}

/// A deleted key is not found.
pub proof fn a_deleted_key_is_not_found(db: ApiKeyStoreView, id: i64)
    requires
        db.wf(),
        first_where(db.keys, is_row(id)) is Some,
        (first_where(db.keys, is_row(id))->0).key.len() > 0,
    ensures
        ({
            let after = ApiKeyStoreView { keys: without(db.keys, is_row(id)), ..db };
            after.lookup((first_where(db.keys, is_row(id))->0).key) is None
        }),
{
    let after = without(db.keys, is_row(id));
    crate::table::lemma_first_where_any(db.keys, is_row(id));
    crate::table::lemma_without_members(db.keys, is_row(id));
    let row = first_where(db.keys, is_row(id))->0;
    let k = choose|k: int| 0 <= k < db.keys.len() && db.keys[k] == row;
    assert forall|i: int| 0 <= i < after.len() implies !usable(row.key)(#[trigger] after[i]) by {
        assert(db.keys.contains(after[i]) && !is_row(id)(after[i]));
        let j = choose|j: int| 0 <= j < db.keys.len() && db.keys[j] == after[i];
        if j < k {
            assert(keys_differ()(db.keys[j], db.keys[k]));
        } else {
            assert(keys_differ()(db.keys[k], db.keys[j]));
        }
    }
    crate::table::lemma_first_where(after, usable(row.key), after.len() as int);
}

/// An enabled key with the scope `admin` grants every scope.
pub proof fn admin_grants_everything(key: ApiKeyView, required: Seq<char>)
    requires
        key.enabled,
        key.scopes.contains("admin"@),
    ensures
        key.grants(required),
{
}

/// A key that is switched off grants nothing.
pub proof fn a_key_switched_off_grants_nothing(key: ApiKeyView, required: Seq<char>)
    requires
        !key.enabled,
    ensures
        !key.grants(required),
{
}

/// A key is made exactly where it has a name, knows every scope it is to have,
/// and is not there already. Nothing changes where it is not made.
pub proof fn a_key_needs_a_name_and_known_scopes(
    db: ApiKeyStoreView,
    name: Seq<char>,
    scopes: Seq<Seq<char>>,
    key: Seq<char>,
    now: i64,
)
    requires
        db.wf(),
        db.last_id < i64::MAX,
    ensures
        ({
            let (after, r) = db.create(name, scopes, key, now);
            let named = trimmed(name).len() > 0;
            let known = forall|i: int|
                0 <= i < scopes.len() ==> (#[trigger] scopes[i] == "calendar"@ || scopes[i]
                    == "search"@ || scopes[i] == "library:read"@ || scopes[i] == "library:write"@
                    || scopes[i] == "admin"@);
            let taken = exists|i: int|
                0 <= i < db.keys.len() && (#[trigger] db.keys[i]).key == key;
            &&& r is Ok <==> named && known && !taken
            &&& r is Err ==> after == db
            &&& !named ==> r == Err::<i64, ApiKeyErrorView>(ApiKeyErrorView::EmptyName)
            &&& named && known && taken ==> r == Err::<i64, ApiKeyErrorView>(
                ApiKeyErrorView::Store(StoreError::Duplicate),
            )
            &&& named && !known ==> {
                &&& r matches Err(ApiKeyErrorView::UnknownScope(s))
                &&& scopes.contains(s)
                &&& s != "calendar"@ && s != "search"@ && s != "library:read"@ && s
                    != "library:write"@ && s != "admin"@
            }
            &&& r matches Ok(id) ==> {
                &&& after.keys.len() == db.keys.len() + 1
                &&& forall|i: int|
                    0 <= i < db.keys.len() ==> #[trigger] after.keys[i] == db.keys[i]
                        && db.keys[i].id < id
                &&& after.keys.last().id == id && after.keys.last().key == key
                &&& after.keys.last().name == trimmed(name) && after.keys.last().created_at == now
                &&& after.keys.last().enabled && after.keys.last().last_used_at is None
                &&& after.keys.last().scopes == json_of_texts(scopes)
            }
        }),
{
    let (after, r) = db.create(name, scopes, key, now);
    let unknown = |s: Seq<char>| !scopes_there_are().contains(s);
    assert forall|s: Seq<char>| #[trigger] scopes_there_are().contains(s) <==> s == "calendar"@ || s
        == "search"@ || s == "library:read"@ || s == "library:write"@ || s == "admin"@ by {
        let all = scopes_there_are();
        assert(all[0] == "calendar"@ && all[1] == "search"@ && all[2] == "library:read"@ && all[3]
            == "library:write"@ && all[4] == "admin"@);
    }
    crate::table::lemma_first_where_any(scopes, unknown);
    if first_unknown(scopes) is Some {
        let k = crate::table::lemma_first_index(scopes, unknown);
        assert(unknown(scopes[k]));
    } else {
        assert forall|i: int| 0 <= i < scopes.len() implies (#[trigger] scopes[i] == "calendar"@
            || scopes[i] == "search"@ || scopes[i] == "library:read"@ || scopes[i]
            == "library:write"@ || scopes[i] == "admin"@) by {
            assert(!unknown(scopes[i]));
        }
    }
    assert(any_where(db.keys, holds_key(key)) <==> exists|i: int|
        0 <= i < db.keys.len() && (#[trigger] db.keys[i]).key == key);
    if r is Ok {
        assert forall|i: int| 0 <= i < db.keys.len() implies #[trigger] after.keys[i]
            == db.keys[i] && db.keys[i].id < r->Ok_0 by {
            assert(key_id()(db.keys[i]) <= db.last_id);
        }
    }
}

/// A key that is switched on grants the scopes that it has, and everything
/// where one of them is for the administrator.
pub proof fn a_key_grants_the_scopes_it_has(key: ApiKeyView, required: Seq<char>)
    ensures
        key.grants(required) ==> key.enabled,
        key.enabled && !key.scopes.contains("admin"@) ==> (key.grants(required)
            <==> key.scopes.contains(required)),
        key.enabled && key.scopes.contains("admin"@) ==> key.grants(required),
{
}

/// A key is found by its text exactly where a key with that text is switched
/// on, with what its row holds.
pub proof fn a_key_is_found_by_its_text(db: ApiKeyStoreView, key: Seq<char>)
    ensures
        match db.lookup(key) {
            Some(k) => exists|i: int|
                0 <= i < db.keys.len() && (#[trigger] db.keys[i]).key == key && db.keys[i].enabled
                    && k.id == db.keys[i].id && k.name == db.keys[i].name && k.enabled
                    && k.created_at == db.keys[i].created_at && k.last_used_at
                    == db.keys[i].last_used_at && k.scopes == stored_texts(db.keys[i].scopes),
            None => forall|i: int|
                0 <= i < db.keys.len() ==> !((#[trigger] db.keys[i]).key == key
                    && db.keys[i].enabled),
        },
{
    let here = usable(key);
    crate::table::lemma_first_where_any(db.keys, here);
    if first_where(db.keys, here) is Some {
        let i = crate::table::lemma_first_index(db.keys, here);
        assert(db.keys[i].key == key);
    } else {
        assert forall|i: int| 0 <= i < db.keys.len() implies !((#[trigger] db.keys[i]).key == key
            && db.keys[i].enabled) by {
            assert(!here(db.keys[i]));
        }
    }
}

/// The list holds every key, the one made last first, with what its row holds.
pub proof fn the_keys_are_listed_newest_first(db: ApiKeyStoreView)
    ensures
        ({
            let list = ordered(db.keys, newest_first()).map_values(parsed());
            &&& list.len() == db.keys.len()
            &&& forall|j: int, k: int|
                0 <= j < k < list.len() ==> (#[trigger] list[j]).created_at >= (
                #[trigger] list[k]).created_at
            &&& forall|i: int|
                0 <= i < db.keys.len() ==> list.contains(
                    (ApiKeyView {
                        id: (#[trigger] db.keys[i]).id,
                        name: db.keys[i].name,
                        scopes: stored_texts(db.keys[i].scopes),
                        created_at: db.keys[i].created_at,
                        last_used_at: db.keys[i].last_used_at,
                        enabled: db.keys[i].enabled,
                    }),
                )
        }),
{
    let o = ordered(db.keys, newest_first());
    let list = o.map_values(parsed());
    crate::table::ordered_is_a_sorted_rearrangement(db.keys, newest_first());
    crate::table::lemma_ordered_holds_all(db.keys, newest_first());
    assert forall|j: int, k: int| 0 <= j < k < list.len() implies (#[trigger] list[j]).created_at
        >= (#[trigger] list[k]).created_at by {
        assert(newest_first()(o[j], o[k]));
    }
    assert forall|i: int| 0 <= i < db.keys.len() implies list.contains(
        (ApiKeyView {
            id: (#[trigger] db.keys[i]).id,
            name: db.keys[i].name,
            scopes: stored_texts(db.keys[i].scopes),
            created_at: db.keys[i].created_at,
            last_used_at: db.keys[i].last_used_at,
            enabled: db.keys[i].enabled,
        }),
    ) by {
        assert(o.contains(db.keys[i]));
        let k = choose|k: int| 0 <= k < o.len() && o[k] == db.keys[i];
        assert(list[k] == parsed()(db.keys[i]));
    }
}

/// The reasons why a key is not made, in words.
pub proof fn a_refusal_says_why(scope: Seq<char>, e: StoreError)
    ensures
        ApiKeyErrorView::EmptyName.text() == "Key name cannot be empty"@,
        ApiKeyErrorView::UnknownScope(scope).text() == "Unknown scope: "@ + scope,
        ApiKeyErrorView::Store(e).text() == "Failed to create API key: "@ + e.reason_text(),
{
}

/// A key that was used at a time has that time; nothing at or before the start
/// of the count is a time.
pub proof fn a_use_has_its_time(last_used_at: Option<i64>)
    ensures
        use_time(last_used_at) is Some <==> last_used_at is Some && last_used_at->0 > 0,
        use_time(last_used_at) is Some ==> use_time(last_used_at) == last_used_at,
{
}

/// A key is sixty-four digits and letters from `a` to `f`, and different bytes
/// give different keys.
pub proof fn a_key_is_written_in_hexadecimal(key: Seq<char>, a: Seq<u8>, b: Seq<u8>)
    ensures
        is_key(key) ==> key.len() == 64 && forall|i: int|
            0 <= i < key.len() ==> (48 <= (#[trigger] key[i]) as int <= 57 || 97 <= key[i] as int
                <= 102),
        hex_of(a) == hex_of(b) && a.len() == b.len() ==> a == b,
{
    if is_key(key) {
        let bytes = choose|bytes: Seq<u8>| bytes.len() == 32 && key == #[trigger] hex_of(bytes);
        assert forall|i: int| 0 <= i < key.len() implies (48 <= (#[trigger] key[i]) as int <= 57
            || 97 <= key[i] as int <= 102) by {
            let n = bytes[i / 2] as int;
            assert(0 <= n / 16 < 16 && 0 <= n % 16 < 16);
        }
    }
    if hex_of(a) == hex_of(b) && a.len() == b.len() {
        assert forall|i: int| 0 <= i < a.len() implies a[i] == b[i] by {
            assert(hex_of(a)[2 * i] == hex_of(b)[2 * i]);
            assert(hex_of(a)[2 * i + 1] == hex_of(b)[2 * i + 1]);
            let x = a[i] as int;
            let y = b[i] as int;
            assert((2 * i) / 2 == i && (2 * i + 1) / 2 == i);
            assert((2 * i) % 2 == 0 && (2 * i + 1) % 2 == 1);
            assert(hex_digit(x / 16) == hex_digit(y / 16));
            assert(hex_digit(x % 16) == hex_digit(y % 16));
            assert(x / 16 == y / 16 && x % 16 == y % 16);
        }
        assert(a =~= b);
    }
}

} // verus!
