//! Pictures kept on disk, and the places that show them.
use crate::json::{has_text, texts};
use crate::models::series::{is_known, known, SeriesRow, SeriesRowView};
use crate::models::StoreError;
use crate::table::{
    any, any_where, delete_where, distinct, every, every_pair, find_first, first_where, optional_view,
    position, project, select, upsert, upserted, views, without, Dup,
};
use crate::text::{at_most, decimal, optional_text, own, push_decimal, same, text_lt};
use vstd::prelude::*;

verus! {

/// A picture on disk.
#[derive(Debug)]
pub struct BlobRow {
    /// The hash of what it holds.
    pub blob_hash: String,
    pub local_path: String,
    pub content_type: String,
    pub byte_size: i64,
    pub created_at: String,
}

/// The contents of a [`BlobRow`].
#[verifier::ext_equal]
pub struct BlobRowView {
    pub blob_hash: Seq<char>,
    pub local_path: Seq<char>,
    pub content_type: Seq<char>,
    pub byte_size: i64,
    pub created_at: Seq<char>,
}

impl View for BlobRow {
    type V = BlobRowView;

    open spec fn view(&self) -> BlobRowView {
        BlobRowView {
            blob_hash: self.blob_hash@,
            local_path: self.local_path@,
            content_type: self.content_type@,
            byte_size: self.byte_size,
            created_at: self.created_at@,
        }
    }
}

impl Dup for BlobRow {
    fn dup(&self) -> (copy: Self) {
        BlobRow {
            blob_hash: self.blob_hash.clone(),
            local_path: self.local_path.clone(),
            content_type: self.content_type.clone(),
            byte_size: self.byte_size,
            created_at: self.created_at.clone(),
        }
    }
}

impl Clone for BlobRow {
    fn clone(&self) -> (copy: Self)
        ensures
            copy@ == self@,
    {
        self.dup()
    }
}

/// A place that shows a picture.
#[derive(Debug)]
pub struct RefRow {
    pub cache_key: String,
    pub parent_kind: String,
    pub parent_id: Option<i64>,
    pub image_kind: String,
    pub source_url: String,
    pub blob_hash: String,
    /// When the picture was last written, in seconds since 1970.
    pub last_write: i64,
    pub cached_at: String,
}

/// The contents of a [`RefRow`].
#[verifier::ext_equal]
pub struct RefRowView {
    pub cache_key: Seq<char>,
    pub parent_kind: Seq<char>,
    pub parent_id: Option<i64>,
    pub image_kind: Seq<char>,
    pub source_url: Seq<char>,
    pub blob_hash: Seq<char>,
    pub last_write: i64,
    pub cached_at: Seq<char>,
}

impl View for RefRow {
    type V = RefRowView;

    open spec fn view(&self) -> RefRowView {
        RefRowView {
            cache_key: self.cache_key@,
            parent_kind: self.parent_kind@,
            parent_id: self.parent_id,
            image_kind: self.image_kind@,
            source_url: self.source_url@,
            blob_hash: self.blob_hash@,
            last_write: self.last_write,
            cached_at: self.cached_at@,
        }
    }
}

impl Dup for RefRow {
    fn dup(&self) -> (copy: Self) {
        RefRow {
            cache_key: self.cache_key.clone(),
            parent_kind: self.parent_kind.clone(),
            parent_id: self.parent_id,
            image_kind: self.image_kind.clone(),
            source_url: self.source_url.clone(),
            blob_hash: self.blob_hash.clone(),
            last_write: self.last_write,
            cached_at: self.cached_at.clone(),
        }
    }
}

impl Clone for RefRow {
    fn clone(&self) -> (copy: Self)
        ensures
            copy@ == self@,
    {
        self.dup()
    }
}

/// A picture as it is served.
#[derive(Debug)]
pub struct ArtworkEntry {
    pub cache_key: String,
    pub local_path: String,
    pub content_type: String,
    pub last_write: i64,
}

/// The contents of a [`ArtworkEntry`].
#[verifier::ext_equal]
pub struct ArtworkEntryView {
    pub cache_key: Seq<char>,
    pub local_path: Seq<char>,
    pub content_type: Seq<char>,
    pub last_write: i64,
}

impl View for ArtworkEntry {
    type V = ArtworkEntryView;

    open spec fn view(&self) -> ArtworkEntryView {
        ArtworkEntryView {
            cache_key: self.cache_key@,
            local_path: self.local_path@,
            content_type: self.content_type@,
            last_write: self.last_write,
        }
    }
}

impl Dup for ArtworkEntry {
    fn dup(&self) -> (copy: Self) {
        ArtworkEntry {
            cache_key: self.cache_key.clone(),
            local_path: self.local_path.clone(),
            content_type: self.content_type.clone(),
            last_write: self.last_write,
        }
    }
}

impl Clone for ArtworkEntry {
    fn clone(&self) -> (copy: Self)
        ensures
            copy@ == self@,
    {
        self.dup()
    }
}

/// Where a picture is served.
#[derive(Debug)]
pub struct LocalUrl {
    pub cache_key: String,
    pub url: String,
}

/// The contents of a [`LocalUrl`].
#[verifier::ext_equal]
pub struct LocalUrlView {
    pub cache_key: Seq<char>,
    pub url: Seq<char>,
}

impl View for LocalUrl {
    type V = LocalUrlView;

    open spec fn view(&self) -> LocalUrlView {
        LocalUrlView {
            cache_key: self.cache_key@,
            url: self.url@,
        }
    }
}

impl Dup for LocalUrl {
    fn dup(&self) -> (copy: Self) {
        LocalUrl {
            cache_key: self.cache_key.clone(),
            url: self.url.clone(),
        }
    }
}

impl Clone for LocalUrl {
    fn clone(&self) -> (copy: Self)
        ensures
            copy@ == self@,
    {
        self.dup()
    }
}

/// A place that shows a picture, to be written down.
pub struct RefUpsert<'a> {
    pub cache_key: &'a str,
    pub parent_kind: &'a str,
    pub parent_id: Option<i64>,
    pub image_kind: &'a str,
    pub source_url: &'a str,
    pub blob_hash: &'a str,
    pub last_write: i64,
}

/// What a cleaning took away.
#[derive(Debug)]
pub struct Pruned {
    pub refs_deleted: u64,
    pub blobs_deleted: u64,
    /// The files that are not needed any more.
    pub files: Vec<String>,
}

/// The pictures and the places that show them.
#[derive(Debug)]
pub struct ArtworkStore {
    pub blobs: Vec<BlobRow>,
    pub refs: Vec<RefRow>,
}

/// The contents of an [`ArtworkStore`].
#[verifier::ext_equal]
pub struct ArtworkStoreView {
    pub blobs: Seq<BlobRowView>,
    pub refs: Seq<RefRowView>,
}

impl View for ArtworkStore {
    type V = ArtworkStoreView;

    open spec fn view(&self) -> ArtworkStoreView {
        ArtworkStoreView { blobs: views(self.blobs@), refs: views(self.refs@) }
    }
}

pub open spec fn hash_of() -> spec_fn(BlobRowView) -> Seq<char> {
    |b: BlobRowView| b.blob_hash
}

pub open spec fn key_of() -> spec_fn(RefRowView) -> Seq<char> {
    |r: RefRowView| r.cache_key
}

pub open spec fn has_hash(hash: Seq<char>) -> spec_fn(BlobRowView) -> bool {
    |b: BlobRowView| b.blob_hash == hash
}

pub open spec fn has_key(key: Seq<char>) -> spec_fn(RefRowView) -> bool {
    |r: RefRowView| r.cache_key == key
}

pub open spec fn shows(hash: Seq<char>) -> spec_fn(RefRowView) -> bool {
    |r: RefRowView| r.blob_hash == hash
}

pub open spec fn shown(blobs: Seq<BlobRowView>) -> spec_fn(RefRowView) -> bool {
    |r: RefRowView| any_where(blobs, has_hash(r.blob_hash))
}

pub open spec fn joined_entry(r: RefRowView, b: BlobRowView) -> ArtworkEntryView {
    ArtworkEntryView {
        cache_key: r.cache_key,
        local_path: b.local_path,
        content_type: b.content_type,
        last_write: r.last_write,
    }
}

impl ArtworkStoreView {
    /// A hash stands for one picture, a key for one place, and every place
    /// shows a picture that is there.
    pub open spec fn wf(self) -> bool {
        &&& distinct(self.blobs, hash_of())
        &&& distinct(self.refs, key_of())
        &&& forall|i: int| 0 <= i < self.refs.len() ==> shown(self.blobs)(#[trigger] self.refs[i])
    }

    /// The picture that is served under a key.
    pub open spec fn entry(self, key: Seq<char>) -> Option<ArtworkEntryView> {
        match first_where(self.refs, has_key(key)) {
            Some(r) => match first_where(self.blobs, has_hash(r.blob_hash)) {
                Some(b) => Some(joined_entry(r, b)),
                None => None,
            },
            None => None,
        }
    }
}

pub open spec fn new_blob(
    hash: Seq<char>,
    path: Seq<char>,
    content_type: Seq<char>,
    size: i64,
    now: Seq<char>,
) -> BlobRowView {
    BlobRowView {
        blob_hash: hash,
        local_path: path,
        content_type,
        byte_size: size,
        created_at: now,
    }
}

pub open spec fn moved_blob(path: Seq<char>, content_type: Seq<char>, size: i64) -> spec_fn(
    BlobRowView,
) -> BlobRowView {
    |b: BlobRowView|
        BlobRowView { local_path: path, content_type, byte_size: size, ..b }
}

/// Writes down where a picture lies. One that is known keeps its first time.
pub fn upsert_blob(
    db: &mut ArtworkStore,
    blob_hash: &str,
    local_path: &str,
    content_type: &str,
    byte_size: i64,
    now: &str,
)
    requires
        old(db)@.wf(),
    ensures
        final(db)@ == (ArtworkStoreView {
            blobs: upserted(
                old(db)@.blobs,
                has_hash(blob_hash@),
                moved_blob(local_path@, content_type@, byte_size),
                new_blob(blob_hash@, local_path@, content_type@, byte_size, now@),
            ),
            ..old(db)@
        }),
        final(db)@.wf(),
        final(db)@.refs == old(db)@.refs,
{
    let ghost here = has_hash(blob_hash@);
    let ghost change = moved_blob(local_path@, content_type@, byte_size);
    let fresh = BlobRow {
        blob_hash: own(blob_hash),
        local_path: own(local_path),
        content_type: own(content_type),
        byte_size,
        created_at: own(now),
    };
    proof {
        let blobs = db@.blobs;
        let after = upserted(blobs, here, change, fresh@);
        crate::table::lemma_upserted_distinct(blobs, hash_of(), here, change, fresh@);
        assert forall|i: int| 0 <= i < db@.refs.len() implies shown(after)(
            #[trigger] db@.refs[i],
        ) by {
            let wanted = has_hash(db@.refs[i].blob_hash);
            assert(shown(blobs)(db@.refs[i]));
            let k = choose|k: int| 0 <= k < blobs.len() && wanted(#[trigger] blobs[k]);
            assert(wanted(after[k]));
        }
    }
    let test = |b: &BlobRow| -> (r: bool)
        ensures r == here(b@)
        { same(&b.blob_hash, blob_hash) };
    let make = |b: BlobRow| -> (o: BlobRow)
        ensures o@ == change(b@)
        {
            BlobRow {
                local_path: own(local_path),
                content_type: own(content_type),
                byte_size,
                ..b
            }
        };
    upsert(&mut db.blobs, test, make, fresh, Ghost(here), Ghost(change));
}

/// Where the picture with a hash lies.
pub fn get_blob_path(db: &ArtworkStore, blob_hash: &str) -> (r: Option<String>)
    ensures
        optional_text(r) == (match first_where(db@.blobs, has_hash(blob_hash@)) {
            Some(b) => Some(b.local_path),
            None => None,
        }),
{
    let ghost here = has_hash(blob_hash@);
    let test = |b: &BlobRow| -> (r: bool)
        ensures r == here(b@)
        { same(&b.blob_hash, blob_hash) };
    match find_first(&db.blobs, test, Ghost(here)) {
        Some(b) => Some(b.local_path),
        None => None,
    }
}

pub open spec fn new_ref(r: RefUpsert, now: Seq<char>) -> RefRowView {
    RefRowView {
        cache_key: r.cache_key@,
        parent_kind: r.parent_kind@,
        parent_id: r.parent_id,
        image_kind: r.image_kind@,
        source_url: r.source_url@,
        blob_hash: r.blob_hash@,
        last_write: r.last_write,
        cached_at: now,
    }
}

pub open spec fn moved_ref(r: RefUpsert, now: Seq<char>) -> spec_fn(RefRowView) -> RefRowView {
    |was: RefRowView| RefRowView { cache_key: was.cache_key, ..new_ref(r, now) }
}

/// Whether what a place refers to is there: its picture, and its series if it
/// belongs to one.
pub open spec fn ref_fits(
    db: ArtworkStoreView,
    series: Seq<SeriesRowView>,
    r: RefUpsert,
) -> bool {
    any_where(db.blobs, has_hash(r.blob_hash@)) && (r.parent_id matches Some(id) ==> known(
        series,
        id,
    ))
}

fn to_ref(r: &RefUpsert, now: &str) -> (row: RefRow)
    ensures
        row@ == new_ref(*r, now@),
{
    RefRow {
        cache_key: own(r.cache_key),
        parent_kind: own(r.parent_kind),
        parent_id: r.parent_id,
        image_kind: own(r.image_kind),
        source_url: own(r.source_url),
        blob_hash: own(r.blob_hash),
        last_write: r.last_write,
        cached_at: own(now),
    }
}

/// Writes down a place that shows a picture, over the one with the same key.
pub fn upsert_ref(
    db: &mut ArtworkStore,
    series: &Vec<SeriesRow>,
    r: RefUpsert<'_>,
    now: &str,
) -> (done: Result<(), StoreError>)
    requires
        old(db)@.wf(),
    ensures
        done is Ok <==> ref_fits(old(db)@, views(series@), r),
        done matches Err(e) ==> e == StoreError::MissingParent && final(db)@ == old(db)@,
        done is Ok ==> final(db)@ == (ArtworkStoreView {
            refs: upserted(
                old(db)@.refs,
                has_key(r.cache_key@),
                moved_ref(r, now@),
                new_ref(r, now@),
            ),
            ..old(db)@
        }),
        final(db)@.wf(),
        done is Ok <==> (exists|i: int|
            0 <= i < old(db)@.blobs.len() && (#[trigger] old(db)@.blobs[i]).blob_hash == r.blob_hash@)
            && (r.parent_id is None || exists|i: int|
            0 <= i < series.len() && (#[trigger] views(series@)[i]).id == r.parent_id->0),
        final(db)@.blobs == old(db)@.blobs,
{
    let fits: bool = match r.parent_id {
        Some(id) => is_known(series, id),
        None => true,
    };
    if !fits || !blob_known(&db.blobs, r.blob_hash) {
        return Err(StoreError::MissingParent);
    }
    let key = r.cache_key;
    let ghost here = has_key(r.cache_key@);
    let ghost change = moved_ref(r, now@);
    let fresh = to_ref(&r, now);
    proof {
        let refs = db@.refs;
        crate::table::lemma_upserted_distinct(refs, key_of(), here, change, fresh@);
        let after = upserted(refs, here, change, fresh@);
        assert forall|i: int| 0 <= i < after.len() implies shown(db@.blobs)(
            #[trigger] after[i],
        ) by {
            if i < refs.len() {
                assert(shown(db@.blobs)(refs[i]));
            }
        }
    }
    let test = |x: &RefRow| -> (b: bool)
        ensures b == here(x@)
        { same(&x.cache_key, key) };
    let make = |x: RefRow| -> (o: RefRow)
        ensures o@ == change(x@)
        {
            let new = to_ref(&r, now);
            RefRow { cache_key: x.cache_key, ..new }
        };
    upsert(&mut db.refs, test, make, fresh, Ghost(here), Ghost(change));
    Ok(())
}

/// The picture that is served under a key, when it is known and on disk.
pub fn get(db: &ArtworkStore, cache_key: &str) -> (r: Option<ArtworkEntry>)
    ensures
        optional_view(r) == db@.entry(cache_key@),
{
    let ghost here = has_key(cache_key@);
    let by_key = |x: &RefRow| -> (b: bool)
        ensures b == here(x@)
        { same(&x.cache_key, cache_key) };
    match position(&db.refs, by_key, Ghost(here)) {
        Some(i) => {
            let row = &db.refs[i];
            let hash = &row.blob_hash;
            let ghost shown = has_hash(hash@);
            let by_hash = |b: &BlobRow| -> (r: bool)
                ensures r == shown(b@)
                { same(&b.blob_hash, hash) };
            match find_first(&db.blobs, by_hash, Ghost(shown)) {
                Some(b) => Some(
                    ArtworkEntry {
                        cache_key: row.cache_key.clone(),
                        local_path: b.local_path,
                        content_type: b.content_type,
                        last_write: row.last_write,
                    },
                ),
                None => None,
            }
        },
        None => None,
    }
}

/// The address of a picture; the time of its last write makes a new address.
pub open spec fn url_of(key: Seq<char>, last_write: i64) -> Seq<char> {
    "/media/art/"@ + key + "?v="@ + decimal(last_write as int)
}

fn make_url(key: &str, last_write: i64) -> (url: String)
    ensures
        url@ == url_of(key@, last_write),
{
    let mut url = own("/media/art/");
    url.append(key);
    url.append("?v=");
    push_decimal(&mut url, last_write);
    url
}

/// The address of the picture with a key.
pub fn get_local_url(db: &ArtworkStore, cache_key: &str) -> (r: Option<String>)
    ensures
        optional_text(r) == (match db@.entry(cache_key@) {
            Some(e) => Some(url_of(e.cache_key, e.last_write)),
            None => None,
        }),
{
    match get(db, cache_key) {
        Some(e) => Some(make_url(&e.cache_key, e.last_write)),
        None => None,
    }
}

pub open spec fn listed(keys: Seq<Seq<char>>, blobs: Seq<BlobRowView>) -> spec_fn(RefRowView) -> bool {
    |r: RefRowView| keys.contains(r.cache_key) && any_where(blobs, has_hash(r.blob_hash))
}

pub open spec fn addressed() -> spec_fn(RefRowView) -> LocalUrlView {
    |r: RefRowView|
        LocalUrlView { cache_key: r.cache_key, url: url_of(r.cache_key, r.last_write) }
}

pub open spec fn url_key() -> spec_fn(LocalUrlView) -> Seq<char> {
    |u: LocalUrlView| u.cache_key
}

fn blob_known(blobs: &Vec<BlobRow>, hash: &str) -> (r: bool)
    ensures
        r == any_where(views(blobs@), has_hash(hash@)),
{
    let ghost here = has_hash(hash@);
    let test = |b: &BlobRow| -> (r: bool)
        ensures r == here(b@)
        { same(&b.blob_hash, hash) };
    any(blobs, test, Ghost(here))
}

/// The addresses of several pictures, each key once. Those that are not known
/// are left out.
pub fn get_local_urls_batch(db: &ArtworkStore, cache_keys: &Vec<String>) -> (out: Vec<LocalUrl>)
    requires
        db@.wf(),
    ensures
        views(out@) == db@.refs.filter(listed(texts(cache_keys@), db@.blobs)).map_values(
            addressed(),
        ),
        distinct(views(out@), url_key()),
{
    let ghost chosen = listed(texts(cache_keys@), db@.blobs);
    let blobs = &db.blobs;
    let test = |r: &RefRow| -> (b: bool)
        ensures b == chosen(r@)
        { has_text(cache_keys, &r.cache_key) && blob_known(blobs, &r.blob_hash) };
    let rows = select(&db.refs, test, Ghost(chosen));
    let make = |r: &RefRow| -> (u: LocalUrl)
        ensures u@ == addressed()(r@)
        { LocalUrl { cache_key: r.cache_key.clone(), url: make_url(&r.cache_key, r.last_write) } };
    let out = project(&rows, make, Ghost(addressed()), Ghost(|r: RefRowView| true));
    proof {
        crate::table::lemma_filter_distinct(db@.refs, chosen, key_of());
        let f = db@.refs.filter(chosen);
        assert forall|i: int, j: int| 0 <= i < j < views(out@).len() implies url_key()(
            #[trigger] views(out@)[i],
        ) != url_key()(#[trigger] views(out@)[j]) by {
            assert(key_of()(f[i]) != key_of()(f[j]));
        }
    }
    out
}

/// Whether a place belonged to a series that is gone.
pub open spec fn orphan_ref(series: Seq<SeriesRowView>) -> spec_fn(RefRowView) -> bool {
    |r: RefRowView|
        (r.parent_kind == "series"@ || r.parent_kind == "series_relation"@) && (r.parent_id matches Some(
            id,
        ) && !known(series, id))
}

/// Whether a picture is shown nowhere and older than `cutoff`.
pub open spec fn orphan_blob(refs: Seq<RefRowView>, cutoff: Seq<char>) -> spec_fn(BlobRowView) -> bool {
    |b: BlobRowView| !any_where(refs, shows(b.blob_hash)) && text_lt(b.created_at, cutoff)
}

pub open spec fn on_disk() -> spec_fn(Seq<char>) -> bool {
    |path: Seq<char>| path.len() > 0
}

pub open spec fn paths_of(blobs: Seq<BlobRowView>) -> Seq<Seq<char>> {
    blobs.map_values(|b: BlobRowView| b.local_path)
}

impl ArtworkStoreView {
    /// The store after a cleaning: first without the places of series that are
    /// gone, then without the old pictures that no place shows.
    pub open spec fn cleaned(self, series: Seq<SeriesRowView>, cutoff: Seq<char>) -> ArtworkStoreView {
        let refs = without(self.refs, orphan_ref(series));
        ArtworkStoreView { refs, blobs: without(self.blobs, orphan_blob(refs, cutoff)) }
    }

    /// The files that a cleaning leaves without a picture.
    pub open spec fn needless_files(
        self,
        series: Seq<SeriesRowView>,
        cutoff: Seq<char>,
    ) -> Seq<Seq<char>> {
        let refs = without(self.refs, orphan_ref(series));
        paths_of(self.blobs.filter(orphan_blob(refs, cutoff))).filter(on_disk())
    }
}

fn shown_somewhere(refs: &Vec<RefRow>, hash: &str) -> (r: bool)
    ensures
        r == any_where(views(refs@), shows(hash@)),
{
    let ghost here = shows(hash@);
    let test = |x: &RefRow| -> (r: bool)
        ensures r == here(x@)
        { same(&x.blob_hash, hash) };
    any(refs, test, Ghost(here))
}

fn files_of(blobs: &Vec<BlobRow>) -> (files: Vec<String>)
    ensures
        texts(files@) == paths_of(views(blobs@)).filter(on_disk()),
{
    let ghost all = paths_of(views(blobs@));
    let mut files: Vec<String> = Vec::new();
    let mut i: usize = 0;
    proof {
        reveal(Seq::filter);
        assert(texts(files@) =~= all.take(0).filter(on_disk()));
    }
    while i < blobs.len()
        invariant
            i <= blobs.len(),
            all == paths_of(views(blobs@)),
            texts(files@) == all.take(i as int).filter(on_disk()),
        decreases blobs.len() - i,
    {
        let ghost had = files@;
        let path = &blobs[i].local_path;
        assert(all[i as int] == path@);
        let empty: bool = path.as_str().is_empty();
        if !empty {
            files.push(path.clone());
        }
        proof {
            reveal(Seq::filter);
            let t = all.take(i + 1);
            assert(t.drop_last() =~= all.take(i as int));
            assert(t.last() == path@);
            if !empty {
                assert(texts(files@) =~= texts(had).push(path@));
            }
        }
        i += 1;
    }
    assert(all.take(i as int) =~= all);
    files
}

/// Takes away the places of series that are gone, and then the pictures that
/// no place shows and that were there before `cutoff`. Says how many there
/// were, and which files can go.
pub fn cleanup_orphans(db: &mut ArtworkStore, series: &Vec<SeriesRow>, cutoff: &str) -> (p: Pruned)
    requires
        old(db)@.wf(),
    ensures
        final(db)@ == old(db)@.cleaned(views(series@), cutoff@),
        p.refs_deleted == old(db)@.refs.len() - final(db)@.refs.len(),
        p.blobs_deleted == old(db)@.blobs.len() - final(db)@.blobs.len(),
        texts(p.files@) == old(db)@.needless_files(views(series@), cutoff@),
        final(db)@.wf(),
{
    let ghost gone = orphan_ref(views(series@));
    let test = |r: &RefRow| -> (b: bool)
        ensures b == gone(r@)
        {
            if !same(&r.parent_kind, "series") && !same(&r.parent_kind, "series_relation") {
                false
            } else {
                match r.parent_id {
                    Some(id) => !is_known(series, id),
                    None => false,
                }
            }
        };
    proof {
        crate::table::lemma_without_distinct(db@.refs, gone, key_of());
        crate::table::lemma_without_members(db@.refs, gone);
        assert forall|i: int| 0 <= i < without(db@.refs, gone).len() implies shown(db@.blobs)(
            #[trigger] without(db@.refs, gone)[i],
        ) by {
            let r = without(db@.refs, gone)[i];
            assert(db@.refs.contains(r));
            let k = choose|k: int| 0 <= k < db@.refs.len() && db@.refs[k] == r;
            assert(shown(db@.blobs)(db@.refs[k]));
        }
    }
    let refs_deleted: usize = delete_where(&mut db.refs, test, Ghost(gone));
    let ghost needless = orphan_blob(views(db.refs@), cutoff@);
    let refs = &db.refs;
    let old_one = |b: &BlobRow| -> (r: bool)
        ensures r == needless(b@)
        { !shown_somewhere(refs, &b.blob_hash) && !at_most(cutoff, &b.created_at) };
    let going = select(&db.blobs, old_one, Ghost(needless));
    let files = files_of(&going);
    let again = |b: &BlobRow| -> (r: bool)
        ensures r == needless(b@)
        { !shown_somewhere(refs, &b.blob_hash) && !at_most(cutoff, &b.created_at) };
    proof {
        let blobs = db@.blobs;
        crate::table::lemma_without_distinct(blobs, needless, hash_of());
        crate::table::lemma_without_members(blobs, needless);
        let left = without(blobs, needless);
        assert forall|i: int| 0 <= i < db@.refs.len() implies shown(left)(
            #[trigger] db@.refs[i],
        ) by {
            let r = db@.refs[i];
            let wanted = has_hash(r.blob_hash);
            assert(shown(blobs)(r));
            let k = choose|k: int| 0 <= k < blobs.len() && wanted(#[trigger] blobs[k]);
            assert(shows(blobs[k].blob_hash)(r));
            assert(!needless(blobs[k]));
            assert(left.contains(blobs[k]));
            let j = choose|j: int| 0 <= j < left.len() && left[j] == blobs[k];
            assert(wanted(left[j]));
        }
    }
    let blobs_deleted: usize = delete_where(&mut db.blobs, again, Ghost(needless));
    Pruned { refs_deleted: refs_deleted as u64, blobs_deleted: blobs_deleted as u64, files }
}

pub open spec fn belongs_to(series_id: i64) -> spec_fn(RefRowView) -> bool {
    |r: RefRowView| r.parent_id == Some(series_id)
}

/// Forgets the places of a series that leaves the library. The pictures stay
/// until the next cleaning.
pub fn forget_series(db: &mut ArtworkStore, series_id: i64)
    requires
        old(db)@.wf(),
    ensures
        final(db)@ == (ArtworkStoreView {
            refs: without(old(db)@.refs, belongs_to(series_id)),
            ..old(db)@
        }),
        final(db)@.wf(),
        forall|r: RefRowView| #[trigger]
            final(db)@.refs.contains(r) <==> old(db)@.refs.contains(r) && !(r.parent_id == Some(series_id)),
        final(db)@.blobs == old(db)@.blobs,
{
    proof {
        crate::table::lemma_without_contains(db@.refs, belongs_to(series_id));
    }
    let ghost gone = belongs_to(series_id);
    let ghost before = db@;
    proof {
        crate::table::lemma_without_distinct(before.refs, gone, key_of());
        crate::table::lemma_without_members(before.refs, gone);
    }
    let test = |r: &RefRow| -> (b: bool)
        ensures b == gone(r@)
        { r.parent_id == Some(series_id) };
    let _n: usize = delete_where(&mut db.refs, test, Ghost(gone));
    proof {
        assert forall|i: int| 0 <= i < db@.refs.len() implies shown(db@.blobs)(
            #[trigger] db@.refs[i],
        ) by {
            assert(before.refs.contains(db@.refs[i]));
            let k = choose|k: int| 0 <= k < before.refs.len() && before.refs[k] == db@.refs[i];
            assert(shown(before.blobs)(before.refs[k]));
        }
    }
}

impl ArtworkStore {
    /// A store without pictures.
    pub fn new() -> (db: ArtworkStore)
        ensures
            db@ == (ArtworkStoreView { blobs: Seq::empty(), refs: Seq::empty() }),
            db@.wf(),
    {
        let db = ArtworkStore { blobs: Vec::new(), refs: Vec::new() };
        assert(db@.blobs =~= Seq::<BlobRowView>::empty());
        assert(db@.refs =~= Seq::<RefRowView>::empty());
        db
    }

    /// Whether the store is as the rules leave it.
    pub fn check(&self) -> (r: bool)
        ensures
            r == self@.wf(),
    {
        let ghost hashes = |a: BlobRowView, b: BlobRowView| a.blob_hash != b.blob_hash;
        let ghost keys = |a: RefRowView, b: RefRowView| a.cache_key != b.cache_key;
        let other_hash = |a: &BlobRow, b: &BlobRow| -> (r: bool)
            ensures r == hashes(a@, b@)
            { !same(&a.blob_hash, &b.blob_hash) };
        let other_key = |a: &RefRow, b: &RefRow| -> (r: bool)
            ensures r == keys(a@, b@)
            { !same(&a.cache_key, &b.cache_key) };
        let a: bool = every_pair(&self.blobs, other_hash, Ghost(hashes));
        let b: bool = every_pair(&self.refs, other_key, Ghost(keys));
        let blobs = &self.blobs;
        let ghost there = shown(self@.blobs);
        let shows_one = |r: &RefRow| -> (b: bool)
            ensures b == there(r@)
            { blob_known(blobs, &r.blob_hash) };
        let c: bool = every(&self.refs, shows_one, Ghost(there));
        assert(a == distinct(self@.blobs, hash_of()));
        assert(b == distinct(self@.refs, key_of()));
        a && b && c
    }
}

/// A picture that was written down is found where it lies.
pub proof fn a_written_picture_is_found(
    blobs: Seq<BlobRowView>,
    hash: Seq<char>,
    path: Seq<char>,
    content_type: Seq<char>,
    size: i64,
    now: Seq<char>,
)
    ensures
        ({
            let after = upserted(
                blobs,
                has_hash(hash),
                moved_blob(path, content_type, size),
                new_blob(hash, path, content_type, size, now),
            );
            first_where(after, has_hash(hash)) matches Some(b) && b.local_path == path
        }),
{
    crate::table::lemma_first_where_upserted(
        blobs,
        has_hash(hash),
        moved_blob(path, content_type, size),
        new_blob(hash, path, content_type, size, now),
    );
}

/// A cleaning leaves every place alone whose series is still there, with the
/// picture that it shows.
pub proof fn a_cleaning_keeps_what_is_shown(
    db: ArtworkStoreView,
    series: Seq<SeriesRowView>,
    cutoff: Seq<char>,
    key: Seq<char>,
)
    requires
        db.wf(),
        first_where(db.refs, has_key(key)) is Some,
        !orphan_ref(series)(first_where(db.refs, has_key(key))->0),
    ensures
        db.cleaned(series, cutoff).entry(key) == db.entry(key),
{
    let gone = orphan_ref(series);
    let after = db.cleaned(series, cutoff);
    let i = crate::table::lemma_first_index(db.refs, has_key(key));
    let r = db.refs[i];
    assert forall|j: int| 0 <= j < db.refs.len() && gone(#[trigger] db.refs[j]) implies !has_key(
        key,
    )(db.refs[j]) by {
        if j < i {
            assert(key_of()(db.refs[j]) != key_of()(db.refs[i]));
        } else if j > i {
            assert(key_of()(db.refs[i]) != key_of()(db.refs[j]));
        }
    }
    crate::table::lemma_first_where_without(db.refs, gone, has_key(key));
    crate::table::lemma_without_members(db.refs, gone);
    assert(after.refs.contains(r));
    let k = choose|k: int| 0 <= k < after.refs.len() && after.refs[k] == r;
    assert(shows(r.blob_hash)(after.refs[k]));
    let needless = orphan_blob(after.refs, cutoff);
    assert forall|j: int|
        0 <= j < db.blobs.len() && needless(#[trigger] db.blobs[j]) implies !has_hash(r.blob_hash)(
        db.blobs[j],
    ) by {
        if db.blobs[j].blob_hash == r.blob_hash {
            assert(any_where(after.refs, shows(db.blobs[j].blob_hash)));
        }
    }
    crate::table::lemma_first_where_without(db.blobs, needless, has_hash(r.blob_hash));
}

/// A cleaning leaves every picture alone that was written at `cutoff` or
/// later.
pub proof fn a_cleaning_keeps_recent_pictures(
    db: ArtworkStoreView,
    series: Seq<SeriesRowView>,
    cutoff: Seq<char>,
    i: int,
)
    requires
        0 <= i < db.blobs.len(),
        !text_lt(db.blobs[i].created_at, cutoff),
    ensures
        db.cleaned(series, cutoff).blobs.contains(db.blobs[i]),
{
    let refs = without(db.refs, orphan_ref(series));
    crate::table::lemma_without_members(db.blobs, orphan_blob(refs, cutoff));
}

/// Cleaning again right away takes nothing more.
pub proof fn cleaning_again_changes_nothing(
    db: ArtworkStoreView,
    series: Seq<SeriesRowView>,
    cutoff: Seq<char>,
)
    ensures
        db.cleaned(series, cutoff).cleaned(series, cutoff) == db.cleaned(series, cutoff),
{
    let gone = orphan_ref(series);
    let once = db.cleaned(series, cutoff);
    crate::table::lemma_without_members(db.refs, gone);
    crate::table::lemma_filter_all(once.refs, |r: RefRowView| !gone(r));
    let needless = orphan_blob(once.refs, cutoff);
    crate::table::lemma_without_members(db.blobs, needless);
    crate::table::lemma_filter_all(once.blobs, |b: BlobRowView| !needless(b));
}

/// A reference that was written is found under its key with everything that was
/// given, and the references under other keys stay.
pub proof fn a_written_reference_is_found(
    refs: Seq<RefRowView>,
    r: RefUpsert,
    now: Seq<char>,
    other: Seq<char>,
)
    ensures
        ({
            let after = upserted(refs, has_key(r.cache_key@), moved_ref(r, now), new_ref(r, now));
            &&& first_where(after, has_key(r.cache_key@)) matches Some(row)
            &&& row.cache_key == r.cache_key@
            &&& row.parent_kind == r.parent_kind@
            &&& row.parent_id == r.parent_id
            &&& row.image_kind == r.image_kind@
            &&& row.source_url == r.source_url@
            &&& row.blob_hash == r.blob_hash@
            &&& row.last_write == r.last_write
            &&& row.cached_at == now
            &&& other != r.cache_key@ ==> first_where(after, has_key(other)) == first_where(
                refs,
                has_key(other),
            )
        }),
{
    let here = has_key(r.cache_key@);
    crate::table::lemma_first_where_upserted(refs, here, moved_ref(r, now), new_ref(r, now));
    crate::table::lemma_first_where_any(refs, here);
    if other != r.cache_key@ {
        crate::table::lemma_first_where_updated(refs, here, moved_ref(r, now), has_key(other));
        crate::table::lemma_first_where_any(refs, has_key(other));
        crate::table::lemma_first_where_push(refs, new_ref(r, now), has_key(other));
    }
}

/// A picture that was written has the place, the type and the size that were
/// given. It keeps the time at which it first came, and other pictures stay.
pub proof fn a_written_picture_has_what_was_given(
    blobs: Seq<BlobRowView>,
    hash: Seq<char>,
    path: Seq<char>,
    content_type: Seq<char>,
    size: i64,
    now: Seq<char>,
    other: Seq<char>,
)
    ensures
        ({
            let after = upserted(
                blobs,
                has_hash(hash),
                moved_blob(path, content_type, size),
                new_blob(hash, path, content_type, size, now),
            );
            let had = first_where(blobs, has_hash(hash));
            &&& first_where(after, has_hash(hash)) matches Some(b)
            &&& b.blob_hash == hash && b.local_path == path && b.content_type == content_type
                && b.byte_size == size
            &&& had is Some ==> b.created_at == (had->0).created_at
            &&& had is None ==> b.created_at == now
            &&& other != hash ==> first_where(after, has_hash(other)) == first_where(
                blobs,
                has_hash(other),
            )
        }),
{
    let here = has_hash(hash);
    let change = moved_blob(path, content_type, size);
    let fresh = new_blob(hash, path, content_type, size, now);
    crate::table::lemma_first_where_upserted(blobs, here, change, fresh);
    crate::table::lemma_first_where_any(blobs, here);
    if other != hash {
        crate::table::lemma_first_where_updated(blobs, here, change, has_hash(other));
        crate::table::lemma_first_where_any(blobs, has_hash(other));
        crate::table::lemma_first_where_push(blobs, fresh, has_hash(other));
    }
}

/// An entry is a reference under the key together with its picture.
pub proof fn an_entry_is_a_reference_and_its_picture(db: ArtworkStoreView, key: Seq<char>)
    requires
        db.wf(),
    ensures
        match db.entry(key) {
            Some(e) => exists|i: int, j: int|
                #![trigger db.refs[i], db.blobs[j]]
                0 <= i < db.refs.len() && 0 <= j < db.blobs.len() && db.refs[i].cache_key == key
                    && db.blobs[j].blob_hash == db.refs[i].blob_hash && e.cache_key == key
                    && e.local_path == db.blobs[j].local_path && e.content_type
                    == db.blobs[j].content_type && e.last_write == db.refs[i].last_write,
            None => forall|i: int|
                0 <= i < db.refs.len() ==> (#[trigger] db.refs[i]).cache_key != key,
        },
{
    let here = has_key(key);
    crate::table::lemma_first_where_any(db.refs, here);
    if first_where(db.refs, here) is Some {
        let i = crate::table::lemma_first_index(db.refs, here);
        let there = has_hash(db.refs[i].blob_hash);
        assert(shown(db.blobs)(db.refs[i]));
        crate::table::lemma_first_where_any(db.blobs, there);
        let j = crate::table::lemma_first_index(db.blobs, there);
        assert(db.refs[i].cache_key == key && db.blobs[j].blob_hash == db.refs[i].blob_hash);
    } else {
        assert forall|i: int| 0 <= i < db.refs.len() implies (#[trigger] db.refs[i]).cache_key
            != key by {
            assert(!here(db.refs[i]));
        }
    }
}

/// The address of a picture holds its key and the time of the last write.
pub proof fn an_address_holds_key_and_time(key: Seq<char>, last_write: i64)
    ensures
        url_of(key, last_write) == "/media/art/"@ + key + "?v="@ + decimal(last_write as int),
{
}

/// Of the keys that are asked for, those with a picture, and no others, get
/// their address.
pub proof fn every_key_with_a_picture_gets_its_address(
    db: ArtworkStoreView,
    keys: Seq<Seq<char>>,
    u: LocalUrlView,
)
    requires
        db.wf(),
    ensures
        db.refs.filter(listed(keys, db.blobs)).map_values(addressed()).contains(u)
            <==> keys.contains(u.cache_key) && exists|i: int|
            0 <= i < db.refs.len() && (#[trigger] db.refs[i]).cache_key == u.cache_key && u.url
                == "/media/art/"@ + u.cache_key + "?v="@ + decimal(db.refs[i].last_write as int),
{
    let chosen = listed(keys, db.blobs);
    let f = db.refs.filter(chosen);
    let list = f.map_values(addressed());
    crate::table::lemma_filter_members(db.refs, chosen);
    if list.contains(u) {
        let k = choose|k: int| 0 <= k < list.len() && list[k] == u;
        assert(f.contains(f[k]));
        assert(db.refs.contains(f[k]) && chosen(f[k]));
        let i = choose|i: int| 0 <= i < db.refs.len() && db.refs[i] == f[k];
        assert(db.refs[i].cache_key == u.cache_key);
    }
    if keys.contains(u.cache_key) && exists|i: int|
        0 <= i < db.refs.len() && (#[trigger] db.refs[i]).cache_key == u.cache_key && u.url
            == "/media/art/"@ + u.cache_key + "?v="@ + decimal(db.refs[i].last_write as int) {
        let i = choose|i: int|
            0 <= i < db.refs.len() && (#[trigger] db.refs[i]).cache_key == u.cache_key && u.url
                == "/media/art/"@ + u.cache_key + "?v="@ + decimal(db.refs[i].last_write as int);
        assert(shown(db.blobs)(db.refs[i]));
        db.refs.lemma_filter_contains(chosen, i);
        let k = choose|k: int| 0 <= k < f.len() && f[k] == db.refs[i];
        assert(list[k] == u);
    }
}

/// A cleaning takes the references of series that are gone, and the old
/// pictures that nothing refers to any more; the rest stays. The files of the
/// pictures that go are listed.
pub proof fn a_cleaning_takes_what_nothing_needs(
    db: ArtworkStoreView,
    series: Seq<SeriesRowView>,
    cutoff: Seq<char>,
    r: RefRowView,
    b: BlobRowView,
)
    ensures
        ({
            let after = db.cleaned(series, cutoff);
            &&& after.refs.contains(r) <==> db.refs.contains(r) && !((r.parent_kind == "series"@
                || r.parent_kind == "series_relation"@) && r.parent_id is Some && !(exists|i: int|
                0 <= i < series.len() && (#[trigger] series[i]).id == r.parent_id->0))
            &&& after.blobs.contains(b) <==> db.blobs.contains(b) && !(text_lt(
                b.created_at,
                cutoff,
            ) && forall|i: int|
                0 <= i < after.refs.len() ==> (#[trigger] after.refs[i]).blob_hash != b.blob_hash)
            &&& db.blobs.contains(b) && !after.blobs.contains(b) && b.local_path.len() > 0
                ==> db.needless_files(series, cutoff).contains(b.local_path)
        }),
{
    let after = db.cleaned(series, cutoff);
    let gone = orphan_blob(after.refs, cutoff);
    crate::table::lemma_without_contains(db.refs, orphan_ref(series));
    crate::table::lemma_without_contains(db.blobs, gone);
    if r.parent_id is Some {
        assert(known(series, r.parent_id->0) <==> exists|i: int|
            0 <= i < series.len() && (#[trigger] series[i]).id == r.parent_id->0);
    }
    let used = shows(b.blob_hash);
    if any_where(after.refs, used) {
        let i = choose|i: int| 0 <= i < after.refs.len() && used(#[trigger] after.refs[i]);
        assert(after.refs[i].blob_hash == b.blob_hash);
    } else {
        assert forall|i: int| 0 <= i < after.refs.len() implies (
        #[trigger] after.refs[i]).blob_hash != b.blob_hash by {
            assert(!used(after.refs[i]));
        }
    }
    if db.blobs.contains(b) && !after.blobs.contains(b) && b.local_path.len() > 0 {
        let k = choose|k: int| 0 <= k < db.blobs.len() && db.blobs[k] == b;
        db.blobs.lemma_filter_contains(gone, k);
        let f = db.blobs.filter(gone);
        let m = choose|m: int| 0 <= m < f.len() && f[m] == b;
        assert(paths_of(f)[m] == b.local_path);
        paths_of(f).lemma_filter_contains(on_disk(), m);
    }
}

/// Only files of pictures that go are listed.
pub proof fn only_needless_files_are_listed(
    db: ArtworkStoreView,
    series: Seq<SeriesRowView>,
    cutoff: Seq<char>,
    k: int,
)
    requires
        0 <= k < db.needless_files(series, cutoff).len(),
    ensures
        db.needless_files(series, cutoff)[k].len() > 0,
        exists|j: int|
            0 <= j < db.blobs.len() && (#[trigger] db.blobs[j]).local_path == db.needless_files(
                series,
                cutoff,
            )[k] && text_lt(db.blobs[j].created_at, cutoff) && forall|i: int|
                0 <= i < db.cleaned(series, cutoff).refs.len() ==> (#[trigger] db.cleaned(
                    series,
                    cutoff,
                ).refs[i]).blob_hash != db.blobs[j].blob_hash,
{
    let refs = db.cleaned(series, cutoff).refs;
    let gone = orphan_blob(refs, cutoff);
    let f = db.blobs.filter(gone);
    let paths = paths_of(f);
    let files = paths.filter(on_disk());
    crate::table::lemma_filter_members(paths, on_disk());
    assert(paths.contains(files[k]) && on_disk()(files[k]));
    let m = choose|m: int| 0 <= m < paths.len() && paths[m] == files[k];
    crate::table::lemma_filter_members(db.blobs, gone);
    assert(db.blobs.contains(f[m]) && gone(f[m]));
    let j = choose|j: int| 0 <= j < db.blobs.len() && db.blobs[j] == f[m];
    let used = shows(f[m].blob_hash);
    assert(!any_where(refs, used));
    assert forall|i: int| 0 <= i < refs.len() implies (#[trigger] refs[i]).blob_hash
        != db.blobs[j].blob_hash by {
        assert(!used(refs[i]));
    }
    assert(db.blobs[j].local_path == files[k]);
}

} // verus!
