//! The programs that download: which there are and which one is the default.
use crate::models::config::{ConfigStore, ConfigStoreView};
use crate::models::direct_rss_feeds::{self, FeedStore, FeedStoreView};
use crate::models::grabbed_torrents::{self, GrabStore, GrabStoreView};
use crate::models::indexers::{self, IndexerStore, IndexerStoreView};
use crate::models::StoreError;
use crate::table::{
    any, any_where, check_numbered, delete_where, dup_all, find_first, first_where, numbered,
    optional_view, order_by, ordered, pairwise, project, select, update_where, updated, views,
    without, Dup,
};
use crate::text::{at_most_nocase, lowered, own, text_le, trim, trim_end_of, trimmed, trimmed_end_of};
use vstd::prelude::*;

verus! {

/// A download client.
#[derive(Debug)]
pub struct DownloadClientRow {
    pub id: i64,
    pub name: String,
    /// `qbittorrent`, `deluge`, `transmission` and so on.
    pub kind: String,
    pub url: String,
    pub username: String,
    pub password: String,
    pub label: String,
    pub download_path: String,
    pub enabled: bool,
    pub is_default: bool,
}

/// The contents of a [`DownloadClientRow`].
#[verifier::ext_equal]
pub struct DownloadClientRowView {
    pub id: i64,
    pub name: Seq<char>,
    pub kind: Seq<char>,
    pub url: Seq<char>,
    pub username: Seq<char>,
    pub password: Seq<char>,
    pub label: Seq<char>,
    pub download_path: Seq<char>,
    pub enabled: bool,
    pub is_default: bool,
}

impl View for DownloadClientRow {
    type V = DownloadClientRowView;

    open spec fn view(&self) -> DownloadClientRowView {
        DownloadClientRowView {
            id: self.id,
            name: self.name@,
            kind: self.kind@,
            url: self.url@,
            username: self.username@,
            password: self.password@,
            label: self.label@,
            download_path: self.download_path@,
            enabled: self.enabled,
            is_default: self.is_default,
        }
    }
}

impl Dup for DownloadClientRow {
    fn dup(&self) -> (copy: Self) {
        DownloadClientRow {
            id: self.id,
            name: self.name.clone(),
            kind: self.kind.clone(),
            url: self.url.clone(),
            username: self.username.clone(),
            password: self.password.clone(),
            label: self.label.clone(),
            download_path: self.download_path.clone(),
            enabled: self.enabled,
            is_default: self.is_default,
        }
    }
}

impl Clone for DownloadClientRow {
    fn clone(&self) -> (copy: Self)
        ensures
            copy@ == self@,
    {
        self.dup()
    }
}

/// A download client as it is stored.
#[derive(Debug)]
pub struct ClientRow {
    pub client: DownloadClientRow,
    pub updated_at: i64,
}

/// The contents of a [`ClientRow`].
#[verifier::ext_equal]
pub struct ClientRowView {
    pub client: DownloadClientRowView,
    pub updated_at: i64,
}

impl View for ClientRow {
    type V = ClientRowView;

    open spec fn view(&self) -> ClientRowView {
        ClientRowView {
            client: self.client@,
            updated_at: self.updated_at,
        }
    }
}

impl Dup for ClientRow {
    fn dup(&self) -> (copy: Self) {
        ClientRow {
            client: self.client.dup(),
            updated_at: self.updated_at,
        }
    }
}

impl Clone for ClientRow {
    fn clone(&self) -> (copy: Self)
        ensures
            copy@ == self@,
    {
        self.dup()
    }
}

/// What the user says of a download client.
#[derive(Debug, Clone, Copy)]
pub struct DownloadClientForm<'a> {
    pub name: &'a str,
    pub kind: &'a str,
    pub url: &'a str,
    pub username: &'a str,
    pub password: &'a str,
    pub label: &'a str,
    pub download_path: &'a str,
    pub enabled: bool,
    pub is_default: bool,
}

/// The download clients.
#[derive(Debug)]
pub struct ClientStore {
    pub rows: Vec<ClientRow>,
    /// The largest id given out so far.
    pub last_id: i64,
}

/// The contents of a [`ClientStore`].
#[verifier::ext_equal]
pub struct ClientStoreView {
    pub rows: Seq<ClientRowView>,
    pub last_id: i64,
}

impl View for ClientStore {
    type V = ClientStoreView;

    open spec fn view(&self) -> ClientStoreView {
        ClientStoreView { rows: views(self.rows@), last_id: self.last_id }
    }
}

pub open spec fn row_id() -> spec_fn(ClientRowView) -> i64 {
    |r: ClientRowView| r.client.id
}

pub open spec fn is_client(id: i64) -> spec_fn(ClientRowView) -> bool {
    |r: ClientRowView| r.client.id == id
}

pub open spec fn switched_on() -> spec_fn(ClientRowView) -> bool {
    |r: ClientRowView| r.client.enabled
}

pub open spec fn default_one() -> spec_fn(ClientRowView) -> bool {
    |r: ClientRowView| r.client.is_default
}

pub open spec fn other_default(id: i64) -> spec_fn(ClientRowView) -> bool {
    |r: ClientRowView| r.client.is_default && r.client.id != id
}

pub open spec fn shown() -> spec_fn(ClientRowView) -> DownloadClientRowView {
    |r: ClientRowView| r.client
}

/// Whether there is a download client with an id.
pub open spec fn client_known(rows: Seq<ClientRowView>, id: i64) -> bool {
    any_where(rows, is_client(id))
}

pub open spec fn not_both_default() -> spec_fn(ClientRowView, ClientRowView) -> bool {
    |a: ClientRowView, b: ClientRowView| !(a.client.is_default && b.client.is_default)
}

impl ClientStoreView {
    /// Clients have ids of their own, among those given out.
    pub open spec fn wf(self) -> bool {
        numbered(self.rows, row_id(), self.last_id)
    }

    /// Whether at most one client is the default.
    pub open spec fn one_default(self) -> bool {
        pairwise(self.rows, not_both_default())
    }

    /// The client with an id.
    pub open spec fn client(self, id: i64) -> Option<DownloadClientRowView> {
        match first_where(self.rows, is_client(id)) {
            Some(r) => Some(r.client),
            None => None,
        }
    }

    /// The default client.
    pub open spec fn default_client(self) -> Option<DownloadClientRowView> {
        match first_where(self.rows, default_one()) {
            Some(r) => Some(r.client),
            None => None,
        }
    }

    /// The store with a new client.
    pub open spec fn insert(self, id: i64, form: DownloadClientForm, now: i64) -> ClientStoreView {
        let rows = if form.is_default {
            updated(self.rows, default_one(), demoted())
        } else {
            self.rows
        };
        ClientStoreView { rows: rows.push(new_row(id, form, now)), last_id: id }
    }

    /// The store with a client changed.
    pub open spec fn update(self, id: i64, form: DownloadClientForm, now: i64) -> ClientStoreView {
        let rows = if form.is_default {
            updated(self.rows, other_default(id), demoted())
        } else {
            self.rows
        };
        ClientStoreView { rows: updated(rows, is_client(id), edited(form, now)), ..self }
    }

    /// The store with a client as the default.
    pub open spec fn set_default(self, id: i64, now: i64) -> ClientStoreView {
        let rows = updated(self.rows, other_default(id), demoted());
        ClientStoreView { rows: updated(rows, is_client(id), promoted(now)), ..self }
    }
}

pub open spec fn demoted() -> spec_fn(ClientRowView) -> ClientRowView {
    |r: ClientRowView|
        ClientRowView { client: DownloadClientRowView { is_default: false, ..r.client }, ..r }
}

pub open spec fn promoted(now: i64) -> spec_fn(ClientRowView) -> ClientRowView {
    |r: ClientRowView|
        ClientRowView {
            client: DownloadClientRowView { is_default: true, ..r.client },
            updated_at: now,
        }
}

/// A client as the user describes it. Space around the texts is dropped, but
/// for the password; so are slashes at the end of the path.
pub open spec fn described(id: i64, form: DownloadClientForm) -> DownloadClientRowView {
    DownloadClientRowView {
        id,
        name: trimmed(form.name@),
        kind: form.kind@,
        url: trimmed(form.url@),
        username: trimmed(form.username@),
        password: form.password@,
        label: trimmed(form.label@),
        download_path: trimmed_end_of(trimmed(form.download_path@), '/'),
        enabled: form.enabled,
        is_default: form.is_default,
    }
}

pub open spec fn new_row(id: i64, form: DownloadClientForm, now: i64) -> ClientRowView {
    ClientRowView { client: described(id, form), updated_at: now }
}

pub open spec fn edited(form: DownloadClientForm, now: i64) -> spec_fn(
    ClientRowView,
) -> ClientRowView {
    |r: ClientRowView| new_row(r.client.id, form, now)
}

fn describe(id: i64, form: &DownloadClientForm) -> (c: DownloadClientRow)
    ensures
        c@ == described(id, *form),
{
    let path = trim(form.download_path);
    DownloadClientRow {
        id,
        name: trim(form.name),
        kind: own(form.kind),
        url: trim(form.url),
        username: trim(form.username),
        password: own(form.password),
        label: trim(form.label),
        download_path: trim_end_of(&path, '/'),
        enabled: form.enabled,
        is_default: form.is_default,
    }
}

/// Whether there is a download client with an id.
pub fn is_client_known(rows: &Vec<ClientRow>, id: i64) -> (r: bool)
    ensures
        r == client_known(views(rows@), id),
{
    let test = |r: &ClientRow| -> (b: bool)
        ensures b == is_client(id)(r@)
        { r.client.id == id };
    any(rows, test, Ghost(is_client(id)))
}

/// The default first, the others by name in any case.
pub open spec fn default_then_name() -> spec_fn(ClientRowView, ClientRowView) -> bool {
    |a: ClientRowView, b: ClientRowView|
        (a.client.is_default && !b.client.is_default) || (a.client.is_default
            == b.client.is_default && text_le(lowered(a.client.name), lowered(b.client.name)))
}

pub open spec fn by_id() -> spec_fn(ClientRowView, ClientRowView) -> bool {
    |a: ClientRowView, b: ClientRowView| a.client.id <= b.client.id
}

fn show_all(rows: &Vec<ClientRow>) -> (out: Vec<DownloadClientRow>)
    ensures
        views(out@) == views(rows@).map_values(shown()),
{
    let make = |r: &ClientRow| -> (o: DownloadClientRow)
        ensures o@ == shown()(r@)
        { r.client.dup() };
    project(rows, make, Ghost(shown()), Ghost(|r: ClientRowView| true))
}

/// All clients, the default first, the others by name in any case.
pub fn list_all(db: &ClientStore) -> (out: Vec<DownloadClientRow>)
    ensures
        views(out@) == ordered(db@.rows, default_then_name()).map_values(shown()),
{
    let before = |a: &ClientRow, b: &ClientRow| -> (r: bool)
        ensures r == default_then_name()(a@, b@)
        {
            (a.client.is_default && !b.client.is_default) || (a.client.is_default
                == b.client.is_default && at_most_nocase(&a.client.name, &b.client.name))
        };
    let rows = order_by(dup_all(&db.rows), before, Ghost(default_then_name()));
    show_all(&rows)
}

/// The clients that are switched on, by id.
pub fn list_enabled(db: &ClientStore) -> (out: Vec<DownloadClientRow>)
    ensures
        views(out@) == ordered(db@.rows.filter(switched_on()), by_id()).map_values(shown()),
{
    let test = |r: &ClientRow| -> (b: bool)
        ensures b == switched_on()(r@)
        { r.client.enabled };
    let before = |a: &ClientRow, b: &ClientRow| -> (r: bool)
        ensures r == by_id()(a@, b@)
        { a.client.id <= b.client.id };
    let rows = order_by(select(&db.rows, test, Ghost(switched_on())), before, Ghost(by_id()));
    show_all(&rows)
}

/// The client with an id.
pub fn get_by_id(db: &ClientStore, id: i64) -> (r: Option<DownloadClientRow>)
    ensures
        optional_view(r) == db@.client(id),
{
    let test = |r: &ClientRow| -> (b: bool)
        ensures b == is_client(id)(r@)
        { r.client.id == id };
    match find_first(&db.rows, test, Ghost(is_client(id))) {
        Some(r) => Some(r.client),
        None => None,
    }
}

/// The default client, when there is one.
pub fn get_default(db: &ClientStore) -> (r: Option<DownloadClientRow>)
    ensures
        optional_view(r) == db@.default_client(),
{
    let test = |r: &ClientRow| -> (b: bool)
        ensures b == default_one()(r@)
        { r.client.is_default };
    match find_first(&db.rows, test, Ghost(default_one())) {
        Some(r) => Some(r.client),
        None => None,
    }
}

fn demote<F: Fn(&ClientRow) -> bool>(
    rows: &mut Vec<ClientRow>,
    test: F,
    Ghost(chosen): Ghost<spec_fn(ClientRowView) -> bool>,
)
    requires
        forall|t: &ClientRow| #[trigger] call_requires(test, (t,)),
        forall|t: &ClientRow, b: bool| #[trigger] call_ensures(test, (t,), b) ==> b == chosen(t@),
    ensures
        views(final(rows)@) == updated(views(old(rows)@), chosen, demoted()),
{
    let change = |r: ClientRow| -> (o: ClientRow)
        ensures o@ == demoted()(r@)
        { ClientRow { client: DownloadClientRow { is_default: false, ..r.client }, ..r } };
    let _n: usize = update_where(rows, test, change, Ghost(chosen), Ghost(demoted()));
}

/// Adds a client and gives its id. A new default takes the place of the one
/// there was.
pub fn insert(db: &mut ClientStore, form: DownloadClientForm<'_>, now: i64) -> (r: Result<
    i64,
    StoreError,
>)
    requires
        old(db)@.wf(),
    ensures
        r is Err <==> old(db)@.last_id == i64::MAX,
        r matches Err(e) ==> e == StoreError::Full && final(db)@ == old(db)@,
        r matches Ok(id) ==> id == old(db)@.last_id + 1 && final(db)@ == old(db)@.insert(
            id,
            form,
            now,
        ),
        final(db)@.wf(),
{
    if db.last_id == i64::MAX {
        return Err(StoreError::Full);
    }
    let id: i64 = db.last_id + 1;
    proof {
        crate::table::lemma_numbered_updated(
            db@.rows,
            row_id(),
            db.last_id,
            default_one(),
            demoted(),
        );
    }
    if form.is_default {
        let test = |r: &ClientRow| -> (b: bool)
            ensures b == default_one()(r@)
            { r.client.is_default };
        demote(&mut db.rows, test, Ghost(default_one()));
    }
    let row = ClientRow { client: describe(id, &form), updated_at: now };
    proof {
        crate::table::lemma_views_push(db.rows@, row);
        crate::table::lemma_numbered_push(views(db.rows@), row_id(), db.last_id, row@);
    }
    db.rows.push(row);
    db.last_id = id;
    Ok(id)
}

proof fn lemma_update_keeps_ids(
    db: ClientStoreView,
    id: i64,
    first: spec_fn(ClientRowView) -> bool,
    change: spec_fn(ClientRowView) -> ClientRowView,
)
    requires
        db.wf(),
        forall|v: ClientRowView| (#[trigger] change(v)).client.id == v.client.id,
    ensures
        numbered(updated(db.rows, is_client(id), change), row_id(), db.last_id),
        numbered(
            updated(updated(db.rows, first, demoted()), is_client(id), change),
            row_id(),
            db.last_id,
        ),
{
    crate::table::lemma_numbered_updated(db.rows, row_id(), db.last_id, is_client(id), change);
    crate::table::lemma_numbered_updated(db.rows, row_id(), db.last_id, first, demoted());
    crate::table::lemma_numbered_updated(
        updated(db.rows, first, demoted()),
        row_id(),
        db.last_id,
        is_client(id),
        change,
    );
}

/// Changes a client. One that becomes the default takes the place of the one
/// there was.
pub fn update(db: &mut ClientStore, id: i64, form: DownloadClientForm<'_>, now: i64)
    requires
        old(db)@.wf(),
    ensures
        final(db)@ == old(db)@.update(id, form, now),
        final(db)@.wf(),
{
    let ghost changed = edited(form, now);
    proof {
        lemma_update_keeps_ids(db@, id, other_default(id), changed);
    }
    if form.is_default {
        let other = |r: &ClientRow| -> (b: bool)
            ensures b == other_default(id)(r@)
            { r.client.is_default && r.client.id != id };
        demote(&mut db.rows, other, Ghost(other_default(id)));
    }
    let test = |r: &ClientRow| -> (b: bool)
        ensures b == is_client(id)(r@)
        { r.client.id == id };
    let change = |r: ClientRow| -> (o: ClientRow)
        ensures o@ == changed(r@)
        { ClientRow { client: describe(r.client.id, &form), updated_at: now } };
    let _n: usize = update_where(&mut db.rows, test, change, Ghost(is_client(id)), Ghost(changed));
}

/// Removes a client, and every mention of it: the indexers, the feeds, the
/// built-in search and the grabs that were with it are left without one of
/// their own.
pub fn delete(
    db: &mut ClientStore,
    indexers: &mut IndexerStore,
    config: &mut ConfigStore,
    grabs: &mut GrabStore,
    feeds: &mut FeedStore,
    id: i64,
)
    requires
        old(db)@.wf(),
        old(indexers)@.wf(),
        old(grabs)@.wf(),
        old(feeds)@.wf(),
    ensures
        final(indexers)@ == (IndexerStoreView {
            rows: updated(
                old(indexers)@.rows,
                indexers::uses_client(id),
                indexers::pinned_to(None),
            ),
            ..old(indexers)@
        }),
        final(config)@ == (ConfigStoreView {
            nyaa_download_client_id: if old(config)@.nyaa_download_client_id == Some(id) {
                None
            } else {
                old(config)@.nyaa_download_client_id
            },
            ..old(config)@
        }),
        final(grabs)@ == old(grabs)@.changed(
            grabbed_torrents::at_client(id),
            grabbed_torrents::with_client(None),
        ),
        final(feeds)@ == (FeedStoreView {
            feeds: updated(
                old(feeds)@.feeds,
                direct_rss_feeds::uses_client(id),
                direct_rss_feeds::unpinned(),
            ),
            ..old(feeds)@
        }),
        final(db)@ == (ClientStoreView { rows: without(old(db)@.rows, is_client(id)), ..old(db)@ }),
        final(db)@.wf(),
        final(indexers)@.wf(),
        final(grabs)@.wf(),
        final(feeds)@.wf(),
        forall|r: ClientRowView| #[trigger]
            final(db)@.rows.contains(r) <==> old(db)@.rows.contains(r) && r.client.id != id,
        forall|i: int|
            0 <= i < old(indexers)@.rows.len() ==> (#[trigger] final(indexers)@.rows[i]) == ({
                let r = old(indexers)@.rows[i];
                if r.download_client_id == Some(id) {
                    indexers::IndexerRowView { download_client_id: None, ..r }
                } else {
                    r
                }
            }),
        forall|i: int|
            0 <= i < old(grabs)@.rows.len() ==> (#[trigger] final(grabs)@.rows[i]) == ({
                let r = old(grabs)@.rows[i];
                if r.download_client_id == Some(id) {
                    grabbed_torrents::GrabRowView { download_client_id: None, ..r }
                } else {
                    r
                }
            }),
{
    proof {
        crate::table::lemma_without_contains(db@.rows, is_client(id));
    }
    indexers::forget_client(indexers, id);
    if config.nyaa_download_client_id == Some(id) {
        config.nyaa_download_client_id = None;
    }
    grabbed_torrents::forget_client(grabs, id);
    proof {
        crate::table::lemma_numbered_without(db@.rows, row_id(), db.last_id, is_client(id));
    }
    let test = |r: &ClientRow| -> (b: bool)
        ensures b == is_client(id)(r@)
        { r.client.id == id };
    let _n: usize = delete_where(&mut db.rows, test, Ghost(is_client(id)));
    direct_rss_feeds::forget_client(feeds, id);
}

/// Makes a client the default and no other.
pub fn set_default(db: &mut ClientStore, id: i64, now: i64)
    requires
        old(db)@.wf(),
    ensures
        final(db)@ == old(db)@.set_default(id, now),
        final(db)@.wf(),
{
    let ghost changed = promoted(now);
    proof {
        lemma_update_keeps_ids(db@, id, other_default(id), changed);
    }
    let other = |r: &ClientRow| -> (b: bool)
        ensures b == other_default(id)(r@)
        { r.client.is_default && r.client.id != id };
    demote(&mut db.rows, other, Ghost(other_default(id)));
    let test = |r: &ClientRow| -> (b: bool)
        ensures b == is_client(id)(r@)
        { r.client.id == id };
    let change = |r: ClientRow| -> (o: ClientRow)
        ensures o@ == changed(r@)
        {
            ClientRow {
                client: DownloadClientRow { is_default: true, ..r.client },
                updated_at: now,
            }
        };
    let _n: usize = update_where(&mut db.rows, test, change, Ghost(is_client(id)), Ghost(changed));
}

impl ClientStore {
    /// A store without clients.
    pub fn new() -> (db: ClientStore)
        ensures
            db@ == (ClientStoreView { rows: Seq::empty(), last_id: 0 }),
            db@.wf(),
            db@.one_default(),
    {
        let db = ClientStore { rows: Vec::new(), last_id: 0 };
        assert(db@.rows =~= Seq::<ClientRowView>::empty());
        db
    }

    /// Whether the store is as the rules leave it.
    pub fn check(&self) -> (r: bool)
        ensures
            r == self@.wf(),
    {
        let id_of = |r: &ClientRow| -> (n: i64)
            ensures n == row_id()(r@)
            { r.client.id };
        check_numbered(&self.rows, self.last_id, id_of, Ghost(row_id()))
    }
}

/// Adding a client leaves at most one default; a new default is the only one,
/// whatever there was before.
pub proof fn adding_keeps_one_default(
    db: ClientStoreView,
    id: i64,
    form: DownloadClientForm,
    now: i64,
)
    requires
        db.one_default() || form.is_default,
    ensures
        db.insert(id, form, now).one_default(),
        form.is_default ==> db.insert(id, form, now).default_client() == Some(described(id, form)),
{
    let after = db.insert(id, form, now).rows;
    let n = db.rows.len() as int;
    assert forall|i: int, j: int| 0 <= i < j < after.len() implies not_both_default()(
        #[trigger] after[i],
        #[trigger] after[j],
    ) by {
        if !form.is_default && j < n {
            assert(not_both_default()(db.rows[i], db.rows[j]));
        }
    }
    if form.is_default {
        crate::table::lemma_first_where(after, default_one(), n);
    }
}

/// Changing a client leaves at most one default.
pub proof fn changing_keeps_one_default(
    db: ClientStoreView,
    id: i64,
    form: DownloadClientForm,
    now: i64,
)
    requires
        db.wf(),
        db.one_default() || form.is_default,
    ensures
        db.update(id, form, now).one_default(),
{
    let after = db.update(id, form, now).rows;
    assert forall|i: int, j: int| 0 <= i < j < after.len() implies not_both_default()(
        #[trigger] after[i],
        #[trigger] after[j],
    ) by {
        assert(row_id()(db.rows[i]) != row_id()(db.rows[j]));
        if db.one_default() {
            assert(not_both_default()(db.rows[i], db.rows[j]));
        }
    }
}

/// A client that is made the default is the only one, whatever there was
/// before.
pub proof fn the_default_is_the_only_one(db: ClientStoreView, id: i64, now: i64)
    requires
        db.wf(),
    ensures
        db.set_default(id, now).one_default(),
        client_known(db.rows, id) ==> {
            &&& db.set_default(id, now).default_client() is Some
            &&& (db.set_default(id, now).default_client()->0).id == id
        },
{
    let after = db.set_default(id, now).rows;
    assert forall|i: int, j: int| 0 <= i < j < after.len() implies not_both_default()(
        #[trigger] after[i],
        #[trigger] after[j],
    ) by {
        assert(row_id()(db.rows[i]) != row_id()(db.rows[j]));
    }
    if client_known(db.rows, id) {
        let k = choose|k: int| 0 <= k < db.rows.len() && is_client(id)(#[trigger] db.rows[k]);
        assert forall|j: int| 0 <= j < k implies !default_one()(#[trigger] after[j]) by {
            assert(row_id()(db.rows[j]) != row_id()(db.rows[k]));
        }
        assert(default_one()(after[k]));
        crate::table::lemma_first_where(after, default_one(), k);
    }
}

/// Making a client the default again changes nothing but the time.
pub proof fn setting_the_default_again_changes_nothing(db: ClientStoreView, id: i64, now: i64)
    ensures
        db.set_default(id, now).set_default(id, now) == db.set_default(id, now),
{
    let once = db.set_default(id, now);
    let twice = once.set_default(id, now);
    assert forall|i: int| 0 <= i < db.rows.len() implies twice.rows[i] == once.rows[i] by {
        assert(twice.rows[i] =~= once.rows[i]);
    }
    assert(twice.rows =~= once.rows);
}

/// An added client is found as the user described it.
pub proof fn an_added_client_is_found(db: ClientStoreView, form: DownloadClientForm, now: i64)
    requires
        db.wf(),
        db.last_id < i64::MAX,
    ensures
        db.insert((db.last_id + 1) as i64, form, now).client((db.last_id + 1) as i64) == Some(
            described((db.last_id + 1) as i64, form),
        ),
{
    let id = (db.last_id + 1) as i64;
    let after = db.insert(id, form, now).rows;
    let n = db.rows.len() as int;
    assert forall|i: int| 0 <= i < n implies !is_client(id)(#[trigger] after[i]) by {
        assert(row_id()(db.rows[i]) <= db.last_id);
    }
    crate::table::lemma_first_where(after, is_client(id), n);
}

/// Nothing is with a client any more once it is removed.
pub proof fn a_removed_client_is_mentioned_nowhere(
    clients: ClientStoreView,
    indexers: IndexerStoreView,
    grabs: GrabStoreView,
    feeds: FeedStoreView,
    id: i64,
)
    ensures
        !client_known(without(clients.rows, is_client(id)), id),
        !any_where(
            updated(indexers.rows, indexers::uses_client(id), indexers::pinned_to(None)),
            indexers::uses_client(id),
        ),
        !any_where(
            grabs.changed(
                grabbed_torrents::at_client(id),
                grabbed_torrents::with_client(None),
            ).rows,
            grabbed_torrents::at_client(id),
        ),
        !any_where(
            updated(feeds.feeds, direct_rss_feeds::uses_client(id), direct_rss_feeds::unpinned()),
            direct_rss_feeds::uses_client(id),
        ),
{
    crate::table::lemma_first_where_gone(clients.rows, is_client(id), is_client(id));
    crate::table::lemma_first_where_any(without(clients.rows, is_client(id)), is_client(id));
}

/// A client is stored as the form describes it, with the white space round its
/// texts taken off, the slashes at the end of its path too, and its password
/// untouched.
pub proof fn a_client_is_described_by_its_form(id: i64, form: DownloadClientForm)
    ensures
        ({
            let c = described(id, form);
            &&& c.id == id
            &&& c.name == trimmed(form.name@)
            &&& c.kind == form.kind@
            &&& c.url == trimmed(form.url@)
            &&& c.username == trimmed(form.username@)
            &&& c.password == form.password@
            &&& c.label == trimmed(form.label@)
            &&& c.download_path == trimmed_end_of(trimmed(form.download_path@), '/')
            &&& c.enabled == form.enabled
            &&& c.is_default == form.is_default
        }),
{
}

/// A new client stands behind the others. They stay as they were, but that
/// none of them is the default where the new one is.
pub proof fn a_new_client_leaves_the_others(
    db: ClientStoreView,
    id: i64,
    form: DownloadClientForm,
    now: i64,
    i: int,
)
    requires
        0 <= i < db.rows.len(),
    ensures
        ({
            let after = db.insert(id, form, now);
            let was = db.rows[i];
            let c = after.rows[i].client;
            &&& after.rows.len() == db.rows.len() + 1
            &&& after.rows.last().client.id == id && after.rows.last().updated_at == now
            &&& after.rows.last().client.name == trimmed(form.name@) && after.rows.last().client.url
                == trimmed(form.url@) && after.rows.last().client.password == form.password@
            &&& after.rows.last().client.enabled == form.enabled
                && after.rows.last().client.is_default == form.is_default
            &&& after.rows[i].updated_at == was.updated_at
            &&& c.id == was.client.id && c.name == was.client.name && c.kind == was.client.kind
                && c.url == was.client.url && c.username == was.client.username && c.password
                == was.client.password && c.label == was.client.label && c.download_path
                == was.client.download_path && c.enabled == was.client.enabled
            &&& c.is_default <==> was.client.is_default && !form.is_default
        }),
{
}

/// A changed client is what the form describes, under the id it had, and the
/// others stay, but that none of them is the default where it is.
pub proof fn a_changed_client_is_what_the_form_says(
    db: ClientStoreView,
    id: i64,
    form: DownloadClientForm,
    now: i64,
    i: int,
)
    requires
        0 <= i < db.rows.len(),
    ensures
        ({
            let after = db.update(id, form, now);
            let was = db.rows[i];
            let c = after.rows[i].client;
            &&& after.rows.len() == db.rows.len() && after.last_id == db.last_id
            &&& was.client.id == id ==> {
                &&& after.rows[i].updated_at == now
                &&& c.id == id && c.name == trimmed(form.name@) && c.kind == form.kind@ && c.url
                    == trimmed(form.url@) && c.username == trimmed(form.username@) && c.password
                    == form.password@ && c.label == trimmed(form.label@) && c.enabled
                    == form.enabled && c.is_default == form.is_default
                &&& c.download_path == trimmed_end_of(trimmed(form.download_path@), '/')
            }
            &&& was.client.id != id ==> {
                &&& after.rows[i].updated_at == was.updated_at
                &&& c.id == was.client.id && c.name == was.client.name && c.kind
                    == was.client.kind && c.url == was.client.url && c.username
                    == was.client.username && c.password == was.client.password && c.label
                    == was.client.label && c.download_path == was.client.download_path
                    && c.enabled == was.client.enabled
                &&& c.is_default <==> was.client.is_default && !form.is_default
            }
        }),
{
}

/// Making a client the default changes that of each client and nothing else.
pub proof fn making_a_default_changes_nothing_else(
    db: ClientStoreView,
    id: i64,
    now: i64,
    i: int,
)
    requires
        0 <= i < db.rows.len(),
    ensures
        ({
            let after = db.set_default(id, now);
            let was = db.rows[i];
            let c = after.rows[i].client;
            &&& after.rows.len() == db.rows.len()
            &&& c.is_default <==> was.client.id == id
            &&& c == (DownloadClientRowView { is_default: c.is_default, ..was.client })
            &&& was.client.id == id ==> after.rows[i].updated_at == now
            &&& was.client.id != id ==> after.rows[i].updated_at == was.updated_at
        }),
{
}

proof fn lemma_default_then_name_total()
    ensures
        crate::table::total_preorder(default_then_name()),
{
    let before = default_then_name();
    assert forall|a: ClientRowView, b: ClientRowView| #[trigger] before(a, b) || before(b, a) by {
        crate::text::text_order_is_a_total_order(
            lowered(a.client.name),
            lowered(b.client.name),
            lowered(b.client.name),
        );
    }
    assert forall|a: ClientRowView, b: ClientRowView, c: ClientRowView| #[trigger]
        before(a, b) && #[trigger] before(b, c) implies before(a, c) by {
        crate::text::text_order_is_a_total_order(
            lowered(a.client.name),
            lowered(b.client.name),
            lowered(c.client.name),
        );
    }
}

/// The list holds every client: the default first, then by name without regard
/// to case.
pub proof fn clients_are_listed_default_first(db: ClientStoreView)
    ensures
        ({
            let list = ordered(db.rows, default_then_name()).map_values(shown());
            &&& list.len() == db.rows.len()
            &&& forall|i: int| 0 <= i < db.rows.len() ==> list.contains((#[trigger] db.rows[i]).client)
            &&& forall|j: int, k: int|
                0 <= j < k < list.len() ==> {
                    &&& (#[trigger] list[k]).is_default ==> (#[trigger] list[j]).is_default
                    &&& list[k].is_default == list[j].is_default ==> text_le(
                        lowered(list[j].name),
                        lowered(list[k].name),
                    )
                }
        }),
{
    let o = ordered(db.rows, default_then_name());
    let list = o.map_values(shown());
    lemma_default_then_name_total();
    crate::table::ordered_is_a_sorted_rearrangement(db.rows, default_then_name());
    crate::table::lemma_ordered_holds_all(db.rows, default_then_name());
    assert forall|i: int| 0 <= i < db.rows.len() implies list.contains(
        (#[trigger] db.rows[i]).client,
    ) by {
        assert(o.contains(db.rows[i]));
        let k = choose|k: int| 0 <= k < o.len() && o[k] == db.rows[i];
        assert(list[k] == db.rows[i].client);
    }
    assert forall|j: int, k: int| 0 <= j < k < list.len() implies {
        &&& (#[trigger] list[k]).is_default ==> (#[trigger] list[j]).is_default
        &&& list[k].is_default == list[j].is_default ==> text_le(
            lowered(list[j].name),
            lowered(list[k].name),
        )
    } by {
        assert(default_then_name()(o[j], o[k]));
    }
}

/// The list of clients in use holds those that are switched on, by id.
pub proof fn clients_in_use_are_switched_on(db: ClientStoreView, c: DownloadClientRowView)
    ensures
        ({
            let list = ordered(db.rows.filter(switched_on()), by_id()).map_values(shown());
            &&& list.contains(c) <==> c.enabled && exists|i: int|
                0 <= i < db.rows.len() && (#[trigger] db.rows[i]).client == c
            &&& forall|j: int, k: int|
                0 <= j < k < list.len() ==> (#[trigger] list[j]).id <= (#[trigger] list[k]).id
        }),
{
    let o = ordered(db.rows.filter(switched_on()), by_id());
    let list = o.map_values(shown());
    crate::table::lemma_listed(db.rows, switched_on(), by_id());
    if list.contains(c) {
        let k = choose|k: int| 0 <= k < list.len() && list[k] == c;
        assert(switched_on()(o[k]) && db.rows.contains(o[k]));
        let i = choose|i: int| 0 <= i < db.rows.len() && db.rows[i] == o[k];
        assert(db.rows[i].client == c);
    }
    if c.enabled && exists|i: int| 0 <= i < db.rows.len() && (#[trigger] db.rows[i]).client == c {
        let i = choose|i: int| 0 <= i < db.rows.len() && (#[trigger] db.rows[i]).client == c;
        assert(switched_on()(db.rows[i]));
        assert(o.contains(db.rows[i]));
        let k = choose|k: int| 0 <= k < o.len() && o[k] == db.rows[i];
        assert(list[k] == c);
    }
    assert forall|j: int, k: int| 0 <= j < k < list.len() implies (#[trigger] list[j]).id <= (
    #[trigger] list[k]).id by {
        assert(by_id()(o[j], o[k]));
    }
}

/// The default client is one that is marked so; there is none where none is.
pub proof fn the_default_client_is_marked(db: ClientStoreView, id: i64)
    ensures
        db.default_client() is Some <==> exists|i: int|
            0 <= i < db.rows.len() && (#[trigger] db.rows[i]).client.is_default,
        db.default_client() is Some ==> (db.default_client()->0).is_default,
        db.client(id) is Some <==> exists|i: int|
            0 <= i < db.rows.len() && (#[trigger] db.rows[i]).client.id == id,
        db.client(id) is Some ==> (db.client(id)->0).id == id,
{
    crate::table::lemma_first_where_any(db.rows, default_one());
    crate::table::lemma_first_where_any(db.rows, is_client(id));
    assert(any_where(db.rows, default_one()) <==> exists|i: int|
        0 <= i < db.rows.len() && (#[trigger] db.rows[i]).client.is_default);
    assert(any_where(db.rows, is_client(id)) <==> exists|i: int|
        0 <= i < db.rows.len() && (#[trigger] db.rows[i]).client.id == id);
}

} // verus!
