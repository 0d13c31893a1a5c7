//! Feeds that the user added by their address.
use crate::models::download_clients::{client_known, is_client_known, ClientRow, ClientRowView};
use crate::models::StoreError;
use crate::table::{
    any, any_where, check_numbered, delete_where, distinct, dup_all, every_pair, find_first,
    first_where, numbered, optional_view, order_by, ordered, select, update_where, updated, views,
    without, Dup,
};
use crate::text::{own, same};
use vstd::prelude::*;

verus! {

/// A feed.
#[derive(Debug)]
pub struct DirectRssFeed {
    pub id: i64,
    pub name: String,
    pub url: String,
    pub enabled: bool,
    /// The download client that gets its finds; the default one where there is none.
    pub download_client_id: Option<i64>,
    pub request_timeout_secs: Option<i64>,
    /// `torrent` or `usenet`; empty until the feed was read once.
    pub detected_protocol: String,
    pub last_polled_at: Option<i64>,
    /// Why the last reading failed; empty when it did not.
    pub last_poll_error: String,
    pub last_item_count: i32,
    pub created_at: i64,
    pub updated_at: i64,
}

/// The contents of a [`DirectRssFeed`].
#[verifier::ext_equal]
pub struct DirectRssFeedView {
    pub id: i64,
    pub name: Seq<char>,
    pub url: Seq<char>,
    pub enabled: bool,
    pub download_client_id: Option<i64>,
    pub request_timeout_secs: Option<i64>,
    pub detected_protocol: Seq<char>,
    pub last_polled_at: Option<i64>,
    pub last_poll_error: Seq<char>,
    pub last_item_count: i32,
    pub created_at: i64,
    pub updated_at: i64,
}

impl View for DirectRssFeed {
    type V = DirectRssFeedView;

    open spec fn view(&self) -> DirectRssFeedView {
        DirectRssFeedView {
            id: self.id,
            name: self.name@,
            url: self.url@,
            enabled: self.enabled,
            download_client_id: self.download_client_id,
            request_timeout_secs: self.request_timeout_secs,
            detected_protocol: self.detected_protocol@,
            last_polled_at: self.last_polled_at,
            last_poll_error: self.last_poll_error@,
            last_item_count: self.last_item_count,
            created_at: self.created_at,
            updated_at: self.updated_at,
        }
    }
}

impl Dup for DirectRssFeed {
    fn dup(&self) -> (copy: Self) {
        DirectRssFeed {
            id: self.id,
            name: self.name.clone(),
            url: self.url.clone(),
            enabled: self.enabled,
            download_client_id: self.download_client_id,
            request_timeout_secs: self.request_timeout_secs,
            detected_protocol: self.detected_protocol.clone(),
            last_polled_at: self.last_polled_at,
            last_poll_error: self.last_poll_error.clone(),
            last_item_count: self.last_item_count,
            created_at: self.created_at,
            updated_at: self.updated_at,
        }
    }
}

impl Clone for DirectRssFeed {
    fn clone(&self) -> (copy: Self)
        ensures
            copy@ == self@,
    {
        self.dup()
    }
}

/// What the user says of a feed.
#[derive(Debug, Clone, Copy)]
pub struct DirectRssFeedForm<'a> {
    pub name: &'a str,
    pub url: &'a str,
    pub enabled: bool,
    pub download_client_id: Option<i64>,
    pub request_timeout_secs: Option<i64>,
}

/// The feeds.
#[derive(Debug)]
pub struct FeedStore {
    pub feeds: Vec<DirectRssFeed>,
    /// The largest id given out so far.
    pub last_id: i64,
}

/// The contents of a [`FeedStore`].
#[verifier::ext_equal]
pub struct FeedStoreView {
    pub feeds: Seq<DirectRssFeedView>,
    pub last_id: i64,
}

impl View for FeedStore {
    type V = FeedStoreView;

    open spec fn view(&self) -> FeedStoreView {
        FeedStoreView { feeds: views(self.feeds@), last_id: self.last_id }
    }
}

pub open spec fn feed_id() -> spec_fn(DirectRssFeedView) -> i64 {
    |f: DirectRssFeedView| f.id
}

pub open spec fn feed_url() -> spec_fn(DirectRssFeedView) -> Seq<char> {
    |f: DirectRssFeedView| f.url
}

pub open spec fn is_feed(id: i64) -> spec_fn(DirectRssFeedView) -> bool {
    |f: DirectRssFeedView| f.id == id
}

pub open spec fn at_url(url: Seq<char>) -> spec_fn(DirectRssFeedView) -> bool {
    |f: DirectRssFeedView| f.url == url
}

pub open spec fn another_at(id: i64, url: Seq<char>) -> spec_fn(DirectRssFeedView) -> bool {
    |f: DirectRssFeedView| f.url == url && f.id != id
}

pub open spec fn switched_on() -> spec_fn(DirectRssFeedView) -> bool {
    |f: DirectRssFeedView| f.enabled
}

pub open spec fn by_id() -> spec_fn(DirectRssFeedView, DirectRssFeedView) -> bool {
    |a: DirectRssFeedView, b: DirectRssFeedView| a.id <= b.id
}

/// Whether the download client of a feed, if it has one, exists.
pub open spec fn client_fits(clients: Seq<ClientRowView>, id: Option<i64>) -> bool {
    id matches Some(c) ==> client_known(clients, c)
}

impl FeedStoreView {
    /// Feeds have ids and addresses of their own.
    pub open spec fn wf(self) -> bool {
        numbered(self.feeds, feed_id(), self.last_id) && distinct(self.feeds, feed_url())
    }

    /// The store with a new feed.
    pub open spec fn insert(
        self,
        clients: Seq<ClientRowView>,
        form: DirectRssFeedForm,
        now: i64,
    ) -> (FeedStoreView, Result<i64, StoreError>) {
        if self.last_id == i64::MAX {
            (self, Err(StoreError::Full))
        } else if any_where(self.feeds, at_url(form.url@)) {
            (self, Err(StoreError::Duplicate))
        } else if !client_fits(clients, form.download_client_id) {
            (self, Err(StoreError::MissingParent))
        } else {
            let id = (self.last_id + 1) as i64;
            (
                FeedStoreView { feeds: self.feeds.push(new_feed(id, form, now)), last_id: id },
                Ok(id),
            )
        }
    }

    /// The store with a feed changed. Nothing is refused for a feed that is
    /// not there.
    pub open spec fn update(
        self,
        clients: Seq<ClientRowView>,
        id: i64,
        form: DirectRssFeedForm,
        now: i64,
    ) -> (FeedStoreView, Result<(), StoreError>) {
        if !any_where(self.feeds, is_feed(id)) {
            (self, Ok(()))
        } else if any_where(self.feeds, another_at(id, form.url@)) {
            (self, Err(StoreError::Duplicate))
        } else if !client_fits(clients, form.download_client_id) {
            (self, Err(StoreError::MissingParent))
        } else {
            (
                FeedStoreView { feeds: updated(self.feeds, is_feed(id), edited(form, now)), ..self },
                Ok(()),
            )
        }
    }
}

/// A new feed, which was not read yet.
pub open spec fn new_feed(id: i64, form: DirectRssFeedForm, now: i64) -> DirectRssFeedView {
    DirectRssFeedView {
        id,
        name: form.name@,
        url: form.url@,
        enabled: form.enabled,
        download_client_id: form.download_client_id,
        request_timeout_secs: form.request_timeout_secs,
        detected_protocol: Seq::empty(),
        last_polled_at: None,
        last_poll_error: Seq::empty(),
        last_item_count: 0,
        created_at: now,
        updated_at: now,
    }
}

pub open spec fn edited(form: DirectRssFeedForm, now: i64) -> spec_fn(
    DirectRssFeedView,
) -> DirectRssFeedView {
    |f: DirectRssFeedView|
        DirectRssFeedView {
            name: form.name@,
            url: form.url@,
            enabled: form.enabled,
            download_client_id: form.download_client_id,
            request_timeout_secs: form.request_timeout_secs,
            updated_at: now,
            ..f
        }
}

fn sort_by_id(rows: Vec<DirectRssFeed>) -> (out: Vec<DirectRssFeed>)
    ensures
        views(out@) == ordered(views(rows@), by_id()),
{
    let before = |a: &DirectRssFeed, b: &DirectRssFeed| -> (r: bool)
        ensures r == by_id()(a@, b@)
        { a.id <= b.id };
    order_by(rows, before, Ghost(by_id()))
}

/// All feeds, by id.
pub fn list_all(db: &FeedStore) -> (out: Vec<DirectRssFeed>)
    ensures
        views(out@) == ordered(db@.feeds, by_id()),
{
    sort_by_id(dup_all(&db.feeds))
}

/// The feeds that are read, by id.
pub fn list_enabled(db: &FeedStore) -> (out: Vec<DirectRssFeed>)
    ensures
        views(out@) == ordered(db@.feeds.filter(switched_on()), by_id()),
{
    let test = |f: &DirectRssFeed| -> (b: bool)
        ensures b == switched_on()(f@)
        { f.enabled };
    sort_by_id(select(&db.feeds, test, Ghost(switched_on())))
}

/// The feed with an id.
pub fn get_by_id(db: &FeedStore, id: i64) -> (r: Option<DirectRssFeed>)
    ensures
        optional_view(r) == first_where(db@.feeds, is_feed(id)),
{
    let test = |f: &DirectRssFeed| -> (b: bool)
        ensures b == is_feed(id)(f@)
        { f.id == id };
    find_first(&db.feeds, test, Ghost(is_feed(id)))
}

fn client_fine(clients: &Vec<ClientRow>, id: Option<i64>) -> (r: bool)
    ensures
        r == client_fits(views(clients@), id),
{
    match id {
        Some(c) => is_client_known(clients, c),
        None => true,
    }
}

/// Adds a feed and gives its id. An address is read once only.
pub fn insert(
    db: &mut FeedStore,
    clients: &Vec<ClientRow>,
    form: DirectRssFeedForm<'_>,
    now: i64,
) -> (r: Result<i64, StoreError>)
    requires
        old(db)@.wf(),
    ensures
        (final(db)@, r) == old(db)@.insert(views(clients@), form, now),
        final(db)@.wf(),
{
    if db.last_id == i64::MAX {
        return Err(StoreError::Full);
    }
    let url = form.url;
    let ghost taken = at_url(form.url@);
    let test = |f: &DirectRssFeed| -> (b: bool)
        ensures b == taken(f@)
        { same(&f.url, url) };
    if any(&db.feeds, test, Ghost(taken)) {
        return Err(StoreError::Duplicate);
    }
    if !client_fine(clients, form.download_client_id) {
        return Err(StoreError::MissingParent);
    }
    let id: i64 = db.last_id + 1;
    let row = DirectRssFeed {
        id,
        name: own(form.name),
        url: own(form.url),
        enabled: form.enabled,
        download_client_id: form.download_client_id,
        request_timeout_secs: form.request_timeout_secs,
        detected_protocol: String::new(),
        last_polled_at: None,
        last_poll_error: String::new(),
        last_item_count: 0,
        created_at: now,
        updated_at: now,
    };
    proof {
        let feeds = db@.feeds;
        crate::table::lemma_views_push(db.feeds@, row);
        crate::table::lemma_numbered_push(feeds, feed_id(), db.last_id, row@);
        assert forall|i: int| 0 <= i < feeds.len() implies feed_url()(#[trigger] feeds[i])
            != feed_url()(row@) by {
            assert(!taken(feeds[i]));
        }
        crate::table::lemma_distinct_push(feeds, feed_url(), row@);
    }
    db.feeds.push(row);
    db.last_id = id;
    Ok(id)
}

/// Changes what the user says of a feed. What was learnt of it stays.
pub fn update(
    db: &mut FeedStore,
    clients: &Vec<ClientRow>,
    id: i64,
    form: DirectRssFeedForm<'_>,
    now: i64,
) -> (r: Result<(), StoreError>)
    requires
        old(db)@.wf(),
    ensures
        (final(db)@, r) == old(db)@.update(views(clients@), id, form, now),
        final(db)@.wf(),
{
    let here = |f: &DirectRssFeed| -> (b: bool)
        ensures b == is_feed(id)(f@)
        { f.id == id };
    if !any(&db.feeds, here, Ghost(is_feed(id))) {
        return Ok(());
    }
    let url = form.url;
    let ghost taken = another_at(id, form.url@);
    let other = |f: &DirectRssFeed| -> (b: bool)
        ensures b == taken(f@)
        { same(&f.url, url) && f.id != id };
    if any(&db.feeds, other, Ghost(taken)) {
        return Err(StoreError::Duplicate);
    }
    if !client_fine(clients, form.download_client_id) {
        return Err(StoreError::MissingParent);
    }
    let ghost feeds = db@.feeds;
    let ghost change = edited(form, now);
    let ghost after = updated(feeds, is_feed(id), change);
    proof {
        crate::table::lemma_numbered_updated(feeds, feed_id(), db.last_id, is_feed(id), change);
        assert forall|i: int, j: int| 0 <= i < j < after.len() implies feed_url()(
            #[trigger] after[i],
        ) != feed_url()(#[trigger] after[j]) by {
            assert(feed_url()(feeds[i]) != feed_url()(feeds[j]));
            assert(feed_id()(feeds[i]) != feed_id()(feeds[j]));
            assert(!taken(feeds[i]) && !taken(feeds[j]));
        }
    }
    let again = |f: &DirectRssFeed| -> (b: bool)
        ensures b == is_feed(id)(f@)
        { f.id == id };
    let make = |f: DirectRssFeed| -> (o: DirectRssFeed)
        ensures o@ == change(f@)
        {
            DirectRssFeed {
                name: own(form.name),
                url: own(form.url),
                enabled: form.enabled,
                download_client_id: form.download_client_id,
                request_timeout_secs: form.request_timeout_secs,
                updated_at: now,
                ..f
            }
        };
    let _n: usize = update_where(&mut db.feeds, again, make, Ghost(is_feed(id)), Ghost(change));
    Ok(())
}

/// Removes a feed.
pub fn delete(db: &mut FeedStore, id: i64)
    requires
        old(db)@.wf(),
    ensures
        final(db)@ == (FeedStoreView { feeds: without(old(db)@.feeds, is_feed(id)), ..old(db)@ }),
        final(db)@.wf(),
        forall|r: DirectRssFeedView| #[trigger]
            final(db)@.feeds.contains(r) <==> old(db)@.feeds.contains(r) && !(r.id == id),
{
    proof {
        crate::table::lemma_without_contains(db@.feeds, is_feed(id));
    }
    proof {
        crate::table::lemma_numbered_without(db@.feeds, feed_id(), db.last_id, is_feed(id));
        crate::table::lemma_without_distinct(db@.feeds, is_feed(id), feed_url());
    }
    let test = |f: &DirectRssFeed| -> (b: bool)
        ensures b == is_feed(id)(f@)
        { f.id == id };
    let _n: usize = delete_where(&mut db.feeds, test, Ghost(is_feed(id)));
}

fn change_feed<F: Fn(&DirectRssFeed) -> bool, G: Fn(DirectRssFeed) -> DirectRssFeed>(
    db: &mut FeedStore,
    test: F,
    change: G,
    Ghost(chosen): Ghost<spec_fn(DirectRssFeedView) -> bool>,
    Ghost(changed): Ghost<spec_fn(DirectRssFeedView) -> DirectRssFeedView>,
)
    requires
        old(db)@.wf(),
        forall|v: DirectRssFeedView|
            (#[trigger] changed(v)).id == v.id && changed(v).url == v.url,
        forall|t: &DirectRssFeed| #[trigger] call_requires(test, (t,)),
        forall|t: &DirectRssFeed, b: bool| #[trigger]
            call_ensures(test, (t,), b) ==> b == chosen(t@),
        forall|t: DirectRssFeed| #[trigger] call_requires(change, (t,)),
        forall|t: DirectRssFeed, r: DirectRssFeed| #[trigger]
            call_ensures(change, (t,), r) ==> r@ == changed(t@),
    ensures
        final(db)@ == (FeedStoreView {
            feeds: updated(old(db)@.feeds, chosen, changed),
            ..old(db)@
        }),
        final(db)@.wf(),
{
    proof {
        crate::table::lemma_numbered_updated(db@.feeds, feed_id(), db.last_id, chosen, changed);
        crate::table::lemma_distinct_updated(db@.feeds, feed_url(), chosen, changed);
    }
    let _n: usize = update_where(&mut db.feeds, test, change, Ghost(chosen), Ghost(changed));
}

pub open spec fn detected(protocol: Seq<char>, now: i64) -> spec_fn(
    DirectRssFeedView,
) -> DirectRssFeedView {
    |f: DirectRssFeedView| DirectRssFeedView { detected_protocol: protocol, updated_at: now, ..f }
}

/// Keeps which kind of finds a feed has.
pub fn set_detected_protocol(db: &mut FeedStore, id: i64, protocol: &str, now: i64)
    requires
        old(db)@.wf(),
    ensures
        final(db)@ == (FeedStoreView {
            feeds: updated(old(db)@.feeds, is_feed(id), detected(protocol@, now)),
            ..old(db)@
        }),
        final(db)@.wf(),
        final(db)@.feeds.len() == old(db)@.feeds.len(),
        forall|i: int|
            0 <= i < old(db)@.feeds.len() ==> (#[trigger] final(db)@.feeds[i]) == ({
                let r = old(db)@.feeds[i];
                if r.id == id {
                    DirectRssFeedView { detected_protocol: protocol@, updated_at: now, ..r }
                } else {
                    r
                }
            }),
{
    let ghost changed = detected(protocol@, now);
    let test = |f: &DirectRssFeed| -> (b: bool)
        ensures b == is_feed(id)(f@)
        { f.id == id };
    let change = |f: DirectRssFeed| -> (o: DirectRssFeed)
        ensures o@ == changed(f@)
        { DirectRssFeed { detected_protocol: own(protocol), updated_at: now, ..f } };
    change_feed(db, test, change, Ghost(is_feed(id)), Ghost(changed));
}

/// How a reading went. One that failed found nothing.
pub open spec fn polled(item_count: i32, error: Seq<char>, now: i64) -> spec_fn(
    DirectRssFeedView,
) -> DirectRssFeedView {
    |f: DirectRssFeedView|
        DirectRssFeedView {
            last_polled_at: Some(now),
            last_poll_error: error,
            last_item_count: if error.len() == 0 {
                item_count
            } else {
                0
            },
            ..f
        }
}

/// Keeps how a reading of a feed went: how many items it found, or why it
/// failed.
pub fn record_poll_metrics(db: &mut FeedStore, id: i64, item_count: i32, error: &str, now: i64)
    requires
        old(db)@.wf(),
    ensures
        final(db)@ == (FeedStoreView {
            feeds: updated(old(db)@.feeds, is_feed(id), polled(item_count, error@, now)),
            ..old(db)@
        }),
        final(db)@.wf(),
        final(db)@.feeds.len() == old(db)@.feeds.len(),
        forall|i: int|
            0 <= i < old(db)@.feeds.len() ==> (#[trigger] final(db)@.feeds[i]) == ({
                let r = old(db)@.feeds[i];
                if r.id == id {
                    DirectRssFeedView {
                        last_polled_at: Some(now),
                        last_poll_error: error@,
                        last_item_count: if error@.len() == 0 {
                            item_count
                        } else {
                            0
                        },
                        ..r
                    }
                } else {
                    r
                }
            }),
{
    let ghost changed = polled(item_count, error@, now);
    let found: i32 = if error.is_empty() {
        item_count
    } else {
        0
    };
    let test = |f: &DirectRssFeed| -> (b: bool)
        ensures b == is_feed(id)(f@)
        { f.id == id };
    let change = |f: DirectRssFeed| -> (o: DirectRssFeed)
        ensures o@ == changed(f@)
        {
            DirectRssFeed {
                last_polled_at: Some(now),
                last_poll_error: own(error),
                last_item_count: found,
                ..f
            }
        };
    change_feed(db, test, change, Ghost(is_feed(id)), Ghost(changed));
}

pub open spec fn uses_client(client_id: i64) -> spec_fn(DirectRssFeedView) -> bool {
    |f: DirectRssFeedView| f.download_client_id == Some(client_id)
}

pub open spec fn unpinned() -> spec_fn(DirectRssFeedView) -> DirectRssFeedView {
    |f: DirectRssFeedView| DirectRssFeedView { download_client_id: None, ..f }
}

/// Leaves the feeds of a download client without one of their own.
pub fn forget_client(db: &mut FeedStore, client_id: i64)
    requires
        old(db)@.wf(),
    ensures
        final(db)@ == (FeedStoreView {
            feeds: updated(old(db)@.feeds, uses_client(client_id), unpinned()),
            ..old(db)@
        }),
        final(db)@.wf(),
        final(db)@.feeds.len() == old(db)@.feeds.len(),
        forall|i: int|
            0 <= i < old(db)@.feeds.len() ==> (#[trigger] final(db)@.feeds[i]) == ({
                let r = old(db)@.feeds[i];
                if r.download_client_id == Some(client_id) {
                    DirectRssFeedView { download_client_id: None, ..r }
                } else {
                    r
                }
            }),
{
    let test = |f: &DirectRssFeed| -> (b: bool)
        ensures b == uses_client(client_id)(f@)
        { f.download_client_id == Some(client_id) };
    let change = |f: DirectRssFeed| -> (o: DirectRssFeed)
        ensures o@ == unpinned()(f@)
        { DirectRssFeed { download_client_id: None, ..f } };
    change_feed(db, test, change, Ghost(uses_client(client_id)), Ghost(unpinned()));
}

impl FeedStore {
    /// A store without feeds.
    pub fn new() -> (db: FeedStore)
        ensures
            db@ == (FeedStoreView { feeds: Seq::empty(), last_id: 0 }),
            db@.wf(),
    {
        let db = FeedStore { feeds: Vec::new(), last_id: 0 };
        assert(db@.feeds =~= Seq::<DirectRssFeedView>::empty());
        db
    }

    /// Whether the store is as the rules leave it.
    pub fn check(&self) -> (r: bool)
        ensures
            r == self@.wf(),
    {
        let id_of = |f: &DirectRssFeed| -> (n: i64)
            ensures n == feed_id()(f@)
            { f.id };
        let ghost urls = |a: DirectRssFeedView, b: DirectRssFeedView| a.url != b.url;
        let other_url = |a: &DirectRssFeed, b: &DirectRssFeed| -> (r: bool)
            ensures r == urls(a@, b@)
            { !same(&a.url, &b.url) };
        let a: bool = check_numbered(&self.feeds, self.last_id, id_of, Ghost(feed_id()));
        let b: bool = every_pair(&self.feeds, other_url, Ghost(urls));
        assert(b == distinct(self@.feeds, feed_url()));
        a && b
    }
}

/// An added feed is found, not read yet.
pub proof fn an_added_feed_is_found(
    db: FeedStoreView,
    clients: Seq<ClientRowView>,
    form: DirectRssFeedForm,
    now: i64,
)
    requires
        db.wf(),
        db.insert(clients, form, now).1 is Ok,
    ensures
        ({
            let (after, r) = db.insert(clients, form, now);
            first_where(after.feeds, is_feed(r->Ok_0)) == Some(new_feed(r->Ok_0, form, now))
        }),
{
    let (after, r) = db.insert(clients, form, now);
    let n = db.feeds.len() as int;
    assert forall|i: int| 0 <= i < n implies !is_feed(r->Ok_0)(#[trigger] after.feeds[i]) by {
        assert(after.feeds[i] == db.feeds[i]);
        assert(feed_id()(db.feeds[i]) <= db.last_id);
    }
    crate::table::lemma_first_where(after.feeds, is_feed(r->Ok_0), n);
}

/// A change by the user leaves what was learnt of the feed as it is.
pub proof fn an_edit_keeps_what_was_learnt(f: DirectRssFeedView, form: DirectRssFeedForm, now: i64)
    ensures
        edited(form, now)(f).detected_protocol == f.detected_protocol,
        edited(form, now)(f).last_polled_at == f.last_polled_at,
        edited(form, now)(f).last_poll_error == f.last_poll_error,
        edited(form, now)(f).last_item_count == f.last_item_count,
{
}

/// A feed is added where its address is free and its client is there, with
/// everything that the form says and nothing learnt; the others stay.
pub proof fn a_new_feed_is_what_the_form_says(
    db: FeedStoreView,
    clients: Seq<ClientRowView>,
    form: DirectRssFeedForm,
    now: i64,
)
    requires
        db.wf(),
        db.last_id < i64::MAX,
    ensures
        ({
            let (after, r) = db.insert(clients, form, now);
            let taken = exists|i: int|
                0 <= i < db.feeds.len() && (#[trigger] db.feeds[i]).url == form.url@;
            let fits = form.download_client_id is None || exists|i: int|
                0 <= i < clients.len() && (#[trigger] clients[i]).client.id
                    == form.download_client_id->0;
            &&& r is Ok <==> !taken && fits
            &&& taken ==> r == Err::<i64, StoreError>(StoreError::Duplicate)
            &&& !taken && !fits ==> r == Err::<i64, StoreError>(StoreError::MissingParent)
            &&& r is Err ==> after == db
            &&& r matches Ok(id) ==> {
                let f = after.feeds.last();
                &&& after.feeds.len() == db.feeds.len() + 1
                &&& forall|i: int|
                    0 <= i < db.feeds.len() ==> #[trigger] after.feeds[i] == db.feeds[i]
                        && db.feeds[i].id < id
                &&& f.id == id && f.name == form.name@ && f.url == form.url@ && f.enabled
                    == form.enabled && f.download_client_id == form.download_client_id
                    && f.request_timeout_secs == form.request_timeout_secs
                &&& f.detected_protocol.len() == 0 && f.last_polled_at is None
                    && f.last_poll_error.len() == 0 && f.last_item_count == 0
                &&& f.created_at == now && f.updated_at == now
            }
        }),
{
    let (after, r) = db.insert(clients, form, now);
    assert(any_where(db.feeds, at_url(form.url@)) <==> exists|i: int|
        0 <= i < db.feeds.len() && (#[trigger] db.feeds[i]).url == form.url@);
    if form.download_client_id is Some {
        let c = form.download_client_id->0;
        assert(client_known(clients, c) <==> exists|i: int|
            0 <= i < clients.len() && (#[trigger] clients[i]).client.id == c);
    }
    if r is Ok {
        assert forall|i: int| 0 <= i < db.feeds.len() implies #[trigger] after.feeds[i]
            == db.feeds[i] && db.feeds[i].id < r->Ok_0 by {
            assert(feed_id()(db.feeds[i]) <= db.last_id);
        }
    }
}

/// A feed that was changed is what the form says now, under the id it had;
/// what was learnt of it and when it was added stay, and so do the others.
pub proof fn a_changed_feed_is_what_the_form_says(
    db: FeedStoreView,
    clients: Seq<ClientRowView>,
    id: i64,
    form: DirectRssFeedForm,
    now: i64,
    i: int,
)
    requires
        0 <= i < db.feeds.len(),
        db.update(clients, id, form, now).1 is Ok,
    ensures
        ({
            let after = db.update(clients, id, form, now).0;
            let was = db.feeds[i];
            let f = after.feeds[i];
            &&& after.feeds.len() == db.feeds.len()
            &&& was.id != id ==> f == was
            &&& was.id == id ==> {
                &&& f.id == id && f.name == form.name@ && f.url == form.url@ && f.enabled
                    == form.enabled && f.download_client_id == form.download_client_id
                    && f.request_timeout_secs == form.request_timeout_secs && f.updated_at == now
                &&& f.detected_protocol == was.detected_protocol && f.last_polled_at
                    == was.last_polled_at && f.last_poll_error == was.last_poll_error
                    && f.last_item_count == was.last_item_count && f.created_at == was.created_at
            }
        }),
{
    if db.feeds[i].id == id {
        assert(is_feed(id)(db.feeds[i]));
    }
}

/// A change is refused where another feed has the address or the client is not
/// there; of a feed that is not there nothing is changed.
pub proof fn a_feed_change_needs_a_free_address(
    db: FeedStoreView,
    clients: Seq<ClientRowView>,
    id: i64,
    form: DirectRssFeedForm,
    now: i64,
)
    ensures
        ({
            let (after, r) = db.update(clients, id, form, now);
            let there = exists|i: int| 0 <= i < db.feeds.len() && (#[trigger] db.feeds[i]).id == id;
            let taken = exists|i: int|
                0 <= i < db.feeds.len() && (#[trigger] db.feeds[i]).url == form.url@
                    && db.feeds[i].id != id;
            let fits = form.download_client_id is None || exists|i: int|
                0 <= i < clients.len() && (#[trigger] clients[i]).client.id
                    == form.download_client_id->0;
            &&& !there ==> r is Ok && after == db
            &&& there && taken ==> r == Err::<(), StoreError>(StoreError::Duplicate) && after == db
            &&& there && !taken && !fits ==> r == Err::<(), StoreError>(StoreError::MissingParent)
                && after == db
            &&& there && !taken && fits ==> r is Ok
        }),
{
    assert(any_where(db.feeds, is_feed(id)) <==> exists|i: int|
        0 <= i < db.feeds.len() && (#[trigger] db.feeds[i]).id == id);
    assert(any_where(db.feeds, another_at(id, form.url@)) <==> exists|i: int|
        0 <= i < db.feeds.len() && (#[trigger] db.feeds[i]).url == form.url@ && db.feeds[i].id
            != id);
    if form.download_client_id is Some {
        let c = form.download_client_id->0;
        assert(client_known(clients, c) <==> exists|i: int|
            0 <= i < clients.len() && (#[trigger] clients[i]).client.id == c);
    }
}

/// The feeds are listed by id; those in use are the ones that are switched on.
pub proof fn feeds_are_listed_by_id(db: FeedStoreView, f: DirectRssFeedView)
    ensures
        ordered(db.feeds, by_id()).len() == db.feeds.len(),
        db.feeds.contains(f) ==> ordered(db.feeds, by_id()).contains(f),
        forall|j: int, k: int|
            0 <= j < k < ordered(db.feeds, by_id()).len() ==> (#[trigger] ordered(
                db.feeds,
                by_id(),
            )[j]).id <= (#[trigger] ordered(db.feeds, by_id())[k]).id,
        ordered(db.feeds.filter(switched_on()), by_id()).contains(f) <==> db.feeds.contains(f)
            && f.enabled,
{
    let all = ordered(db.feeds, by_id());
    let o = ordered(db.feeds.filter(switched_on()), by_id());
    crate::table::ordered_is_a_sorted_rearrangement(db.feeds, by_id());
    crate::table::lemma_ordered_holds_all(db.feeds, by_id());
    crate::table::lemma_listed(db.feeds, switched_on(), by_id());
    assert forall|j: int, k: int| 0 <= j < k < all.len() implies (#[trigger] all[j]).id <= (
    #[trigger] all[k]).id by {
        assert(by_id()(all[j], all[k]));
    }
    if db.feeds.contains(f) {
        let i = choose|i: int| 0 <= i < db.feeds.len() && db.feeds[i] == f;
        assert(all.contains(db.feeds[i]));
        if f.enabled {
            assert(switched_on()(db.feeds[i]));
            assert(o.contains(db.feeds[i]));
        }
    }
    if o.contains(f) {
        let k = choose|k: int| 0 <= k < o.len() && o[k] == f;
        assert(switched_on()(o[k]));
    }
}

} // verus!
