//! Which download client gets a grab.
use crate::models::indexers::{is_indexer, IndexerRow, IndexerRowView};
use crate::table::{find_first, first_where, views};
use std::collections::HashMap;
use vstd::prelude::*;

verus! {

broadcast use vstd::std_specs::hash::group_hash_axioms;

/// The download clients that are at hand, by id, and the id of the default.
pub struct DownloadClientPool<C> {
    pub clients: HashMap<i64, C>,
    pub default_id: Option<i64>,
}

impl<C> Default for DownloadClientPool<C> {
    /// A pool without clients.
    fn default() -> (pool: Self)
        ensures
            pool.clients@ == Map::<i64, C>::empty(),
            pool.default_id is None,
    {
        DownloadClientPool { clients: HashMap::new(), default_id: None }
    }
}

/// The client that gets a grab: the one it is pinned to, when that is at hand;
/// otherwise the default, when that is.
pub open spec fn resolved<C>(clients: Map<i64, C>, default_id: Option<i64>, pin: Option<i64>) -> Option<
    i64,
> {
    if pin is Some && clients.contains_key(pin->0) {
        pin
    } else if default_id is Some && clients.contains_key(default_id->0) {
        default_id
    } else {
        None
    }
}

/// The client that an indexer is pinned to.
pub open spec fn pin_of(indexers: Seq<IndexerRowView>, indexer_id: Option<i64>) -> Option<i64> {
    match indexer_id {
        Some(id) => match first_where(indexers, is_indexer(id)) {
            Some(r) => r.download_client_id,
            None => None,
        },
        None => None,
    }
}

/// Whether the client with its id is the one in the pool with `id`; none where
/// there is no such id.
pub open spec fn is_client_of<C>(
    found: Option<(&C, i64)>,
    clients: Map<i64, C>,
    id: Option<i64>,
) -> bool {
    match (found, id) {
        (Some(f), Some(i)) => f.1 == i && clients.contains_key(i) && *f.0 == clients[i],
        (None, None) => true,
        _ => false,
    }
}

/// Whether the client is the one in the pool with `id`; none where there is no
/// such id.
pub open spec fn is_client<C>(found: Option<&C>, clients: Map<i64, C>, id: Option<i64>) -> bool {
    match (found, id) {
        (Some(f), Some(i)) => clients.contains_key(i) && *f == clients[i],
        (None, None) => true,
        _ => false,
    }
}

impl<C> DownloadClientPool<C> {
    pub open spec fn route(&self, pin: Option<i64>) -> Option<i64> {
        resolved(self.clients@, self.default_id, pin)
    }

    fn resolve(&self, pin: Option<i64>) -> (found: Option<(&C, i64)>)
        ensures
            is_client_of(found, self.clients@, self.route(pin)),
    {
        match pin {
            Some(id) => match self.clients.get(&id) {
                Some(c) => {
                    return Some((c, id));
                },
                None => {},
            },
            None => {},
        }
        match self.default_id {
            Some(id) => match self.clients.get(&id) {
                Some(c) => Some((c, id)),
                None => None,
            },
            None => None,
        }
    }

    /// The client for a find of an indexer, with its id: the one the indexer
    /// is pinned to, or the default.
    pub fn client_for_indexer_with_id(
        &self,
        indexers: &Vec<IndexerRow>,
        indexer_id: Option<i64>,
    ) -> (found: Option<(&C, i64)>)
        ensures
            is_client_of(found, self.clients@, self.route(pin_of(views(indexers@), indexer_id))),
    {
        let pin: Option<i64> = match indexer_id {
            Some(id) => {
                let test = |r: &IndexerRow| -> (b: bool)
                    ensures b == is_indexer(id)(r@)
                    { r.indexer.id == id };
                match find_first(indexers, test, Ghost(is_indexer(id))) {
                    Some(r) => r.download_client_id,
                    None => None,
                }
            },
            None => None,
        };
        self.resolve(pin)
    }

    /// The client for a find of an indexer.
    pub fn client_for_indexer(
        &self,
        indexers: &Vec<IndexerRow>,
        indexer_id: Option<i64>,
    ) -> (found: Option<&C>)
        ensures
            is_client(found, self.clients@, self.route(pin_of(views(indexers@), indexer_id))),
    {
        match self.client_for_indexer_with_id(indexers, indexer_id) {
            Some(f) => Some(f.0),
            None => None,
        }
    }

    /// The client for a find of the built-in search, with its id: the one the
    /// search is pinned to, or the default.
    pub fn client_for_nyaa_with_id(&self, nyaa_pin: Option<i64>) -> (found: Option<(&C, i64)>)
        ensures
            is_client_of(found, self.clients@, self.route(nyaa_pin)),
    {
        self.resolve(nyaa_pin)
    }

    /// The client for a find of the built-in search.
    pub fn client_for_nyaa(&self, nyaa_pin: Option<i64>) -> (found: Option<&C>)
        ensures
            is_client(found, self.clients@, self.route(nyaa_pin)),
    {
        match self.client_for_nyaa_with_id(nyaa_pin) {
            Some(f) => Some(f.0),
            None => None,
        }
    }

    /// The default client with its id.
    pub fn default_download_client_with_id(&self) -> (found: Option<(&C, i64)>)
        ensures
            is_client_of(found, self.clients@, self.route(None)),
    {
        self.resolve(None)
    }

    /// The default client.
    pub fn default_download_client(&self) -> (found: Option<&C>)
        ensures
            is_client(found, self.clients@, self.route(None)),
    {
        match self.default_download_client_with_id() {
            Some(f) => Some(f.0),
            None => None,
        }
    }

    /// The client with an id, when it is at hand.
    pub fn client_by_id(&self, id: i64) -> (found: Option<&C>)
        ensures
            is_client(
                found,
                self.clients@,
                if self.clients@.contains_key(id) {
                    Some(id)
                } else {
                    None
                },
            ),
    {
        self.clients.get(&id)
    }
}

/// A grab goes to the client it is pinned to while that is at hand, whatever
/// the default is.
pub proof fn a_pin_comes_first<C>(
    clients: Map<i64, C>,
    default_id: Option<i64>,
    other_default: Option<i64>,
    pin: i64,
)
    requires
        clients.contains_key(pin),
    ensures
        resolved(clients, default_id, Some(pin)) == Some(pin),
        resolved(clients, other_default, Some(pin)) == Some(pin),
{
}

/// A pin to a client that is not at hand is the same as none.
pub proof fn a_lost_pin_falls_back<C>(clients: Map<i64, C>, default_id: Option<i64>, pin: i64)
    requires
        !clients.contains_key(pin),
    ensures
        resolved(clients, default_id, Some(pin)) == resolved(clients, default_id, None),
{
}

/// A grab never goes to a client that is not at hand.
pub proof fn a_grab_goes_to_a_client_at_hand<C>(
    clients: Map<i64, C>,
    default_id: Option<i64>,
    pin: Option<i64>,
)
    ensures
        resolved(clients, default_id, pin) matches Some(id) ==> clients.contains_key(id),
{
}

/// Without a pin a grab goes to the default client, where it is at hand, and
/// nowhere where it is not.
pub proof fn without_a_pin_the_default_is_taken<C>(
    clients: Map<i64, C>,
    default_id: Option<i64>,
    pin: Option<i64>,
)
    ensures
        default_id is Some && clients.contains_key(default_id->0) ==> resolved(
            clients,
            default_id,
            None,
        ) == default_id,
        default_id is None || !clients.contains_key(default_id->0) ==> resolved(
            clients,
            default_id,
            None,
        ) is None,
        resolved(clients, default_id, pin) is None <==> (pin is None || !clients.contains_key(
            pin->0,
        )) && (default_id is None || !clients.contains_key(default_id->0)),
{
}

/// The pin of an indexer is the client that its row names; without an indexer
/// there is none.
pub proof fn a_pin_is_the_one_of_its_indexer(indexers: Seq<IndexerRowView>, i: int)
    requires
        0 <= i < indexers.len(),
        forall|k: int|
            0 <= k < i ==> (#[trigger] indexers[k]).indexer.id != indexers[i].indexer.id,
    ensures
        pin_of(indexers, Some(indexers[i].indexer.id)) == indexers[i].download_client_id,
        pin_of(indexers, None) is None,
{
    crate::table::lemma_first_where(indexers, is_indexer(indexers[i].indexer.id), i);
}

} // verus!
