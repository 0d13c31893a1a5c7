//! The series of the library with everything that is kept of them.
use crate::models::artwork_cache::{self, ArtworkStore, ArtworkStoreView};
use crate::models::episode_airings::{self, AiringRowView, AiringStore};
use crate::models::episode_tags::{self, TagStore, TagStoreView};
use crate::models::grabbed_torrents::{self, GrabStore, GrabStoreView};
use crate::models::local_metadata::{
    episode_key, episodes_of, owned_by, relation_keys, EpisodeRow, EpisodeRowView, RelationRow,
    RelationRowView,
};
use crate::models::metadata_cache::{self, MetadataStore, MetadataStoreView};
use crate::models::rss::{self, RssStore, RssStoreView, SeenRow};
use crate::models::series::{has_id, is_known, known, SeriesRow, SeriesRowView};
use crate::models::StoreError;
use crate::table::{any, any_where, delete_where, distinct, every_pair, updated, views, without};
use crate::text::same;
use vstd::prelude::*;

verus! {

/// The series and what is kept of them.
#[derive(Debug)]
pub struct Library {
    pub series: Vec<SeriesRow>,
    pub grabs: GrabStore,
    pub tags: TagStore,
    pub rss: RssStore,
    pub airings: AiringStore,
    pub artwork: ArtworkStore,
    pub metadata: MetadataStore,
    /// The relations of the series to other works.
    pub relations: Vec<RelationRow>,
    /// What is known of their episodes.
    pub episodes: Vec<EpisodeRow>,
}

/// The contents of a [`Library`].
#[verifier::ext_equal]
pub struct LibraryView {
    pub series: Seq<SeriesRowView>,
    pub grabs: GrabStoreView,
    pub tags: TagStoreView,
    pub rss: RssStoreView,
    pub airings: Seq<AiringRowView>,
    pub artwork: ArtworkStoreView,
    pub metadata: MetadataStoreView,
    pub relations: Seq<RelationRowView>,
    pub episodes: Seq<EpisodeRowView>,
}

impl View for Library {
    type V = LibraryView;

    open spec fn view(&self) -> LibraryView {
        LibraryView {
            series: views(self.series@),
            grabs: self.grabs@,
            tags: self.tags@,
            rss: self.rss@,
            airings: self.airings@,
            artwork: self.artwork@,
            metadata: self.metadata@,
            relations: views(self.relations@),
            episodes: views(self.episodes@),
        }
    }
}

impl LibraryView {
    /// Every part is as its own rules leave it.
    pub open spec fn wf(self) -> bool {
        &&& self.grabs.wf()
        &&& self.tags.wf()
        &&& self.rss.wf()
        &&& episode_airings::one_time_each(self.airings)
        &&& self.artwork.wf()
        &&& self.metadata.wf()
        &&& distinct(self.relations, relation_keys())
        &&& distinct(self.episodes, episode_key())
    }

    /// Whether a decision about an item of a feed names the series.
    pub open spec fn decided_on(self, id: i64) -> bool {
        any_where(self.rss.seen, rss::about_series(id))
    }

    /// The library without a series and everything that is kept of it, but
    /// for the decisions about items of feeds.
    pub open spec fn without_series(self, id: i64) -> LibraryView {
        LibraryView {
            series: without(self.series, has_id(id)),
            grabs: self.grabs.without_series(id),
            tags: TagStoreView {
                tags: without(self.tags.tags, episode_tags::tag_of_series(id)),
                history: without(self.tags.history, episode_tags::history_of_series(id)),
                ..self.tags
            },
            airings: without(self.airings, episode_airings::of_series(id)),
            artwork: ArtworkStoreView {
                refs: without(self.artwork.refs, artwork_cache::belongs_to(id)),
                ..self.artwork
            },
            metadata: MetadataStoreView {
                series: without(self.metadata.series, metadata_cache::of_series(id)),
                ..self.metadata
            },
            relations: without(self.relations, owned_by(id)),
            episodes: without(self.episodes, episodes_of(id)),
            ..self
        }
    }

    /// The library with the decisions about a series detached from it.
    pub open spec fn detached(self, id: i64) -> LibraryView {
        LibraryView {
            rss: RssStoreView {
                seen: updated(self.rss.seen, rss::about_series(id), rss::about_none()),
                ..self.rss
            },
            ..self
        }
    }
}

/// Deletes a series with everything that is kept of it. It is refused while a
/// decision about an item of a feed names the series; for a series that is not
/// there nothing happens.
pub fn delete_series(lib: &mut Library, id: i64) -> (r: Result<(), StoreError>)
    requires
        old(lib)@.wf(),
    ensures
        r is Err <==> known(old(lib)@.series, id) && old(lib)@.decided_on(id),
        r matches Err(e) ==> e == StoreError::Referenced && final(lib)@ == old(lib)@,
        r is Ok ==> final(lib)@ == (if known(old(lib)@.series, id) {
            old(lib)@.without_series(id)
        } else {
            old(lib)@
        }),
        final(lib)@.wf(),
{
    if !is_known(&lib.series, id) {
        return Ok(());
    }
    let named = |r: &SeenRow| -> (b: bool)
        ensures b == rss::about_series(id)(r@)
        { r.series_id == Some(id) };
    if any(&lib.rss.seen, named, Ghost(rss::about_series(id))) {
        return Err(StoreError::Referenced);
    }
    proof {
        crate::table::lemma_without_distinct(lib@.relations, owned_by(id), relation_keys());
        crate::table::lemma_without_distinct(lib@.episodes, episodes_of(id), episode_key());
    }
    grabbed_torrents::forget_series(&mut lib.grabs, id);
    episode_tags::forget_series(&mut lib.tags, id);
    episode_airings::forget_series(&mut lib.airings, id);
    artwork_cache::forget_series(&mut lib.artwork, id);
    metadata_cache::forget_series(&mut lib.metadata, id);
    let related = |r: &RelationRow| -> (b: bool)
        ensures b == owned_by(id)(r@)
        { r.owner_id == id };
    let _a: usize = delete_where(&mut lib.relations, related, Ghost(owned_by(id)));
    let numbered = |e: &EpisodeRow| -> (b: bool)
        ensures b == episodes_of(id)(e@)
        { e.owner_id == id };
    let _b: usize = delete_where(&mut lib.episodes, numbered, Ghost(episodes_of(id)));
    let this = |s: &SeriesRow| -> (b: bool)
        ensures b == has_id(id)(s@)
        { s.id == id };
    let _c: usize = delete_where(&mut lib.series, this, Ghost(has_id(id)));
    Ok(())
}

/// Removes a series: detaches the decisions that name it, which stay, and
/// deletes it.
pub fn remove_series(lib: &mut Library, id: i64)
    requires
        old(lib)@.wf(),
    ensures
        final(lib)@ == (if known(old(lib)@.series, id) {
            old(lib)@.detached(id).without_series(id)
        } else {
            old(lib)@.detached(id)
        }),
        final(lib)@.wf(),
{
    rss::forget_series(&mut lib.rss, id);
    let ghost seen = old(lib)@.rss.seen;
    proof {
        assert(lib@ == old(lib)@.detached(id));
        assert(!lib@.decided_on(id)) by {
            if any_where(lib@.rss.seen, rss::about_series(id)) {
                let k = choose|k: int|
                    0 <= k < lib@.rss.seen.len() && rss::about_series(id)(
                        #[trigger] lib@.rss.seen[k],
                    );
                assert(rss::about_series(id)(seen[k]) || !rss::about_series(id)(seen[k]));
            }
        }
    }
    let _r = delete_series(lib, id);
}

impl Library {
    /// A library without series, in which nothing is kept.
    pub fn new() -> (lib: Library)
        ensures
            lib@ == (LibraryView {
                series: Seq::empty(),
                grabs: GrabStoreView { rows: Seq::empty(), routes: Seq::empty(), last_id: 0 },
                tags: TagStoreView { tags: Seq::empty(), history: Seq::empty(), last_id: 0 },
                rss: RssStoreView {
                    runs: Seq::empty(),
                    seen: Seq::empty(),
                    last_run_id: 0,
                    last_seen_id: 0,
                },
                airings: Seq::empty(),
                artwork: ArtworkStoreView { blobs: Seq::empty(), refs: Seq::empty() },
                metadata: MetadataStoreView { series: Seq::empty(), providers: Seq::empty() },
                relations: Seq::empty(),
                episodes: Seq::empty(),
            }),
            lib@.wf(),
    {
        let lib = Library {
            series: Vec::new(),
            grabs: GrabStore::new(),
            tags: TagStore::new(),
            rss: RssStore::new(),
            airings: AiringStore::new(),
            artwork: ArtworkStore::new(),
            metadata: MetadataStore::new(),
            relations: Vec::new(),
            episodes: Vec::new(),
        };
        assert(lib@.series =~= Seq::<SeriesRowView>::empty());
        assert(lib@.relations =~= Seq::<RelationRowView>::empty());
        assert(lib@.episodes =~= Seq::<EpisodeRowView>::empty());
        lib
    }

    /// Whether the library is as the rules leave it.
    pub fn check(&self) -> (r: bool)
        ensures
            r == self@.wf(),
    {
        let ghost relations = |a: RelationRowView, b: RelationRowView|
            relation_keys()(a) != relation_keys()(b);
        let ghost episodes = |a: EpisodeRowView, b: EpisodeRowView|
            episode_key()(a) != episode_key()(b);
        let other_relation = |a: &RelationRow, b: &RelationRow| -> (r: bool)
            ensures r == relations(a@, b@)
            {
                a.owner_id != b.owner_id || a.related_provider_id != b.related_provider_id
                    || !same(a.relation_type.as_str(), b.relation_type.as_str())
            };
        let other_episode = |a: &EpisodeRow, b: &EpisodeRow| -> (r: bool)
            ensures r == episodes(a@, b@)
            {
                a.owner_id != b.owner_id || a.episode.episode_number != b.episode.episode_number
            };
        let a: bool = every_pair(&self.relations, other_relation, Ghost(relations));
        let b: bool = every_pair(&self.episodes, other_episode, Ghost(episodes));
        assert(a == distinct(self@.relations, relation_keys()));
        assert(b == distinct(self@.episodes, episode_key()));
        a && b && self.grabs.check() && self.tags.check() && self.rss.check()
            && self.airings.check() && self.artwork.check() && self.metadata.check()
    }
}

/// Nothing is left of a series that was deleted.
pub proof fn nothing_is_left_of_a_deleted_series(lib: LibraryView, id: i64)
    ensures
        ({
            let left = lib.without_series(id);
            &&& !known(left.series, id)
            &&& !any_where(left.grabs.rows, grabbed_torrents::of_series(id))
            &&& !any_where(left.grabs.routes, grabbed_torrents::routes_series(id))
            &&& !any_where(left.tags.tags, episode_tags::tag_of_series(id))
            &&& !any_where(left.tags.history, episode_tags::history_of_series(id))
            &&& !any_where(left.airings, episode_airings::of_series(id))
            &&& !any_where(left.artwork.refs, artwork_cache::belongs_to(id))
            &&& !any_where(left.metadata.series, metadata_cache::of_series(id))
            &&& !any_where(left.relations, owned_by(id))
            &&& !any_where(left.episodes, episodes_of(id))
        }),
{
    crate::table::lemma_without_members(lib.series, has_id(id));
    crate::table::lemma_without_members(lib.grabs.rows, grabbed_torrents::of_series(id));
    crate::table::lemma_without_members(
        lib.grabs.deleted(grabbed_torrents::of_series(id)).routes,
        grabbed_torrents::routes_series(id),
    );
    crate::table::lemma_without_members(lib.tags.tags, episode_tags::tag_of_series(id));
    crate::table::lemma_without_members(lib.tags.history, episode_tags::history_of_series(id));
    crate::table::lemma_without_members(lib.airings, episode_airings::of_series(id));
    crate::table::lemma_without_members(lib.artwork.refs, artwork_cache::belongs_to(id));
    crate::table::lemma_without_members(lib.metadata.series, metadata_cache::of_series(id));
    crate::table::lemma_without_members(lib.relations, owned_by(id));
    crate::table::lemma_without_members(lib.episodes, episodes_of(id));
}

/// The decisions about items of feeds survive the removal of a series, with
/// its title.
pub proof fn decisions_survive_a_removal(lib: LibraryView, id: i64, i: int)
    requires
        0 <= i < lib.rss.seen.len(),
    ensures
        ({
            let left = lib.detached(id).without_series(id).rss.seen;
            &&& left.len() == lib.rss.seen.len()
            &&& left[i].item_key == lib.rss.seen[i].item_key
            &&& left[i].series_title == lib.rss.seen[i].series_title
            &&& left[i].series_id != Some(id)
        }),
{
}

/// The other series stay when one is deleted.
pub proof fn other_series_stay(lib: LibraryView, id: i64, i: int)
    requires
        0 <= i < lib.series.len(),
        lib.series[i].id != id,
    ensures
        lib.without_series(id).series.contains(lib.series[i]),
{
    crate::table::lemma_without_members(lib.series, has_id(id));
}

/// Deleting a series takes what is kept of it, in every table, and leaves what
/// is kept of the others.
pub proof fn a_deletion_takes_one_series_alone(lib: LibraryView, id: i64)
    ensures
        ({
            let left = lib.without_series(id);
            &&& forall|s: SeriesRowView| #[trigger]
                left.series.contains(s) <==> lib.series.contains(s) && s.id != id
            &&& forall|g: grabbed_torrents::GrabRowView| #[trigger]
                left.grabs.rows.contains(g) <==> lib.grabs.rows.contains(g) && g.series_id != id
            &&& forall|t: episode_tags::TagRowView| #[trigger]
                left.tags.tags.contains(t) <==> lib.tags.tags.contains(t) && t.series_id != id
            &&& forall|h: episode_tags::HistoryRowView| #[trigger]
                left.tags.history.contains(h) <==> lib.tags.history.contains(h) && h.series_id
                    != id
            &&& forall|a: AiringRowView| #[trigger]
                left.airings.contains(a) <==> lib.airings.contains(a) && a.series_id != id
            &&& forall|r: artwork_cache::RefRowView| #[trigger]
                left.artwork.refs.contains(r) <==> lib.artwork.refs.contains(r) && r.parent_id
                    != Some(id)
            &&& forall|m: metadata_cache::SeriesMetadataRowView| #[trigger]
                left.metadata.series.contains(m) <==> lib.metadata.series.contains(m)
                    && m.series_id != id
            &&& forall|r: RelationRowView| #[trigger]
                left.relations.contains(r) <==> lib.relations.contains(r) && r.owner_id != id
            &&& forall|e: EpisodeRowView| #[trigger]
                left.episodes.contains(e) <==> lib.episodes.contains(e) && e.owner_id != id
            &&& left.artwork.blobs == lib.artwork.blobs
            &&& left.metadata.providers == lib.metadata.providers
            &&& left.rss == lib.rss
        }),
{
    crate::table::lemma_without_contains(lib.series, has_id(id));
    crate::table::lemma_without_contains(lib.grabs.rows, grabbed_torrents::of_series(id));
    crate::table::lemma_without_contains(lib.tags.tags, episode_tags::tag_of_series(id));
    crate::table::lemma_without_contains(lib.tags.history, episode_tags::history_of_series(id));
    crate::table::lemma_without_contains(lib.airings, episode_airings::of_series(id));
    crate::table::lemma_without_contains(lib.artwork.refs, artwork_cache::belongs_to(id));
    crate::table::lemma_without_contains(lib.metadata.series, metadata_cache::of_series(id));
    crate::table::lemma_without_contains(lib.relations, owned_by(id));
    crate::table::lemma_without_contains(lib.episodes, episodes_of(id));
}

/// Detaching a series from the decisions takes its mark off those about it and
/// changes nothing else of them, nor the others.
pub proof fn detaching_takes_the_mark_alone(lib: LibraryView, id: i64, i: int)
    requires
        0 <= i < lib.rss.seen.len(),
    ensures
        ({
            let d = lib.rss.seen[i];
            let e = lib.detached(id).rss.seen[i];
            &&& lib.detached(id).rss.seen.len() == lib.rss.seen.len()
            &&& d.series_id == Some(id) ==> e.series_id is None
            &&& d.series_id != Some(id) ==> e == d
            &&& e == (rss::SeenRowView { series_id: e.series_id, ..d })
            &&& lib.detached(id).series == lib.series && lib.detached(id).grabs == lib.grabs
                && lib.detached(id).tags == lib.tags
        }),
{
}

/// A series is referred to exactly where a decision is about it.
pub proof fn a_decision_refers_to_its_series(lib: LibraryView, id: i64)
    ensures
        lib.decided_on(id) <==> exists|i: int|
            0 <= i < lib.rss.seen.len() && (#[trigger] lib.rss.seen[i]).series_id == Some(id),
{
    let m = rss::about_series(id);
    if lib.decided_on(id) {
        let i = choose|i: int| 0 <= i < lib.rss.seen.len() && m(#[trigger] lib.rss.seen[i]);
        assert(lib.rss.seen[i].series_id == Some(id));
    }
    if exists|i: int| 0 <= i < lib.rss.seen.len() && (#[trigger] lib.rss.seen[i]).series_id == Some(
        id,
    ) {
        let i = choose|i: int|
            0 <= i < lib.rss.seen.len() && (#[trigger] lib.rss.seen[i]).series_id == Some(id);
        assert(m(lib.rss.seen[i]));
    }
}

} // verus!
