//! Torrents handed to a download client, from the grab to the import, and the
//! routes of the files of a batch to the series they belong to.
use crate::json::{
    a_written_number_is_found, cells_of_json, cells_read_back, holds_number, is_json, json_has, i32s_read_back, i64s_read_back, json_of_i32s, json_of_i64s,
    json_of_texts, load_i32s, load_i64s, load_texts, store_i32s, store_i64s, store_texts,
    stored_i32s, stored_i64s, stored_texts, texts,
};
use crate::models::series::{
    find, has_id, is_known, known, preferred_title, title_for_preference, SeriesRow, SeriesRowView,
};
use crate::models::StoreError;
use crate::table::{
    any, any_where, count_where, delete_where, distinct, dup_list, every, every_pair, first_where,
    head, limit, limited, order_by, ordered, position, project, select, update_where, updated,
    views, without, Dup,
};
use crate::text::{at_most, dup_optional, optional_text, own, same, text_le};
use std::collections::HashMap;
use vstd::prelude::*;

verus! {

/// A grab as it is stored. The lists are kept as JSON.
#[derive(Debug)]
pub struct GrabRow {
    pub id: i64,
    pub hash: String,
    pub torrent_name: String,
    pub series_id: i64,
    pub episode_numbers: String,
    /// `pending`, `imported`, `failed`, `removed` or `replaced`.
    pub state: String,
    pub grabbed_at: String,
    pub imported_at: Option<String>,
    pub is_batch: bool,
    pub client_content_path: String,
    pub imported_source_paths: Option<String>,
    pub replaced_by_grab_id: Option<i64>,
    pub indexer_id: Option<i64>,
    pub respect_seed_rules: bool,
    pub download_client_id: Option<i64>,
}

/// The contents of a [`GrabRow`].
#[verifier::ext_equal]
pub struct GrabRowView {
    pub id: i64,
    pub hash: Seq<char>,
    pub torrent_name: Seq<char>,
    pub series_id: i64,
    pub episode_numbers: Seq<char>,
    pub state: Seq<char>,
    pub grabbed_at: Seq<char>,
    pub imported_at: Option<Seq<char>>,
    pub is_batch: bool,
    pub client_content_path: Seq<char>,
    pub imported_source_paths: Option<Seq<char>>,
    pub replaced_by_grab_id: Option<i64>,
    pub indexer_id: Option<i64>,
    pub respect_seed_rules: bool,
    pub download_client_id: Option<i64>,
}

impl View for GrabRow {
    type V = GrabRowView;

    open spec fn view(&self) -> GrabRowView {
        GrabRowView {
            id: self.id,
            hash: self.hash@,
            torrent_name: self.torrent_name@,
            series_id: self.series_id,
            episode_numbers: self.episode_numbers@,
            state: self.state@,
            grabbed_at: self.grabbed_at@,
            imported_at: optional_text(self.imported_at),
            is_batch: self.is_batch,
            client_content_path: self.client_content_path@,
            imported_source_paths: optional_text(self.imported_source_paths),
            replaced_by_grab_id: self.replaced_by_grab_id,
            indexer_id: self.indexer_id,
            respect_seed_rules: self.respect_seed_rules,
            download_client_id: self.download_client_id,
        }
    }
}

impl Dup for GrabRow {
    fn dup(&self) -> (copy: Self) {
        GrabRow {
            id: self.id,
            hash: self.hash.clone(),
            torrent_name: self.torrent_name.clone(),
            series_id: self.series_id,
            episode_numbers: self.episode_numbers.clone(),
            state: self.state.clone(),
            grabbed_at: self.grabbed_at.clone(),
            imported_at: dup_optional(&self.imported_at),
            is_batch: self.is_batch,
            client_content_path: self.client_content_path.clone(),
            imported_source_paths: dup_optional(&self.imported_source_paths),
            replaced_by_grab_id: self.replaced_by_grab_id,
            indexer_id: self.indexer_id,
            respect_seed_rules: self.respect_seed_rules,
            download_client_id: self.download_client_id,
        }
    }
}

impl Clone for GrabRow {
    fn clone(&self) -> (copy: Self)
        ensures
            copy@ == self@,
    {
        self.dup()
    }
}

/// A route as it is stored. The lists are kept as JSON.
#[derive(Debug)]
pub struct RouteRow {
    pub grab_id: i64,
    pub series_id: i64,
    pub file_indices: String,
    pub episode_numbers: String,
    pub matched_subtitle: String,
    pub episode_offset: i32,
}

/// The contents of a [`RouteRow`].
#[verifier::ext_equal]
pub struct RouteRowView {
    pub grab_id: i64,
    pub series_id: i64,
    pub file_indices: Seq<char>,
    pub episode_numbers: Seq<char>,
    pub matched_subtitle: Seq<char>,
    pub episode_offset: i32,
}

impl View for RouteRow {
    type V = RouteRowView;

    open spec fn view(&self) -> RouteRowView {
        RouteRowView {
            grab_id: self.grab_id,
            series_id: self.series_id,
            file_indices: self.file_indices@,
            episode_numbers: self.episode_numbers@,
            matched_subtitle: self.matched_subtitle@,
            episode_offset: self.episode_offset,
        }
    }
}

impl Dup for RouteRow {
    fn dup(&self) -> (copy: Self) {
        RouteRow {
            grab_id: self.grab_id,
            series_id: self.series_id,
            file_indices: self.file_indices.clone(),
            episode_numbers: self.episode_numbers.clone(),
            matched_subtitle: self.matched_subtitle.clone(),
            episode_offset: self.episode_offset,
        }
    }
}

impl Clone for RouteRow {
    fn clone(&self) -> (copy: Self)
        ensures
            copy@ == self@,
    {
        self.dup()
    }
}

/// A grab as post-processing reads it.
#[derive(Debug)]
pub struct GrabbedTorrent {
    pub id: i64,
    pub hash: String,
    pub torrent_name: String,
    pub series_id: i64,
    pub episode_numbers: Vec<i32>,
    pub state: String,
    pub grabbed_at: String,
    /// Whether the listing was marked as a batch when it was grabbed.
    pub is_batch: bool,
    /// The download client that got the grab; nothing when none was recorded.
    pub download_client_id: Option<i64>,
}

/// The contents of a [`GrabbedTorrent`].
#[verifier::ext_equal]
pub struct GrabbedTorrentView {
    pub id: i64,
    pub hash: Seq<char>,
    pub torrent_name: Seq<char>,
    pub series_id: i64,
    pub episode_numbers: Seq<i32>,
    pub state: Seq<char>,
    pub grabbed_at: Seq<char>,
    pub is_batch: bool,
    pub download_client_id: Option<i64>,
}

impl View for GrabbedTorrent {
    type V = GrabbedTorrentView;

    open spec fn view(&self) -> GrabbedTorrentView {
        GrabbedTorrentView {
            id: self.id,
            hash: self.hash@,
            torrent_name: self.torrent_name@,
            series_id: self.series_id,
            episode_numbers: self.episode_numbers@,
            state: self.state@,
            grabbed_at: self.grabbed_at@,
            is_batch: self.is_batch,
            download_client_id: self.download_client_id,
        }
    }
}

impl Dup for GrabbedTorrent {
    fn dup(&self) -> (copy: Self) {
        GrabbedTorrent {
            id: self.id,
            hash: self.hash.clone(),
            torrent_name: self.torrent_name.clone(),
            series_id: self.series_id,
            episode_numbers: dup_list(&self.episode_numbers),
            state: self.state.clone(),
            grabbed_at: self.grabbed_at.clone(),
            is_batch: self.is_batch,
            download_client_id: self.download_client_id,
        }
    }
}

impl Clone for GrabbedTorrent {
    fn clone(&self) -> (copy: Self)
        ensures
            copy@ == self@,
    {
        self.dup()
    }
}

/// Which files of a grabbed batch belong to which series.
#[derive(Debug)]
pub struct GrabSeriesRoute {
    pub grab_id: i64,
    pub series_id: i64,
    /// Positions in the torrent's file list, from zero.
    pub file_indices: Vec<usize>,
    pub episode_numbers: Vec<i32>,
    pub matched_subtitle: String,
    /// What is subtracted from a file's episode number to get the series' own.
    pub episode_offset: i32,
}

/// The contents of a [`GrabSeriesRoute`].
#[verifier::ext_equal]
pub struct GrabSeriesRouteView {
    pub grab_id: i64,
    pub series_id: i64,
    pub file_indices: Seq<usize>,
    pub episode_numbers: Seq<i32>,
    pub matched_subtitle: Seq<char>,
    pub episode_offset: i32,
}

impl View for GrabSeriesRoute {
    type V = GrabSeriesRouteView;

    open spec fn view(&self) -> GrabSeriesRouteView {
        GrabSeriesRouteView {
            grab_id: self.grab_id,
            series_id: self.series_id,
            file_indices: self.file_indices@,
            episode_numbers: self.episode_numbers@,
            matched_subtitle: self.matched_subtitle@,
            episode_offset: self.episode_offset,
        }
    }
}

impl Dup for GrabSeriesRoute {
    fn dup(&self) -> (copy: Self) {
        GrabSeriesRoute {
            grab_id: self.grab_id,
            series_id: self.series_id,
            file_indices: dup_list(&self.file_indices),
            episode_numbers: dup_list(&self.episode_numbers),
            matched_subtitle: self.matched_subtitle.clone(),
            episode_offset: self.episode_offset,
        }
    }
}

impl Clone for GrabSeriesRoute {
    fn clone(&self) -> (copy: Self)
        ensures
            copy@ == self@,
    {
        self.dup()
    }
}

/// A grab with the title of its series and what replaced it.
#[derive(Debug)]
pub struct GrabbedTorrentWithSeries {
    pub id: i64,
    pub hash: String,
    pub torrent_name: String,
    pub series_id: i64,
    pub episode_numbers: Vec<i32>,
    pub state: String,
    pub grabbed_at: String,
    pub imported_at: Option<String>,
    pub series_title: String,
    pub anilist_id: i64,
    /// The grab that replaced this one.
    pub replaced_by_grab_id: Option<i64>,
    /// The name of that grab; empty when there is none.
    pub replaced_by_torrent_name: String,
    /// How many grabs this one replaced.
    pub replaces_count: i64,
}

/// The contents of a [`GrabbedTorrentWithSeries`].
#[verifier::ext_equal]
pub struct GrabbedTorrentWithSeriesView {
    pub id: i64,
    pub hash: Seq<char>,
    pub torrent_name: Seq<char>,
    pub series_id: i64,
    pub episode_numbers: Seq<i32>,
    pub state: Seq<char>,
    pub grabbed_at: Seq<char>,
    pub imported_at: Option<Seq<char>>,
    pub series_title: Seq<char>,
    pub anilist_id: i64,
    pub replaced_by_grab_id: Option<i64>,
    pub replaced_by_torrent_name: Seq<char>,
    pub replaces_count: i64,
}

impl View for GrabbedTorrentWithSeries {
    type V = GrabbedTorrentWithSeriesView;

    open spec fn view(&self) -> GrabbedTorrentWithSeriesView {
        GrabbedTorrentWithSeriesView {
            id: self.id,
            hash: self.hash@,
            torrent_name: self.torrent_name@,
            series_id: self.series_id,
            episode_numbers: self.episode_numbers@,
            state: self.state@,
            grabbed_at: self.grabbed_at@,
            imported_at: optional_text(self.imported_at),
            series_title: self.series_title@,
            anilist_id: self.anilist_id,
            replaced_by_grab_id: self.replaced_by_grab_id,
            replaced_by_torrent_name: self.replaced_by_torrent_name@,
            replaces_count: self.replaces_count,
        }
    }
}

impl Dup for GrabbedTorrentWithSeries {
    fn dup(&self) -> (copy: Self) {
        GrabbedTorrentWithSeries {
            id: self.id,
            hash: self.hash.clone(),
            torrent_name: self.torrent_name.clone(),
            series_id: self.series_id,
            episode_numbers: dup_list(&self.episode_numbers),
            state: self.state.clone(),
            grabbed_at: self.grabbed_at.clone(),
            imported_at: dup_optional(&self.imported_at),
            series_title: self.series_title.clone(),
            anilist_id: self.anilist_id,
            replaced_by_grab_id: self.replaced_by_grab_id,
            replaced_by_torrent_name: self.replaced_by_torrent_name.clone(),
            replaces_count: self.replaces_count,
        }
    }
}

impl Clone for GrabbedTorrentWithSeries {
    fn clone(&self) -> (copy: Self)
        ensures
            copy@ == self@,
    {
        self.dup()
    }
}

/// The grabs and their routes.
#[derive(Debug)]
pub struct GrabStore {
    pub rows: Vec<GrabRow>,
    pub routes: Vec<RouteRow>,
    /// The largest id given out so far.
    pub last_id: i64,
}

/// The contents of a [`GrabStore`].
#[verifier::ext_equal]
pub struct GrabStoreView {
    pub rows: Seq<GrabRowView>,
    pub routes: Seq<RouteRowView>,
    pub last_id: i64,
}

impl View for GrabStore {
    type V = GrabStoreView;

    open spec fn view(&self) -> GrabStoreView {
        GrabStoreView { rows: views(self.rows@), routes: views(self.routes@), last_id: self.last_id }
    }
}

/// Whether the grab is waiting for its import or imported.
pub open spec fn active(r: GrabRowView) -> bool {
    r.state == "pending"@ || r.state == "imported"@
}

/// Whether `r` is the active grab of `hash`.
pub open spec fn claims(hash: Seq<char>) -> spec_fn(GrabRowView) -> bool {
    |r: GrabRowView| hash.len() > 0 && r.hash == hash && active(r)
}

pub open spec fn grab_id(r: GrabRowView) -> i64 {
    r.id
}

pub open spec fn route_key(r: RouteRowView) -> (i64, i64) {
    (r.grab_id, r.series_id)
}

pub open spec fn is_grab(id: i64) -> spec_fn(GrabRowView) -> bool {
    |r: GrabRowView| r.id == id
}

impl GrabStoreView {
    /// Whether no two active grabs have the same hash.
    pub open spec fn one_active_per_hash(self) -> bool {
        forall|i: int, j: int|
            0 <= i < j < self.rows.len() && active(#[trigger] self.rows[i]) && active(
                #[trigger] self.rows[j],
            ) && self.rows[i].hash.len() > 0 ==> self.rows[i].hash != self.rows[j].hash
    }

    /// Every id is given once and is at most the last one; no hash has two
    /// active grabs; a grab has one route to a series, and every route has
    /// its grab.
    pub open spec fn wf(self) -> bool {
        &&& distinct(self.rows, |r: GrabRowView| r.id)
        &&& forall|i: int| 0 <= i < self.rows.len() ==> (#[trigger] self.rows[i]).id <= self.last_id
        &&& self.one_active_per_hash()
        &&& distinct(self.routes, |r: RouteRowView| route_key(r))
        &&& forall|i: int|
            0 <= i < self.routes.len() ==> any_where(
                self.rows,
                is_grab((#[trigger] self.routes[i]).grab_id),
            )
    }
}

/// A grab that has just been made.
pub open spec fn fresh_grab(
    id: i64,
    hash: Seq<char>,
    torrent_name: Seq<char>,
    series_id: i64,
    episode_numbers: Seq<i32>,
    is_batch: bool,
    now: Seq<char>,
) -> GrabRowView {
    GrabRowView {
        id,
        hash,
        torrent_name,
        series_id,
        episode_numbers: json_of_i32s(episode_numbers),
        state: "pending"@,
        grabbed_at: now,
        imported_at: None,
        is_batch,
        client_content_path: Seq::empty(),
        imported_source_paths: None,
        replaced_by_grab_id: None,
        indexer_id: None,
        respect_seed_rules: false,
        download_client_id: None,
    }
}

/// An imported grab that waits for its import again, for the new request.
pub open spec fn reactivated(
    torrent_name: Seq<char>,
    series_id: i64,
    episode_numbers: Seq<i32>,
    is_batch: bool,
    now: Seq<char>,
) -> spec_fn(GrabRowView) -> GrabRowView {
    |r: GrabRowView|
        GrabRowView {
            state: "pending"@,
            imported_at: None,
            client_content_path: Seq::empty(),
            grabbed_at: now,
            series_id,
            episode_numbers: json_of_i32s(episode_numbers),
            torrent_name,
            is_batch,
            ..r
        }
}

impl GrabStoreView {
    /// The store after a grab and what the caller learns of it.
    pub open spec fn record_grab(
        self,
        series: Seq<SeriesRowView>,
        hash: Seq<char>,
        torrent_name: Seq<char>,
        series_id: i64,
        episode_numbers: Seq<i32>,
        is_batch: bool,
        now: Seq<char>,
    ) -> (GrabStoreView, Result<Option<i64>, StoreError>) {
        match first_where(self.rows, claims(hash)) {
            Some(r) => if r.state == "pending"@ {
                (self, Ok(None))
            } else if !known(series, series_id) {
                (self, Err(StoreError::MissingParent))
            } else {
                (
                    GrabStoreView {
                        rows: updated(
                            self.rows,
                            claims(hash),
                            reactivated(torrent_name, series_id, episode_numbers, is_batch, now),
                        ),
                        ..self
                    },
                    Ok(Some(r.id)),
                )
            },
            None => if self.last_id == i64::MAX {
                (self, Err(StoreError::Full))
            } else if !known(series, series_id) {
                (self, Err(StoreError::MissingParent))
            } else {
                let id = (self.last_id + 1) as i64;
                (
                    GrabStoreView {
                        rows: self.rows.push(
                            fresh_grab(
                                id,
                                hash,
                                torrent_name,
                                series_id,
                                episode_numbers,
                                is_batch,
                                now,
                            ),
                        ),
                        last_id: id,
                        ..self
                    },
                    Ok(Some(id)),
                )
            },
        }
    }
}

fn is_active(r: &GrabRow) -> (b: bool)
    ensures
        b == active(r@),
{
    same(&r.state, "pending") || same(&r.state, "imported")
}

/// Records a grab for post-processing.
///
/// A hash without an active grab gets a new row. An imported grab of the same
/// hash becomes pending again, for the series and the episodes of the new
/// request. A pending one is left alone, and nothing is returned: its import
/// may be under way. An empty hash always gets a new row.
pub fn record_grab(
    db: &mut GrabStore,
    series: &Vec<SeriesRow>,
    hash: &str,
    torrent_name: &str,
    series_id: i64,
    episode_numbers: &[i32],
    is_batch: bool,
    now: &str,
) -> (r: Result<Option<i64>, StoreError>)
    requires
        old(db)@.wf(),
    ensures
        (final(db)@, r) == old(db)@.record_grab(
            views(series@),
            hash@,
            torrent_name@,
            series_id,
            episode_numbers@,
            is_batch,
            now@,
        ),
        final(db)@.wf(),
{
    proof {
        old(db)@.record_grab_keeps_wf(
            views(series@),
            hash@,
            torrent_name@,
            series_id,
            episode_numbers@,
            is_batch,
            now@,
        );
    }
    let eps_json = store_i32s(episode_numbers);
    let test = |r: &GrabRow| -> (b: bool)
        ensures b == claims(hash@)(r@)
        { !hash.is_empty() && same(&r.hash, hash) && is_active(r) };
    match position(&db.rows, test, Ghost(claims(hash@))) {
        Some(i) => {
            if same(&db.rows[i].state, "pending") {
                return Ok(None);
            }
            if !is_known(series, series_id) {
                return Err(StoreError::MissingParent);
            }
            let id: i64 = db.rows[i].id;
            let chosen = |r: &GrabRow| -> (b: bool)
                ensures b == claims(hash@)(r@)
                { !hash.is_empty() && same(&r.hash, hash) && is_active(r) };
            let ghost again = reactivated(
                torrent_name@,
                series_id,
                episode_numbers@,
                is_batch,
                now@,
            );
            let change = |r: GrabRow| -> (o: GrabRow)
                ensures o@ == again(r@)
                {
                    GrabRow {
                        state: own("pending"),
                        imported_at: None,
                        client_content_path: String::new(),
                        grabbed_at: own(now),
                        series_id,
                        episode_numbers: eps_json.clone(),
                        torrent_name: own(torrent_name),
                        is_batch,
                        ..r
                    }
                };
            let _n: usize = update_where(
                &mut db.rows,
                chosen,
                change,
                Ghost(claims(hash@)),
                Ghost(again),
            );
            Ok(Some(id))
        },
        None => {
            if db.last_id == i64::MAX {
                return Err(StoreError::Full);
            }
            if !is_known(series, series_id) {
                return Err(StoreError::MissingParent);
            }
            let id: i64 = db.last_id + 1;
            let row = GrabRow {
                id,
                hash: own(hash),
                torrent_name: own(torrent_name),
                series_id,
                episode_numbers: eps_json,
                state: own("pending"),
                grabbed_at: own(now),
                imported_at: None,
                is_batch,
                client_content_path: String::new(),
                imported_source_paths: None,
                replaced_by_grab_id: None,
                indexer_id: None,
                respect_seed_rules: false,
                download_client_id: None,
            };
            let ghost had = db.rows@;
            db.rows.push(row);
            proof {
                crate::table::lemma_views_push(had, row);
            }
            db.last_id = id;
            Ok(Some(id))
        },
    }
}

impl GrabStoreView {
    proof fn record_grab_keeps_wf(
        self,
        series: Seq<SeriesRowView>,
        hash: Seq<char>,
        torrent_name: Seq<char>,
        series_id: i64,
        episode_numbers: Seq<i32>,
        is_batch: bool,
        now: Seq<char>,
    )
        requires
            self.wf(),
        ensures
            self.record_grab(
                series,
                hash,
                torrent_name,
                series_id,
                episode_numbers,
                is_batch,
                now,
            ).0.wf(),
    {
        let after = self.record_grab(
            series,
            hash,
            torrent_name,
            series_id,
            episode_numbers,
            is_batch,
            now,
        ).0;
        crate::table::lemma_first_where_any(self.rows, claims(hash));
        if after.rows.len() == self.rows.len() {
            assert forall|i: int| 0 <= i < self.rows.len() implies (#[trigger] after.rows[i]).id
                == self.rows[i].id && after.rows[i].hash == self.rows[i].hash && active(
                after.rows[i],
            ) == active(self.rows[i]) by {}
        } else {
            assert forall|i: int| 0 <= i < self.rows.len() implies !(hash.len() > 0
                && #[trigger] self.rows[i].hash == hash && active(self.rows[i])) by {
                assert(!claims(hash)(self.rows[i]));
            }
        }
        assert forall|i: int| 0 <= i < after.routes.len() implies any_where(
            after.rows,
            is_grab((#[trigger] after.routes[i]).grab_id),
        ) by {
            let g = self.routes[i].grab_id;
            let k = choose|k: int| 0 <= k < self.rows.len() && is_grab(g)(#[trigger] self.rows[k]);
            assert(is_grab(g)(after.rows[k]));
        }
    }
}


/// Whether a change leaves the id and the hash alone and makes nothing active.
pub open spec fn tame(change: spec_fn(GrabRowView) -> GrabRowView) -> bool {
    forall|r: GrabRowView|
        {
            let n = #[trigger] change(r);
            n.id == r.id && n.hash == r.hash && (active(n) ==> active(r))
        }
}

impl GrabStoreView {
    /// The store with `change` applied to the grabs for which `chosen` holds.
    pub open spec fn changed(
        self,
        chosen: spec_fn(GrabRowView) -> bool,
        change: spec_fn(GrabRowView) -> GrabRowView,
    ) -> GrabStoreView {
        GrabStoreView { rows: updated(self.rows, chosen, change), ..self }
    }

    /// The store with `change` applied to one grab.
    pub open spec fn changed_grab(
        self,
        id: i64,
        change: spec_fn(GrabRowView) -> GrabRowView,
    ) -> GrabStoreView {
        self.changed(is_grab(id), change)
    }

    proof fn changed_keeps_wf(
        self,
        chosen: spec_fn(GrabRowView) -> bool,
        change: spec_fn(GrabRowView) -> GrabRowView,
    )
        requires
            self.wf(),
            tame(change),
        ensures
            self.changed(chosen, change).wf(),
    {
        let after = self.changed(chosen, change);
        assert forall|i: int| 0 <= i < self.rows.len() implies (#[trigger] after.rows[i]).id
            == self.rows[i].id && after.rows[i].hash == self.rows[i].hash && (active(after.rows[i])
            ==> active(self.rows[i])) by {
            let n = change(self.rows[i]);
            assert(n.id == self.rows[i].id);
        }
        assert forall|i: int| 0 <= i < after.routes.len() implies any_where(
            after.rows,
            is_grab((#[trigger] after.routes[i]).grab_id),
        ) by {
            let g = self.routes[i].grab_id;
            let k = choose|k: int| 0 <= k < self.rows.len() && is_grab(g)(#[trigger] self.rows[k]);
            assert(is_grab(g)(after.rows[k]));
        }
    }
}

fn change_where<F: Fn(&GrabRow) -> bool, G: Fn(GrabRow) -> GrabRow>(
    db: &mut GrabStore,
    test: F,
    change: G,
    Ghost(chosen): Ghost<spec_fn(GrabRowView) -> bool>,
    Ghost(changed): Ghost<spec_fn(GrabRowView) -> GrabRowView>,
) -> (n: u64)
    requires
        old(db)@.wf(),
        tame(changed),
        forall|t: &GrabRow| #[trigger] call_requires(test, (t,)),
        forall|t: &GrabRow, b: bool| #[trigger] call_ensures(test, (t,), b) ==> b == chosen(t@),
        forall|t: GrabRow| #[trigger] call_requires(change, (t,)),
        forall|t: GrabRow, r: GrabRow| #[trigger]
            call_ensures(change, (t,), r) ==> r@ == changed(t@),
    ensures
        final(db)@ == old(db)@.changed(chosen, changed),
        final(db)@.wf(),
        n == old(db)@.rows.filter(chosen).len(),
{
    proof {
        db@.changed_keeps_wf(chosen, changed);
    }
    update_where(&mut db.rows, test, change, Ghost(chosen), Ghost(changed)) as u64
}

fn change_grab<G: Fn(GrabRow) -> GrabRow>(
    db: &mut GrabStore,
    id: i64,
    change: G,
    Ghost(changed): Ghost<spec_fn(GrabRowView) -> GrabRowView>,
)
    requires
        old(db)@.wf(),
        tame(changed),
        forall|t: GrabRow| #[trigger] call_requires(change, (t,)),
        forall|t: GrabRow, r: GrabRow| #[trigger]
            call_ensures(change, (t,), r) ==> r@ == changed(t@),
    ensures
        final(db)@ == old(db)@.changed_grab(id, changed),
        final(db)@.wf(),
{
    let test = |r: &GrabRow| -> (b: bool)
        ensures b == is_grab(id)(r@)
        { r.id == id };
    let _n: u64 = change_where(db, test, change, Ghost(is_grab(id)), Ghost(changed));
}

pub open spec fn with_state(state: Seq<char>) -> spec_fn(GrabRowView) -> GrabRowView {
    |r: GrabRowView| GrabRowView { state, ..r }
}

pub open spec fn imported(now: Seq<char>) -> spec_fn(GrabRowView) -> GrabRowView {
    |r: GrabRowView| GrabRowView { state: "imported"@, imported_at: Some(now), ..r }
}

pub open spec fn replaced_by(grab: i64) -> spec_fn(GrabRowView) -> GrabRowView {
    |r: GrabRowView| GrabRowView { state: "replaced"@, replaced_by_grab_id: Some(grab), ..r }
}

/// Whether another active grab has the hash of `r`.
pub open spec fn rival(r: GrabRowView) -> spec_fn(GrabRowView) -> bool {
    |o: GrabRowView| o.id != r.id && r.hash.len() > 0 && o.hash == r.hash && active(o)
}

impl GrabStoreView {
    /// Whether making the grab active would give its hash two active grabs.
    pub open spec fn has_rival(self, id: i64) -> bool {
        match first_where(self.rows, is_grab(id)) {
            Some(r) => any_where(self.rows, rival(r)),
            None => false,
        }
    }

    proof fn activation_keeps_wf(self, id: i64, change: spec_fn(GrabRowView) -> GrabRowView)
        requires
            self.wf(),
            !self.has_rival(id),
            forall|r: GrabRowView|
                {
                    let n = #[trigger] change(r);
                    n.id == r.id && n.hash == r.hash
                },
        ensures
            self.changed_grab(id, change).wf(),
    {
        let after = self.changed_grab(id, change);
        assert forall|i: int| 0 <= i < self.rows.len() implies (#[trigger] after.rows[i]).id
            == self.rows[i].id && after.rows[i].hash == self.rows[i].hash && (self.rows[i].id != id
            ==> after.rows[i] == self.rows[i]) by {
            let n = change(self.rows[i]);
            assert(n.id == self.rows[i].id);
        }
        crate::table::lemma_first_where_any(self.rows, is_grab(id));
        assert forall|i: int, j: int|
            0 <= i < j < after.rows.len() && active(#[trigger] after.rows[i]) && active(
                #[trigger] after.rows[j],
            ) && after.rows[i].hash.len() > 0 implies after.rows[i].hash != after.rows[j].hash by {
            let a = self.rows[i];
            let b = self.rows[j];
            assert(a.id != b.id);
            if a.id == id {
                assert(is_grab(id)(self.rows[i]));
                let r = first_where(self.rows, is_grab(id))->0;
                let k = choose|k: int| 0 <= k < self.rows.len() && self.rows[k] == r;
                assert(k == i);
                assert(!rival(r)(self.rows[j]));
            } else if b.id == id {
                assert(is_grab(id)(self.rows[j]));
                let r = first_where(self.rows, is_grab(id))->0;
                let k = choose|k: int| 0 <= k < self.rows.len() && self.rows[k] == r;
                assert(k == j);
                assert(!rival(r)(self.rows[i]));
            }
        }
        assert forall|i: int| 0 <= i < after.routes.len() implies any_where(
            after.rows,
            is_grab((#[trigger] after.routes[i]).grab_id),
        ) by {
            let g = self.routes[i].grab_id;
            let k = choose|k: int| 0 <= k < self.rows.len() && is_grab(g)(#[trigger] self.rows[k]);
            assert(is_grab(g)(after.rows[k]));
        }
    }
}

fn check_rival(db: &GrabStore, id: i64) -> (r: bool)
    ensures
        r == db@.has_rival(id),
{
    let by_id = |r: &GrabRow| -> (b: bool)
        ensures b == is_grab(id)(r@)
        { r.id == id };
    match position(&db.rows, by_id, Ghost(is_grab(id))) {
        Some(i) => {
            let r = &db.rows[i];
            let test = |o: &GrabRow| -> (b: bool)
                ensures b == rival(r@)(o@)
                { o.id != r.id && !r.hash.as_str().is_empty() && same(&o.hash, &r.hash) && is_active(o) };
            any(&db.rows, test, Ghost(rival(r@)))
        },
        None => false,
    }
}

/// Marks a grab as imported now. Refused while another active grab has the
/// same hash.
pub fn mark_imported(db: &mut GrabStore, id: i64, now: &str) -> (r: Result<(), StoreError>)
    requires
        old(db)@.wf(),
    ensures
        r is Err <==> old(db)@.has_rival(id),
        r is Err ==> r == Err::<(), StoreError>(StoreError::Duplicate) && final(db)@ == old(db)@,
        r is Ok ==> final(db)@ == old(db)@.changed_grab(id, imported(now@)),
        final(db)@.wf(),
        final(db)@.rows.len() == old(db)@.rows.len(),
        final(db)@.routes == old(db)@.routes,
        forall|i: int|
            0 <= i < old(db)@.rows.len() && r is Ok ==> (#[trigger] final(db)@.rows[i]) == ({
                let r = old(db)@.rows[i];
                if r.id == id {
                    GrabRowView { state: "imported"@, imported_at: Some(now@), ..r }
                } else {
                    r
                }
            }),
{
    if check_rival(db, id) {
        return Err(StoreError::Duplicate);
    }
    proof {
        db@.activation_keeps_wf(id, imported(now@));
    }
    let test = |r: &GrabRow| -> (b: bool)
        ensures b == is_grab(id)(r@)
        { r.id == id };
    let change = |r: GrabRow| -> (o: GrabRow)
        ensures o@ == imported(now@)(r@)
        { GrabRow { state: own("imported"), imported_at: Some(own(now)), ..r } };
    let _n: usize = update_where(
        &mut db.rows,
        test,
        change,
        Ghost(is_grab(id)),
        Ghost(imported(now@)),
    );
    Ok(())
}

/// Marks a grab as finished without an import: the time of import stays as
/// it is. Refused while another active grab has the same hash.
pub fn mark_completed_no_import(db: &mut GrabStore, id: i64) -> (r: Result<(), StoreError>)
    requires
        old(db)@.wf(),
    ensures
        r is Err <==> old(db)@.has_rival(id),
        r is Err ==> r == Err::<(), StoreError>(StoreError::Duplicate) && final(db)@ == old(db)@,
        r is Ok ==> final(db)@ == old(db)@.changed_grab(id, with_state("imported"@)),
        final(db)@.wf(),
        final(db)@.rows.len() == old(db)@.rows.len(),
        final(db)@.routes == old(db)@.routes,
        forall|i: int|
            0 <= i < old(db)@.rows.len() && r is Ok ==> (#[trigger] final(db)@.rows[i]) == ({
                let r = old(db)@.rows[i];
                if r.id == id {
                    GrabRowView { state: "imported"@, ..r }
                } else {
                    r
                }
            }),
{
    if check_rival(db, id) {
        return Err(StoreError::Duplicate);
    }
    proof {
        db@.activation_keeps_wf(id, with_state("imported"@));
    }
    let test = |r: &GrabRow| -> (b: bool)
        ensures b == is_grab(id)(r@)
        { r.id == id };
    let change = |r: GrabRow| -> (o: GrabRow)
        ensures o@ == with_state("imported"@)(r@)
        { GrabRow { state: own("imported"), ..r } };
    let _n: usize = update_where(
        &mut db.rows,
        test,
        change,
        Ghost(is_grab(id)),
        Ghost(with_state("imported"@)),
    );
    Ok(())
}

proof fn lemma_inactive_states()
    ensures
        "failed"@ != "pending"@,
        "failed"@ != "imported"@,
        "removed"@ != "pending"@,
        "removed"@ != "imported"@,
        "replaced"@ != "pending"@,
        "replaced"@ != "imported"@,
        "pending"@ != "imported"@,
        "failed"@ != "replaced"@,
{
    reveal_strlit("failed");
    reveal_strlit("pending");
    reveal_strlit("imported");
    reveal_strlit("removed");
    reveal_strlit("replaced");
    assert("failed"@[0] != "pending"@[0]);
    assert("failed"@[0] != "imported"@[0]);
    assert("removed"@[0] != "pending"@[0]);
    assert("removed"@[0] != "imported"@[0]);
    assert("replaced"@[0] != "pending"@[0]);
    assert("replaced"@[0] != "imported"@[0]);
    assert("pending"@[0] != "imported"@[0]);
    assert("failed"@[0] != "replaced"@[0]);
}

/// Marks a grab as failed.
pub fn mark_failed(db: &mut GrabStore, id: i64)
    requires
        old(db)@.wf(),
    ensures
        final(db)@ == old(db)@.changed_grab(id, with_state("failed"@)),
        final(db)@.wf(),
        final(db)@.rows.len() == old(db)@.rows.len(),
        final(db)@.routes == old(db)@.routes,
        forall|i: int|
            0 <= i < old(db)@.rows.len() ==> (#[trigger] final(db)@.rows[i]) == ({
                let r = old(db)@.rows[i];
                if r.id == id {
                    GrabRowView { state: "failed"@, ..r }
                } else {
                    r
                }
            }),
{
    proof {
        lemma_inactive_states();
    }
    let change = |r: GrabRow| -> (o: GrabRow)
        ensures o@ == with_state("failed"@)(r@)
        { GrabRow { state: own("failed"), ..r } };
    change_grab(db, id, change, Ghost(with_state("failed"@)));
}

/// Marks a grab as removed.
pub fn mark_removed(db: &mut GrabStore, id: i64)
    requires
        old(db)@.wf(),
    ensures
        final(db)@ == old(db)@.changed_grab(id, with_state("removed"@)),
        final(db)@.wf(),
        final(db)@.rows.len() == old(db)@.rows.len(),
        final(db)@.routes == old(db)@.routes,
        forall|i: int|
            0 <= i < old(db)@.rows.len() ==> (#[trigger] final(db)@.rows[i]) == ({
                let r = old(db)@.rows[i];
                if r.id == id {
                    GrabRowView { state: "removed"@, ..r }
                } else {
                    r
                }
            }),
{
    proof {
        lemma_inactive_states();
    }
    let change = |r: GrabRow| -> (o: GrabRow)
        ensures o@ == with_state("removed"@)(r@)
        { GrabRow { state: own("removed"), ..r } };
    change_grab(db, id, change, Ghost(with_state("removed"@)));
}

/// Marks a grab as replaced by another.
pub fn mark_replaced(db: &mut GrabStore, id: i64, replaced_by_grab_id: i64)
    requires
        old(db)@.wf(),
    ensures
        final(db)@ == old(db)@.changed_grab(id, replaced_by(replaced_by_grab_id)),
        final(db)@.wf(),
        final(db)@.rows.len() == old(db)@.rows.len(),
        final(db)@.routes == old(db)@.routes,
        forall|i: int|
            0 <= i < old(db)@.rows.len() ==> (#[trigger] final(db)@.rows[i]) == ({
                let r = old(db)@.rows[i];
                if r.id == id {
                    GrabRowView { state: "replaced"@, replaced_by_grab_id: Some(replaced_by_grab_id), ..r }
                } else {
                    r
                }
            }),
{
    proof {
        lemma_inactive_states();
    }
    let change = |r: GrabRow| -> (o: GrabRow)
        ensures o@ == replaced_by(replaced_by_grab_id)(r@)
        {
            GrabRow {
                state: own("replaced"),
                replaced_by_grab_id: Some(replaced_by_grab_id),
                ..r
            }
        };
    change_grab(db, id, change, Ghost(replaced_by(replaced_by_grab_id)));
}

pub open spec fn is_pending() -> spec_fn(GrabRowView) -> bool {
    |r: GrabRowView| r.state == "pending"@
}

/// Marks every pending grab as failed and says how many there were.
pub fn mark_all_pending_failed(db: &mut GrabStore) -> (n: u64)
    requires
        old(db)@.wf(),
    ensures
        final(db)@ == old(db)@.changed(is_pending(), with_state("failed"@)),
        n == old(db)@.rows.filter(is_pending()).len(),
        final(db)@.wf(),
        final(db)@.rows.len() == old(db)@.rows.len(),
        final(db)@.routes == old(db)@.routes,
        forall|i: int|
            0 <= i < old(db)@.rows.len() ==> (#[trigger] final(db)@.rows[i]) == ({
                let r = old(db)@.rows[i];
                if r.state == "pending"@ {
                    GrabRowView { state: "failed"@, ..r }
                } else {
                    r
                }
            }),
{
    proof {
        lemma_inactive_states();
    }
    let test = |r: &GrabRow| -> (b: bool)
        ensures b == is_pending()(r@)
        { same(&r.state, "pending") };
    let change = |r: GrabRow| -> (o: GrabRow)
        ensures o@ == with_state("failed"@)(r@)
        { GrabRow { state: own("failed"), ..r } };
    change_where(db, test, change, Ghost(is_pending()), Ghost(with_state("failed"@)))
}

/// Whether the grab is active and has this series and this name.
pub open spec fn active_named(series_id: i64, torrent_name: Seq<char>) -> spec_fn(
    GrabRowView,
) -> bool {
    |r: GrabRowView| r.series_id == series_id && r.torrent_name == torrent_name && active(r)
}

/// Marks the active grabs of a series with this name as failed and says how
/// many there were.
pub fn mark_failed_by_name(db: &mut GrabStore, series_id: i64, torrent_name: &str) -> (n: u64)
    requires
        old(db)@.wf(),
    ensures
        final(db)@ == old(db)@.changed(
            active_named(series_id, torrent_name@),
            with_state("failed"@),
        ),
        n == old(db)@.rows.filter(active_named(series_id, torrent_name@)).len(),
        final(db)@.wf(),
        final(db)@.rows.len() == old(db)@.rows.len(),
        final(db)@.routes == old(db)@.routes,
        forall|i: int|
            0 <= i < old(db)@.rows.len() ==> (#[trigger] final(db)@.rows[i]) == ({
                let r = old(db)@.rows[i];
                if r.series_id == series_id && r.torrent_name == torrent_name@ && (r.state == "pending"@ || r.state == "imported"@) {
                    GrabRowView { state: "failed"@, ..r }
                } else {
                    r
                }
            }),
{
    proof {
        lemma_inactive_states();
    }
    let ghost chosen = active_named(series_id, torrent_name@);
    let test = |r: &GrabRow| -> (b: bool)
        ensures b == chosen(r@)
        { r.series_id == series_id && same(&r.torrent_name, torrent_name) && is_active(r) };
    let change = |r: GrabRow| -> (o: GrabRow)
        ensures o@ == with_state("failed"@)(r@)
        { GrabRow { state: own("failed"), ..r } };
    change_where(db, test, change, Ghost(chosen), Ghost(with_state("failed"@)))
}

/// Whether the grab of this hash failed.
pub open spec fn blocked(hash: Seq<char>) -> spec_fn(GrabRowView) -> bool {
    |r: GrabRowView| hash.len() > 0 && r.hash == hash && r.state == "failed"@
}

/// Whether a grab of this hash failed. Never for an empty hash.
pub fn is_blocklisted(db: &GrabStore, hash: &str) -> (r: bool)
    ensures
        r == any_where(db@.rows, blocked(hash@)),
        r <==> exists|i: int| 0 <= i < db@.rows.len() && ({
            let g = #[trigger] db@.rows[i];
            hash@.len() > 0 && g.hash == hash@ && g.state == "failed"@
        }),
{
    let test = |r: &GrabRow| -> (b: bool)
        ensures b == blocked(hash@)(r@)
        { !hash.is_empty() && same(&r.hash, hash) && same(&r.state, "failed") };
    any(&db.rows, test, Ghost(blocked(hash@)))
}

/// Marks the failed grabs of this hash as replaced by another and says how
/// many there were. An empty hash has none.
pub fn unblock_by_hash(db: &mut GrabStore, hash: &str, replaced_by_id: i64) -> (n: u64)
    requires
        old(db)@.wf(),
    ensures
        final(db)@ == old(db)@.changed(blocked(hash@), replaced_by(replaced_by_id)),
        n == old(db)@.rows.filter(blocked(hash@)).len(),
        final(db)@.wf(),
        final(db)@.rows.len() == old(db)@.rows.len(),
        final(db)@.routes == old(db)@.routes,
        forall|i: int|
            0 <= i < old(db)@.rows.len() ==> (#[trigger] final(db)@.rows[i]) == ({
                let r = old(db)@.rows[i];
                if hash@.len() > 0 && r.hash == hash@ && r.state == "failed"@ {
                    GrabRowView { state: "replaced"@, replaced_by_grab_id: Some(replaced_by_id), ..r }
                } else {
                    r
                }
            }),
{
    proof {
        lemma_inactive_states();
    }
    let test = |r: &GrabRow| -> (b: bool)
        ensures b == blocked(hash@)(r@)
        { !hash.is_empty() && same(&r.hash, hash) && same(&r.state, "failed") };
    let change = |r: GrabRow| -> (o: GrabRow)
        ensures o@ == replaced_by(replaced_by_id)(r@)
        { GrabRow { state: own("replaced"), replaced_by_grab_id: Some(replaced_by_id), ..r } };
    change_where(db, test, change, Ghost(blocked(hash@)), Ghost(replaced_by(replaced_by_id)))
}

pub open spec fn with_source_paths(paths: Seq<Seq<char>>) -> spec_fn(GrabRowView) -> GrabRowView {
    |r: GrabRowView| GrabRowView { imported_source_paths: Some(json_of_texts(paths)), ..r }
}

/// Records the paths a grab was imported from.
pub fn stamp_imported_source_paths(db: &mut GrabStore, grab_id: i64, paths: &[String])
    requires
        old(db)@.wf(),
    ensures
        final(db)@ == old(db)@.changed_grab(grab_id, with_source_paths(texts(paths@))),
        final(db)@.wf(),
        final(db)@.rows.len() == old(db)@.rows.len(),
        final(db)@.routes == old(db)@.routes,
        forall|i: int|
            0 <= i < old(db)@.rows.len() ==> (#[trigger] final(db)@.rows[i]) == ({
                let r = old(db)@.rows[i];
                if r.id == grab_id {
                    GrabRowView { imported_source_paths: Some(json_of_texts(texts(paths@))), ..r }
                } else {
                    r
                }
            }),
{
    let stored = store_texts(paths);
    let change = |r: GrabRow| -> (o: GrabRow)
        ensures o@ == with_source_paths(texts(paths@))(r@)
        { GrabRow { imported_source_paths: Some(stored.clone()), ..r } };
    change_grab(db, grab_id, change, Ghost(with_source_paths(texts(paths@))));
}

impl GrabStoreView {
    /// The paths recorded for a grab; none when the grab is unknown or has
    /// none that can be read.
    pub open spec fn source_paths(self, id: i64) -> Seq<Seq<char>> {
        match first_where(self.rows, is_grab(id)) {
            Some(r) => match r.imported_source_paths {
                Some(text) => if text.len() > 0 {
                    stored_texts(text)
                } else {
                    Seq::empty()
                },
                None => Seq::empty(),
            },
            None => Seq::empty(),
        }
    }
}

/// The paths a grab was imported from. None when the grab is unknown or
/// nothing that can be read was recorded. What
/// [`stamp_imported_source_paths`] wrote comes back as it was.
pub fn get_imported_source_paths(db: &GrabStore, grab_id: i64) -> (paths: Vec<String>)
    ensures
        texts(paths@) == db@.source_paths(grab_id),
        first_where(db@.rows, is_grab(grab_id)) matches Some(r) ==> forall|v: Seq<Seq<char>>|
            r.imported_source_paths == Some(#[trigger] json_of_texts(v)) ==> texts(paths@) == v,
{
    let test = |r: &GrabRow| -> (b: bool)
        ensures b == is_grab(grab_id)(r@)
        { r.id == grab_id };
    match position(&db.rows, test, Ghost(is_grab(grab_id))) {
        Some(i) => match &db.rows[i].imported_source_paths {
            Some(text) => if !text.as_str().is_empty() {
                return load_texts(text);
            },
            None => {},
        },
        None => {},
    }
    let none: Vec<String> = Vec::new();
    assert(texts(none@) =~= Seq::<Seq<char>>::empty());
    none
}

pub open spec fn unstamped(id: i64) -> spec_fn(GrabRowView) -> bool {
    |r: GrabRowView| r.id == id && r.client_content_path.len() == 0
}

pub open spec fn with_content_path(path: Seq<char>) -> spec_fn(GrabRowView) -> GrabRowView {
    |r: GrabRowView| GrabRowView { client_content_path: path, ..r }
}

/// Records where the download client left the files, once: a path that is
/// there already stays, and an empty one is not recorded.
pub fn stamp_client_content_path(db: &mut GrabStore, id: i64, path: &str)
    requires
        old(db)@.wf(),
    ensures
        final(db)@ == (if path@.len() == 0 {
            old(db)@
        } else {
            old(db)@.changed(unstamped(id), with_content_path(path@))
        }),
        final(db)@.wf(),
        final(db)@.rows.len() == old(db)@.rows.len(),
        final(db)@.routes == old(db)@.routes,
        forall|i: int|
            0 <= i < old(db)@.rows.len() ==> (#[trigger] final(db)@.rows[i]) == ({
                let r = old(db)@.rows[i];
                if r.id == id && r.client_content_path.len() == 0 {
                    GrabRowView { client_content_path: path@, ..r }
                } else {
                    r
                }
            }),
{
    if path.is_empty() {
        return ;
    }
    let test = |r: &GrabRow| -> (b: bool)
        ensures b == unstamped(id)(r@)
        { r.id == id && r.client_content_path.as_str().is_empty() };
    let change = |r: GrabRow| -> (o: GrabRow)
        ensures o@ == with_content_path(path@)(r@)
        { GrabRow { client_content_path: own(path), ..r } };
    let _n: u64 = change_where(
        db,
        test,
        change,
        Ghost(unstamped(id)),
        Ghost(with_content_path(path@)),
    );
}

/// Where the download client left the files of a grab; empty when unknown.
pub fn get_client_content_path(db: &GrabStore, grab_id: i64) -> (path: String)
    ensures
        path@ == (match first_where(db@.rows, is_grab(grab_id)) {
            Some(r) => r.client_content_path,
            None => Seq::empty(),
        }),
{
    let test = |r: &GrabRow| -> (b: bool)
        ensures b == is_grab(grab_id)(r@)
        { r.id == grab_id };
    match position(&db.rows, test, Ghost(is_grab(grab_id))) {
        Some(i) => db.rows[i].client_content_path.clone(),
        None => String::new(),
    }
}

pub open spec fn attributed(indexer_id: Option<i64>, respect_seed_rules: bool) -> spec_fn(
    GrabRowView,
) -> GrabRowView {
    |r: GrabRowView| GrabRowView { indexer_id, respect_seed_rules, ..r }
}

/// Records which indexer a grab came from and whether its seed rules were
/// handed to the client.
pub fn set_indexer_attribution(
    db: &mut GrabStore,
    grab_id: i64,
    indexer_id: Option<i64>,
    respect_seed_rules: bool,
)
    requires
        old(db)@.wf(),
    ensures
        final(db)@ == old(db)@.changed_grab(grab_id, attributed(indexer_id, respect_seed_rules)),
        final(db)@.wf(),
        final(db)@.rows.len() == old(db)@.rows.len(),
        final(db)@.routes == old(db)@.routes,
        forall|i: int|
            0 <= i < old(db)@.rows.len() ==> (#[trigger] final(db)@.rows[i]) == ({
                let r = old(db)@.rows[i];
                if r.id == grab_id {
                    GrabRowView { indexer_id, respect_seed_rules, ..r }
                } else {
                    r
                }
            }),
{
    let change = |r: GrabRow| -> (o: GrabRow)
        ensures o@ == attributed(indexer_id, respect_seed_rules)(r@)
        { GrabRow { indexer_id, respect_seed_rules, ..r } };
    change_grab(db, grab_id, change, Ghost(attributed(indexer_id, respect_seed_rules)));
}

pub open spec fn with_client(download_client_id: Option<i64>) -> spec_fn(
    GrabRowView,
) -> GrabRowView {
    |r: GrabRowView| GrabRowView { download_client_id, ..r }
}

/// Records which download client got a grab.
pub fn set_download_client(db: &mut GrabStore, grab_id: i64, download_client_id: Option<i64>)
    requires
        old(db)@.wf(),
    ensures
        final(db)@ == old(db)@.changed_grab(grab_id, with_client(download_client_id)),
        final(db)@.wf(),
        final(db)@.rows.len() == old(db)@.rows.len(),
        final(db)@.routes == old(db)@.routes,
        forall|i: int|
            0 <= i < old(db)@.rows.len() ==> (#[trigger] final(db)@.rows[i]) == ({
                let r = old(db)@.rows[i];
                if r.id == grab_id {
                    GrabRowView { download_client_id, ..r }
                } else {
                    r
                }
            }),
{
    let change = |r: GrabRow| -> (o: GrabRow)
        ensures o@ == with_client(download_client_id)(r@)
        { GrabRow { download_client_id, ..r } };
    change_grab(db, grab_id, change, Ghost(with_client(download_client_id)));
}

pub open spec fn at_client(client_id: i64) -> spec_fn(GrabRowView) -> bool {
    |r: GrabRowView| r.download_client_id == Some(client_id)
}

/// Forgets which grabs a download client got.
pub fn forget_client(db: &mut GrabStore, client_id: i64)
    requires
        old(db)@.wf(),
    ensures
        final(db)@ == old(db)@.changed(at_client(client_id), with_client(None)),
        final(db)@.wf(),
        final(db)@.rows.len() == old(db)@.rows.len(),
        final(db)@.routes == old(db)@.routes,
        forall|i: int|
            0 <= i < old(db)@.rows.len() ==> (#[trigger] final(db)@.rows[i]) == ({
                let r = old(db)@.rows[i];
                if r.download_client_id == Some(client_id) {
                    GrabRowView { download_client_id: None, ..r }
                } else {
                    r
                }
            }),
{
    let test = |r: &GrabRow| -> (b: bool)
        ensures b == at_client(client_id)(r@)
        { r.download_client_id == Some(client_id) };
    let change = |r: GrabRow| -> (o: GrabRow)
        ensures o@ == with_client(None)(r@)
        { GrabRow { download_client_id: None, ..r } };
    let _n: u64 = change_where(
        db,
        test,
        change,
        Ghost(at_client(client_id)),
        Ghost(with_client(None)),
    );
}

/// Whether an active grab has this hash. Never for an empty hash.
pub fn is_known_hash(db: &GrabStore, info_hash: &str) -> (r: bool)
    ensures
        r == any_where(db@.rows, claims(info_hash@)),
        r <==> exists|i: int| 0 <= i < db@.rows.len() && ({
            let g = #[trigger] db@.rows[i];
            info_hash@.len() > 0 && g.hash == info_hash@ && (g.state == "pending"@ || g.state == "imported"@)
        }),
{
    let test = |r: &GrabRow| -> (b: bool)
        ensures b == claims(info_hash@)(r@)
        { !info_hash.is_empty() && same(&r.hash, info_hash) && is_active(r) };
    any(&db.rows, test, Ghost(claims(info_hash@)))
}

pub open spec fn keeps_seed_rules(hash: Seq<char>) -> spec_fn(GrabRowView) -> bool {
    |r: GrabRowView| hash.len() > 0 && r.hash == hash && r.respect_seed_rules
}

/// Whether a grab of this hash is to be left to its tracker's seed rules.
/// Never for an empty hash.
pub fn respects_seed_rules(db: &GrabStore, info_hash: &str) -> (r: bool)
    ensures
        r == any_where(db@.rows, keeps_seed_rules(info_hash@)),
        r <==> exists|i: int| 0 <= i < db@.rows.len() && ({
            let g = #[trigger] db@.rows[i];
            info_hash@.len() > 0 && g.hash == info_hash@ && g.respect_seed_rules
        }),
{
    let test = |r: &GrabRow| -> (b: bool)
        ensures b == keeps_seed_rules(info_hash@)(r@)
        { !info_hash.is_empty() && same(&r.hash, info_hash) && r.respect_seed_rules };
    any(&db.rows, test, Ghost(keeps_seed_rules(info_hash@)))
}


pub open spec fn indices_as_numbers(indices: Seq<usize>) -> Seq<i64> {
    indices.map_values(|i: usize| i as i64)
}

pub open spec fn numbers_as_indices(numbers: Seq<i64>) -> Seq<usize> {
    numbers.map_values(|n: i64| n as usize)
}

/// A route as it is stored.
pub open spec fn stored_route(r: GrabSeriesRouteView) -> RouteRowView {
    RouteRowView {
        grab_id: r.grab_id,
        series_id: r.series_id,
        file_indices: json_of_i64s(indices_as_numbers(r.file_indices)),
        episode_numbers: json_of_i32s(r.episode_numbers),
        matched_subtitle: r.matched_subtitle,
        episode_offset: r.episode_offset,
    }
}

/// A stored route as it is read.
pub open spec fn read_route(r: RouteRowView) -> GrabSeriesRouteView {
    GrabSeriesRouteView {
        grab_id: r.grab_id,
        series_id: r.series_id,
        file_indices: numbers_as_indices(stored_i64s(r.file_indices)),
        episode_numbers: stored_i32s(r.episode_numbers),
        matched_subtitle: r.matched_subtitle,
        episode_offset: r.episode_offset,
    }
}

/// Whether reading the stored route gives back the lists that were written.
pub open spec fn route_reads_back(r: RouteRowView) -> bool {
    i64s_read_back(r.file_indices) && i32s_read_back(r.episode_numbers)
}

/// A route that was stored is read as it was.
pub proof fn stored_route_is_read_as_it_was(r: GrabSeriesRouteView)
    requires
        route_reads_back(stored_route(r)),
    ensures
        read_route(stored_route(r)) == r,
{
    let numbers = indices_as_numbers(r.file_indices);
    assert(stored_i64s(json_of_i64s(numbers)) == numbers);
    assert forall|i: int| 0 <= i < r.file_indices.len() implies numbers_as_indices(numbers)[i]
        == r.file_indices[i] by {
        let x = r.file_indices[i];
        assert((x as i64) as usize == x) by (bit_vector);
    }
    assert(numbers_as_indices(numbers) =~= r.file_indices);
    assert(stored_i32s(json_of_i32s(r.episode_numbers)) == r.episode_numbers);
}

pub open spec fn route_at(key: (i64, i64)) -> spec_fn(RouteRowView) -> bool {
    |r: RouteRowView| route_key(r) == key
}

pub open spec fn routes_grab(grab_id: i64) -> spec_fn(RouteRowView) -> bool {
    |r: RouteRowView| r.grab_id == grab_id
}

impl GrabStoreView {
    /// The store with a route in place of the one from the same grab to the
    /// same series.
    pub open spec fn put_route(self, route: RouteRowView) -> GrabStoreView {
        GrabStoreView {
            routes: without(self.routes, route_at(route_key(route))).push(route),
            ..self
        }
    }

    /// Whether the grab and the series of a route exist.
    pub open spec fn has_ends(
        self,
        series: Seq<SeriesRowView>,
        route: GrabSeriesRouteView,
    ) -> bool {
        any_where(self.rows, is_grab(route.grab_id)) && known(series, route.series_id)
    }

    /// The store with the routes put one after the other, up to the first
    /// whose grab or series does not exist.
    pub open spec fn put_routes(
        self,
        series: Seq<SeriesRowView>,
        routes: Seq<GrabSeriesRouteView>,
    ) -> (GrabStoreView, Result<(), StoreError>)
        decreases routes.len(),
    {
        if routes.len() == 0 {
            (self, Ok(()))
        } else if !self.has_ends(series, routes[0]) {
            (self, Err(StoreError::MissingParent))
        } else {
            self.put_route(stored_route(routes[0])).put_routes(series, routes.drop_first())
        }
    }

    proof fn put_route_keeps_wf(self, route: RouteRowView)
        requires
            self.wf(),
            any_where(self.rows, is_grab(route.grab_id)),
        ensures
            self.put_route(route).wf(),
    {
        broadcast use vstd::seq_lib::group_filter_ensures;

        let rest = without(self.routes, route_at(route_key(route)));
        crate::table::lemma_without_distinct(
            self.routes,
            route_at(route_key(route)),
            |r: RouteRowView| route_key(r),
        );
        crate::table::lemma_without_members(self.routes, route_at(route_key(route)));
        let after = self.put_route(route);
        assert forall|i: int| 0 <= i < after.routes.len() implies any_where(
            after.rows,
            is_grab((#[trigger] after.routes[i]).grab_id),
        ) by {
            if i < rest.len() {
                assert(self.routes.contains(rest[i]));
            }
        }
        assert forall|i: int, j: int| 0 <= i < j < after.routes.len() implies route_key(
            #[trigger] after.routes[i],
        ) != route_key(#[trigger] after.routes[j]) by {
            if j == rest.len() {
                assert(!route_at(route_key(route))(rest[i]));
            } else {
                assert(rest[i] == after.routes[i] && rest[j] == after.routes[j]);
            }
        }
    }
}

/// The stored form of a route.
fn to_row(route: &GrabSeriesRoute) -> (row: RouteRow)
    ensures
        row@ == stored_route(route@),
{
    let mut numbers: Vec<i64> = Vec::new();
    let mut i: usize = 0;
    while i < route.file_indices.len()
        invariant
            i <= route.file_indices.len(),
            numbers@ == indices_as_numbers(route.file_indices@).take(i as int),
        decreases route.file_indices.len() - i,
    {
        numbers.push(
            #[verifier::truncate]
            (route.file_indices[i] as i64),
        );
        assert(numbers@ =~= indices_as_numbers(route.file_indices@).take(i + 1));
        i += 1;
    }
    assert(numbers@ =~= indices_as_numbers(route.file_indices@));
    RouteRow {
        grab_id: route.grab_id,
        series_id: route.series_id,
        file_indices: store_i64s(numbers.as_slice()),
        episode_numbers: store_i32s(route.episode_numbers.as_slice()),
        matched_subtitle: route.matched_subtitle.clone(),
        episode_offset: route.episode_offset,
    }
}

/// Writes routes one after the other; each takes the place of the one from
/// the same grab to the same series. Stops at the first whose grab or series
/// does not exist.
pub fn record_grab_series_routes(
    db: &mut GrabStore,
    series: &Vec<SeriesRow>,
    routes: &[GrabSeriesRoute],
) -> (r: Result<(), StoreError>)
    requires
        old(db)@.wf(),
    ensures
        (final(db)@, r) == old(db)@.put_routes(views(series@), views(routes@)),
        final(db)@.wf(),
{
    let mut i: usize = 0;
    let ghost all = views(routes@);
    assert(all.skip(0) =~= all);
    while i < routes.len()
        invariant
            i <= routes.len(),
            all == views(routes@),
            db@.wf(),
            db@.put_routes(views(series@), all.skip(i as int)) == old(db)@.put_routes(
                views(series@),
                all,
            ),
        decreases routes.len() - i,
    {
        let route = &routes[i];
        let g: i64 = route.grab_id;
        proof {
            assert(all.skip(i as int)[0] == route@);
            assert(all.skip(i as int).drop_first() =~= all.skip(i + 1));
        }
        let by_id = |r: &GrabRow| -> (b: bool)
            ensures b == is_grab(g)(r@)
            { r.id == g };
        if !any(&db.rows, by_id, Ghost(is_grab(g))) || !is_known(series, route.series_id) {
            return Err(StoreError::MissingParent);
        }
        let row = to_row(route);
        proof {
            db@.put_route_keeps_wf(row@);
        }
        let s: i64 = route.series_id;
        let at = |r: &RouteRow| -> (b: bool)
            ensures b == route_at((g, s))(r@)
            { r.grab_id == g && r.series_id == s };
        let _n: usize = delete_where(&mut db.routes, at, Ghost(route_at((g, s))));
        let ghost had = db.routes@;
        db.routes.push(row);
        proof {
            crate::table::lemma_views_push(had, row);
        }
        i += 1;
    }
    assert(all.skip(i as int).len() == 0);
    Ok(())
}

fn from_row(row: &RouteRow) -> (route: GrabSeriesRoute)
    ensures
        route@ == read_route(row@),
        route_reads_back(row@),
{
    let numbers = load_i64s(&row.file_indices);
    let mut indices: Vec<usize> = Vec::new();
    let mut i: usize = 0;
    while i < numbers.len()
        invariant
            i <= numbers.len(),
            indices@ == numbers_as_indices(numbers@).take(i as int),
        decreases numbers.len() - i,
    {
        indices.push(
            #[verifier::truncate]
            (numbers[i] as usize),
        );
        assert(indices@ =~= numbers_as_indices(numbers@).take(i + 1));
        i += 1;
    }
    assert(indices@ =~= numbers_as_indices(numbers@));
    GrabSeriesRoute {
        grab_id: row.grab_id,
        series_id: row.series_id,
        file_indices: indices,
        episode_numbers: load_i32s(&row.episode_numbers),
        matched_subtitle: row.matched_subtitle.clone(),
        episode_offset: row.episode_offset,
    }
}

pub open spec fn route_reader() -> spec_fn(RouteRowView) -> GrabSeriesRouteView {
    |r: RouteRowView| read_route(r)
}

impl GrabStoreView {
    /// The stored routes of a grab.
    pub open spec fn routes_of(self, grab_id: i64) -> Seq<RouteRowView> {
        self.routes.filter(routes_grab(grab_id))
    }
}

/// The routes of a grab. None for a grab whose files all go to its own
/// series. A route that [`record_grab_series_routes`] wrote comes back as it
/// was.
pub fn get_series_routes(db: &GrabStore, grab_id: i64) -> (routes: Vec<GrabSeriesRoute>)
    ensures
        views(routes@) == db@.routes_of(grab_id).map_values(route_reader()),
        forall|i: int|
            0 <= i < routes.len() ==> route_reads_back(#[trigger] db@.routes_of(grab_id)[i]),
        forall|i: int, r: GrabSeriesRouteView|
            0 <= i < routes.len() && db@.routes_of(grab_id)[i] == #[trigger] stored_route(r)
                ==> #[trigger] routes[i]@ == r,
{
    let test = |r: &RouteRow| -> (b: bool)
        ensures b == routes_grab(grab_id)(r@)
        { r.grab_id == grab_id };
    let rows = select(&db.routes, test, Ghost(routes_grab(grab_id)));
    let read = |r: &RouteRow| -> (o: GrabSeriesRoute)
        ensures o@ == route_reader()(r@) && route_reads_back(r@)
        { from_row(r) };
    let ghost back = |r: RouteRowView| route_reads_back(r);
    let out = project(&rows, read, Ghost(route_reader()), Ghost(back));
    proof {
        assert(views(out@).len() == db@.routes_of(grab_id).len());
        assert forall|i: int| 0 <= i < out.len() implies route_reads_back(
            #[trigger] db@.routes_of(grab_id)[i],
        ) by {
            assert(back(views(rows@)[i]));
        }
        assert forall|i: int, r: GrabSeriesRouteView|
            0 <= i < out.len() && db@.routes_of(grab_id)[i] == #[trigger] stored_route(
                r,
            ) implies #[trigger] out[i]@ == r by {
            assert(route_reads_back(db@.routes_of(grab_id)[i]));
            stored_route_is_read_as_it_was(r);
            assert(views(out@)[i] == out[i]@);
        }
    }
    out
}

/// The routes of several grabs, by grab. A grab without routes has no entry.
pub fn get_series_routes_for_grabs(db: &GrabStore, grab_ids: &[i64]) -> (grouped: HashMap<
    i64,
    Vec<GrabSeriesRoute>,
>)
    ensures
        forall|g: i64| #[trigger]
            grouped@.contains_key(g) <==> grab_ids@.contains(g) && db@.routes_of(g).len() > 0,
        forall|g: i64| #[trigger]
            grouped@.contains_key(g) ==> views(grouped@[g]@) == db@.routes_of(g).map_values(
                route_reader(),
            ),
{
    broadcast use vstd::std_specs::hash::group_hash_axioms;

    let mut grouped: HashMap<i64, Vec<GrabSeriesRoute>> = HashMap::new();
    let mut i: usize = 0;
    while i < grab_ids.len()
        invariant
            i <= grab_ids.len(),
            forall|g: i64| #[trigger]
                grouped@.contains_key(g) <==> grab_ids@.take(i as int).contains(g)
                    && db@.routes_of(g).len() > 0,
            forall|g: i64| #[trigger]
                grouped@.contains_key(g) ==> views(grouped@[g]@) == db@.routes_of(g).map_values(
                    route_reader(),
                ),
        decreases grab_ids.len() - i,
    {
        let g: i64 = grab_ids[i];
        let routes = get_series_routes(db, g);
        proof {
            assert(views(routes@).len() == db@.routes_of(g).len());
            assert(grab_ids@.take(i + 1) =~= grab_ids@.take(i as int).push(g));
            assert forall|h: i64| grab_ids@.take(i + 1).contains(h) <==> (h == g
                || #[trigger] grab_ids@.take(i as int).contains(h)) by {
                if grab_ids@.take(i as int).contains(h) {
                    let k = choose|k: int|
                        0 <= k < grab_ids@.take(i as int).len() && grab_ids@.take(i as int)[k] == h;
                    assert(grab_ids@.take(i + 1)[k] == h);
                }
                if h == g {
                    assert(grab_ids@.take(i + 1)[i as int] == g);
                }
            }
        }
        if routes.len() > 0 {
            grouped.insert(g, routes);
        }
        i += 1;
    }
    assert(grab_ids@.take(i as int) =~= grab_ids@);
    grouped
}

/// A stored grab as post-processing reads it.
pub open spec fn read_grab(r: GrabRowView) -> GrabbedTorrentView {
    GrabbedTorrentView {
        id: r.id,
        hash: r.hash,
        torrent_name: r.torrent_name,
        series_id: r.series_id,
        episode_numbers: stored_i32s(r.episode_numbers),
        state: r.state,
        grabbed_at: r.grabbed_at,
        is_batch: r.is_batch,
        download_client_id: r.download_client_id,
    }
}

pub open spec fn grab_reader() -> spec_fn(GrabRowView) -> GrabbedTorrentView {
    |r: GrabRowView| read_grab(r)
}

pub open spec fn grab_reads_back() -> spec_fn(GrabRowView) -> bool {
    |r: GrabRowView| i32s_read_back(r.episode_numbers)
}

fn read_all(rows: &Vec<GrabRow>) -> (out: Vec<GrabbedTorrent>)
    ensures
        views(out@) == views(rows@).map_values(grab_reader()),
        forall|i: int|
            0 <= i < rows.len() ==> i32s_read_back((#[trigger] views(rows@)[i]).episode_numbers),
{
    let read = |r: &GrabRow| -> (o: GrabbedTorrent)
        ensures o@ == grab_reader()(r@) && grab_reads_back()(r@)
        {
            GrabbedTorrent {
                id: r.id,
                hash: r.hash.clone(),
                torrent_name: r.torrent_name.clone(),
                series_id: r.series_id,
                episode_numbers: load_i32s(&r.episode_numbers),
                state: r.state.clone(),
                grabbed_at: r.grabbed_at.clone(),
                is_batch: r.is_batch,
                download_client_id: r.download_client_id,
            }
        };
    let out = project(rows, read, Ghost(grab_reader()), Ghost(grab_reads_back()));
    assert forall|i: int| 0 <= i < rows.len() implies i32s_read_back(
        (#[trigger] views(rows@)[i]).episode_numbers,
    ) by {
        assert(grab_reads_back()(views(rows@)[i]));
    }
    out
}

/// Whether `a` was grabbed no later than `b`.
pub open spec fn oldest_first() -> spec_fn(GrabRowView, GrabRowView) -> bool {
    |a: GrabRowView, b: GrabRowView| text_le(a.grabbed_at, b.grabbed_at)
}

/// Whether `a` was grabbed no earlier than `b`.
pub open spec fn newest_first() -> spec_fn(GrabRowView, GrabRowView) -> bool {
    |a: GrabRowView, b: GrabRowView| text_le(b.grabbed_at, a.grabbed_at)
}

fn sort_newest_first(rows: Vec<GrabRow>) -> (out: Vec<GrabRow>)
    ensures
        views(out@) == ordered(views(rows@), newest_first()),
{
    let test = |a: &GrabRow, b: &GrabRow| -> (r: bool)
        ensures r == newest_first()(a@, b@)
        { at_most(&b.grabbed_at, &a.grabbed_at) };
    order_by(rows, test, Ghost(newest_first()))
}

impl GrabStoreView {
    /// The pending grabs, oldest first.
    pub open spec fn pending(self) -> Seq<GrabRowView> {
        ordered(self.rows.filter(is_pending()), oldest_first())
    }
}

/// The pending grabs, oldest first. The episodes that [`record_grab`] stored
/// come back as they were.
pub fn get_all_pending(db: &GrabStore) -> (grabs: Vec<GrabbedTorrent>)
    ensures
        views(grabs@) == db@.pending().map_values(grab_reader()),
        forall|i: int|
            0 <= i < grabs.len() ==> i32s_read_back((#[trigger] db@.pending()[i]).episode_numbers),
{
    let test = |r: &GrabRow| -> (b: bool)
        ensures b == is_pending()(r@)
        { same(&r.state, "pending") };
    let rows = select(&db.rows, test, Ghost(is_pending()));
    let before = |a: &GrabRow, b: &GrabRow| -> (r: bool)
        ensures r == oldest_first()(a@, b@)
        { at_most(&a.grabbed_at, &b.grabbed_at) };
    let sorted = order_by(rows, before, Ghost(oldest_first()));
    let out = read_all(&sorted);
    assert(views(out@).len() == views(sorted@).len());
    out
}

pub open spec fn named(series_id: i64, torrent_name: Seq<char>) -> spec_fn(GrabRowView) -> bool {
    |r: GrabRowView| r.series_id == series_id && r.torrent_name == torrent_name
}

/// Whether the newest grab of a series with this name is a batch; nothing
/// when there is none.
pub fn get_is_batch_by_name(db: &GrabStore, series_id: i64, torrent_name: &str) -> (r: Option<bool>)
    ensures
        r == (match head(
            ordered(db@.rows.filter(named(series_id, torrent_name@)), newest_first()),
        ) {
            Some(g) => Some(g.is_batch),
            None => None,
        }),
        match r {
            Some(b) => exists|i: int|
                0 <= i < db@.rows.len() && (#[trigger] db@.rows[i]).series_id == series_id
                    && db@.rows[i].torrent_name == torrent_name@ && db@.rows[i].is_batch == b
                    && forall|j: int|
                    0 <= j < db@.rows.len() && (#[trigger] db@.rows[j]).series_id == series_id
                        && db@.rows[j].torrent_name == torrent_name@ ==> text_le(
                        db@.rows[j].grabbed_at,
                        db@.rows[i].grabbed_at,
                    ),
            None => forall|j: int|
                0 <= j < db@.rows.len() ==> !((#[trigger] db@.rows[j]).series_id == series_id
                    && db@.rows[j].torrent_name == torrent_name@),
        },
{
    proof {
        grab_orders_are_total();
        crate::table::lemma_head_of_list(
            db@.rows,
            named(series_id, torrent_name@),
            newest_first(),
        );
    }
    let ghost chosen = named(series_id, torrent_name@);
    let test = |r: &GrabRow| -> (b: bool)
        ensures b == chosen(r@)
        { r.series_id == series_id && same(&r.torrent_name, torrent_name) };
    let rows = sort_newest_first(select(&db.rows, test, Ghost(chosen)));
    assert(views(rows@).len() == rows.len());
    if rows.len() > 0 {
        assert(views(rows@)[0] == rows[0]@);
        Some(rows[0].is_batch)
    } else {
        None
    }
}

pub open spec fn imported_with_paths(series_id: i64) -> spec_fn(GrabRowView) -> bool {
    |r: GrabRowView|
        r.series_id == series_id && r.state == "imported"@ && (r.imported_source_paths matches Some(
            text,
        ) && text.len() > 0)
}

/// The imported grabs of a series that have paths recorded: their ids and
/// the paths as stored.
pub fn imported_source_paths_for_series(db: &GrabStore, series_id: i64) -> (out: Vec<
    (i64, String),
>)
    ensures
        out.len() == db@.rows.filter(imported_with_paths(series_id)).len(),
        forall|i: int|
            0 <= i < out.len() ==> {
                let r = db@.rows.filter(imported_with_paths(series_id))[i];
                (#[trigger] out[i]).0 == r.id && Some(out[i].1@) == r.imported_source_paths
            },
{
    let ghost chosen = imported_with_paths(series_id);
    let test = |r: &GrabRow| -> (b: bool)
        ensures b == chosen(r@)
        {
            r.series_id == series_id && same(&r.state, "imported") && match &r.imported_source_paths {
                Some(text) => !text.as_str().is_empty(),
                None => false,
            }
        };
    let rows = select(&db.rows, test, Ghost(chosen));
    assert(views(rows@).len() == rows.len());
    let mut out: Vec<(i64, String)> = Vec::new();
    let mut i: usize = 0;
    while i < rows.len()
        invariant
            i <= rows.len(),
            out.len() == i,
            views(rows@) == db@.rows.filter(chosen),
            chosen == imported_with_paths(series_id),
            forall|k: int|
                0 <= k < i ==> {
                    let r = views(rows@)[k];
                    (#[trigger] out[k]).0 == r.id && Some(out[k].1@) == r.imported_source_paths
                },
        decreases rows.len() - i,
    {
        proof {
            db@.rows.lemma_filter_pred(chosen, i as int);
            assert(views(rows@)[i as int] == rows[i as int]@);
        }
        let text = match &rows[i].imported_source_paths {
            Some(text) => text.clone(),
            None => String::new(),
        };
        out.push((rows[i].id, text));
        i += 1;
    }
    out
}

pub open spec fn has_hash(hash: Seq<char>) -> spec_fn(GrabRowView) -> bool {
    |r: GrabRowView| hash.len() > 0 && r.hash == hash
}

pub open spec fn largest_id_first() -> spec_fn(GrabRowView, GrabRowView) -> bool {
    |a: GrabRowView, b: GrabRowView| a.id >= b.id
}

/// The download client of the newest grab of this hash; nothing when the
/// hash is unknown or empty, or no client was recorded.
pub fn client_id_for_hash(db: &GrabStore, hash: &str) -> (r: Option<i64>)
    ensures
        r == (match head(ordered(db@.rows.filter(has_hash(hash@)), largest_id_first())) {
            Some(g) => g.download_client_id,
            None => None,
        }),
        (forall|j: int| 0 <= j < db@.rows.len() ==> (#[trigger] db@.rows[j]).hash != hash@) ==> r is None,
        forall|i: int|
            0 <= i < db@.rows.len() && hash@.len() > 0 && (#[trigger] db@.rows[i]).hash == hash@ && (
            forall|j: int|
                0 <= j < db@.rows.len() && (#[trigger] db@.rows[j]).hash == hash@ && j != i
                    ==> db@.rows[j].id < db@.rows[i].id) ==> r == db@.rows[i].download_client_id,
{
    proof {
        grab_orders_are_total();
        crate::table::lemma_head_of_list(db@.rows, has_hash(hash@), largest_id_first());
        let best = head(ordered(db@.rows.filter(has_hash(hash@)), largest_id_first()));
        if best is Some {
            let k = choose|k: int| 0 <= k < db@.rows.len() && db@.rows[k] == best->0;
            assert(has_hash(hash@)(db@.rows[k]));
        }
    }
    let test = |r: &GrabRow| -> (b: bool)
        ensures b == has_hash(hash@)(r@)
        { !hash.is_empty() && same(&r.hash, hash) };
    let rows = select(&db.rows, test, Ghost(has_hash(hash@)));
    let before = |a: &GrabRow, b: &GrabRow| -> (r: bool)
        ensures r == largest_id_first()(a@, b@)
        { a.id >= b.id };
    let sorted = order_by(rows, before, Ghost(largest_id_first()));
    assert(views(sorted@).len() == sorted.len());
    if sorted.len() > 0 {
        assert(views(sorted@)[0] == sorted[0]@);
        sorted[0].download_client_id
    } else {
        None
    }
}

/// Whether a grab is one of a series in this state whose episodes cannot be
/// read.
pub open spec fn unreadable_grab(state: Seq<char>, series_id: i64) -> spec_fn(GrabRowView) -> bool {
    |r: GrabRowView|
        r.state == state && r.series_id == series_id && cells_of_json(r.episode_numbers) is None
}

pub open spec fn grab_in_state(id: i64, state: Seq<char>) -> spec_fn(GrabRowView) -> bool {
    |r: GrabRowView| r.id == id && r.state == state
}

/// Whether a route leads from a grab in this state to a series and its
/// episodes cannot be read.
pub open spec fn unreadable_route(
    rows: Seq<GrabRowView>,
    state: Seq<char>,
    series_id: i64,
) -> spec_fn(RouteRowView) -> bool {
    |o: RouteRowView|
        o.series_id == series_id && cells_of_json(o.episode_numbers) is None && any_where(
            rows,
            grab_in_state(o.grab_id, state),
        )
}

pub open spec fn route_covers(grab: i64, series_id: i64, episode: i32) -> spec_fn(
    RouteRowView,
) -> bool {
    |r: RouteRowView|
        r.grab_id == grab && r.series_id == series_id && json_has(r.episode_numbers, episode)
}

impl GrabStoreView {
    /// Whether a grab brings an episode of a series: as a grab of the series
    /// itself or through a route to it.
    pub open spec fn covers(self, r: GrabRowView, series_id: i64, episode: i32) -> bool {
        ||| r.series_id == series_id && json_has(r.episode_numbers, episode)
        ||| any_where(self.routes, route_covers(r.id, series_id, episode))
    }

    pub open spec fn covering(
        self,
        state: Seq<char>,
        series_id: i64,
        episode: i32,
    ) -> spec_fn(GrabRowView) -> bool {
        |r: GrabRowView| r.state == state && self.covers(r, series_id, episode)
    }

    /// Whether a list that has to be read to find the grabs in this state for
    /// a series is no JSON: that of a grab of the series, or of a route to it.
    pub open spec fn unreadable(self, state: Seq<char>, series_id: i64) -> bool {
        ||| any_where(self.rows, unreadable_grab(state, series_id))
        ||| any_where(self.routes, unreadable_route(self.rows, state, series_id))
    }

    /// Whether reading the stored lists gives back what was written.
    pub open spec fn lists_read_back(self) -> bool {
        &&& forall|i: int|
            0 <= i < self.rows.len() ==> cells_read_back((#[trigger] self.rows[i]).episode_numbers)
        &&& forall|j: int|
            0 <= j < self.routes.len() ==> cells_read_back(
                (#[trigger] self.routes[j]).episode_numbers,
            )
    }

    /// The grabs in this state that bring the episode, newest first.
    pub open spec fn for_episode(
        self,
        state: Seq<char>,
        series_id: i64,
        episode: i32,
    ) -> Seq<GrabRowView> {
        ordered(self.rows.filter(self.covering(state, series_id, episode)), newest_first())
    }
}

fn brings(db: &GrabStore, r: &GrabRow, series_id: i64, episode: i32) -> (b: bool)
    ensures
        b == db@.covers(r@, series_id, episode),
{
    if r.series_id == series_id && holds_number(&r.episode_numbers, episode) {
        return true;
    }
    let id: i64 = r.id;
    let test = |o: &RouteRow| -> (b: bool)
        ensures b == route_covers(id, series_id, episode)(o@)
        {
            o.grab_id == id && o.series_id == series_id && holds_number(&o.episode_numbers, episode)
        };
    any(&db.routes, test, Ghost(route_covers(id, series_id, episode)))
}

fn cannot_be_read(db: &GrabStore, state: &str, series_id: i64) -> (r: bool)
    ensures
        r == db@.unreadable(state@, series_id),
        !r ==> db@.lists_read_back(),
{
    let ghost bad_grab = unreadable_grab(state@, series_id);
    let ghost bad_route = unreadable_route(db@.rows, state@, series_id);
    let mut i: usize = 0;
    assert(db@.rows.len() == db.rows.len());
    while i < db.rows.len()
        invariant
            i <= db.rows.len(),
            db@.rows.len() == db.rows.len(),
            bad_grab == unreadable_grab(state@, series_id),
            forall|k: int| 0 <= k < i ==> !bad_grab(#[trigger] db@.rows[k]),
            forall|k: int| 0 <= k < i ==> cells_read_back((#[trigger] db@.rows[k]).episode_numbers),
        decreases db.rows.len() - i,
    {
        let r = &db.rows[i];
        assert(db@.rows[i as int] == r@);
        let readable: bool = is_json(&r.episode_numbers);
        if same(&r.state, state) && r.series_id == series_id && !readable {
            assert(bad_grab(db@.rows[i as int]));
            return true;
        }
        i += 1;
    }
    let mut j: usize = 0;
    assert(db@.routes.len() == db.routes.len());
    while j < db.routes.len()
        invariant
            j <= db.routes.len(),
            db@.routes.len() == db.routes.len(),
            bad_route == unreadable_route(db@.rows, state@, series_id),
            forall|k: int| 0 <= k < j ==> !bad_route(#[trigger] db@.routes[k]),
            forall|k: int|
                0 <= k < j ==> cells_read_back((#[trigger] db@.routes[k]).episode_numbers),
        decreases db.routes.len() - j,
    {
        let o = &db.routes[j];
        assert(db@.routes[j as int] == o@);
        let readable: bool = is_json(&o.episode_numbers);
        let id: i64 = o.grab_id;
        let of_it = |r: &GrabRow| -> (b: bool)
            ensures b == grab_in_state(id, state@)(r@)
            { r.id == id && same(&r.state, state) };
        if o.series_id == series_id && !readable && any(
            &db.rows,
            of_it,
            Ghost(grab_in_state(id, state@)),
        ) {
            assert(bad_route(db@.routes[j as int]));
            return true;
        }
        j += 1;
    }
    false
}

fn find_for_episode(db: &GrabStore, state: &str, series_id: i64, episode: i32) -> (found: Result<
    Vec<GrabbedTorrent>,
    StoreError,
>)
    ensures
        found is Err <==> db@.unreadable(state@, series_id),
        found matches Err(e) ==> e == StoreError::Malformed,
        found is Ok ==> db@.lists_read_back(),
        found matches Ok(grabs) ==> views(grabs@) == db@.for_episode(
            state@,
            series_id,
            episode,
        ).map_values(grab_reader()),
{
    if cannot_be_read(db, state, series_id) {
        return Err(StoreError::Malformed);
    }
    let ghost chosen = db@.covering(state@, series_id, episode);
    let test = |r: &GrabRow| -> (b: bool)
        ensures b == chosen(r@)
        { same(&r.state, state) && brings(db, r, series_id, episode) };
    let rows = sort_newest_first(select(&db.rows, test, Ghost(chosen)));
    Ok(read_all(&rows))
}

/// The imported grabs that bring an episode of a series, directly or through
/// a route, newest first. It is refused where a list that has to be read for
/// it is no JSON.
pub fn find_imported_for_episode(db: &GrabStore, series_id: i64, episode_number: i32) -> (found:
    Result<Vec<GrabbedTorrent>, StoreError>)
    ensures
        found is Err <==> db@.unreadable("imported"@, series_id),
        found matches Err(e) ==> e == StoreError::Malformed,
        found is Ok ==> db@.lists_read_back(),
        found matches Ok(grabs) ==> views(grabs@) == db@.for_episode(
            "imported"@,
            series_id,
            episode_number,
        ).map_values(grab_reader()),
{
    find_for_episode(db, "imported", series_id, episode_number)
}

/// The pending grabs that bring an episode of a series, directly or through
/// a route, newest first. It is refused where a list that has to be read for
/// it is no JSON.
pub fn find_pending_for_episode(db: &GrabStore, series_id: i64, episode_number: i32) -> (found:
    Result<Vec<GrabbedTorrent>, StoreError>)
    ensures
        found is Err <==> db@.unreadable("pending"@, series_id),
        found matches Err(e) ==> e == StoreError::Malformed,
        found is Ok ==> db@.lists_read_back(),
        found matches Ok(grabs) ==> views(grabs@) == db@.for_episode(
            "pending"@,
            series_id,
            episode_number,
        ).map_values(grab_reader()),
{
    find_for_episode(db, "pending", series_id, episode_number)
}


/// The name of a grab and the episodes it brings to one series.
pub struct NamedEpisodes {
    pub torrent_name: String,
    pub episode_numbers: String,
    pub grabbed_at: String,
}

/// The contents of a [`NamedEpisodes`].
#[verifier::ext_equal]
pub struct NamedEpisodesView {
    pub torrent_name: Seq<char>,
    pub episode_numbers: Seq<char>,
    pub grabbed_at: Seq<char>,
}

impl View for NamedEpisodes {
    type V = NamedEpisodesView;

    open spec fn view(&self) -> NamedEpisodesView {
        NamedEpisodesView {
            torrent_name: self.torrent_name@,
            episode_numbers: self.episode_numbers@,
            grabbed_at: self.grabbed_at@,
        }
    }
}

pub open spec fn imported_of(series_id: i64) -> spec_fn(GrabRowView) -> bool {
    |r: GrabRowView| r.series_id == series_id && r.state == "imported"@
}

/// What an imported grab brings to its own series.
pub open spec fn own_episodes() -> spec_fn(GrabRowView) -> NamedEpisodesView {
    |g: GrabRowView|
        NamedEpisodesView {
            torrent_name: g.torrent_name,
            episode_numbers: g.episode_numbers,
            grabbed_at: g.grabbed_at,
        }
}

/// What a grab brings to a series through a route.
pub open spec fn routed_episodes(g: GrabRowView) -> spec_fn(RouteRowView) -> NamedEpisodesView {
    |r: RouteRowView|
        NamedEpisodesView {
            torrent_name: g.torrent_name,
            episode_numbers: r.episode_numbers,
            grabbed_at: g.grabbed_at,
        }
}

/// What the imported ones of `grabs` bring to a series through routes.
pub open spec fn routed_to(
    grabs: Seq<GrabRowView>,
    routes: Seq<RouteRowView>,
    series_id: i64,
) -> Seq<NamedEpisodesView>
    decreases grabs.len(),
{
    if grabs.len() == 0 {
        Seq::empty()
    } else {
        let g = grabs.last();
        routed_to(grabs.drop_last(), routes, series_id) + (if g.state == "imported"@ {
            routes.filter(route_at((g.id, series_id))).map_values(routed_episodes(g))
        } else {
            Seq::empty()
        })
    }
}

pub open spec fn newest_named_first() -> spec_fn(NamedEpisodesView, NamedEpisodesView) -> bool {
    |a: NamedEpisodesView, b: NamedEpisodesView| text_le(b.grabbed_at, a.grabbed_at)
}

impl GrabStoreView {
    /// What imported grabs bring to a series, newest first.
    pub open spec fn imported_for_series(self, series_id: i64) -> Seq<NamedEpisodesView> {
        ordered(
            self.rows.filter(imported_of(series_id)).map_values(own_episodes()) + routed_to(
                self.rows,
                self.routes,
                series_id,
            ),
            newest_named_first(),
        )
    }
}

fn routed_episodes_of(db: &GrabStore, series_id: i64) -> (out: Vec<NamedEpisodes>)
    ensures
        views(out@) == routed_to(db@.rows, db@.routes, series_id),
{
    let mut out: Vec<NamedEpisodes> = Vec::new();
    let mut i: usize = 0;
    assert(views(out@) =~= Seq::<NamedEpisodesView>::empty());
    while i < db.rows.len()
        invariant
            i <= db.rows.len(),
            views(out@) == routed_to(db@.rows.take(i as int), db@.routes, series_id),
        decreases db.rows.len() - i,
    {
        let ghost had = out@;
        proof {
            assert(db@.rows.take(i + 1).drop_last() =~= db@.rows.take(i as int));
            assert(db@.rows.take(i + 1).last() == db.rows[i as int]@);
        }
        let g = &db.rows[i];
        if same(&g.state, "imported") {
            let id: i64 = g.id;
            let test = |r: &RouteRow| -> (b: bool)
                ensures b == route_at((id, series_id))(r@)
                { r.grab_id == id && r.series_id == series_id };
            let found = select(&db.routes, test, Ghost(route_at((id, series_id))));
            let make = |r: &RouteRow| -> (o: NamedEpisodes)
                ensures o@ == routed_episodes(g@)(r@)
                {
                    NamedEpisodes {
                        torrent_name: g.torrent_name.clone(),
                        episode_numbers: r.episode_numbers.clone(),
                        grabbed_at: g.grabbed_at.clone(),
                    }
                };
            let mut more = project(
                &found,
                make,
                Ghost(routed_episodes(g@)),
                Ghost(|r: RouteRowView| true),
            );
            let ghost added = more@;
            out.append(&mut more);
            assert(views(out@) =~= views(had) + views(added));
        } else {
            assert(views(out@) =~= views(had) + Seq::<NamedEpisodesView>::empty());
        }
        i += 1;
    }
    assert(db@.rows.take(i as int) =~= db@.rows);
    out
}

/// The names of the imported grabs that bring something to a series, each
/// with the episodes it brings, newest first: grabs of the series itself and
/// grabs with a route to it.
pub fn imported_grabs_for_series(db: &GrabStore, series_id: i64) -> (out: Vec<(String, Vec<i32>)>)
    ensures
        out.len() == db@.imported_for_series(series_id).len(),
        forall|i: int|
            0 <= i < out.len() ==> {
                let e = db@.imported_for_series(series_id)[i];
                (#[trigger] out[i]).0@ == e.torrent_name && out[i].1@ == stored_i32s(
                    e.episode_numbers,
                )
            },
        forall|i: int|
            0 <= i < out.len() ==> i32s_read_back(
                (#[trigger] db@.imported_for_series(series_id)[i]).episode_numbers,
            ),
        forall|i: int, j: int|
            #![trigger db@.rows[i], db@.routes[j]]
            0 <= i < db@.rows.len() && 0 <= j < db@.routes.len() && db@.rows[i].state
                == "imported"@ && db@.routes[j].grab_id == db@.rows[i].id
                && db@.routes[j].series_id == series_id ==> exists|k: int|
                0 <= k < out.len() && (#[trigger] out[k]).0@ == db@.rows[i].torrent_name
                    && out[k].1@ == stored_i32s(db@.routes[j].episode_numbers),
{
    let test = |r: &GrabRow| -> (b: bool)
        ensures b == imported_of(series_id)(r@)
        { r.series_id == series_id && same(&r.state, "imported") };
    let direct = select(&db.rows, test, Ghost(imported_of(series_id)));
    let make = |g: &GrabRow| -> (o: NamedEpisodes)
        ensures o@ == own_episodes()(g@)
        {
            NamedEpisodes {
                torrent_name: g.torrent_name.clone(),
                episode_numbers: g.episode_numbers.clone(),
                grabbed_at: g.grabbed_at.clone(),
            }
        };
    let mut entries = project(&direct, make, Ghost(own_episodes()), Ghost(|r: GrabRowView| true));
    let mut routed = routed_episodes_of(db, series_id);
    let ghost first = entries@;
    let ghost second = routed@;
    entries.append(&mut routed);
    assert(views(entries@) =~= views(first) + views(second));
    let before = |a: &NamedEpisodes, b: &NamedEpisodes| -> (r: bool)
        ensures r == newest_named_first()(a@, b@)
        { at_most(&b.grabbed_at, &a.grabbed_at) };
    let sorted = order_by(entries, before, Ghost(newest_named_first()));
    assert(views(sorted@).len() == sorted.len());
    let mut out: Vec<(String, Vec<i32>)> = Vec::new();
    let mut i: usize = 0;
    while i < sorted.len()
        invariant
            i <= sorted.len(),
            out.len() == i,
            forall|k: int|
                0 <= k < i ==> {
                    let e = views(sorted@)[k];
                    (#[trigger] out[k]).0@ == e.torrent_name && out[k].1@ == stored_i32s(
                        e.episode_numbers,
                    )
                },
            forall|k: int|
                0 <= k < i ==> i32s_read_back((#[trigger] views(sorted@)[k]).episode_numbers),
        decreases sorted.len() - i,
    {
        assert(views(sorted@)[i as int] == sorted[i as int]@);
        out.push((sorted[i].torrent_name.clone(), load_i32s(&sorted[i].episode_numbers)));
        i += 1;
    }
    proof {
        let list = db@.imported_for_series(series_id);
        assert forall|i: int, j: int|
            #![trigger db@.rows[i], db@.routes[j]]
            0 <= i < db@.rows.len() && 0 <= j < db@.routes.len() && db@.rows[i].state
                == "imported"@ && db@.routes[j].grab_id == db@.rows[i].id
                && db@.routes[j].series_id == series_id implies exists|k: int|
            0 <= k < out.len() && (#[trigger] out[k]).0@ == db@.rows[i].torrent_name && out[k].1@
                == stored_i32s(db@.routes[j].episode_numbers) by {
            a_route_brings_its_own_episodes(db@, series_id, i, j);
            let k = choose|k: int|
                0 <= k < list.len() && ({
                    let e = #[trigger] list[k];
                    e.torrent_name == db@.rows[i].torrent_name && e.episode_numbers
                        == db@.routes[j].episode_numbers && e.grabbed_at == db@.rows[i].grabbed_at
                });
            assert(out[k].0@ == list[k].torrent_name);
        }
    }
    out
}

pub open spec fn of_series(series_id: i64) -> spec_fn(GrabRowView) -> bool {
    |r: GrabRowView| r.series_id == series_id
}

impl GrabStoreView {
    /// The store without the grabs for which `chosen` holds and without
    /// their routes.
    pub open spec fn deleted(self, chosen: spec_fn(GrabRowView) -> bool) -> GrabStoreView {
        let rows = without(self.rows, chosen);
        GrabStoreView {
            rows,
            routes: without(
                self.routes,
                |r: RouteRowView| !any_where(rows, is_grab(r.grab_id)),
            ),
            ..self
        }
    }

    proof fn deleted_keeps_wf(self, chosen: spec_fn(GrabRowView) -> bool)
        requires
            self.wf(),
        ensures
            self.deleted(chosen).wf(),
    {
        let rows = without(self.rows, chosen);
        let orphan = |r: RouteRowView| !any_where(rows, is_grab(r.grab_id));
        crate::table::lemma_without_members(self.rows, chosen);
        crate::table::lemma_without_distinct(self.rows, chosen, |r: GrabRowView| r.id);
        crate::table::lemma_without_members(self.routes, orphan);
        crate::table::lemma_without_distinct(
            self.routes,
            orphan,
            |r: RouteRowView| route_key(r),
        );
        let after = self.deleted(chosen);
        assert forall|i: int| 0 <= i < after.rows.len() implies (#[trigger] after.rows[i]).id
            <= after.last_id by {
            assert(self.rows.contains(after.rows[i]));
        }
        assert forall|i: int, j: int|
            0 <= i < j < after.rows.len() && active(#[trigger] after.rows[i]) && active(
                #[trigger] after.rows[j],
            ) && after.rows[i].hash.len() > 0 implies after.rows[i].hash != after.rows[j].hash by {
            assert(self.rows.contains(after.rows[i]) && self.rows.contains(after.rows[j]));
            let a = choose|a: int| 0 <= a < self.rows.len() && self.rows[a] == after.rows[i];
            let b = choose|b: int| 0 <= b < self.rows.len() && self.rows[b] == after.rows[j];
            assert(after.rows[i].id != after.rows[j].id);
            if a < b {
                assert(active(self.rows[a]) && active(self.rows[b]));
            } else {
                assert(active(self.rows[b]) && active(self.rows[a]));
            }
        }
        assert forall|i: int| 0 <= i < after.routes.len() implies any_where(
            after.rows,
            is_grab((#[trigger] after.routes[i]).grab_id),
        ) by {
            assert(!orphan(without(self.routes, orphan)[i]));
        }
    }
}

fn delete_grabs<F: Fn(&GrabRow) -> bool>(
    db: &mut GrabStore,
    test: F,
    Ghost(chosen): Ghost<spec_fn(GrabRowView) -> bool>,
) -> (n: u64)
    requires
        old(db)@.wf(),
        forall|t: &GrabRow| #[trigger] call_requires(test, (t,)),
        forall|t: &GrabRow, b: bool| #[trigger] call_ensures(test, (t,), b) ==> b == chosen(t@),
    ensures
        final(db)@ == old(db)@.deleted(chosen),
        final(db)@.wf(),
        n == old(db)@.rows.len() - final(db)@.rows.len(),
{
    proof {
        db@.deleted_keeps_wf(chosen);
    }
    let n: usize = delete_where(&mut db.rows, test, Ghost(chosen));
    let rows = &db.rows;
    let ghost orphan = |r: RouteRowView| !any_where(views(rows@), is_grab(r.grab_id));
    let lost = |r: &RouteRow| -> (b: bool)
        ensures b == orphan(r@)
        {
            let g: i64 = r.grab_id;
            let by_id = |o: &GrabRow| -> (b: bool)
                ensures b == is_grab(g)(o@)
                { o.id == g };
            !any(rows, by_id, Ghost(is_grab(g)))
        };
    let _m: usize = delete_where(&mut db.routes, lost, Ghost(orphan));
    n as u64
}

/// Deletes a grab and its routes.
pub fn remove(db: &mut GrabStore, id: i64)
    requires
        old(db)@.wf(),
    ensures
        final(db)@ == old(db)@.deleted(is_grab(id)),
        final(db)@.wf(),
        forall|r: GrabRowView| #[trigger]
            final(db)@.rows.contains(r) <==> old(db)@.rows.contains(r) && !(r.id == id),
        forall|r: RouteRowView| #[trigger]
            final(db)@.routes.contains(r) <==> old(db)@.routes.contains(r) && !(r.grab_id == id),
{
    proof {
        lemma_removed_routes(db@, id);
    }
    let test = |r: &GrabRow| -> (b: bool)
        ensures b == is_grab(id)(r@)
        { r.id == id };
    let _n: u64 = delete_grabs(db, test, Ghost(is_grab(id)));
}

/// Deletes the grabs of a series with their routes and says how many grabs
/// there were.
pub fn delete_all_for_series(db: &mut GrabStore, series_id: i64) -> (n: u64)
    requires
        old(db)@.wf(),
    ensures
        final(db)@ == old(db)@.deleted(of_series(series_id)),
        n == old(db)@.rows.len() - final(db)@.rows.len(),
        final(db)@.wf(),
        forall|r: GrabRowView| #[trigger]
            final(db)@.rows.contains(r) <==> old(db)@.rows.contains(r) && !(r.series_id == series_id),
{
    proof {
        crate::table::lemma_without_contains(db@.rows, of_series(series_id));
    }
    let test = |r: &GrabRow| -> (b: bool)
        ensures b == of_series(series_id)(r@)
        { r.series_id == series_id };
    delete_grabs(db, test, Ghost(of_series(series_id)))
}

pub open spec fn routes_series(series_id: i64) -> spec_fn(RouteRowView) -> bool {
    |r: RouteRowView| r.series_id == series_id
}

impl GrabStoreView {
    /// The store without the grabs of a series and without the routes to it.
    pub open spec fn without_series(self, series_id: i64) -> GrabStoreView {
        let left = self.deleted(of_series(series_id));
        GrabStoreView { routes: without(left.routes, routes_series(series_id)), ..left }
    }
}

/// Forgets the grabs of a series that leaves the library, and the routes to it.
pub fn forget_series(db: &mut GrabStore, series_id: i64)
    requires
        old(db)@.wf(),
    ensures
        final(db)@ == old(db)@.without_series(series_id),
        final(db)@.wf(),
        forall|r: GrabRowView| #[trigger]
            final(db)@.rows.contains(r) <==> old(db)@.rows.contains(r) && !(r.series_id == series_id),
        forall|r: RouteRowView| #[trigger]
            final(db)@.routes.contains(r) ==> old(db)@.routes.contains(r) && r.series_id != series_id,
{
    proof {
        let left = db@.deleted(of_series(series_id));
        crate::table::lemma_without_contains(db@.rows, of_series(series_id));
        a_deletion_takes_the_routes_along(db@, of_series(series_id));
        crate::table::lemma_without_contains(left.routes, routes_series(series_id));
    }
    let _n: u64 = delete_all_for_series(db, series_id);
    let ghost gone = routes_series(series_id);
    let ghost left = db@;
    proof {
        crate::table::lemma_without_distinct(
            left.routes,
            gone,
            |r: RouteRowView| route_key(r),
        );
        crate::table::lemma_without_members(left.routes, gone);
    }
    let test = |r: &RouteRow| -> (b: bool)
        ensures b == gone(r@)
        { r.series_id == series_id };
    let _m: usize = delete_where(&mut db.routes, test, Ghost(gone));
    proof {
        assert forall|i: int| 0 <= i < db@.routes.len() implies any_where(
            db@.rows,
            is_grab((#[trigger] db@.routes[i]).grab_id),
        ) by {
            assert(left.routes.contains(db@.routes[i]));
            let k = choose|k: int| 0 <= k < left.routes.len() && left.routes[k] == db@.routes[i];
            assert(any_where(left.rows, is_grab(left.routes[k].grab_id)));
        }
    }
}

/// The id, the hash and the download client of every grab of a series.
pub fn get_all_for_series(db: &GrabStore, series_id: i64) -> (out: Vec<(i64, String, Option<i64>)>)
    ensures
        out.len() == db@.rows.filter(of_series(series_id)).len(),
        forall|i: int|
            0 <= i < out.len() ==> {
                let r = db@.rows.filter(of_series(series_id))[i];
                (#[trigger] out[i]).0 == r.id && out[i].1@ == r.hash && out[i].2
                    == r.download_client_id
            },
{
    let test = |r: &GrabRow| -> (b: bool)
        ensures b == of_series(series_id)(r@)
        { r.series_id == series_id };
    let rows = select(&db.rows, test, Ghost(of_series(series_id)));
    assert(views(rows@).len() == rows.len());
    let mut out: Vec<(i64, String, Option<i64>)> = Vec::new();
    let mut i: usize = 0;
    while i < rows.len()
        invariant
            i <= rows.len(),
            out.len() == i,
            forall|k: int|
                0 <= k < i ==> {
                    let r = views(rows@)[k];
                    (#[trigger] out[k]).0 == r.id && out[k].1@ == r.hash && out[k].2
                        == r.download_client_id
                },
        decreases rows.len() - i,
    {
        assert(views(rows@)[i as int] == rows[i as int]@);
        out.push((rows[i].id, rows[i].hash.clone(), rows[i].download_client_id));
        i += 1;
    }
    out
}

pub open spec fn replaced_grabs(id: i64) -> spec_fn(GrabRowView) -> bool {
    |r: GrabRowView| r.replaced_by_grab_id == Some(id)
}

/// A grab with its series' title; `linked` says whether to look up what
/// replaced it and what it replaced.
pub open spec fn with_series(
    rows: Seq<GrabRowView>,
    series: Seq<SeriesRowView>,
    preference: Seq<char>,
    linked: bool,
) -> spec_fn(GrabRowView) -> GrabbedTorrentWithSeriesView {
    |r: GrabRowView|
        {
            let s = first_where(series, has_id(r.series_id));
            let by = match r.replaced_by_grab_id {
                Some(id) => first_where(rows, is_grab(id)),
                None => None,
            };
            GrabbedTorrentWithSeriesView {
                id: r.id,
                hash: r.hash,
                torrent_name: r.torrent_name,
                series_id: r.series_id,
                episode_numbers: stored_i32s(r.episode_numbers),
                state: r.state,
                grabbed_at: r.grabbed_at,
                imported_at: r.imported_at,
                series_title: match s {
                    Some(s) => preferred_title(s, preference),
                    None => Seq::empty(),
                },
                anilist_id: match s {
                    Some(s) => s.anilist_id,
                    None => 0,
                },
                replaced_by_grab_id: r.replaced_by_grab_id,
                replaced_by_torrent_name: match by {
                    Some(g) => if linked {
                        g.torrent_name
                    } else {
                        Seq::empty()
                    },
                    None => Seq::empty(),
                },
                replaces_count: if linked {
                    rows.filter(replaced_grabs(r.id)).len() as i64
                } else {
                    0
                },
            }
        }
}

fn join_series(
    db: &GrabStore,
    series: &Vec<SeriesRow>,
    r: &GrabRow,
    title_language: &str,
    linked: bool,
) -> (o: GrabbedTorrentWithSeries)
    ensures
        o@ == with_series(db@.rows, views(series@), title_language@, linked)(r@),
{
    let found = find(series, r.series_id);
    let (series_title, anilist_id): (String, i64) = match &found {
        Some(s) => (title_for_preference(s, title_language), s.anilist_id),
        None => (String::new(), 0),
    };
    let mut replaced_by_torrent_name: String = String::new();
    if let Some(id) = r.replaced_by_grab_id {
        let by_id = |o: &GrabRow| -> (b: bool)
            ensures b == is_grab(id)(o@)
            { o.id == id };
        if let Some(i) = position(&db.rows, by_id, Ghost(is_grab(id))) {
            if linked {
                replaced_by_torrent_name = db.rows[i].torrent_name.clone();
            }
        }
    }
    let replaces_count: i64 = if linked {
        let id: i64 = r.id;
        let test = |o: &GrabRow| -> (b: bool)
            ensures b == replaced_grabs(id)(o@)
            { o.replaced_by_grab_id == Some(id) };
        count_where(&db.rows, test, Ghost(replaced_grabs(id))) as i64
    } else {
        0
    };
    GrabbedTorrentWithSeries {
        id: r.id,
        hash: r.hash.clone(),
        torrent_name: r.torrent_name.clone(),
        series_id: r.series_id,
        episode_numbers: load_i32s(&r.episode_numbers),
        state: r.state.clone(),
        grabbed_at: r.grabbed_at.clone(),
        imported_at: dup_optional(&r.imported_at),
        series_title,
        anilist_id,
        replaced_by_grab_id: r.replaced_by_grab_id,
        replaced_by_torrent_name,
        replaces_count,
    }
}

/// The grabs with the titles of their series, newest first, at most `limit`
/// of them; all when `limit` is negative.
pub fn get_all_with_series(
    db: &GrabStore,
    series: &Vec<SeriesRow>,
    limit_to: i64,
    title_language: &str,
) -> (out: Vec<GrabbedTorrentWithSeries>)
    ensures
        views(out@) == limited(ordered(db@.rows, newest_first()), limit_to as int).map_values(
            with_series(db@.rows, views(series@), title_language@, true),
        ),
{
    let rows = limit(sort_newest_first(crate::table::dup_all(&db.rows)), limit_to);
    let ghost made = with_series(db@.rows, views(series@), title_language@, true);
    let make = |r: &GrabRow| -> (o: GrabbedTorrentWithSeries)
        ensures o@ == made(r@)
        { join_series(db, series, r, title_language, true) };
    project(&rows, make, Ghost(made), Ghost(|r: GrabRowView| true))
}

pub open spec fn is_failed() -> spec_fn(GrabRowView) -> bool {
    |r: GrabRowView| r.state == "failed"@
}

/// The failed grabs with the titles of their series, newest first.
pub fn get_blocked(db: &GrabStore, series: &Vec<SeriesRow>, title_language: &str) -> (out: Vec<
    GrabbedTorrentWithSeries,
>)
    ensures
        views(out@) == ordered(db@.rows.filter(is_failed()), newest_first()).map_values(
            with_series(db@.rows, views(series@), title_language@, false),
        ),
{
    let test = |r: &GrabRow| -> (b: bool)
        ensures b == is_failed()(r@)
        { same(&r.state, "failed") };
    let rows = sort_newest_first(select(&db.rows, test, Ghost(is_failed())));
    let ghost made = with_series(db@.rows, views(series@), title_language@, false);
    let make = |r: &GrabRow| -> (o: GrabbedTorrentWithSeries)
        ensures o@ == made(r@)
        { join_series(db, series, r, title_language, false) };
    project(&rows, make, Ghost(made), Ghost(|r: GrabRowView| true))
}

impl GrabStore {
    /// A store without grabs.
    pub fn new() -> (db: GrabStore)
        ensures
            db@.rows == Seq::<GrabRowView>::empty(),
            db@.routes == Seq::<RouteRowView>::empty(),
            db@.last_id == 0,
            db@.wf(),
    {
        let db = GrabStore { rows: Vec::new(), routes: Vec::new(), last_id: 0 };
        assert(db@.rows =~= Seq::<GrabRowView>::empty());
        assert(db@.routes =~= Seq::<RouteRowView>::empty());
        db
    }

    /// Whether the store is as the rules leave it.
    pub fn check(&self) -> (r: bool)
        ensures
            r == self@.wf(),
    {
        let ghost ids = |a: GrabRowView, b: GrabRowView| a.id != b.id;
        let other_id = |a: &GrabRow, b: &GrabRow| -> (r: bool)
            ensures r == ids(a@, b@)
            { a.id != b.id };
        let last: i64 = self.last_id;
        let ghost below = |r: GrabRowView| r.id <= last;
        let small = |r: &GrabRow| -> (b: bool)
            ensures b == below(r@)
            { r.id <= last };
        let ghost no_clash = |a: GrabRowView, b: GrabRowView|
            !(active(a) && active(b) && a.hash.len() > 0 && a.hash == b.hash);
        let apart = |a: &GrabRow, b: &GrabRow| -> (r: bool)
            ensures r == no_clash(a@, b@)
            {
                !(is_active(a) && is_active(b) && !a.hash.as_str().is_empty() && same(
                    &a.hash,
                    &b.hash,
                ))
            };
        let ghost keys = |a: RouteRowView, b: RouteRowView| route_key(a) != route_key(b);
        let other_key = |a: &RouteRow, b: &RouteRow| -> (r: bool)
            ensures r == keys(a@, b@)
            { a.grab_id != b.grab_id || a.series_id != b.series_id };
        let rows = &self.rows;
        let ghost held = |r: RouteRowView| any_where(views(rows@), is_grab(r.grab_id));
        let has_grab = |r: &RouteRow| -> (b: bool)
            ensures b == held(r@)
            {
                let g: i64 = r.grab_id;
                let by_id = |o: &GrabRow| -> (b: bool)
                    ensures b == is_grab(g)(o@)
                    { o.id == g };
                any(rows, by_id, Ghost(is_grab(g)))
            };
        let a: bool = every_pair(&self.rows, other_id, Ghost(ids));
        let b: bool = every(&self.rows, small, Ghost(below));
        let c: bool = every_pair(&self.rows, apart, Ghost(no_clash));
        let d: bool = every_pair(&self.routes, other_key, Ghost(keys));
        let e: bool = every(&self.routes, has_grab, Ghost(held));
        proof {
            let key = |r: GrabRowView| r.id;
            assert(a == distinct(self@.rows, key));
            assert(b == forall|i: int|
                0 <= i < self@.rows.len() ==> (#[trigger] self@.rows[i]).id <= self@.last_id) by {
                if b {
                    assert forall|i: int| 0 <= i < self@.rows.len() implies (
                    #[trigger] self@.rows[i]).id <= self@.last_id by {
                        assert(below(views(self.rows@)[i]));
                    }
                }
            }
            assert(c == self@.one_active_per_hash()) by {
                if c {
                    assert forall|i: int, j: int|
                        0 <= i < j < self@.rows.len() && active(#[trigger] self@.rows[i]) && active(
                            #[trigger] self@.rows[j],
                        ) && self@.rows[i].hash.len() > 0 implies self@.rows[i].hash
                        != self@.rows[j].hash by {
                        assert(no_clash(self@.rows[i], self@.rows[j]));
                    }
                }
            }
            let rkey = |r: RouteRowView| route_key(r);
            assert(d == distinct(self@.routes, rkey));
            assert(e == forall|i: int|
                0 <= i < self@.routes.len() ==> any_where(
                    self@.rows,
                    is_grab((#[trigger] self@.routes[i]).grab_id),
                )) by {
                if e {
                    assert forall|i: int| 0 <= i < self@.routes.len() implies any_where(
                        self@.rows,
                        is_grab((#[trigger] self@.routes[i]).grab_id),
                    ) by {
                        assert(held(views(self.routes@)[i]));
                    }
                }
            }
        }
        a && b && c && d && e
    }
}


/// Whether an older active grab has the hash of this one.
pub open spec fn superfluous(rows: Seq<GrabRowView>) -> spec_fn(GrabRowView) -> bool {
    |r: GrabRowView|
        r.hash.len() > 0 && active(r) && any_where(
            rows,
            |o: GrabRowView| active(o) && o.hash == r.hash && o.id < r.id,
        )
}

/// Deletes, where several active grabs have the same hash, all but the oldest,
/// with their routes. Needs only that no two grabs have the same id.
pub fn drop_duplicate_grabs(db: &mut GrabStore) -> (n: u64)
    requires
        distinct(old(db)@.rows, |r: GrabRowView| r.id),
    ensures
        final(db)@ == old(db)@.deleted(superfluous(old(db)@.rows)),
        final(db)@.one_active_per_hash(),
        n == old(db)@.rows.len() - final(db)@.rows.len(),
{
    let ghost before = db@;
    let copies = crate::table::dup_all(&db.rows);
    let ghost chosen = superfluous(before.rows);
    let test = |r: &GrabRow| -> (b: bool)
        ensures b == chosen(r@)
        {
            let ghost older = |o: GrabRowView| active(o) && o.hash == r@.hash && o.id < r@.id;
            let is_older = |o: &GrabRow| -> (b: bool)
                ensures b == older(o@)
                { is_active(o) && same(&o.hash, &r.hash) && o.id < r.id };
            !r.hash.as_str().is_empty() && is_active(r) && any(&copies, is_older, Ghost(older))
        };
    let n: usize = delete_where(&mut db.rows, test, Ghost(chosen));
    let rows = &db.rows;
    let ghost orphan = |r: RouteRowView| !any_where(views(rows@), is_grab(r.grab_id));
    let lost = |r: &RouteRow| -> (b: bool)
        ensures b == orphan(r@)
        {
            let g: i64 = r.grab_id;
            let by_id = |o: &GrabRow| -> (b: bool)
                ensures b == is_grab(g)(o@)
                { o.id == g };
            !any(rows, by_id, Ghost(is_grab(g)))
        };
    let _m: usize = delete_where(&mut db.routes, lost, Ghost(orphan));
    proof {
        before.deduplicated_has_one_active();
    }
    n as u64
}

impl GrabStoreView {
    proof fn deduplicated_has_one_active(self)
        requires
            distinct(self.rows, |r: GrabRowView| r.id),
        ensures
            self.deleted(superfluous(self.rows)).one_active_per_hash(),
    {
        let chosen = superfluous(self.rows);
        let after = self.deleted(chosen);
        crate::table::lemma_without_members(self.rows, chosen);
        crate::table::lemma_without_distinct(self.rows, chosen, |r: GrabRowView| r.id);
        assert forall|i: int, j: int|
            0 <= i < j < after.rows.len() && active(#[trigger] after.rows[i]) && active(
                #[trigger] after.rows[j],
            ) && after.rows[i].hash.len() > 0 implies after.rows[i].hash != after.rows[j].hash by {
            let a = after.rows[i];
            let b = after.rows[j];
            if a.hash == b.hash {
                assert(a.id != b.id);
                assert(self.rows.contains(a) && self.rows.contains(b));
                let x = choose|x: int| 0 <= x < self.rows.len() && self.rows[x] == a;
                let y = choose|y: int| 0 <= y < self.rows.len() && self.rows[y] == b;
                let older_a = |o: GrabRowView| active(o) && o.hash == a.hash && o.id < a.id;
                let older_b = |o: GrabRowView| active(o) && o.hash == b.hash && o.id < b.id;
                if a.id < b.id {
                    assert(older_b(self.rows[x]));
                    assert(chosen(b));
                } else {
                    assert(older_a(self.rows[y]));
                    assert(chosen(a));
                }
            }
        }
    }
}

/// Once duplicates were dropped, there are none left to drop.
pub proof fn dropping_duplicates_again_changes_nothing(db: GrabStoreView)
    requires
        distinct(db.rows, |r: GrabRowView| r.id),
    ensures
        ({
            let once = db.deleted(superfluous(db.rows));
            once.deleted(superfluous(once.rows)) == once
        }),
{
    let once = db.deleted(superfluous(db.rows));
    db.deduplicated_has_one_active();
    let chosen = superfluous(once.rows);
    let kept = |r: GrabRowView| !chosen(r);
    assert forall|i: int| 0 <= i < once.rows.len() implies kept(#[trigger] once.rows[i]) by {
        let r = once.rows[i];
        if chosen(r) {
            let older = |o: GrabRowView| active(o) && o.hash == r.hash && o.id < r.id;
            let k = choose|k: int| 0 <= k < once.rows.len() && older(#[trigger] once.rows[k]);
            if k < i {
                assert(active(once.rows[k]) && active(once.rows[i]));
            } else {
                assert(active(once.rows[i]) && active(once.rows[k]));
            }
        }
    }
    crate::table::lemma_filter_all(once.rows, kept);
    let orphan = |r: RouteRowView| !any_where(once.rows, is_grab(r.grab_id));
    let held = |r: RouteRowView| !orphan(r);
    crate::table::lemma_without_members(db.routes, orphan);
    assert forall|i: int| 0 <= i < once.routes.len() implies held(#[trigger] once.routes[i]) by {
        assert(once.routes == without(db.routes, orphan));
    }
    crate::table::lemma_filter_all(once.routes, held);
    let again = once.deleted(chosen);
    assert(again.rows =~= once.rows);
    assert(again.routes =~= once.routes);
}

/// A grab that was taken makes its hash known: the row with the returned id
/// is pending, has the hash and the requested episodes, and is the active
/// grab of the hash.
pub proof fn a_taken_grab_is_pending(
    db: GrabStoreView,
    series: Seq<SeriesRowView>,
    hash: Seq<char>,
    torrent_name: Seq<char>,
    series_id: i64,
    episode_numbers: Seq<i32>,
    is_batch: bool,
    now: Seq<char>,
)
    requires
        db.wf(),
    ensures
        ({
            let (after, r) = db.record_grab(
                series,
                hash,
                torrent_name,
                series_id,
                episode_numbers,
                is_batch,
                now,
            );
            r matches Ok(Some(id)) ==> {
                &&& first_where(after.rows, is_grab(id)) matches Some(g)
                &&& g.state == "pending"@
                &&& g.hash == hash
                &&& g.torrent_name == torrent_name
                &&& g.series_id == series_id
                &&& g.episode_numbers == json_of_i32s(episode_numbers)
                &&& g.is_batch == is_batch
                &&& g.imported_at is None
                &&& g.client_content_path.len() == 0
                &&& hash.len() > 0 ==> first_where(after.rows, claims(hash)) == Some(g)
            }
        }),
{
    let (after, r) = db.record_grab(
        series,
        hash,
        torrent_name,
        series_id,
        episode_numbers,
        is_batch,
        now,
    );
    crate::table::lemma_first_where_any(db.rows, claims(hash));
    if let Ok(Some(id)) = r {
        db.record_grab_keeps_wf(
            series,
            hash,
            torrent_name,
            series_id,
            episode_numbers,
            is_batch,
            now,
        );
        let k = if after.rows.len() > db.rows.len() {
            db.rows.len() as int
        } else {
            let g = first_where(db.rows, claims(hash))->0;
            choose|k: int| 0 <= k < db.rows.len() && db.rows[k] == g
        };
        assert(is_grab(id)(after.rows[k]));
        assert forall|j: int| 0 <= j < k implies !is_grab(id)(#[trigger] after.rows[j]) by {
            assert(after.rows[j].id != after.rows[k].id);
        }
        crate::table::lemma_first_where(after.rows, is_grab(id), k);
        if hash.len() > 0 {
            assert(claims(hash)(after.rows[k]));
            assert forall|j: int| 0 <= j < k implies !claims(hash)(#[trigger] after.rows[j]) by {
                if claims(hash)(after.rows[j]) {
                    assert(active(after.rows[j]) && active(after.rows[k]));
                }
            }
            crate::table::lemma_first_where(after.rows, claims(hash), k);
        }
    }
}

/// Grabbing a hash again while its grab is pending changes nothing.
pub proof fn a_pending_grab_is_left_alone(
    db: GrabStoreView,
    series: Seq<SeriesRowView>,
    hash: Seq<char>,
    first_name: Seq<char>,
    first_series: i64,
    first_episodes: Seq<i32>,
    first_batch: bool,
    first_time: Seq<char>,
    second_name: Seq<char>,
    second_series: i64,
    second_episodes: Seq<i32>,
    second_batch: bool,
    second_time: Seq<char>,
)
    requires
        db.wf(),
        hash.len() > 0,
        db.record_grab(
            series,
            hash,
            first_name,
            first_series,
            first_episodes,
            first_batch,
            first_time,
        ).1 is Ok,
    ensures
        ({
            let after = db.record_grab(
                series,
                hash,
                first_name,
                first_series,
                first_episodes,
                first_batch,
                first_time,
            ).0;
            after.record_grab(
                series,
                hash,
                second_name,
                second_series,
                second_episodes,
                second_batch,
                second_time,
            ) == (after, Ok::<Option<i64>, StoreError>(None))
        }),
{
    a_taken_grab_is_pending(
        db,
        series,
        hash,
        first_name,
        first_series,
        first_episodes,
        first_batch,
        first_time,
    );
}

/// Grabbing the hash of an imported grab again keeps its id.
pub proof fn an_imported_grab_is_taken_up_under_its_id(
    db: GrabStoreView,
    series: Seq<SeriesRowView>,
    id: i64,
    torrent_name: Seq<char>,
    series_id: i64,
    episode_numbers: Seq<i32>,
    is_batch: bool,
    now: Seq<char>,
)
    requires
        db.wf(),
        first_where(db.rows, is_grab(id)) matches Some(g) && g.state == "imported"@ && g.hash.len()
            > 0,
        known(series, series_id),
    ensures
        ({
            let hash = first_where(db.rows, is_grab(id))->0.hash;
            let (after, r) = db.record_grab(
                series,
                hash,
                torrent_name,
                series_id,
                episode_numbers,
                is_batch,
                now,
            );
            r == Ok::<Option<i64>, StoreError>(Some(id)) && after.rows.len() == db.rows.len()
        }),
{
    lemma_inactive_states();
    crate::table::lemma_first_where_any(db.rows, is_grab(id));
    let g = first_where(db.rows, is_grab(id))->0;
    let k = choose|k: int| 0 <= k < db.rows.len() && db.rows[k] == g;
    assert(claims(g.hash)(db.rows[k]));
    assert forall|j: int| 0 <= j < k implies !claims(g.hash)(#[trigger] db.rows[j]) by {
        if claims(g.hash)(db.rows[j]) {
            assert(active(db.rows[j]) && active(db.rows[k]));
        }
    }
    crate::table::lemma_first_where(db.rows, claims(g.hash), k);
}

/// A hash whose grabs all failed, or went otherwise, gets a new row: a failed
/// grab is not taken up again.
pub proof fn an_inactive_grab_is_not_taken_up(
    db: GrabStoreView,
    series: Seq<SeriesRowView>,
    hash: Seq<char>,
    torrent_name: Seq<char>,
    series_id: i64,
    episode_numbers: Seq<i32>,
    is_batch: bool,
    now: Seq<char>,
)
    requires
        db.wf(),
        !any_where(db.rows, claims(hash)),
        known(series, series_id),
        db.last_id < i64::MAX,
    ensures
        ({
            let (after, r) = db.record_grab(
                series,
                hash,
                torrent_name,
                series_id,
                episode_numbers,
                is_batch,
                now,
            );
            &&& r == Ok::<Option<i64>, StoreError>(Some((db.last_id + 1) as i64))
            &&& !any_where(db.rows, is_grab((db.last_id + 1) as i64))
            &&& after.rows.len() == db.rows.len() + 1
        }),
{
    crate::table::lemma_first_where_any(db.rows, claims(hash));
}

/// An empty hash never stands for a grab that is there.
pub proof fn an_empty_hash_is_always_new(db: GrabStoreView)
    ensures
        !any_where(db.rows, claims(Seq::empty())),
        !any_where(db.rows, blocked(Seq::empty())),
        !any_where(db.rows, keeps_seed_rules(Seq::empty())),
{
}

/// The first path recorded for a grab stays.
pub proof fn the_first_content_path_stays(
    db: GrabStoreView,
    id: i64,
    first: Seq<char>,
    second: Seq<char>,
)
    requires
        first.len() > 0,
    ensures
        db.changed(unstamped(id), with_content_path(first)).changed(
            unstamped(id),
            with_content_path(second),
        ) == db.changed(unstamped(id), with_content_path(first)),
{
    let once = db.changed(unstamped(id), with_content_path(first));
    let twice = once.changed(unstamped(id), with_content_path(second));
    assert(twice.rows =~= once.rows);
}

/// Once the failed grabs of a hash are replaced, the hash is not blocked.
pub proof fn an_unblocked_hash_is_not_blocklisted(db: GrabStoreView, hash: Seq<char>, by: i64)
    ensures
        !any_where(db.changed(blocked(hash), replaced_by(by)).rows, blocked(hash)),
{
    lemma_inactive_states();
    let after = db.changed(blocked(hash), replaced_by(by));
    assert forall|i: int| 0 <= i < after.rows.len() implies !blocked(hash)(
        #[trigger] after.rows[i],
    ) by {
        let r = db.rows[i];
    }
}

/// A grab is found for the episodes that it was recorded for, and its own
/// series finds it for no other unless a route brings that.
pub proof fn a_grab_is_found_for_its_episodes(
    db: GrabStoreView,
    i: int,
    episodes: Seq<i32>,
    episode: i32,
)
    requires
        0 <= i < db.rows.len(),
        db.rows[i].episode_numbers == json_of_i32s(episodes),
        db.lists_read_back(),
    ensures
        ({
            let g = db.rows[i];
            let found = db.for_episode(g.state, g.series_id, episode);
            &&& episodes.contains(episode) ==> found.contains(g)
            &&& found.contains(g) ==> episodes.contains(episode) || any_where(
                db.routes,
                route_covers(g.id, g.series_id, episode),
            )
        }),
{
    let g = db.rows[i];
    let chosen = db.covering(g.state, g.series_id, episode);
    assert(cells_read_back(db.rows[i].episode_numbers));
    a_written_number_is_found(episodes, episode);
    grab_orders_are_total();
    crate::table::lemma_found(db.rows, chosen, newest_first(), i);
}

/// Once the pending grabs are marked as failed, none is pending.
pub proof fn no_grab_stays_pending(db: GrabStoreView)
    ensures
        !any_where(db.changed(is_pending(), with_state("failed"@)).rows, is_pending()),
{
    lemma_inactive_states();
    let after = db.changed(is_pending(), with_state("failed"@));
    assert forall|i: int| 0 <= i < after.rows.len() implies !is_pending()(
        #[trigger] after.rows[i],
    ) by {
        let r = db.rows[i];
    }
}

/// A grab that is marked as removed, failed or replaced leaves the pending
/// and the imported grabs of every episode.
pub proof fn a_grab_that_went_covers_nothing(
    db: GrabStoreView,
    id: i64,
    state: Seq<char>,
    series_id: i64,
    episode: i32,
)
    requires
        state == "removed"@ || state == "failed"@ || state == "replaced"@,
    ensures
        ({
            let after = db.changed_grab(id, with_state(state));
            forall|i: int|
                0 <= i < after.rows.len() && (#[trigger] after.rows[i]).id == id
                    ==> !after.covering("pending"@, series_id, episode)(after.rows[i])
                    && !after.covering("imported"@, series_id, episode)(after.rows[i])
        }),
{
    lemma_inactive_states();
    let after = db.changed_grab(id, with_state(state));
    assert forall|i: int| 0 <= i < after.rows.len() && (#[trigger] after.rows[i]).id
        == id implies !after.covering("pending"@, series_id, episode)(after.rows[i])
        && !after.covering("imported"@, series_id, episode)(after.rows[i]) by {
        let r = db.rows[i];
    }
}

/// The order of grabs by time is a total preorder.
pub proof fn grab_orders_are_total()
    ensures
        crate::table::total_preorder(newest_first()),
        crate::table::total_preorder(oldest_first()),
        crate::table::total_preorder(largest_id_first()),
        crate::table::total_preorder(newest_named_first()),
{
    assert forall|a: GrabRowView, b: GrabRowView| #[trigger]
        newest_first()(a, b) || newest_first()(b, a) by {
        crate::text::text_order_is_a_total_order(a.grabbed_at, b.grabbed_at, b.grabbed_at);
    }
    assert forall|a: GrabRowView, b: GrabRowView, c: GrabRowView| #[trigger]
        newest_first()(a, b) && #[trigger] newest_first()(b, c) implies newest_first()(a, c) by {
        crate::text::text_order_is_a_total_order(c.grabbed_at, b.grabbed_at, a.grabbed_at);
    }
    assert forall|a: GrabRowView, b: GrabRowView| #[trigger]
        oldest_first()(a, b) || oldest_first()(b, a) by {
        crate::text::text_order_is_a_total_order(a.grabbed_at, b.grabbed_at, b.grabbed_at);
    }
    assert forall|a: GrabRowView, b: GrabRowView, c: GrabRowView| #[trigger]
        oldest_first()(a, b) && #[trigger] oldest_first()(b, c) implies oldest_first()(a, c) by {
        crate::text::text_order_is_a_total_order(a.grabbed_at, b.grabbed_at, c.grabbed_at);
    }
    assert forall|a: NamedEpisodesView, b: NamedEpisodesView| #[trigger]
        newest_named_first()(a, b) || newest_named_first()(b, a) by {
        crate::text::text_order_is_a_total_order(a.grabbed_at, b.grabbed_at, b.grabbed_at);
    }
    assert forall|a: NamedEpisodesView, b: NamedEpisodesView, c: NamedEpisodesView| #[trigger]
        newest_named_first()(a, b) && #[trigger] newest_named_first()(
            b,
            c,
        ) implies newest_named_first()(a, c) by {
        crate::text::text_order_is_a_total_order(c.grabbed_at, b.grabbed_at, a.grabbed_at);
    }
}

/// What a grab of `grabs` brings through a route stands among what they all
/// bring.
proof fn lemma_routed_holds(
    grabs: Seq<GrabRowView>,
    routes: Seq<RouteRowView>,
    series_id: i64,
    i: int,
    j: int,
)
    requires
        0 <= i < grabs.len(),
        0 <= j < routes.len(),
        grabs[i].state == "imported"@,
        routes[j].grab_id == grabs[i].id,
        routes[j].series_id == series_id,
    ensures
        routed_to(grabs, routes, series_id).contains(
            (NamedEpisodesView {
                torrent_name: grabs[i].torrent_name,
                episode_numbers: routes[j].episode_numbers,
                grabbed_at: grabs[i].grabbed_at,
            }),
        ),
    decreases grabs.len(),
{
    let wanted = NamedEpisodesView {
        torrent_name: grabs[i].torrent_name,
        episode_numbers: routes[j].episode_numbers,
        grabbed_at: grabs[i].grabbed_at,
    };
    let before = routed_to(grabs.drop_last(), routes, series_id);
    let g = grabs.last();
    let all = routed_to(grabs, routes, series_id);
    if i == grabs.len() - 1 {
        let chosen = route_at((g.id, series_id));
        let found = routes.filter(chosen);
        routes.lemma_filter_contains(chosen, j);
        let k = choose|k: int| 0 <= k < found.len() && found[k] == routes[j];
        assert(found.map_values(routed_episodes(g))[k] == wanted);
        assert(all[before.len() + k] == wanted);
    } else {
        lemma_routed_holds(grabs.drop_last(), routes, series_id, i, j);
        let k = choose|k: int| 0 <= k < before.len() && before[k] == wanted;
        assert(all[k] == wanted);
    }
}

/// Whatever grabs bring to a series through routes, an imported one of them
/// brings through a route of its own.
proof fn lemma_routed_comes_from(
    grabs: Seq<GrabRowView>,
    routes: Seq<RouteRowView>,
    series_id: i64,
    k: int,
)
    requires
        0 <= k < routed_to(grabs, routes, series_id).len(),
    ensures
        exists|i: int, j: int|
            #![trigger grabs[i], routes[j]]
            0 <= i < grabs.len() && 0 <= j < routes.len() && grabs[i].state == "imported"@
                && routes[j].grab_id == grabs[i].id && routes[j].series_id == series_id
                && routed_to(grabs, routes, series_id)[k].torrent_name == grabs[i].torrent_name
                && routed_to(grabs, routes, series_id)[k].episode_numbers
                == routes[j].episode_numbers && routed_to(grabs, routes, series_id)[k].grabbed_at
                == grabs[i].grabbed_at,
    decreases grabs.len(),
{
    let rest = grabs.drop_last();
    let before = routed_to(rest, routes, series_id);
    let g = grabs.last();
    let all = routed_to(grabs, routes, series_id);
    if k < before.len() {
        lemma_routed_comes_from(rest, routes, series_id, k);
        let (i, j) = choose|i: int, j: int|
            #![trigger rest[i], routes[j]]
            0 <= i < rest.len() && 0 <= j < routes.len() && rest[i].state == "imported"@
                && routes[j].grab_id == rest[i].id && routes[j].series_id == series_id
                && before[k].torrent_name == rest[i].torrent_name && before[k].episode_numbers
                == routes[j].episode_numbers && before[k].grabbed_at == rest[i].grabbed_at;
        assert(all[k] == before[k]);
        assert(grabs[i] == rest[i]);
        assert(routes[j] == routes[j]);
    } else {
        let chosen = route_at((g.id, series_id));
        let found = routes.filter(chosen);
        crate::table::lemma_filter_members(routes, chosen);
        let m = k - before.len();
        assert(found.contains(found[m]));
        assert(routes.contains(found[m]) && chosen(found[m]));
        let j = choose|j: int| 0 <= j < routes.len() && routes[j] == found[m];
        assert(all[k] == routed_episodes(g)(found[m]));
        assert(grabs[grabs.len() - 1] == g);
        assert(routes[j].series_id == series_id);
    }
}

/// An imported grab with a route to a series is listed for that series, under
/// the grab's name and with the episodes of the route.
pub proof fn a_route_brings_its_own_episodes(db: GrabStoreView, series_id: i64, i: int, j: int)
    requires
        0 <= i < db.rows.len(),
        0 <= j < db.routes.len(),
        db.rows[i].state == "imported"@,
        db.routes[j].grab_id == db.rows[i].id,
        db.routes[j].series_id == series_id,
    ensures
        exists|k: int|
            0 <= k < db.imported_for_series(series_id).len() && ({
                let e = #[trigger] db.imported_for_series(series_id)[k];
                e.torrent_name == db.rows[i].torrent_name && e.episode_numbers
                    == db.routes[j].episode_numbers && e.grabbed_at == db.rows[i].grabbed_at
            }),
{
    let own = db.rows.filter(imported_of(series_id)).map_values(own_episodes());
    let routed = routed_to(db.rows, db.routes, series_id);
    let all = own + routed;
    let wanted = NamedEpisodesView {
        torrent_name: db.rows[i].torrent_name,
        episode_numbers: db.routes[j].episode_numbers,
        grabbed_at: db.rows[i].grabbed_at,
    };
    lemma_routed_holds(db.rows, db.routes, series_id, i, j);
    let k = choose|k: int| 0 <= k < routed.len() && routed[k] == wanted;
    assert(all[own.len() + k] == wanted);
    grab_orders_are_total();
    crate::table::lemma_ordered_holds_all(all, newest_named_first());
    let list = db.imported_for_series(series_id);
    assert(list.contains(wanted));
    let m = choose|m: int| 0 <= m < list.len() && list[m] == wanted;
    assert(list[m].torrent_name == db.rows[i].torrent_name);
}

/// An imported grab of a series is listed for it with its own episodes.
pub proof fn an_imported_grab_is_listed_for_its_series(db: GrabStoreView, i: int)
    requires
        0 <= i < db.rows.len(),
        db.rows[i].state == "imported"@,
    ensures
        exists|k: int|
            0 <= k < db.imported_for_series(db.rows[i].series_id).len() && ({
                let e = #[trigger] db.imported_for_series(db.rows[i].series_id)[k];
                e.torrent_name == db.rows[i].torrent_name && e.episode_numbers
                    == db.rows[i].episode_numbers && e.grabbed_at == db.rows[i].grabbed_at
            }),
{
    let series_id = db.rows[i].series_id;
    let chosen = imported_of(series_id);
    let found = db.rows.filter(chosen);
    let own = found.map_values(own_episodes());
    let all = own + routed_to(db.rows, db.routes, series_id);
    db.rows.lemma_filter_contains(chosen, i);
    let k = choose|k: int| 0 <= k < found.len() && found[k] == db.rows[i];
    let wanted = own_episodes()(db.rows[i]);
    assert(all[k] == wanted);
    grab_orders_are_total();
    crate::table::lemma_ordered_holds_all(all, newest_named_first());
    let list = db.imported_for_series(series_id);
    assert(list.contains(wanted));
    let m = choose|m: int| 0 <= m < list.len() && list[m] == wanted;
    assert(list[m].torrent_name == db.rows[i].torrent_name);
}

/// Every entry listed for a series is an imported grab of it with the grab's
/// episodes, or an imported grab with a route to it and the route's episodes.
pub proof fn only_imported_grabs_are_listed_for_a_series(db: GrabStoreView, series_id: i64, k: int)
    requires
        0 <= k < db.imported_for_series(series_id).len(),
    ensures
        ({
            let e = db.imported_for_series(series_id)[k];
            ||| exists|i: int|
                0 <= i < db.rows.len() && (#[trigger] db.rows[i]).state == "imported"@
                    && db.rows[i].series_id == series_id && e.torrent_name
                    == db.rows[i].torrent_name && e.episode_numbers == db.rows[i].episode_numbers
                    && e.grabbed_at == db.rows[i].grabbed_at
            ||| exists|i: int, j: int|
                #![trigger db.rows[i], db.routes[j]]
                0 <= i < db.rows.len() && 0 <= j < db.routes.len() && db.rows[i].state
                    == "imported"@ && db.routes[j].grab_id == db.rows[i].id
                    && db.routes[j].series_id == series_id && e.torrent_name
                    == db.rows[i].torrent_name && e.episode_numbers
                    == db.routes[j].episode_numbers && e.grabbed_at == db.rows[i].grabbed_at
        }),
{
    let chosen = imported_of(series_id);
    let found = db.rows.filter(chosen);
    let own = found.map_values(own_episodes());
    let routed = routed_to(db.rows, db.routes, series_id);
    let all = own + routed;
    let list = db.imported_for_series(series_id);
    crate::table::lemma_ordered_members(all, newest_named_first());
    assert(list.contains(list[k]));
    assert(all.contains(list[k]));
    let m = choose|m: int| 0 <= m < all.len() && all[m] == list[k];
    if m < own.len() {
        crate::table::lemma_filter_members(db.rows, chosen);
        assert(found.contains(found[m]));
        assert(db.rows.contains(found[m]) && chosen(found[m]));
        let i = choose|i: int| 0 <= i < db.rows.len() && db.rows[i] == found[m];
        assert(own[m] == own_episodes()(db.rows[i]));
        assert(db.rows[i].state == "imported"@);
    } else {
        lemma_routed_comes_from(db.rows, db.routes, series_id, m - own.len());
        assert(all[m] == routed[m - own.len()]);
    }
}

/// The list for a series begins with the newest grab.
pub proof fn imported_grabs_are_listed_newest_first(
    db: GrabStoreView,
    series_id: i64,
    j: int,
    k: int,
)
    requires
        0 <= j < k < db.imported_for_series(series_id).len(),
    ensures
        text_le(
            db.imported_for_series(series_id)[k].grabbed_at,
            db.imported_for_series(series_id)[j].grabbed_at,
        ),
{
    grab_orders_are_total();
    let all = db.rows.filter(imported_of(series_id)).map_values(own_episodes()) + routed_to(
        db.rows,
        db.routes,
        series_id,
    );
    crate::table::ordered_is_a_sorted_rearrangement(all, newest_named_first());
    let list = db.imported_for_series(series_id);
    assert(newest_named_first()(list[j], list[k]));
}

proof fn lemma_put_route_members(db: GrabStoreView, row: RouteRowView, r: RouteRowView)
    ensures
        db.put_route(row).routes.contains(r) <==> r == row || (db.routes.contains(r) && (r.grab_id
            != row.grab_id || r.series_id != row.series_id)),
{
    let gone = route_at(route_key(row));
    let kept = without(db.routes, gone);
    let after = db.put_route(row).routes;
    crate::table::lemma_without_members(db.routes, gone);
    assert(after[kept.len() as int] == row);
    if db.routes.contains(r) && !gone(r) {
        let m = choose|m: int| 0 <= m < db.routes.len() && db.routes[m] == r;
        assert(kept.contains(db.routes[m]));
        let n = choose|n: int| 0 <= n < kept.len() && kept[n] == r;
        assert(after[n] == r);
    }
    if after.contains(r) && r != row {
        let m = choose|m: int| 0 <= m < after.len() && after[m] == r;
        assert(kept[m] == r);
    }
}

proof fn lemma_put_routes_others(
    db: GrabStoreView,
    series: Seq<SeriesRowView>,
    routes: Seq<GrabSeriesRouteView>,
    r: RouteRowView,
)
    requires
        db.put_routes(series, routes).1 is Ok,
        forall|l: int|
            0 <= l < routes.len() ==> (#[trigger] routes[l]).grab_id != r.grab_id
                || routes[l].series_id != r.series_id,
    ensures
        db.put_routes(series, routes).0.routes.contains(r) <==> db.routes.contains(r),
        db.put_routes(series, routes).0.rows == db.rows,
    decreases routes.len(),
{
    if routes.len() > 0 {
        let row = stored_route(routes[0]);
        lemma_put_route_members(db, row, r);
        assert(forall|l: int|
            0 <= l < routes.drop_first().len() ==> #[trigger] routes.drop_first()[l] == routes[l
                + 1]);
        lemma_put_routes_others(db.put_route(row), series, routes.drop_first(), r);
    }
}

proof fn lemma_put_routes_last(
    db: GrabStoreView,
    series: Seq<SeriesRowView>,
    routes: Seq<GrabSeriesRouteView>,
    k: int,
    r: RouteRowView,
)
    requires
        db.put_routes(series, routes).1 is Ok,
        0 <= k < routes.len(),
        forall|l: int|
            k < l < routes.len() ==> (#[trigger] routes[l]).grab_id != routes[k].grab_id
                || routes[l].series_id != routes[k].series_id,
        r.grab_id == routes[k].grab_id,
        r.series_id == routes[k].series_id,
    ensures
        db.put_routes(series, routes).0.routes.contains(r) <==> r == stored_route(routes[k]),
        db.put_routes(series, routes).0.rows == db.rows,
    decreases routes.len(),
{
    let row = stored_route(routes[0]);
    let rest = routes.drop_first();
    assert(forall|l: int| 0 <= l < rest.len() ==> #[trigger] rest[l] == routes[l + 1]);
    if k == 0 {
        lemma_put_route_members(db, row, r);
        lemma_put_routes_others(db.put_route(row), series, rest, r);
    } else {
        lemma_put_routes_last(db.put_route(row), series, rest, k - 1, r);
    }
}

/// After routes were recorded, the last one from a grab to a series is the one
/// that is stored for the two, with its episodes, files, subtitle and offset.
pub proof fn a_recorded_route_is_stored(
    db: GrabStoreView,
    series: Seq<SeriesRowView>,
    routes: Seq<GrabSeriesRouteView>,
    k: int,
)
    requires
        db.put_routes(series, routes).1 is Ok,
        0 <= k < routes.len(),
        forall|l: int|
            k < l < routes.len() ==> (#[trigger] routes[l]).grab_id != routes[k].grab_id
                || routes[l].series_id != routes[k].series_id,
    ensures
        ({
            let after = db.put_routes(series, routes).0;
            &&& exists|j: int|
                0 <= j < after.routes.len() && (#[trigger] after.routes[j]).grab_id
                    == routes[k].grab_id && after.routes[j].series_id == routes[k].series_id
            &&& forall|j: int|
                0 <= j < after.routes.len() && (#[trigger] after.routes[j]).grab_id
                    == routes[k].grab_id && after.routes[j].series_id == routes[k].series_id ==> {
                    &&& after.routes[j].episode_numbers == json_of_i32s(routes[k].episode_numbers)
                    &&& after.routes[j].file_indices == json_of_i64s(
                        indices_as_numbers(routes[k].file_indices),
                    )
                    &&& after.routes[j].matched_subtitle == routes[k].matched_subtitle
                    &&& after.routes[j].episode_offset == routes[k].episode_offset
                }
        }),
{
    let after = db.put_routes(series, routes).0;
    let row = stored_route(routes[k]);
    lemma_put_routes_last(db, series, routes, k, row);
    let j = choose|j: int| 0 <= j < after.routes.len() && after.routes[j] == row;
    assert(after.routes[j].grab_id == routes[k].grab_id);
    assert forall|j: int|
        0 <= j < after.routes.len() && (#[trigger] after.routes[j]).grab_id == routes[k].grab_id
            && after.routes[j].series_id == routes[k].series_id implies after.routes[j] == row by {
        lemma_put_routes_last(db, series, routes, k, after.routes[j]);
        assert(after.routes.contains(after.routes[j]));
    }
}

/// Recording routes leaves the grabs as they were, and the routes between other
/// grabs and series.
pub proof fn recording_routes_leaves_the_others(
    db: GrabStoreView,
    series: Seq<SeriesRowView>,
    routes: Seq<GrabSeriesRouteView>,
    r: RouteRowView,
)
    requires
        db.put_routes(series, routes).1 is Ok,
        forall|l: int|
            0 <= l < routes.len() ==> (#[trigger] routes[l]).grab_id != r.grab_id
                || routes[l].series_id != r.series_id,
    ensures
        db.put_routes(series, routes).0.routes.contains(r) <==> db.routes.contains(r),
        db.put_routes(series, routes).0.rows == db.rows,
{
    lemma_put_routes_others(db, series, routes, r);
}

/// Recording routes succeeds where the grab and the series of each exist, and
/// only there.
pub proof fn routes_need_their_grab_and_series(
    db: GrabStoreView,
    series: Seq<SeriesRowView>,
    routes: Seq<GrabSeriesRouteView>,
)
    ensures
        db.put_routes(series, routes).1 is Ok <==> forall|l: int|
            0 <= l < routes.len() ==> {
                &&& exists|i: int| 0 <= i < db.rows.len() && (#[trigger] db.rows[i]).id == (
                #[trigger] routes[l]).grab_id
                &&& exists|i: int| 0 <= i < series.len() && (#[trigger] series[i]).id
                    == routes[l].series_id
            },
    decreases routes.len(),
{
    if routes.len() > 0 {
        let rest = routes.drop_first();
        let mid = db.put_route(stored_route(routes[0]));
        routes_need_their_grab_and_series(mid, series, rest);
        assert(mid.rows == db.rows);
        assert(forall|l: int| 0 <= l < rest.len() ==> #[trigger] rest[l] == routes[l + 1]);
        assert(forall|l: int| 1 <= l < routes.len() ==> #[trigger] routes[l] == rest[l - 1]);
        assert(db.has_ends(series, routes[0]) <==> {
            &&& exists|i: int| 0 <= i < db.rows.len() && (#[trigger] db.rows[i]).id
                == routes[0].grab_id
            &&& exists|i: int| 0 <= i < series.len() && (#[trigger] series[i]).id
                == routes[0].series_id
        });
    }
}

/// After a route was recorded from an imported grab to a series, the grab is
/// listed for that series with the very episodes that were recorded.
pub proof fn a_recorded_route_brings_its_episodes(
    db: GrabStoreView,
    series: Seq<SeriesRowView>,
    routes: Seq<GrabSeriesRouteView>,
    k: int,
    i: int,
)
    requires
        db.put_routes(series, routes).1 is Ok,
        0 <= k < routes.len(),
        forall|l: int|
            k < l < routes.len() ==> (#[trigger] routes[l]).grab_id != routes[k].grab_id
                || routes[l].series_id != routes[k].series_id,
        0 <= i < db.rows.len(),
        db.rows[i].id == routes[k].grab_id,
        db.rows[i].state == "imported"@,
    ensures
        exists|m: int|
            0 <= m < db.put_routes(series, routes).0.imported_for_series(
                routes[k].series_id,
            ).len() && ({
                let e = #[trigger] db.put_routes(series, routes).0.imported_for_series(
                    routes[k].series_id,
                )[m];
                &&& e.torrent_name == db.rows[i].torrent_name
                &&& e.grabbed_at == db.rows[i].grabbed_at
                &&& i32s_read_back(e.episode_numbers) ==> stored_i32s(e.episode_numbers)
                    == routes[k].episode_numbers
            }),
{
    let after = db.put_routes(series, routes).0;
    let s = routes[k].series_id;
    a_recorded_route_is_stored(db, series, routes, k);
    lemma_put_routes_last(db, series, routes, k, stored_route(routes[k]));
    let j = choose|j: int|
        0 <= j < after.routes.len() && (#[trigger] after.routes[j]).grab_id == routes[k].grab_id
            && after.routes[j].series_id == routes[k].series_id;
    assert(after.rows[i] == db.rows[i]);
    a_route_brings_its_own_episodes(after, s, i, j);
    let list = after.imported_for_series(s);
    let m = choose|m: int|
        0 <= m < list.len() && ({
            let e = #[trigger] list[m];
            e.torrent_name == after.rows[i].torrent_name && e.episode_numbers
                == after.routes[j].episode_numbers && e.grabbed_at == after.rows[i].grabbed_at
        });
    assert(list[m].episode_numbers == json_of_i32s(routes[k].episode_numbers));
}

/// A grab is refused as already there exactly where one with its hash, which
/// is not empty, is pending; a refused grab changes nothing.
pub proof fn only_a_pending_hash_is_left_alone(
    db: GrabStoreView,
    series: Seq<SeriesRowView>,
    hash: Seq<char>,
    torrent_name: Seq<char>,
    series_id: i64,
    episode_numbers: Seq<i32>,
    is_batch: bool,
    now: Seq<char>,
)
    requires
        db.wf(),
        db.last_id < i64::MAX,
    ensures
        ({
            let (after, r) = db.record_grab(
                series,
                hash,
                torrent_name,
                series_id,
                episode_numbers,
                is_batch,
                now,
            );
            let pending = exists|i: int|
                0 <= i < db.rows.len() && hash.len() > 0 && (#[trigger] db.rows[i]).hash == hash
                    && db.rows[i].state == "pending"@;
            let there = exists|i: int|
                0 <= i < series.len() && (#[trigger] series[i]).id == series_id;
            &&& pending ==> r == Ok::<Option<i64>, StoreError>(None) && after == db
            &&& !pending && !there ==> r == Err::<Option<i64>, StoreError>(
                StoreError::MissingParent,
            ) && after == db
            &&& !pending && there ==> r is Ok && r->Ok_0 is Some
        }),
{
    let m = claims(hash);
    crate::table::lemma_first_where_any(db.rows, m);
    assert(known(series, series_id) <==> exists|i: int|
        0 <= i < series.len() && (#[trigger] series[i]).id == series_id);
    if first_where(db.rows, m) is Some {
        let k = crate::table::lemma_first_index(db.rows, m);
        assert forall|i: int|
            0 <= i < db.rows.len() && hash.len() > 0 && (#[trigger] db.rows[i]).hash == hash
                && db.rows[i].state == "pending"@ implies i == k by {
            assert(active(db.rows[i]) && active(db.rows[k]));
            assert(m(db.rows[i]) && m(db.rows[k]));
        }
    } else {
        assert forall|i: int|
            0 <= i < db.rows.len() && hash.len() > 0 && (#[trigger] db.rows[i]).hash
                == hash implies db.rows[i].state != "pending"@ by {
            assert(!m(db.rows[i]));
        }
    }
}

/// A grab that is taken leaves every other grab and every route as it was. A
/// row that is taken up again keeps its hash, its indexer, its client and what
/// was imported from it; a new row has none of these.
pub proof fn a_taken_grab_leaves_the_others(
    db: GrabStoreView,
    series: Seq<SeriesRowView>,
    hash: Seq<char>,
    torrent_name: Seq<char>,
    series_id: i64,
    episode_numbers: Seq<i32>,
    is_batch: bool,
    now: Seq<char>,
    i: int,
)
    requires
        db.wf(),
        0 <= i < db.record_grab(
            series,
            hash,
            torrent_name,
            series_id,
            episode_numbers,
            is_batch,
            now,
        ).0.rows.len(),
    ensures
        ({
            let (after, r) = db.record_grab(
                series,
                hash,
                torrent_name,
                series_id,
                episode_numbers,
                is_batch,
                now,
            );
            &&& after.routes == db.routes
            &&& after.rows.len() >= db.rows.len()
            &&& r matches Ok(Some(id)) ==> {
                let g = after.rows[i];
                &&& g.id != id ==> i < db.rows.len() && g == db.rows[i]
                &&& g.id == id ==> g.grabbed_at == now && g.state == "pending"@ && g.hash == hash
                    && g.torrent_name == torrent_name && g.series_id == series_id && g.is_batch
                    == is_batch && g.imported_at is None && g.client_content_path.len() == 0
                    && g.episode_numbers == json_of_i32s(episode_numbers)
                &&& g.id == id && i < db.rows.len() ==> g.id == db.rows[i].id && g.indexer_id
                    == db.rows[i].indexer_id && g.respect_seed_rules
                    == db.rows[i].respect_seed_rules && g.download_client_id
                    == db.rows[i].download_client_id && g.imported_source_paths
                    == db.rows[i].imported_source_paths && g.replaced_by_grab_id
                    == db.rows[i].replaced_by_grab_id
                &&& g.id == id && i >= db.rows.len() ==> g.indexer_id is None
                    && !g.respect_seed_rules && g.download_client_id is None
                    && g.imported_source_paths is None && g.replaced_by_grab_id is None
            }
        }),
{
    let (after, r) = db.record_grab(
        series,
        hash,
        torrent_name,
        series_id,
        episode_numbers,
        is_batch,
        now,
    );
    let m = claims(hash);
    crate::table::lemma_first_where_any(db.rows, m);
    if first_where(db.rows, m) is Some {
        let k = crate::table::lemma_first_index(db.rows, m);
        if i < db.rows.len() && m(db.rows[i]) {
            assert(i == k);
        }
        if r is Ok && r->Ok_0 is Some && i != k {
            assert(grab_id(db.rows[i]) != grab_id(db.rows[k]));
        }
    } else if r is Ok {
        if i < db.rows.len() {
            assert(after.rows[i] == db.rows[i]);
            assert(grab_id(db.rows[i]) <= db.last_id);
        }
    }
}

/// The list of pending grabs holds each grab that is pending, oldest first,
/// and no others.
pub proof fn the_pending_list_holds_every_pending_grab(db: GrabStoreView, g: GrabRowView)
    ensures
        db.pending().contains(g) <==> db.rows.contains(g) && g.state == "pending"@,
        forall|j: int, k: int|
            0 <= j < k < db.pending().len() ==> text_le(
                (#[trigger] db.pending()[j]).grabbed_at,
                (#[trigger] db.pending()[k]).grabbed_at,
            ),
{
    grab_orders_are_total();
    lemma_list_contains(db.rows, is_pending(), oldest_first(), g);
    crate::table::lemma_listed(db.rows, is_pending(), oldest_first());
    assert forall|j: int, k: int| 0 <= j < k < db.pending().len() implies text_le(
        (#[trigger] db.pending()[j]).grabbed_at,
        (#[trigger] db.pending()[k]).grabbed_at,
    ) by {
        assert(oldest_first()(db.pending()[j], db.pending()[k]));
    }
}

proof fn lemma_list_contains(
    rows: Seq<GrabRowView>,
    chosen: spec_fn(GrabRowView) -> bool,
    before: spec_fn(GrabRowView, GrabRowView) -> bool,
    g: GrabRowView,
)
    requires
        crate::table::total_preorder(before),
    ensures
        ordered(rows.filter(chosen), before).contains(g) <==> rows.contains(g) && chosen(g),
{
    let o = ordered(rows.filter(chosen), before);
    crate::table::lemma_listed(rows, chosen, before);
    if o.contains(g) {
        let k = choose|k: int| 0 <= k < o.len() && o[k] == g;
        assert(chosen(o[k]) && rows.contains(o[k]));
    }
    if rows.contains(g) && chosen(g) {
        let i = choose|i: int| 0 <= i < rows.len() && rows[i] == g;
        assert(chosen(rows[i]));
        assert(o.contains(rows[i]));
    }
}

/// The grabs found for an episode are those in the state asked for that are of
/// the series and list the episode, or that have a route to the series which
/// lists it; the newest comes first.
pub proof fn the_grabs_of_an_episode_are_found(
    db: GrabStoreView,
    state: Seq<char>,
    series_id: i64,
    episode: i32,
    g: GrabRowView,
)
    ensures
        db.for_episode(state, series_id, episode).contains(g) <==> db.rows.contains(g) && g.state
            == state && ((g.series_id == series_id && json_has(g.episode_numbers, episode)) || (
        exists|j: int|
            0 <= j < db.routes.len() && (#[trigger] db.routes[j]).grab_id == g.id
                && db.routes[j].series_id == series_id && json_has(
                db.routes[j].episode_numbers,
                episode,
            ))),
        forall|j: int, k: int|
            0 <= j < k < db.for_episode(state, series_id, episode).len() ==> text_le(
                (#[trigger] db.for_episode(state, series_id, episode)[k]).grabbed_at,
                (#[trigger] db.for_episode(state, series_id, episode)[j]).grabbed_at,
            ),
{
    let list = db.for_episode(state, series_id, episode);
    let chosen = db.covering(state, series_id, episode);
    grab_orders_are_total();
    lemma_list_contains(db.rows, chosen, newest_first(), g);
    crate::table::lemma_listed(db.rows, chosen, newest_first());
    assert forall|j: int, k: int| 0 <= j < k < list.len() implies text_le(
        (#[trigger] list[k]).grabbed_at,
        (#[trigger] list[j]).grabbed_at,
    ) by {
        assert(newest_first()(list[j], list[k]));
    }
}

/// A grab is read with the values of its row, and with the episodes that were
/// written in it.
pub proof fn a_grab_is_read_as_it_is_stored(r: GrabRowView, episodes: Seq<i32>)
    ensures
        ({
            let g = grab_reader()(r);
            &&& g.id == r.id && g.hash == r.hash && g.torrent_name == r.torrent_name && g.series_id
                == r.series_id && g.state == r.state && g.grabbed_at == r.grabbed_at && g.is_batch
                == r.is_batch && g.download_client_id == r.download_client_id
            &&& i32s_read_back(r.episode_numbers) && r.episode_numbers == json_of_i32s(episodes)
                ==> g.episode_numbers == episodes
        }),
{
}

/// Deleting grabs keeps every other grab, and the routes of exactly those
/// grabs that are left.
pub proof fn a_deletion_takes_the_routes_along(
    db: GrabStoreView,
    chosen: spec_fn(GrabRowView) -> bool,
)
    ensures
        forall|g: GrabRowView| #[trigger]
            db.deleted(chosen).rows.contains(g) <==> db.rows.contains(g) && !chosen(g),
        forall|r: RouteRowView| #[trigger]
            db.deleted(chosen).routes.contains(r) <==> db.routes.contains(r) && exists|g: GrabRowView|
                #[trigger] db.rows.contains(g) && !chosen(g) && g.id == r.grab_id,
{
    let rows = without(db.rows, chosen);
    let orphan = |r: RouteRowView| !any_where(rows, is_grab(r.grab_id));
    crate::table::lemma_without_contains(db.rows, chosen);
    crate::table::lemma_without_contains(db.routes, orphan);
    assert forall|r: RouteRowView| #[trigger]
        db.deleted(chosen).routes.contains(r) <==> db.routes.contains(r) && exists|
            g: GrabRowView,
        | #[trigger]
            db.rows.contains(g) && !chosen(g) && g.id == r.grab_id by {
        if any_where(rows, is_grab(r.grab_id)) {
            let k = choose|k: int| 0 <= k < rows.len() && is_grab(r.grab_id)(#[trigger] rows[k]);
            assert(rows.contains(rows[k]));
            assert(db.rows.contains(rows[k]));
        }
        if exists|g: GrabRowView| #[trigger]
            db.rows.contains(g) && !chosen(g) && g.id == r.grab_id {
            let g = choose|g: GrabRowView| #[trigger]
                db.rows.contains(g) && !chosen(g) && g.id == r.grab_id;
            assert(rows.contains(g));
            let k = choose|k: int| 0 <= k < rows.len() && rows[k] == g;
            assert(is_grab(r.grab_id)(rows[k]));
        }
    }
}

/// Of the active grabs that share a hash, dropping duplicates keeps the one
/// with the smallest id. Grabs that are not active, and those without a hash,
/// all stay.
pub proof fn the_oldest_of_the_duplicates_stays(db: GrabStoreView, g: GrabRowView)
    ensures
        db.deleted(superfluous(db.rows)).rows.contains(g) <==> db.rows.contains(g) && (
        g.hash.len() == 0 || !(g.state == "pending"@ || g.state == "imported"@) || forall|i: int|
            0 <= i < db.rows.len() && (#[trigger] db.rows[i]).hash == g.hash && (db.rows[i].state
                == "pending"@ || db.rows[i].state == "imported"@) ==> g.id <= db.rows[i].id),
{
    a_deletion_takes_the_routes_along(db, superfluous(db.rows));
    let rival = |o: GrabRowView| active(o) && o.hash == g.hash && o.id < g.id;
    if any_where(db.rows, rival) {
        let k = choose|k: int| 0 <= k < db.rows.len() && rival(#[trigger] db.rows[k]);
        assert(db.rows[k].id < g.id);
    } else {
        assert forall|i: int|
            0 <= i < db.rows.len() && (#[trigger] db.rows[i]).hash == g.hash && (db.rows[i].state
                == "pending"@ || db.rows[i].state == "imported"@) implies g.id
            <= db.rows[i].id by {
            assert(!rival(db.rows[i]));
        }
    }
}

/// A grab that is shown with its series has the values of its row, the title
/// of the series as the reader likes it, the name of the grab that replaced it
/// and the number of grabs that it replaced. In the blocklist the last two are
/// left out.
pub proof fn a_grab_is_shown_with_its_series(
    rows: Seq<GrabRowView>,
    series: Seq<SeriesRowView>,
    preference: Seq<char>,
    linked: bool,
    r: GrabRowView,
)
    ensures
        ({
            let o = with_series(rows, series, preference, linked)(r);
            &&& o.id == r.id && o.hash == r.hash && o.torrent_name == r.torrent_name && o.series_id
                == r.series_id && o.state == r.state && o.grabbed_at == r.grabbed_at
                && o.imported_at == r.imported_at && o.replaced_by_grab_id
                == r.replaced_by_grab_id
            &&& (exists|i: int| 0 <= i < series.len() && (#[trigger] series[i]).id == r.series_id)
                ==> exists|i: int|
                0 <= i < series.len() && (#[trigger] series[i]).id == r.series_id
                    && o.series_title == preferred_title(series[i], preference) && o.anilist_id
                    == series[i].anilist_id
            &&& !(exists|i: int|
                0 <= i < series.len() && (#[trigger] series[i]).id == r.series_id)
                ==> o.series_title.len() == 0 && o.anilist_id == 0
            &&& !linked || r.replaced_by_grab_id is None ==> o.replaced_by_torrent_name.len() == 0
            &&& linked && r.replaced_by_grab_id is Some && (exists|i: int|
                0 <= i < rows.len() && (#[trigger] rows[i]).id == r.replaced_by_grab_id->0)
                ==> exists|i: int|
                0 <= i < rows.len() && (#[trigger] rows[i]).id == r.replaced_by_grab_id->0
                    && o.replaced_by_torrent_name == rows[i].torrent_name
            &&& !linked ==> o.replaces_count == 0
            &&& (forall|i: int|
                0 <= i < rows.len() ==> (#[trigger] rows[i]).replaced_by_grab_id != Some(r.id))
                ==> o.replaces_count == 0
        }),
{
    let m = has_id(r.series_id);
    crate::table::lemma_first_where_any(series, m);
    if first_where(series, m) is Some {
        let k = crate::table::lemma_first_index(series, m);
        assert(series[k].id == r.series_id);
    } else {
        assert forall|i: int| 0 <= i < series.len() implies (#[trigger] series[i]).id
            != r.series_id by {
            assert(!m(series[i]));
        }
    }
    if r.replaced_by_grab_id is Some {
        let n = is_grab(r.replaced_by_grab_id->0);
        crate::table::lemma_first_where_any(rows, n);
        if first_where(rows, n) is Some {
            let k = crate::table::lemma_first_index(rows, n);
            assert(rows[k].id == r.replaced_by_grab_id->0);
        } else {
            assert forall|i: int| 0 <= i < rows.len() implies (#[trigger] rows[i]).id
                != r.replaced_by_grab_id->0 by {
                assert(!n(rows[i]));
            }
        }
    }
    if forall|i: int|
        0 <= i < rows.len() ==> (#[trigger] rows[i]).replaced_by_grab_id != Some(r.id) {
        crate::table::lemma_filter_none(rows, replaced_grabs(r.id));
    }
}

/// The blocklist holds the failed grabs, newest first, and no others.
pub proof fn the_blocklist_holds_the_failed_grabs(db: GrabStoreView, g: GrabRowView)
    ensures
        ordered(db.rows.filter(is_failed()), newest_first()).contains(g) <==> db.rows.contains(g)
            && g.state == "failed"@,
        crate::table::in_order(
            ordered(db.rows.filter(is_failed()), newest_first()),
            |a: GrabRowView, b: GrabRowView| text_le(b.grabbed_at, a.grabbed_at),
        ),
{
    grab_orders_are_total();
    lemma_list_contains(db.rows, is_failed(), newest_first(), g);
    crate::table::lemma_listed(db.rows, is_failed(), newest_first());
    let list = ordered(db.rows.filter(is_failed()), newest_first());
    assert forall|j: int, k: int| 0 <= j < k < list.len() implies text_le(
        (#[trigger] list[k]).grabbed_at,
        (#[trigger] list[j]).grabbed_at,
    ) by {
        assert(newest_first()(list[j], list[k]));
    }
}

proof fn lemma_removed_routes(db: GrabStoreView, id: i64)
    requires
        db.wf(),
    ensures
        forall|r: GrabRowView| #[trigger]
            db.deleted(is_grab(id)).rows.contains(r) <==> db.rows.contains(r) && !(r.id == id),
        forall|r: RouteRowView| #[trigger]
            db.deleted(is_grab(id)).routes.contains(r) <==> db.routes.contains(r) && !(r.grab_id
                == id),
{
    a_deletion_takes_the_routes_along(db, is_grab(id));
    assert forall|r: RouteRowView| db.routes.contains(r) && r.grab_id != id implies exists|
        g: GrabRowView,
    | #[trigger]
        db.rows.contains(g) && g.id != id && g.id == r.grab_id by {
        let k = choose|k: int| 0 <= k < db.routes.len() && db.routes[k] == r;
        assert(any_where(db.rows, is_grab(db.routes[k].grab_id)));
        let i = choose|i: int| 0 <= i < db.rows.len() && is_grab(r.grab_id)(#[trigger] db.rows[i]);
        assert(db.rows.contains(db.rows[i]));
    }
}

/// The paths that a series was imported from are those of its imported grabs
/// that have any, and of no others.
pub proof fn source_paths_are_those_of_imported_grabs(
    db: GrabStoreView,
    series_id: i64,
    g: GrabRowView,
)
    ensures
        db.rows.filter(imported_with_paths(series_id)).contains(g) <==> db.rows.contains(g)
            && g.series_id == series_id && g.state == "imported"@
            && g.imported_source_paths is Some && (g.imported_source_paths->0).len() > 0,
{
    let chosen = imported_with_paths(series_id);
    let found = db.rows.filter(chosen);
    crate::table::lemma_filter_members(db.rows, chosen);
    if found.contains(g) {
        let k = choose|k: int| 0 <= k < found.len() && found[k] == g;
        assert(db.rows.contains(found[k]) && chosen(found[k]));
    }
    if db.rows.contains(g) && chosen(g) {
        let i = choose|i: int| 0 <= i < db.rows.len() && db.rows[i] == g;
        db.rows.lemma_filter_contains(chosen, i);
    }
}

/// The grabs of a series are listed, and no others.
pub proof fn the_grabs_of_a_series_are_listed(db: GrabStoreView, series_id: i64, g: GrabRowView)
    ensures
        db.rows.filter(of_series(series_id)).contains(g) <==> db.rows.contains(g) && g.series_id
            == series_id,
{
    let chosen = of_series(series_id);
    let found = db.rows.filter(chosen);
    crate::table::lemma_filter_members(db.rows, chosen);
    if found.contains(g) {
        let k = choose|k: int| 0 <= k < found.len() && found[k] == g;
        assert(db.rows.contains(found[k]) && chosen(found[k]));
    }
    if db.rows.contains(g) && chosen(g) {
        let i = choose|i: int| 0 <= i < db.rows.len() && db.rows[i] == g;
        db.rows.lemma_filter_contains(chosen, i);
    }
}

} // verus!
