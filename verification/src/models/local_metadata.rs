//! What the metadata providers say of related titles and of episodes, kept
//! for series of the library and for titles by provider id.
use crate::models::series::{is_known, known, SeriesRow};
use crate::models::StoreError;
use crate::table::{
    any, any_where, delete_where, distinct, dup_all, every_pair, first_of_each, first_where,
    keep_first_of_each, order_by, ordered, position, project, select, update_where, updated, views,
    without, Dup,
};
use crate::text::{
    at_most, decimal, own, push_decimal, replace_all, replaced, same, text_le,
};
use std::collections::HashMap;
use vstd::prelude::*;

verus! {

/// What is known of an episode.
#[derive(Debug)]
pub struct CachedEpisodeMetadata {
    pub episode_number: i32,
    pub title: String,
    pub title_romaji: String,
    pub title_english: String,
    pub title_native: String,
    pub aired: String,
    pub source: String,
}

/// The contents of a [`CachedEpisodeMetadata`].
#[verifier::ext_equal]
pub struct CachedEpisodeMetadataView {
    pub episode_number: i32,
    pub title: Seq<char>,
    pub title_romaji: Seq<char>,
    pub title_english: Seq<char>,
    pub title_native: Seq<char>,
    pub aired: Seq<char>,
    pub source: Seq<char>,
}

impl View for CachedEpisodeMetadata {
    type V = CachedEpisodeMetadataView;

    open spec fn view(&self) -> CachedEpisodeMetadataView {
        CachedEpisodeMetadataView {
            episode_number: self.episode_number,
            title: self.title@,
            title_romaji: self.title_romaji@,
            title_english: self.title_english@,
            title_native: self.title_native@,
            aired: self.aired@,
            source: self.source@,
        }
    }
}

impl Dup for CachedEpisodeMetadata {
    fn dup(&self) -> (copy: Self) {
        CachedEpisodeMetadata {
            episode_number: self.episode_number,
            title: self.title.clone(),
            title_romaji: self.title_romaji.clone(),
            title_english: self.title_english.clone(),
            title_native: self.title_native.clone(),
            aired: self.aired.clone(),
            source: self.source.clone(),
        }
    }
}

impl Clone for CachedEpisodeMetadata {
    fn clone(&self) -> (copy: Self)
        ensures
            copy@ == self@,
    {
        self.dup()
    }
}

/// A title that is related to another.
#[derive(Debug)]
pub struct RelatedEntry {
    pub id: i64,
    pub id_mal: Option<i64>,
    pub title_romaji: String,
    pub title_english: String,
    pub title_native: String,
    pub cover_url: String,
    pub format: String,
    pub status: String,
    pub status_display: String,
    pub episodes: Option<i32>,
    pub relation_type: String,
    pub season_year: Option<i32>,
    pub media_type: String,
}

/// The contents of a [`RelatedEntry`].
#[verifier::ext_equal]
pub struct RelatedEntryView {
    pub id: i64,
    pub id_mal: Option<i64>,
    pub title_romaji: Seq<char>,
    pub title_english: Seq<char>,
    pub title_native: Seq<char>,
    pub cover_url: Seq<char>,
    pub format: Seq<char>,
    pub status: Seq<char>,
    pub status_display: Seq<char>,
    pub episodes: Option<i32>,
    pub relation_type: Seq<char>,
    pub season_year: Option<i32>,
    pub media_type: Seq<char>,
}

impl View for RelatedEntry {
    type V = RelatedEntryView;

    open spec fn view(&self) -> RelatedEntryView {
        RelatedEntryView {
            id: self.id,
            id_mal: self.id_mal,
            title_romaji: self.title_romaji@,
            title_english: self.title_english@,
            title_native: self.title_native@,
            cover_url: self.cover_url@,
            format: self.format@,
            status: self.status@,
            status_display: self.status_display@,
            episodes: self.episodes,
            relation_type: self.relation_type@,
            season_year: self.season_year,
            media_type: self.media_type@,
        }
    }
}

impl Dup for RelatedEntry {
    fn dup(&self) -> (copy: Self) {
        RelatedEntry {
            id: self.id,
            id_mal: self.id_mal,
            title_romaji: self.title_romaji.clone(),
            title_english: self.title_english.clone(),
            title_native: self.title_native.clone(),
            cover_url: self.cover_url.clone(),
            format: self.format.clone(),
            status: self.status.clone(),
            status_display: self.status_display.clone(),
            episodes: self.episodes,
            relation_type: self.relation_type.clone(),
            season_year: self.season_year,
            media_type: self.media_type.clone(),
        }
    }
}

impl Clone for RelatedEntry {
    fn clone(&self) -> (copy: Self)
        ensures
            copy@ == self@,
    {
        self.dup()
    }
}

/// A title with the titles that are related to it.
#[derive(Debug)]
pub struct AnimeDetail {
    pub id: i64,
    pub id_mal: Option<i64>,
    pub title_romaji: String,
    pub title_english: String,
    pub title_native: String,
    pub cover_url: String,
    pub format: String,
    pub status: String,
    pub episodes: Option<i32>,
    pub season_year: Option<i32>,
    pub relations: Vec<RelatedEntry>,
}

/// The contents of a [`AnimeDetail`].
#[verifier::ext_equal]
pub struct AnimeDetailView {
    pub id: i64,
    pub id_mal: Option<i64>,
    pub title_romaji: Seq<char>,
    pub title_english: Seq<char>,
    pub title_native: Seq<char>,
    pub cover_url: Seq<char>,
    pub format: Seq<char>,
    pub status: Seq<char>,
    pub episodes: Option<i32>,
    pub season_year: Option<i32>,
    pub relations: Seq<RelatedEntryView>,
}

impl View for AnimeDetail {
    type V = AnimeDetailView;

    open spec fn view(&self) -> AnimeDetailView {
        AnimeDetailView {
            id: self.id,
            id_mal: self.id_mal,
            title_romaji: self.title_romaji@,
            title_english: self.title_english@,
            title_native: self.title_native@,
            cover_url: self.cover_url@,
            format: self.format@,
            status: self.status@,
            episodes: self.episodes,
            season_year: self.season_year,
            relations: views(self.relations@),
        }
    }
}

impl Dup for AnimeDetail {
    fn dup(&self) -> (copy: Self) {
        AnimeDetail {
            id: self.id,
            id_mal: self.id_mal,
            title_romaji: self.title_romaji.clone(),
            title_english: self.title_english.clone(),
            title_native: self.title_native.clone(),
            cover_url: self.cover_url.clone(),
            format: self.format.clone(),
            status: self.status.clone(),
            episodes: self.episodes,
            season_year: self.season_year,
            relations: dup_all(&self.relations),
        }
    }
}

impl Clone for AnimeDetail {
    fn clone(&self) -> (copy: Self)
        ensures
            copy@ == self@,
    {
        self.dup()
    }
}

/// A relation as it is stored, under the title it belongs to.
#[derive(Debug)]
pub struct RelationRow {
    pub owner_id: i64,
    pub related_provider_id: i64,
    pub related_mal_id: Option<i64>,
    pub title_romaji: String,
    pub title_english: String,
    pub title_native: String,
    pub cover_url: String,
    pub format: String,
    pub status: String,
    pub episodes: Option<i32>,
    pub relation_type: String,
    pub season_year: Option<i32>,
    pub media_type: String,
    pub cached_at: String,
}

/// The contents of a [`RelationRow`].
#[verifier::ext_equal]
pub struct RelationRowView {
    pub owner_id: i64,
    pub related_provider_id: i64,
    pub related_mal_id: Option<i64>,
    pub title_romaji: Seq<char>,
    pub title_english: Seq<char>,
    pub title_native: Seq<char>,
    pub cover_url: Seq<char>,
    pub format: Seq<char>,
    pub status: Seq<char>,
    pub episodes: Option<i32>,
    pub relation_type: Seq<char>,
    pub season_year: Option<i32>,
    pub media_type: Seq<char>,
    pub cached_at: Seq<char>,
}

impl View for RelationRow {
    type V = RelationRowView;

    open spec fn view(&self) -> RelationRowView {
        RelationRowView {
            owner_id: self.owner_id,
            related_provider_id: self.related_provider_id,
            related_mal_id: self.related_mal_id,
            title_romaji: self.title_romaji@,
            title_english: self.title_english@,
            title_native: self.title_native@,
            cover_url: self.cover_url@,
            format: self.format@,
            status: self.status@,
            episodes: self.episodes,
            relation_type: self.relation_type@,
            season_year: self.season_year,
            media_type: self.media_type@,
            cached_at: self.cached_at@,
        }
    }
}

impl Dup for RelationRow {
    fn dup(&self) -> (copy: Self) {
        RelationRow {
            owner_id: self.owner_id,
            related_provider_id: self.related_provider_id,
            related_mal_id: self.related_mal_id,
            title_romaji: self.title_romaji.clone(),
            title_english: self.title_english.clone(),
            title_native: self.title_native.clone(),
            cover_url: self.cover_url.clone(),
            format: self.format.clone(),
            status: self.status.clone(),
            episodes: self.episodes,
            relation_type: self.relation_type.clone(),
            season_year: self.season_year,
            media_type: self.media_type.clone(),
            cached_at: self.cached_at.clone(),
        }
    }
}

impl Clone for RelationRow {
    fn clone(&self) -> (copy: Self)
        ensures
            copy@ == self@,
    {
        self.dup()
    }
}

/// What is known of an episode, under the title it belongs to.
#[derive(Debug)]
pub struct EpisodeRow {
    pub owner_id: i64,
    pub episode: CachedEpisodeMetadata,
    pub cached_at: String,
}

/// The contents of a [`EpisodeRow`].
#[verifier::ext_equal]
pub struct EpisodeRowView {
    pub owner_id: i64,
    pub episode: CachedEpisodeMetadataView,
    pub cached_at: Seq<char>,
}

impl View for EpisodeRow {
    type V = EpisodeRowView;

    open spec fn view(&self) -> EpisodeRowView {
        EpisodeRowView {
            owner_id: self.owner_id,
            episode: self.episode@,
            cached_at: self.cached_at@,
        }
    }
}

impl Dup for EpisodeRow {
    fn dup(&self) -> (copy: Self) {
        EpisodeRow {
            owner_id: self.owner_id,
            episode: self.episode.dup(),
            cached_at: self.cached_at.clone(),
        }
    }
}

impl Clone for EpisodeRow {
    fn clone(&self) -> (copy: Self)
        ensures
            copy@ == self@,
    {
        self.dup()
    }
}

/// What is kept of a title by provider id.
#[derive(Debug)]
pub struct ProviderMetadata {
    pub provider_id: i64,
    pub mal_id: Option<i64>,
    pub title_romaji: String,
    pub title_english: String,
    pub title_native: String,
    pub cover_url: String,
    pub format: String,
    pub status: String,
    pub episodes: Option<i32>,
    pub season_year: Option<i32>,
}

/// The contents of a [`ProviderMetadata`].
#[verifier::ext_equal]
pub struct ProviderMetadataView {
    pub provider_id: i64,
    pub mal_id: Option<i64>,
    pub title_romaji: Seq<char>,
    pub title_english: Seq<char>,
    pub title_native: Seq<char>,
    pub cover_url: Seq<char>,
    pub format: Seq<char>,
    pub status: Seq<char>,
    pub episodes: Option<i32>,
    pub season_year: Option<i32>,
}

impl View for ProviderMetadata {
    type V = ProviderMetadataView;

    open spec fn view(&self) -> ProviderMetadataView {
        ProviderMetadataView {
            provider_id: self.provider_id,
            mal_id: self.mal_id,
            title_romaji: self.title_romaji@,
            title_english: self.title_english@,
            title_native: self.title_native@,
            cover_url: self.cover_url@,
            format: self.format@,
            status: self.status@,
            episodes: self.episodes,
            season_year: self.season_year,
        }
    }
}

impl Dup for ProviderMetadata {
    fn dup(&self) -> (copy: Self) {
        ProviderMetadata {
            provider_id: self.provider_id,
            mal_id: self.mal_id,
            title_romaji: self.title_romaji.clone(),
            title_english: self.title_english.clone(),
            title_native: self.title_native.clone(),
            cover_url: self.cover_url.clone(),
            format: self.format.clone(),
            status: self.status.clone(),
            episodes: self.episodes,
            season_year: self.season_year,
        }
    }
}

impl Clone for ProviderMetadata {
    fn clone(&self) -> (copy: Self)
        ensures
            copy@ == self@,
    {
        self.dup()
    }
}

pub open spec fn cacheable(r: RelatedEntryView) -> bool {
    r.media_type == "ANIME"@ || r.media_type == "MUSIC"@
}

/// Whether the relation is one that is kept: to an anime or a music video.
pub fn relation_is_cacheable(rel: &RelatedEntry) -> (r: bool)
    ensures
        r == cacheable(rel@),
{
    same(&rel.media_type, "ANIME") || same(&rel.media_type, "MUSIC")
}

pub open spec fn normalized(rel_type: Seq<char>) -> Seq<char> {
    if rel_type == "PARENT_STORY"@ {
        "PARENT"@
    } else {
        rel_type
    }
}

/// The kind of relation under its one name: a parent story is a parent.
pub fn normalize_relation_type(rel_type: &str) -> (r: &str)
    ensures
        r@ == normalized(rel_type@),
{
    if same(rel_type, "PARENT_STORY") {
        "PARENT"
    } else {
        rel_type
    }
}

pub open spec fn reversed(rel_type: Seq<char>) -> Option<Seq<char>> {
    let t = normalized(rel_type);
    if t == "PREQUEL"@ {
        Some("SEQUEL"@)
    } else if t == "SEQUEL"@ {
        Some("PREQUEL"@)
    } else if t == "SIDE_STORY"@ {
        Some("PARENT"@)
    } else if t == "PARENT"@ {
        Some("SIDE_STORY"@)
    } else if t == "CHARACTER"@ {
        Some("CHARACTER"@)
    } else if t == "SPIN_OFF"@ {
        Some("PARENT"@)
    } else {
        None
    }
}

pub open spec fn optional_str(o: Option<&str>) -> Option<Seq<char>> {
    match o {
        Some(s) => Some(s@),
        None => None,
    }
}

/// The relation seen from the other side; nothing for a relation that points
/// one way only.
pub fn reverse_relation_type(rel_type: &str) -> (r: Option<&'static str>)
    ensures
        optional_str(r) == reversed(rel_type@),
{
    let t = normalize_relation_type(rel_type);
    if same(t, "PREQUEL") {
        Some("SEQUEL")
    } else if same(t, "SEQUEL") {
        Some("PREQUEL")
    } else if same(t, "SIDE_STORY") {
        Some("PARENT")
    } else if same(t, "PARENT") {
        Some("SIDE_STORY")
    } else if same(t, "CHARACTER") {
        Some("CHARACTER")
    } else if same(t, "SPIN_OFF") {
        Some("PARENT")
    } else {
        None
    }
}

/// What a title is known by: its MAL id, or its provider id where it has
/// none.
pub open spec fn identity(provider_id: i64, mal_id: Option<i64>) -> Seq<char> {
    match mal_id {
        Some(m) => "mal:"@ + decimal(m as int),
        None => "provider:"@ + decimal(provider_id as int),
    }
}

pub fn relation_identity_key(provider_id: i64, mal_id: Option<i64>) -> (r: String)
    ensures
        r@ == identity(provider_id, mal_id),
{
    match mal_id {
        Some(m) => {
            let mut out = own("mal:");
            push_decimal(&mut out, m);
            out
        },
        None => {
            let mut out = own("provider:");
            push_decimal(&mut out, provider_id);
            out
        },
    }
}

/// By what two relations of one title count as the same.
pub open spec fn dedupe_key(r: RelatedEntryView) -> (Seq<char>, Seq<char>) {
    (identity(r.id, r.id_mal), normalized(r.relation_type))
}

pub fn relation_dedupe_key(rel: &RelatedEntry) -> (r: (String, String))
    ensures
        (r.0@, r.1@) == dedupe_key(rel@),
{
    (
        relation_identity_key(rel.id, rel.id_mal),
        own(normalize_relation_type(&rel.relation_type)),
    )
}

/// Whether two relations of one title count as the same.
pub open spec fn same_relation() -> spec_fn(RelatedEntryView, RelatedEntryView) -> bool {
    |a: RelatedEntryView, b: RelatedEntryView| dedupe_key(a) == dedupe_key(b)
}

/// The relations without those that repeat an earlier one.
pub open spec fn firsts(s: Seq<RelatedEntryView>) -> Seq<RelatedEntryView> {
    first_of_each(s, same_relation())
}

/// Whether the relation is kept and does not lead back to its own title.
pub open spec fn leads_away(owner_id: i64, owner: AnimeDetailView) -> spec_fn(
    RelatedEntryView,
) -> bool {
    |r: RelatedEntryView|
        cacheable(r) && r.id != owner_id && identity(r.id, r.id_mal) != identity(
            owner.id,
            owner.id_mal,
        )
}

/// A relation of `owner_id` as it is stored.
pub open spec fn forward_row(owner_id: i64, now: Seq<char>) -> spec_fn(
    RelatedEntryView,
) -> RelationRowView {
    |r: RelatedEntryView|
        RelationRowView {
            owner_id,
            related_provider_id: r.id,
            related_mal_id: r.id_mal,
            title_romaji: r.title_romaji,
            title_english: r.title_english,
            title_native: r.title_native,
            cover_url: r.cover_url,
            format: r.format,
            status: r.status,
            episodes: r.episodes,
            relation_type: normalized(r.relation_type),
            season_year: r.season_year,
            media_type: r.media_type,
            cached_at: now,
        }
}

/// A relation as it is stored under the title it leads to.
pub open spec fn mirror_row(owner: AnimeDetailView, now: Seq<char>) -> spec_fn(
    RelatedEntryView,
) -> RelationRowView {
    |r: RelatedEntryView|
        RelationRowView {
            owner_id: r.id,
            related_provider_id: owner.id,
            related_mal_id: owner.id_mal,
            title_romaji: owner.title_romaji,
            title_english: owner.title_english,
            title_native: owner.title_native,
            cover_url: owner.cover_url,
            format: owner.format,
            status: owner.status,
            episodes: owner.episodes,
            relation_type: reversed(r.relation_type)->0,
            season_year: owner.season_year,
            media_type: "ANIME"@,
            cached_at: now,
        }
}

/// Whether the relation is stored under the title it leads to, too.
pub open spec fn mirrored(owner_id: i64, owner: AnimeDetailView) -> spec_fn(
    RelatedEntryView,
) -> bool {
    |r: RelatedEntryView| leads_away(owner_id, owner)(r) && reversed(r.relation_type) is Some
}

pub open spec fn relation_key(r: RelationRowView) -> (i64, i64, Seq<char>) {
    (r.owner_id, r.related_provider_id, r.relation_type)
}

pub open spec fn relation_keys() -> spec_fn(RelationRowView) -> (i64, i64, Seq<char>) {
    |r: RelationRowView| relation_key(r)
}

pub open spec fn relation_at(key: (i64, i64, Seq<char>)) -> spec_fn(RelationRowView) -> bool {
    |r: RelationRowView| relation_key(r) == key
}

/// The rows with one more; it takes the place of the one with its key.
pub open spec fn put(rows: Seq<RelationRowView>, row: RelationRowView) -> Seq<RelationRowView> {
    if any_where(rows, relation_at(relation_key(row))) {
        updated(rows, relation_at(relation_key(row)), |r: RelationRowView| row)
    } else {
        rows.push(row)
    }
}

/// The rows with more of them, put one after the other.
pub open spec fn put_all(
    rows: Seq<RelationRowView>,
    more: Seq<RelationRowView>,
) -> Seq<RelationRowView>
    decreases more.len(),
{
    if more.len() == 0 {
        rows
    } else {
        put(put_all(rows, more.drop_last()), more.last())
    }
}

pub open spec fn owned_by(owner_id: i64) -> spec_fn(RelationRowView) -> bool {
    |r: RelationRowView| r.owner_id == owner_id
}

/// The relations of a title that are stored.
pub open spec fn kept_relations(owner_id: i64, owner: AnimeDetailView) -> Seq<RelatedEntryView> {
    firsts(owner.relations.filter(leads_away(owner_id, owner)))
}

/// The relations with those of one title replaced.
pub open spec fn replaced_relations(
    rows: Seq<RelationRowView>,
    owner_id: i64,
    owner: AnimeDetailView,
    now: Seq<char>,
) -> Seq<RelationRowView> {
    put_all(
        without(rows, owned_by(owner_id)),
        kept_relations(owner_id, owner).map_values(forward_row(owner_id, now)),
    )
}

/// The relations with those of one title replaced and stored under the titles
/// they lead to, too.
pub open spec fn replaced_both_ways(
    rows: Seq<RelationRowView>,
    owner_id: i64,
    owner: AnimeDetailView,
    now: Seq<char>,
) -> Seq<RelationRowView> {
    put_all(
        replaced_relations(rows, owner_id, owner, now),
        owner.relations.filter(mirrored(owner_id, owner)).map_values(mirror_row(owner, now)),
    )
}

proof fn lemma_put_distinct(rows: Seq<RelationRowView>, row: RelationRowView)
    requires
        distinct(rows, relation_keys()),
    ensures
        distinct(put(rows, row), relation_keys()),
{
    let after = put(rows, row);
    let at = relation_at(relation_key(row));
    if any_where(rows, at) {
        assert forall|i: int| 0 <= i < rows.len() implies relation_key(#[trigger] after[i])
            == relation_key(rows[i]) by {
            if at(rows[i]) {
                assert(after[i] == row);
            }
        }
        assert forall|i: int, j: int| 0 <= i < j < after.len() implies relation_keys()(
            #[trigger] after[i],
        ) != relation_keys()(#[trigger] after[j]) by {
            assert(relation_keys()(rows[i]) != relation_keys()(rows[j]));
        }
    } else {
        assert forall|i: int, j: int| 0 <= i < j < after.len() implies relation_keys()(
            #[trigger] after[i],
        ) != relation_keys()(#[trigger] after[j]) by {
            if j == rows.len() {
                assert(!at(rows[i]));
            } else {
                assert(relation_keys()(rows[i]) != relation_keys()(rows[j]));
            }
        }
    }
}

fn put_row(rows: &mut Vec<RelationRow>, row: RelationRow)
    requires
        distinct(views(old(rows)@), relation_keys()),
    ensures
        views(final(rows)@) == put(views(old(rows)@), row@),
        distinct(views(final(rows)@), relation_keys()),
{
    proof {
        lemma_put_distinct(views(rows@), row@);
    }
    let ghost at = relation_at(relation_key(row@));
    let ghost set = |r: RelationRowView| row@;
    let same_key = |r: &RelationRow| -> (b: bool)
        ensures b == at(r@)
        {
            r.owner_id == row.owner_id && r.related_provider_id == row.related_provider_id && same(
                &r.relation_type,
                &row.relation_type,
            )
        };
    if any(rows, same_key, Ghost(at)) {
        let again = |r: &RelationRow| -> (b: bool)
            ensures b == at(r@)
            {
                r.owner_id == row.owner_id && r.related_provider_id == row.related_provider_id
                    && same(&r.relation_type, &row.relation_type)
            };
        let make = |r: RelationRow| -> (o: RelationRow)
            ensures o@ == set(r@)
            { row.dup() };
        let _n: usize = update_where(rows, again, make, Ghost(at), Ghost(set));
    } else {
        let ghost had = rows@;
        rows.push(row);
        proof {
            crate::table::lemma_views_push(had, row);
        }
    }
}

fn put_rows(rows: &mut Vec<RelationRow>, more: &Vec<RelationRow>)
    requires
        distinct(views(old(rows)@), relation_keys()),
    ensures
        views(final(rows)@) == put_all(views(old(rows)@), views(more@)),
        distinct(views(final(rows)@), relation_keys()),
{
    let ghost all = views(more@);
    let mut i: usize = 0;
    while i < more.len()
        invariant
            i <= more.len(),
            all == views(more@),
            distinct(views(rows@), relation_keys()),
            views(rows@) == put_all(views(old(rows)@), all.take(i as int)),
        decreases more.len() - i,
    {
        proof {
            assert(all.take(i + 1).drop_last() =~= all.take(i as int));
            assert(all.take(i + 1).last() == more[i as int]@);
        }
        put_row(rows, more[i].dup());
        i += 1;
    }
    assert(all.take(i as int) =~= all);
}

fn keep_firsts(entries: &Vec<RelatedEntry>) -> (out: Vec<RelatedEntry>)
    ensures
        views(out@) == firsts(views(entries@)),
{
    let test = |a: &RelatedEntry, b: &RelatedEntry| -> (r: bool)
        ensures r == same_relation()(a@, b@)
        {
            let x = relation_dedupe_key(a);
            let y = relation_dedupe_key(b);
            same(&x.0, &y.0) && same(&x.1, &y.1)
        };
    keep_first_of_each(entries, test, Ghost(same_relation()))
}

fn leaves_title(rel: &RelatedEntry, owner_id: i64, detail: &AnimeDetail) -> (b: bool)
    ensures
        b == leads_away(owner_id, detail@)(rel@),
{
    relation_is_cacheable(rel) && rel.id != owner_id && !same(
        &relation_identity_key(rel.id, rel.id_mal),
        &relation_identity_key(detail.id, detail.id_mal),
    )
}

fn to_forward_row(owner_id: i64, rel: &RelatedEntry, now: &str) -> (o: RelationRow)
    ensures
        o@ == forward_row(owner_id, now@)(rel@),
{
    RelationRow {
        owner_id,
        related_provider_id: rel.id,
        related_mal_id: rel.id_mal,
        title_romaji: rel.title_romaji.clone(),
        title_english: rel.title_english.clone(),
        title_native: rel.title_native.clone(),
        cover_url: rel.cover_url.clone(),
        format: rel.format.clone(),
        status: rel.status.clone(),
        episodes: rel.episodes,
        relation_type: own(normalize_relation_type(&rel.relation_type)),
        season_year: rel.season_year,
        media_type: rel.media_type.clone(),
        cached_at: own(now),
    }
}

fn to_mirror_row(detail: &AnimeDetail, rel: &RelatedEntry, now: &str) -> (o: Option<RelationRow>)
    ensures
        match o {
            Some(row) => reversed(rel@.relation_type) is Some && row@ == mirror_row(
                detail@,
                now@,
            )(rel@),
            None => reversed(rel@.relation_type) is None,
        },
{
    match reverse_relation_type(&rel.relation_type) {
        Some(reverse) => Some(
            RelationRow {
                owner_id: rel.id,
                related_provider_id: detail.id,
                related_mal_id: detail.id_mal,
                title_romaji: detail.title_romaji.clone(),
                title_english: detail.title_english.clone(),
                title_native: detail.title_native.clone(),
                cover_url: detail.cover_url.clone(),
                format: detail.format.clone(),
                status: detail.status.clone(),
                episodes: detail.episodes,
                relation_type: own(reverse),
                season_year: detail.season_year,
                media_type: own("ANIME"),
                cached_at: own(now),
            },
        ),
        None => None,
    }
}

fn forward_rows(owner_id: i64, detail: &AnimeDetail, now: &str) -> (out: Vec<RelationRow>)
    ensures
        views(out@) == kept_relations(owner_id, detail@).map_values(forward_row(owner_id, now@)),
{
    let ghost away = leads_away(owner_id, detail@);
    let ghost row = forward_row(owner_id, now@);
    let test = |r: &RelatedEntry| -> (b: bool)
        ensures b == away(r@)
        { leaves_title(r, owner_id, detail) };
    let kept = keep_firsts(&select(&detail.relations, test, Ghost(away)));
    let make = |r: &RelatedEntry| -> (o: RelationRow)
        ensures o@ == row(r@)
        { to_forward_row(owner_id, r, now) };
    project(&kept, make, Ghost(row), Ghost(|r: RelatedEntryView| true))
}

fn mirror_rows(owner_id: i64, detail: &AnimeDetail, now: &str) -> (out: Vec<RelationRow>)
    ensures
        views(out@) == detail@.relations.filter(mirrored(owner_id, detail@)).map_values(
            mirror_row(detail@, now@),
        ),
{
    let ghost chosen = mirrored(owner_id, detail@);
    let test = |r: &RelatedEntry| -> (b: bool)
        ensures b == chosen(r@)
        {
            leaves_title(r, owner_id, detail) && reverse_relation_type(&r.relation_type).is_some()
        };
    let rels = select(&detail.relations, test, Ghost(chosen));
    let mut out: Vec<RelationRow> = Vec::new();
    let mut i: usize = 0;
    let ghost row = mirror_row(detail@, now@);
    let ghost picked = views(rels@);
    assert(views(out@) =~= picked.map_values(row).take(0));
    while i < rels.len()
        invariant
            i <= rels.len(),
            picked == views(rels@),
            picked == detail@.relations.filter(chosen),
            chosen == mirrored(owner_id, detail@),
            row == mirror_row(detail@, now@),
            views(out@) == picked.map_values(row).take(i as int),
        decreases rels.len() - i,
    {
        proof {
            detail@.relations.lemma_filter_pred(chosen, i as int);
            assert(picked[i as int] == rels[i as int]@);
        }
        let ghost had = out@;
        if let Some(r) = to_mirror_row(detail, &rels[i], now) {
            out.push(r);
            proof {
                crate::table::lemma_views_push(had, r);
                assert(views(out@) =~= picked.map_values(row).take(i + 1));
            }
        }
        i += 1;
    }
    assert(picked.map_values(row).take(i as int) =~= picked.map_values(row));
    out
}

/// Replaces the relations of a series by those its details name: relations to
/// anime and music videos, without those that lead back to the series itself
/// and without repetitions. Refused, with nothing changed, when there is
/// something to store and no such series.
pub fn replace_relations_for_series(
    rows: &mut Vec<RelationRow>,
    series: &Vec<SeriesRow>,
    series_id: i64,
    detail: &AnimeDetail,
    now: &str,
) -> (r: Result<(), StoreError>)
    requires
        distinct(views(old(rows)@), relation_keys()),
    ensures
        r is Err <==> !known(views(series@), series_id) && kept_relations(series_id, detail@).len()
            > 0,
        r is Err ==> r == Err::<(), StoreError>(StoreError::MissingParent) && views(final(rows)@)
            == views(old(rows)@),
        r is Ok ==> views(final(rows)@) == replaced_relations(
            views(old(rows)@),
            series_id,
            detail@,
            now@,
        ),
        distinct(views(final(rows)@), relation_keys()),
{
    let fresh = forward_rows(series_id, detail, now);
    assert(views(fresh@).len() == kept_relations(series_id, detail@).len());
    if fresh.len() > 0 && !is_known(series, series_id) {
        return Err(StoreError::MissingParent);
    }
    proof {
        crate::table::lemma_without_distinct(views(rows@), owned_by(series_id), relation_keys());
    }
    let test = |r: &RelationRow| -> (b: bool)
        ensures b == owned_by(series_id)(r@)
        { r.owner_id == series_id };
    let _n: usize = delete_where(rows, test, Ghost(owned_by(series_id)));
    put_rows(rows, &fresh);
    Ok(())
}

/// Replaces the relations of a title by those its details name, as
/// [`replace_relations_for_series`] does, and stores each that can be seen
/// from the other side under the title it leads to.
pub fn replace_relations_for_provider(
    rows: &mut Vec<RelationRow>,
    provider_id: i64,
    detail: &AnimeDetail,
    now: &str,
)
    requires
        distinct(views(old(rows)@), relation_keys()),
    ensures
        views(final(rows)@) == replaced_both_ways(
            views(old(rows)@),
            provider_id,
            detail@,
            now@,
        ),
        distinct(views(final(rows)@), relation_keys()),
{
    proof {
        crate::table::lemma_without_distinct(views(rows@), owned_by(provider_id), relation_keys());
    }
    let test = |r: &RelationRow| -> (b: bool)
        ensures b == owned_by(provider_id)(r@)
        { r.owner_id == provider_id };
    let _n: usize = delete_where(rows, test, Ghost(owned_by(provider_id)));
    put_rows(rows, &forward_rows(provider_id, detail, now));
    put_rows(rows, &mirror_rows(provider_id, detail, now));
}

/// The order of relations: by kind, then by the related title.
pub open spec fn relation_order() -> spec_fn(RelationRowView, RelationRowView) -> bool {
    |a: RelationRowView, b: RelationRowView|
        if a.relation_type == b.relation_type {
            a.related_provider_id <= b.related_provider_id
        } else {
            text_le(a.relation_type, b.relation_type)
        }
}

/// A status as it is shown: with spaces for underscores.
pub open spec fn shown_status(status: Seq<char>) -> Seq<char> {
    replaced(status, "_"@, " "@)
}

/// A stored relation as it is read.
pub open spec fn read_relation() -> spec_fn(RelationRowView) -> RelatedEntryView {
    |r: RelationRowView|
        RelatedEntryView {
            id: r.related_provider_id,
            id_mal: r.related_mal_id,
            title_romaji: r.title_romaji,
            title_english: r.title_english,
            title_native: r.title_native,
            cover_url: r.cover_url,
            format: r.format,
            status: r.status,
            status_display: shown_status(r.status),
            episodes: r.episodes,
            relation_type: r.relation_type,
            season_year: r.season_year,
            media_type: r.media_type,
        }
}

/// The relations of a title as they are read.
pub open spec fn relations_of(rows: Seq<RelationRowView>, owner_id: i64) -> Seq<RelatedEntryView> {
    ordered(rows.filter(owned_by(owner_id)), relation_order()).map_values(read_relation())
}

fn get_relations_table(rows: &Vec<RelationRow>, owner_id: i64) -> (out: Vec<RelatedEntry>)
    ensures
        views(out@) == relations_of(views(rows@), owner_id),
{
    let test = |r: &RelationRow| -> (b: bool)
        ensures b == owned_by(owner_id)(r@)
        { r.owner_id == owner_id };
    let found = select(rows, test, Ghost(owned_by(owner_id)));
    let before = |a: &RelationRow, b: &RelationRow| -> (r: bool)
        ensures r == relation_order()(a@, b@)
        {
            if same(&a.relation_type, &b.relation_type) {
                a.related_provider_id <= b.related_provider_id
            } else {
                at_most(&a.relation_type, &b.relation_type)
            }
        };
    let sorted = order_by(found, before, Ghost(relation_order()));
    let make = |r: &RelationRow| -> (o: RelatedEntry)
        ensures o@ == read_relation()(r@)
        {
            RelatedEntry {
                id: r.related_provider_id,
                id_mal: r.related_mal_id,
                title_romaji: r.title_romaji.clone(),
                title_english: r.title_english.clone(),
                title_native: r.title_native.clone(),
                cover_url: r.cover_url.clone(),
                format: r.format.clone(),
                status: r.status.clone(),
                status_display: replace_all(&r.status, "_", " "),
                episodes: r.episodes,
                relation_type: r.relation_type.clone(),
                season_year: r.season_year,
                media_type: r.media_type.clone(),
            }
        };
    project(&sorted, make, Ghost(read_relation()), Ghost(|r: RelationRowView| true))
}

/// The relations of a series, by kind and then by the related title.
pub fn get_relations_for_series(rows: &Vec<RelationRow>, series_id: i64) -> (out: Vec<RelatedEntry>)
    ensures
        views(out@) == relations_of(views(rows@), series_id),
{
    get_relations_table(rows, series_id)
}

/// The relations of a title, by kind and then by the related title.
pub fn get_relations_for_provider(rows: &Vec<RelationRow>, provider_id: i64) -> (out: Vec<
    RelatedEntry,
>)
    ensures
        views(out@) == relations_of(views(rows@), provider_id),
{
    get_relations_table(rows, provider_id)
}


/// Whether the stored relation leads to the title.
pub open spec fn leads_to(provider_id: i64, mal_id: Option<i64>) -> spec_fn(
    RelationRowView,
) -> bool {
    |r: RelationRowView|
        r.related_provider_id == provider_id || (mal_id is Some && r.related_mal_id == mal_id)
}

pub open spec fn same_source() -> spec_fn(RelationRowView, RelationRowView) -> bool {
    |a: RelationRowView, b: RelationRowView|
        a.owner_id == b.owner_id && a.relation_type == b.relation_type
}

/// The order of incoming relations: by kind, then by the title they come
/// from.
pub open spec fn source_order() -> spec_fn(RelationRowView, RelationRowView) -> bool {
    |a: RelationRowView, b: RelationRowView|
        if a.relation_type == b.relation_type {
            a.owner_id <= b.owner_id
        } else {
            text_le(a.relation_type, b.relation_type)
        }
}

pub open spec fn has_reverse() -> spec_fn(RelationRowView) -> bool {
    |r: RelationRowView| reversed(r.relation_type) is Some
}

pub open spec fn of_provider(provider_id: i64) -> spec_fn(ProviderMetadataView) -> bool {
    |m: ProviderMetadataView| m.provider_id == provider_id
}

/// The MAL id of a title: the one that is kept of it, else the one that a
/// negative provider id stands for.
pub open spec fn source_mal_id(provider_id: i64, kept: Option<ProviderMetadataView>) -> Option<i64> {
    match kept {
        Some(m) => if m.mal_id is Some {
            m.mal_id
        } else if provider_id < 0 {
            Some((-provider_id) as i64)
        } else {
            None
        },
        None => if provider_id < 0 {
            Some((-provider_id) as i64)
        } else {
            None
        },
    }
}

/// An incoming relation seen from the title it leads to, with what is kept of
/// the title it comes from.
pub open spec fn incoming_entry(metadata: Seq<ProviderMetadataView>) -> spec_fn(
    RelationRowView,
) -> RelatedEntryView {
    |r: RelationRowView|
        {
            let kept = first_where(metadata, of_provider(r.owner_id));
            let m = match kept {
                Some(m) => m,
                None => ProviderMetadataView {
                    provider_id: r.owner_id,
                    mal_id: None,
                    title_romaji: Seq::empty(),
                    title_english: Seq::empty(),
                    title_native: Seq::empty(),
                    cover_url: Seq::empty(),
                    format: Seq::empty(),
                    status: Seq::empty(),
                    episodes: None,
                    season_year: None,
                },
            };
            RelatedEntryView {
                id: r.owner_id,
                id_mal: source_mal_id(r.owner_id, kept),
                title_romaji: m.title_romaji,
                title_english: m.title_english,
                title_native: m.title_native,
                cover_url: m.cover_url,
                format: m.format,
                status: m.status,
                status_display: shown_status(m.status),
                episodes: m.episodes,
                relation_type: reversed(r.relation_type)->0,
                season_year: m.season_year,
                media_type: "ANIME"@,
            }
        }
}

/// The relations that lead to a title, seen from it.
pub open spec fn incoming(
    rows: Seq<RelationRowView>,
    metadata: Seq<ProviderMetadataView>,
    provider_id: i64,
    mal_id: Option<i64>,
) -> Seq<RelatedEntryView> {
    firsts(
        ordered(
            first_of_each(rows.filter(leads_to(provider_id, mal_id)), same_source()),
            source_order(),
        ).filter(has_reverse()).map_values(incoming_entry(metadata)),
    )
}

fn to_incoming(metadata: &Vec<ProviderMetadata>, r: &RelationRow) -> (o: RelatedEntry)
    requires
        reversed(r@.relation_type) is Some,
        r.owner_id > i64::MIN,
    ensures
        o@ == incoming_entry(views(metadata@))(r@),
{
    let id: i64 = r.owner_id;
    let test = |m: &ProviderMetadata| -> (b: bool)
        ensures b == of_provider(id)(m@)
        { m.provider_id == id };
    let m = match position(metadata, test, Ghost(of_provider(id))) {
        Some(i) => metadata[i].dup(),
        None => ProviderMetadata {
            provider_id: id,
            mal_id: None,
            title_romaji: String::new(),
            title_english: String::new(),
            title_native: String::new(),
            cover_url: String::new(),
            format: String::new(),
            status: String::new(),
            episodes: None,
            season_year: None,
        },
    };
    let id_mal: Option<i64> = if m.mal_id.is_some() {
        m.mal_id
    } else if id < 0 {
        Some(-id)
    } else {
        None
    };
    let relation_type = match reverse_relation_type(&r.relation_type) {
        Some(reverse) => own(reverse),
        None => String::new(),
    };
    RelatedEntry {
        id,
        id_mal,
        title_romaji: m.title_romaji.clone(),
        title_english: m.title_english.clone(),
        title_native: m.title_native.clone(),
        cover_url: m.cover_url.clone(),
        format: m.format.clone(),
        status: m.status.clone(),
        status_display: replace_all(&m.status, "_", " "),
        episodes: m.episodes,
        relation_type,
        season_year: m.season_year,
        media_type: own("ANIME"),
    }
}

/// The relations that lead to a title by its provider id or its MAL id, seen
/// from it, with what is kept of the titles they come from; by kind and then
/// by title, without repetitions. A relation that points one way only is left
/// out.
pub fn get_incoming_relations_for_provider(
    rows: &Vec<RelationRow>,
    metadata: &Vec<ProviderMetadata>,
    provider_id: i64,
    mal_id: Option<i64>,
) -> (out: Vec<RelatedEntry>)
    requires
        forall|i: int| 0 <= i < rows.len() ==> (#[trigger] rows[i]).owner_id > i64::MIN,
    ensures
        views(out@) == incoming(views(rows@), views(metadata@), provider_id, mal_id),
{
    let ghost to = leads_to(provider_id, mal_id);
    let test = |r: &RelationRow| -> (b: bool)
        ensures b == to(r@)
        {
            r.related_provider_id == provider_id || (mal_id.is_some() && r.related_mal_id == mal_id)
        };
    let found = select(rows, test, Ghost(to));
    let alike = |a: &RelationRow, b: &RelationRow| -> (r: bool)
        ensures r == same_source()(a@, b@)
        { a.owner_id == b.owner_id && same(&a.relation_type, &b.relation_type) };
    let grouped = keep_first_of_each(&found, alike, Ghost(same_source()));
    let before = |a: &RelationRow, b: &RelationRow| -> (r: bool)
        ensures r == source_order()(a@, b@)
        {
            if same(&a.relation_type, &b.relation_type) {
                a.owner_id <= b.owner_id
            } else {
                at_most(&a.relation_type, &b.relation_type)
            }
        };
    let sorted = order_by(grouped, before, Ghost(source_order()));
    let turned = |r: &RelationRow| -> (b: bool)
        ensures b == has_reverse()(r@)
        { reverse_relation_type(&r.relation_type).is_some() };
    let both_ways = select(&sorted, turned, Ghost(has_reverse()));
    let ghost picked = views(both_ways@);
    proof {
        lemma_incoming_rows(views(rows@), to);
        crate::table::lemma_filter_members(views(sorted@), has_reverse());
        assert forall|i: int| 0 <= i < picked.len() implies has_reverse()(#[trigger] picked[i])
            && picked[i].owner_id > i64::MIN by {
            assert(views(sorted@).contains(picked[i]));
            let k = choose|k: int| 0 <= k < views(sorted@).len() && views(sorted@)[k] == picked[i];
            assert(views(rows@).contains(views(sorted@)[k]));
            let j = choose|j: int| 0 <= j < views(rows@).len() && views(rows@)[j] == picked[i];
            assert(rows[j].owner_id > i64::MIN);
        }
    }
    let ghost entry = incoming_entry(views(metadata@));
    let mut entries: Vec<RelatedEntry> = Vec::new();
    let mut i: usize = 0;
    assert(views(entries@) =~= picked.map_values(entry).take(0));
    while i < both_ways.len()
        invariant
            i <= both_ways.len(),
            picked == views(both_ways@),
            entry == incoming_entry(views(metadata@)),
            forall|k: int|
                0 <= k < picked.len() ==> has_reverse()(#[trigger] picked[k]) && picked[k].owner_id
                    > i64::MIN,
            views(entries@) == picked.map_values(entry).take(i as int),
        decreases both_ways.len() - i,
    {
        assert(picked[i as int] == both_ways[i as int]@);
        let ghost had = entries@;
        entries.push(to_incoming(metadata, &both_ways[i]));
        proof {
            crate::table::lemma_views_push(had, entries@.last());
            assert(views(entries@) =~= picked.map_values(entry).take(i + 1));
        }
        i += 1;
    }
    assert(picked.map_values(entry).take(i as int) =~= picked.map_values(entry));
    keep_firsts(&entries)
}

proof fn lemma_incoming_rows(rows: Seq<RelationRowView>, to: spec_fn(RelationRowView) -> bool)
    ensures
        ({
            let sorted = ordered(first_of_each(rows.filter(to), same_source()), source_order());
            forall|i: int| 0 <= i < sorted.len() ==> rows.contains(#[trigger] sorted[i])
        }),
{
    crate::table::lemma_filter_members(rows, to);
    let f = rows.filter(to);
    crate::table::lemma_first_of_each_members(f, same_source());
    let g = first_of_each(f, same_source());
    crate::table::lemma_ordered_members(g, source_order());
    let sorted = ordered(g, source_order());
    assert forall|i: int| 0 <= i < sorted.len() implies rows.contains(#[trigger] sorted[i]) by {
        assert(g.contains(sorted[i]));
        let j = choose|j: int| 0 <= j < g.len() && g[j] == sorted[i];
        assert(f.contains(g[j]));
        let k = choose|k: int| 0 <= k < f.len() && f[k] == g[j];
        assert(rows.contains(f[k]));
    }
}

pub open spec fn episodes_of(owner_id: i64) -> spec_fn(EpisodeRowView) -> bool {
    |r: EpisodeRowView| r.owner_id == owner_id
}

pub open spec fn episode_of(owner_id: i64, episode: i32) -> spec_fn(EpisodeRowView) -> bool {
    |r: EpisodeRowView| r.owner_id == owner_id && r.episode.episode_number == episode
}

pub open spec fn episode_key() -> spec_fn(EpisodeRowView) -> (i64, i32) {
    |r: EpisodeRowView| (r.owner_id, r.episode.episode_number)
}

pub open spec fn episode_number() -> spec_fn(CachedEpisodeMetadataView) -> i32 {
    |e: CachedEpisodeMetadataView| e.episode_number
}

pub open spec fn episode_row(owner_id: i64, now: Seq<char>) -> spec_fn(
    CachedEpisodeMetadataView,
) -> EpisodeRowView {
    |e: CachedEpisodeMetadataView| EpisodeRowView { owner_id, episode: e, cached_at: now }
}

/// The episodes with those of one title replaced.
pub open spec fn replaced_episodes(
    rows: Seq<EpisodeRowView>,
    owner_id: i64,
    episodes: Seq<CachedEpisodeMetadataView>,
    now: Seq<char>,
) -> Seq<EpisodeRowView> {
    without(rows, episodes_of(owner_id)) + episodes.map_values(episode_row(owner_id, now))
}

fn numbers_differ(episodes: &Vec<CachedEpisodeMetadata>) -> (r: bool)
    ensures
        r == distinct(views(episodes@), episode_number()),
{
    let ghost differ = |a: CachedEpisodeMetadataView, b: CachedEpisodeMetadataView|
        a.episode_number != b.episode_number;
    let test = |a: &CachedEpisodeMetadata, b: &CachedEpisodeMetadata| -> (r: bool)
        ensures r == differ(a@, b@)
        { a.episode_number != b.episode_number };
    let r: bool = every_pair(episodes, test, Ghost(differ));
    assert(r == distinct(views(episodes@), episode_number()));
    r
}

fn replace_episode_table(
    rows: &mut Vec<EpisodeRow>,
    owner_id: i64,
    episodes: &Vec<CachedEpisodeMetadata>,
    now: &str,
)
    requires
        distinct(views(old(rows)@), episode_key()),
        distinct(views(episodes@), episode_number()),
    ensures
        views(final(rows)@) == replaced_episodes(
            views(old(rows)@),
            owner_id,
            views(episodes@),
            now@,
        ),
        distinct(views(final(rows)@), episode_key()),
{
    let ghost before = views(rows@);
    let test = |r: &EpisodeRow| -> (b: bool)
        ensures b == episodes_of(owner_id)(r@)
        { r.owner_id == owner_id };
    let _n: usize = delete_where(rows, test, Ghost(episodes_of(owner_id)));
    let ghost make_row = episode_row(owner_id, now@);
    let make = |e: &CachedEpisodeMetadata| -> (o: EpisodeRow)
        ensures o@ == make_row(e@)
        { EpisodeRow { owner_id, episode: e.dup(), cached_at: own(now) } };
    let mut fresh = project(
        episodes,
        make,
        Ghost(make_row),
        Ghost(|e: CachedEpisodeMetadataView| true),
    );
    let ghost kept = rows@;
    let ghost added = fresh@;
    rows.append(&mut fresh);
    proof {
        assert(views(rows@) =~= views(kept) + views(added));
        let k = without(before, episodes_of(owner_id));
        crate::table::lemma_without_distinct(before, episodes_of(owner_id), episode_key());
        crate::table::lemma_without_members(before, episodes_of(owner_id));
        let all = views(rows@);
        assert forall|i: int, j: int| 0 <= i < j < all.len() implies episode_key()(
            #[trigger] all[i],
        ) != episode_key()(#[trigger] all[j]) by {
            if j < k.len() {
                assert(episode_key()(k[i]) != episode_key()(k[j]));
            } else if i < k.len() {
                assert(!episodes_of(owner_id)(k[i]));
                assert(all[j] == views(added)[j - k.len()]);
            } else {
                let a = i - k.len();
                let b = j - k.len();
                assert(all[i] == views(added)[a] && all[j] == views(added)[b]);
                assert(episode_number()(views(episodes@)[a]) != episode_number()(
                    views(episodes@)[b],
                ));
            }
        }
    }
}

/// Replaces what is known of the episodes of a series. Refused, with nothing
/// changed, when there is something to store and no such series, or when two
/// of the episodes have the same number.
pub fn replace_episode_metadata(
    rows: &mut Vec<EpisodeRow>,
    series: &Vec<SeriesRow>,
    series_id: i64,
    episodes: &Vec<CachedEpisodeMetadata>,
    now: &str,
) -> (r: Result<(), StoreError>)
    requires
        distinct(views(old(rows)@), episode_key()),
    ensures
        (r == Err::<(), StoreError>(StoreError::MissingParent)) <==> episodes.len() > 0 && !known(
            views(series@),
            series_id,
        ),
        (r == Err::<(), StoreError>(StoreError::Duplicate)) <==> !(episodes.len() > 0 && !known(
            views(series@),
            series_id,
        )) && !distinct(views(episodes@), episode_number()),
        r matches Err(e) ==> (e == StoreError::MissingParent || e == StoreError::Duplicate)
            && views(final(rows)@) == views(old(rows)@),
        r is Ok ==> views(final(rows)@) == replaced_episodes(
            views(old(rows)@),
            series_id,
            views(episodes@),
            now@,
        ),
        distinct(views(final(rows)@), episode_key()),
{
    if episodes.len() > 0 && !is_known(series, series_id) {
        return Err(StoreError::MissingParent);
    }
    if !numbers_differ(episodes) {
        return Err(StoreError::Duplicate);
    }
    replace_episode_table(rows, series_id, episodes, now);
    Ok(())
}

/// Replaces what is known of the episodes of a title. Refused, with nothing
/// changed, when two of the episodes have the same number.
pub fn replace_episode_metadata_for_provider(
    rows: &mut Vec<EpisodeRow>,
    provider_id: i64,
    episodes: &Vec<CachedEpisodeMetadata>,
    now: &str,
) -> (r: Result<(), StoreError>)
    requires
        distinct(views(old(rows)@), episode_key()),
    ensures
        r is Err <==> !distinct(views(episodes@), episode_number()),
        r matches Err(e) ==> e == StoreError::Duplicate && views(final(rows)@) == views(old(rows)@),
        r is Ok ==> views(final(rows)@) == replaced_episodes(
            views(old(rows)@),
            provider_id,
            views(episodes@),
            now@,
        ),
        distinct(views(final(rows)@), episode_key()),
{
    if !numbers_differ(episodes) {
        return Err(StoreError::Duplicate);
    }
    replace_episode_table(rows, provider_id, episodes, now);
    Ok(())
}

fn get_episode_table(rows: &Vec<EpisodeRow>, owner_id: i64) -> (out: HashMap<
    i32,
    CachedEpisodeMetadata,
>)
    requires
        distinct(views(rows@), episode_key()),
    ensures
        forall|e: i32| #[trigger]
            out@.contains_key(e) <==> first_where(views(rows@), episode_of(owner_id, e)) is Some,
        forall|e: i32| #[trigger]
            out@.contains_key(e) ==> out@[e]@ == first_where(
                views(rows@),
                episode_of(owner_id, e),
            )->0.episode,
{
    broadcast use vstd::std_specs::hash::group_hash_axioms;

    let mut out: HashMap<i32, CachedEpisodeMetadata> = HashMap::new();
    let ghost all = views(rows@);
    let mut i: usize = 0;
    while i < rows.len()
        invariant
            i <= rows.len(),
            all == views(rows@),
            distinct(all, episode_key()),
            forall|e: i32| #[trigger]
                out@.contains_key(e) <==> exists|k: int|
                    0 <= k < i && episode_of(owner_id, e)(#[trigger] all[k]),
            forall|e: i32, k: int|
                0 <= k < i && episode_of(owner_id, e)(#[trigger] all[k]) && #[trigger]
                    out@.contains_key(e) ==> out@[e]@ == all[k].episode,
        decreases rows.len() - i,
    {
        if rows[i].owner_id == owner_id {
            let e: i32 = rows[i].episode.episode_number;
            let ghost before = out@;
            out.insert(e, rows[i].episode.dup());
            proof {
                assert(episode_of(owner_id, e)(all[i as int]));
                assert forall|f: i32, k: int|
                    0 <= k < i + 1 && episode_of(owner_id, f)(#[trigger] all[k]) && #[trigger]
                        out@.contains_key(f) implies out@[f]@ == all[k].episode by {
                    if k < i {
                        assert(episode_key()(all[k]) != episode_key()(all[i as int]));
                        assert(before.contains_key(f));
                    }
                }
                assert forall|f: i32| #[trigger] out@.contains_key(f) <==> exists|k: int|
                    0 <= k < i + 1 && episode_of(owner_id, f)(#[trigger] all[k]) by {
                    if f == e {
                        assert(episode_of(owner_id, f)(all[i as int]));
                    } else {
                        assert(out@.contains_key(f) == before.contains_key(f));
                        if exists|k: int|
                            0 <= k < i + 1 && episode_of(owner_id, f)(#[trigger] all[k]) {
                            let k = choose|k: int|
                                0 <= k < i + 1 && episode_of(owner_id, f)(#[trigger] all[k]);
                            assert(k < i);
                        }
                    }
                }
            }
        } else {
            proof {
                assert forall|f: i32| #[trigger] out@.contains_key(f) <==> exists|k: int|
                    0 <= k < i + 1 && episode_of(owner_id, f)(#[trigger] all[k]) by {
                    if exists|k: int|
                        0 <= k < i + 1 && episode_of(owner_id, f)(#[trigger] all[k]) {
                        let k = choose|k: int|
                            0 <= k < i + 1 && episode_of(owner_id, f)(#[trigger] all[k]);
                        assert(k < i);
                    }
                }
            }
        }
        i += 1;
    }
    proof {
        assert forall|e: i32| #[trigger] out@.contains_key(e) <==> first_where(
            all,
            episode_of(owner_id, e),
        ) is Some by {
            crate::table::lemma_first_where_any(all, episode_of(owner_id, e));
        }
        assert forall|e: i32| #[trigger] out@.contains_key(e) implies out@[e]@ == first_where(
            all,
            episode_of(owner_id, e),
        )->0.episode by {
            crate::table::lemma_first_where_any(all, episode_of(owner_id, e));
            let t = first_where(all, episode_of(owner_id, e))->0;
            let k = choose|k: int| 0 <= k < all.len() && all[k] == t;
            assert(episode_of(owner_id, e)(all[k]));
        }
    }
    out
}

/// What is known of the episodes of a series, by number.
pub fn get_episode_map_for_series(rows: &Vec<EpisodeRow>, series_id: i64) -> (out: HashMap<
    i32,
    CachedEpisodeMetadata,
>)
    requires
        distinct(views(rows@), episode_key()),
    ensures
        forall|e: i32| #[trigger]
            out@.contains_key(e) <==> first_where(views(rows@), episode_of(series_id, e)) is Some,
        forall|e: i32| #[trigger]
            out@.contains_key(e) ==> out@[e]@ == first_where(
                views(rows@),
                episode_of(series_id, e),
            )->0.episode,
{
    get_episode_table(rows, series_id)
}

/// What is known of the episodes of a title, by number.
pub fn get_episode_map_for_provider(rows: &Vec<EpisodeRow>, provider_id: i64) -> (out: HashMap<
    i32,
    CachedEpisodeMetadata,
>)
    requires
        distinct(views(rows@), episode_key()),
    ensures
        forall|e: i32| #[trigger]
            out@.contains_key(e) <==> first_where(views(rows@), episode_of(provider_id, e)) is Some,
        forall|e: i32| #[trigger]
            out@.contains_key(e) ==> out@[e]@ == first_where(
                views(rows@),
                episode_of(provider_id, e),
            )->0.episode,
{
    get_episode_table(rows, provider_id)
}

proof fn lemma_kind_names()
    ensures
        "PREQUEL"@ != "SEQUEL"@,
        "PREQUEL"@ != "SIDE_STORY"@,
        "PREQUEL"@ != "PARENT"@,
        "PREQUEL"@ != "CHARACTER"@,
        "PREQUEL"@ != "SPIN_OFF"@,
        "PREQUEL"@ != "PARENT_STORY"@,
        "SEQUEL"@ != "SIDE_STORY"@,
        "SEQUEL"@ != "PARENT"@,
        "SEQUEL"@ != "CHARACTER"@,
        "SEQUEL"@ != "SPIN_OFF"@,
        "SEQUEL"@ != "PARENT_STORY"@,
        "SIDE_STORY"@ != "PARENT"@,
        "SIDE_STORY"@ != "CHARACTER"@,
        "SIDE_STORY"@ != "SPIN_OFF"@,
        "SIDE_STORY"@ != "PARENT_STORY"@,
        "PARENT"@ != "CHARACTER"@,
        "PARENT"@ != "SPIN_OFF"@,
        "PARENT"@ != "PARENT_STORY"@,
        "CHARACTER"@ != "SPIN_OFF"@,
        "CHARACTER"@ != "PARENT_STORY"@,
{
    reveal_strlit("PREQUEL");
    reveal_strlit("SEQUEL");
    reveal_strlit("SIDE_STORY");
    reveal_strlit("PARENT");
    reveal_strlit("CHARACTER");
    reveal_strlit("SPIN_OFF");
    reveal_strlit("PARENT_STORY");
    assert("SEQUEL"@[1] != "SIDE_STORY"@[1]);
    assert("SEQUEL"@[0] != "PARENT"@[0]);
    assert("SEQUEL"@[0] != "CHARACTER"@[0]);
    assert("SIDE_STORY"@[0] != "PARENT_STORY"@[0]);
    assert("CHARACTER"@[0] != "PARENT_STORY"@[0]);
    assert("PREQUEL"@[1] != "PARENT_STORY"@[1]);
    assert("PARENT"@.len() != "PARENT_STORY"@.len());
}

/// Naming a kind of relation again changes nothing.
pub proof fn normalizing_again_changes_nothing(rel_type: Seq<char>)
    ensures
        normalized(normalized(rel_type)) == normalized(rel_type),
        reversed(normalized(rel_type)) == reversed(rel_type),
{
    lemma_kind_names();
}

/// The reverse of a reverse is the relation itself, for every kind that has
/// one but spin-offs, which count as side stories from the other side.
pub proof fn reversing_twice_gives_the_relation(rel_type: Seq<char>)
    requires
        reversed(rel_type) is Some,
        rel_type != "SPIN_OFF"@,
    ensures
        reversed(reversed(rel_type)->0) == Some(normalized(rel_type)),
{
    lemma_kind_names();
}

/// Every kind that has a reverse has one whose reverse exists, too.
pub proof fn a_reverse_has_a_reverse(rel_type: Seq<char>)
    requires
        reversed(rel_type) is Some,
    ensures
        reversed(reversed(rel_type)->0) is Some,
{
    lemma_kind_names();
}

/// What was stored of the episodes of a title is what is found of them, and
/// those of other titles stay.
pub proof fn stored_episodes_are_found(
    rows: Seq<EpisodeRowView>,
    owner_id: i64,
    episodes: Seq<CachedEpisodeMetadataView>,
    now: Seq<char>,
    i: int,
)
    requires
        distinct(rows, episode_key()),
        distinct(episodes, episode_number()),
        0 <= i < episodes.len(),
    ensures
        first_where(
            replaced_episodes(rows, owner_id, episodes, now),
            episode_of(owner_id, episodes[i].episode_number),
        ) == Some(episode_row(owner_id, now)(episodes[i])),
{
    let kept = without(rows, episodes_of(owner_id));
    crate::table::lemma_without_members(rows, episodes_of(owner_id));
    let all = replaced_episodes(rows, owner_id, episodes, now);
    let at = kept.len() + i;
    let chosen = episode_of(owner_id, episodes[i].episode_number);
    assert(all[at] == episode_row(owner_id, now)(episodes[i]));
    assert forall|j: int| 0 <= j < at implies !chosen(#[trigger] all[j]) by {
        if j < kept.len() {
            assert(!episodes_of(owner_id)(kept[j]));
        } else {
            let k = j - kept.len();
            assert(all[j] == episode_row(owner_id, now)(episodes[k]));
            assert(episode_number()(episodes[k]) != episode_number()(episodes[i]));
        }
    }
    crate::table::lemma_first_where(all, chosen, at);
}

/// No stored relation of a title leads back to the title itself.
pub proof fn no_kept_relation_leads_back(owner_id: i64, owner: AnimeDetailView, i: int)
    requires
        0 <= i < kept_relations(owner_id, owner).len(),
    ensures
        kept_relations(owner_id, owner)[i].id != owner_id,
        cacheable(kept_relations(owner_id, owner)[i]),
        identity(
            kept_relations(owner_id, owner)[i].id,
            kept_relations(owner_id, owner)[i].id_mal,
        ) != identity(owner.id, owner.id_mal),
{
    let away = leads_away(owner_id, owner);
    let f = owner.relations.filter(away);
    crate::table::lemma_filter_members(owner.relations, away);
    crate::table::lemma_first_of_each_members(f, same_relation());
    let r = kept_relations(owner_id, owner)[i];
    assert(f.contains(r));
    let k = choose|k: int| 0 <= k < f.len() && f[k] == r;
    assert(away(f[k]));
}

/// No two stored relations of a title are of the same kind to the same title.
pub proof fn kept_relations_do_not_repeat(owner_id: i64, owner: AnimeDetailView)
    ensures
        distinct(
            kept_relations(owner_id, owner),
            |r: RelatedEntryView| dedupe_key(r),
        ),
{
    let f = owner.relations.filter(leads_away(owner_id, owner));
    crate::table::lemma_first_of_each_differ(f, same_relation());
    let kept = kept_relations(owner_id, owner);
    assert forall|i: int, j: int| 0 <= i < j < kept.len() implies dedupe_key(#[trigger] kept[i])
        != dedupe_key(#[trigger] kept[j]) by {
        assert(!same_relation()(kept[i], kept[j]));
    }
}

/// The kinds of relation and what each is seen from the other side: a prequel
/// is a sequel, a side story or a spin-off has its parent, and a parent has its
/// side story. A shared character is the same from both sides, and nothing is
/// known of the other kinds.
pub proof fn each_kind_has_its_other_side(rel_type: Seq<char>)
    ensures
        normalized("PARENT_STORY"@) == "PARENT"@,
        rel_type != "PARENT_STORY"@ ==> normalized(rel_type) == rel_type,
        reversed("PREQUEL"@) == Some("SEQUEL"@),
        reversed("SEQUEL"@) == Some("PREQUEL"@),
        reversed("SIDE_STORY"@) == Some("PARENT"@),
        reversed("SPIN_OFF"@) == Some("PARENT"@),
        reversed("PARENT"@) == Some("SIDE_STORY"@),
        reversed("PARENT_STORY"@) == Some("SIDE_STORY"@),
        reversed("CHARACTER"@) == Some("CHARACTER"@),
        reversed(rel_type) is Some ==> rel_type == "PREQUEL"@ || rel_type == "SEQUEL"@ || rel_type
            == "SIDE_STORY"@ || rel_type == "SPIN_OFF"@ || rel_type == "PARENT"@ || rel_type
            == "PARENT_STORY"@ || rel_type == "CHARACTER"@,
{
    lemma_kind_names();
    reveal_strlit("SPIN_OFF");
    reveal_strlit("PARENT_STORY");
    assert("SPIN_OFF"@.len() == 8 && "PARENT_STORY"@.len() == 12);
}

/// Relations to anime and to music are kept, and no others.
pub proof fn anime_and_music_are_kept(r: RelatedEntryView)
    ensures
        cacheable(r) <==> r.media_type == "ANIME"@ || r.media_type == "MUSIC"@,
{
}

/// A title is told apart by its id at MyAnimeList, where it has one, and else
/// by its id at the provider.
pub proof fn a_title_is_told_apart_by_its_id(provider_id: i64, mal: i64)
    ensures
        identity(provider_id, Some(mal)) == "mal:"@ + decimal(mal as int),
        identity(provider_id, None) == "provider:"@ + decimal(provider_id as int),
{
}

proof fn lemma_put_members(rows: Seq<RelationRowView>, row: RelationRowView, r: RelationRowView)
    ensures
        put(rows, row).contains(row),
        put(rows, row).contains(r) ==> r == row || (rows.contains(r) && relation_key(r)
            != relation_key(row)),
        rows.contains(r) && relation_key(r) != relation_key(row) ==> put(rows, row).contains(r),
{
    let here = relation_at(relation_key(row));
    let after = put(rows, row);
    if any_where(rows, here) {
        let k = choose|k: int| 0 <= k < rows.len() && here(#[trigger] rows[k]);
        assert(after[k] == row);
        if after.contains(r) {
            let m = choose|m: int| 0 <= m < after.len() && after[m] == r;
            assert(after[m] == row || after[m] == rows[m]);
        }
        if rows.contains(r) && relation_key(r) != relation_key(row) {
            let m = choose|m: int| 0 <= m < rows.len() && rows[m] == r;
            assert(after[m] == r);
        }
    } else {
        assert(after[rows.len() as int] == row);
        if after.contains(r) && r != row {
            let m = choose|m: int| 0 <= m < after.len() && after[m] == r;
            assert(rows[m] == r);
            assert(!here(rows[m]));
        }
        if rows.contains(r) {
            let m = choose|m: int| 0 <= m < rows.len() && rows[m] == r;
            assert(after[m] == r);
        }
    }
}

/// Putting rows leaves those under other keys, and brings rows of those that
/// were put and no others.
proof fn lemma_put_all_members(
    rows: Seq<RelationRowView>,
    more: Seq<RelationRowView>,
    r: RelationRowView,
)
    ensures
        put_all(rows, more).contains(r) ==> more.contains(r) || (rows.contains(r) && forall|k: int|
            0 <= k < more.len() ==> relation_key(#[trigger] more[k]) != relation_key(r)),
        rows.contains(r) && (forall|k: int|
            0 <= k < more.len() ==> relation_key(#[trigger] more[k]) != relation_key(r))
            ==> put_all(rows, more).contains(r),
    decreases more.len(),
{
    if more.len() > 0 {
        let rest = more.drop_last();
        let mid = put_all(rows, rest);
        let x = more.last();
        lemma_put_all_members(rows, rest, r);
        lemma_put_members(mid, x, r);
        assert(more[more.len() - 1] == x);
        assert forall|k: int| 0 <= k < rest.len() implies #[trigger] rest[k] == more[k] by {}
        if put_all(rows, more).contains(r) {
            if r != x {
                if rest.contains(r) {
                    let k = choose|k: int| 0 <= k < rest.len() && rest[k] == r;
                    assert(more[k] == r);
                } else {
                    assert forall|k: int| 0 <= k < more.len() implies relation_key(
                        #[trigger] more[k],
                    ) != relation_key(r) by {
                        if k < rest.len() {
                            assert(rest[k] == more[k]);
                        }
                    }
                }
            }
        }
        if rows.contains(r) && (forall|k: int|
            0 <= k < more.len() ==> relation_key(#[trigger] more[k]) != relation_key(r)) {
            assert forall|k: int| 0 <= k < rest.len() implies relation_key(#[trigger] rest[k])
                != relation_key(r) by {
                assert(rest[k] == more[k]);
            }
        }
    }
}

/// Each row that was put has its key among the rows.
proof fn lemma_put_all_holds(rows: Seq<RelationRowView>, more: Seq<RelationRowView>, k: int)
    requires
        0 <= k < more.len(),
    ensures
        exists|r: RelationRowView| #[trigger]
            put_all(rows, more).contains(r) && more.contains(r) && relation_key(r) == relation_key(
                more[k],
            ),
    decreases more.len(),
{
    let rest = more.drop_last();
    let mid = put_all(rows, rest);
    let x = more.last();
    lemma_put_members(mid, x, x);
    if k == more.len() - 1 {
        assert(put_all(rows, more).contains(x) && more.contains(x));
    } else {
        assert(rest[k] == more[k]);
        lemma_put_all_holds(rows, rest, k);
        let r = choose|r: RelationRowView| #[trigger]
            mid.contains(r) && rest.contains(r) && relation_key(r) == relation_key(rest[k]);
        let i = choose|i: int| 0 <= i < rest.len() && rest[i] == r;
        assert(more[i] == r);
        if relation_key(r) == relation_key(x) {
            assert(more[more.len() - 1] == x);
            assert(put_all(rows, more).contains(x) && more.contains(x));
        } else {
            lemma_put_members(mid, x, r);
            assert(put_all(rows, more).contains(r) && more.contains(r));
        }
    }
}

/// Whether a row says of the title `owner_id` what a provider says in `r`.
pub open spec fn tells(
    row: RelationRowView,
    owner_id: i64,
    r: RelatedEntryView,
    now: Seq<char>,
) -> bool {
    row.owner_id == owner_id && row.related_provider_id == r.id && row.related_mal_id == r.id_mal
        && row.title_romaji == r.title_romaji && row.title_english == r.title_english
        && row.title_native == r.title_native && row.cover_url == r.cover_url && row.format
        == r.format && row.status == r.status && row.episodes == r.episodes && row.season_year
        == r.season_year && row.media_type == r.media_type && row.cached_at == now
        && row.relation_type == (if r.relation_type == "PARENT_STORY"@ {
        "PARENT"@
    } else {
        r.relation_type
    })
}

/// The stored relations of a title, once replaced, are those that the provider
/// gave now: each row says what one of them says, none leads back to the title,
/// and none is of another kind than anime or music.
pub proof fn stored_relations_are_the_given_ones(
    rows: Seq<RelationRowView>,
    owner_id: i64,
    owner: AnimeDetailView,
    now: Seq<char>,
    row: RelationRowView,
)
    requires
        replaced_relations(rows, owner_id, owner, now).contains(row),
        row.owner_id == owner_id,
    ensures
        exists|i: int|
            0 <= i < owner.relations.len() && tells(
                row,
                owner_id,
                #[trigger] owner.relations[i],
                now,
            ) && owner.relations[i].id != owner_id && (owner.relations[i].media_type == "ANIME"@
                || owner.relations[i].media_type == "MUSIC"@),
{
    let left = without(rows, owned_by(owner_id));
    let kept = kept_relations(owner_id, owner);
    let more = kept.map_values(forward_row(owner_id, now));
    lemma_put_all_members(left, more, row);
    crate::table::lemma_without_contains(rows, owned_by(owner_id));
    assert(!left.contains(row));
    let m = choose|m: int| 0 <= m < more.len() && more[m] == row;
    let away = leads_away(owner_id, owner);
    let f = owner.relations.filter(away);
    crate::table::lemma_filter_members(owner.relations, away);
    crate::table::lemma_first_of_each_members(f, same_relation());
    assert(f.contains(kept[m]));
    let k = choose|k: int| 0 <= k < f.len() && f[k] == kept[m];
    assert(owner.relations.contains(f[k]) && away(f[k]));
    let i = choose|i: int| 0 <= i < owner.relations.len() && owner.relations[i] == f[k];
    assert(tells(row, owner_id, owner.relations[i], now));
}

/// Each relation that leads away from the title, and that no earlier one
/// repeats, has its row: under the title, the related one and the kind.
pub proof fn a_given_relation_is_stored(
    rows: Seq<RelationRowView>,
    owner_id: i64,
    owner: AnimeDetailView,
    now: Seq<char>,
    i: int,
)
    requires
        0 <= i < owner.relations.len(),
        owner.relations[i].media_type == "ANIME"@ || owner.relations[i].media_type == "MUSIC"@,
        owner.relations[i].id != owner_id,
        identity(owner.relations[i].id, owner.relations[i].id_mal) != identity(
            owner.id,
            owner.id_mal,
        ),
        forall|k: int|
            0 <= k < i ==> dedupe_key(#[trigger] owner.relations[k]) != dedupe_key(
                owner.relations[i],
            ),
    ensures
        exists|row: RelationRowView| #[trigger]
            replaced_relations(rows, owner_id, owner, now).contains(row) && row.owner_id
                == owner_id && row.related_provider_id == owner.relations[i].id
                && row.relation_type == (if owner.relations[i].relation_type
                == "PARENT_STORY"@ {
                "PARENT"@
            } else {
                owner.relations[i].relation_type
            }),
{
    let away = leads_away(owner_id, owner);
    let f = owner.relations.filter(away);
    let kept = kept_relations(owner_id, owner);
    let more = kept.map_values(forward_row(owner_id, now));
    let n = lemma_filter_first(owner.relations, away, i);
    crate::table::the_first_of_each_is_kept(f, same_relation(), n);
    let m = choose|m: int| 0 <= m < kept.len() && kept[m] == f[n];
    let left = without(rows, owned_by(owner_id));
    lemma_put_all_holds(left, more, m);
    let row = choose|r: RelationRowView| #[trigger]
        put_all(left, more).contains(r) && more.contains(r) && relation_key(r) == relation_key(
            more[m],
        );
    assert(more[m] == forward_row(owner_id, now)(kept[m]));
    assert(replaced_relations(rows, owner_id, owner, now).contains(row));
}

/// Where no earlier row repeats row `i`, none of the chosen ones does.
proof fn lemma_filter_first(
    s: Seq<RelatedEntryView>,
    chosen: spec_fn(RelatedEntryView) -> bool,
    i: int,
) -> (n: int)
    requires
        0 <= i < s.len(),
        chosen(s[i]),
        forall|k: int| 0 <= k < i ==> dedupe_key(#[trigger] s[k]) != dedupe_key(s[i]),
    ensures
        0 <= n < s.filter(chosen).len(),
        s.filter(chosen)[n] == s[i],
        forall|k: int|
            0 <= k < n ==> !same_relation()(#[trigger] s.filter(chosen)[k], s.filter(chosen)[n]),
    decreases s.len(),
{
    reveal(Seq::filter);
    let rest = s.drop_last();
    let f = s.filter(chosen);
    if i < rest.len() {
        let n = lemma_filter_first(rest, chosen, i);
        assert(f.len() >= rest.filter(chosen).len());
        assert forall|k: int| 0 <= k < rest.filter(chosen).len() implies f[k]
            == #[trigger] rest.filter(chosen)[k] by {}
        assert forall|k: int| 0 <= k < n implies !same_relation()(#[trigger] f[k], f[n]) by {
            assert(f[k] == rest.filter(chosen)[k]);
        }
        n
    } else {
        let n = rest.filter(chosen).len() as int;
        crate::table::lemma_filter_members(rest, chosen);
        assert forall|k: int| 0 <= k < n implies !same_relation()(#[trigger] f[k], f[n]) by {
            assert(f[k] == rest.filter(chosen)[k]);
            assert(rest.contains(rest.filter(chosen)[k]));
            let j = choose|j: int| 0 <= j < rest.len() && rest[j] == f[k];
            assert(s[j] == rest[j]);
        }
        n
    }
}

/// Replacing the relations of one title leaves those of every other one.
pub proof fn other_titles_keep_their_relations(
    rows: Seq<RelationRowView>,
    owner_id: i64,
    owner: AnimeDetailView,
    now: Seq<char>,
    row: RelationRowView,
)
    requires
        row.owner_id != owner_id,
    ensures
        replaced_relations(rows, owner_id, owner, now).contains(row) <==> rows.contains(row),
{
    let left = without(rows, owned_by(owner_id));
    let more = kept_relations(owner_id, owner).map_values(forward_row(owner_id, now));
    lemma_put_all_members(left, more, row);
    crate::table::lemma_without_contains(rows, owned_by(owner_id));
    assert forall|k: int| 0 <= k < more.len() implies relation_key(#[trigger] more[k])
        != relation_key(row) by {
        assert(more[k].owner_id == owner_id);
    }
    if more.contains(row) {
        let k = choose|k: int| 0 <= k < more.len() && more[k] == row;
        assert(more[k].owner_id == owner_id);
    }
}

/// By provider, a relation that has another side is stored from that side too:
/// the related title has a row that leads back, of the kind that the relation
/// is from there, with the names and the cover of the title.
pub proof fn a_relation_is_stored_from_both_sides(
    rows: Seq<RelationRowView>,
    owner_id: i64,
    owner: AnimeDetailView,
    now: Seq<char>,
    i: int,
)
    requires
        0 <= i < owner.relations.len(),
        owner.relations[i].media_type == "ANIME"@ || owner.relations[i].media_type == "MUSIC"@,
        owner.relations[i].id != owner_id,
        identity(owner.relations[i].id, owner.relations[i].id_mal) != identity(
            owner.id,
            owner.id_mal,
        ),
        reversed(owner.relations[i].relation_type) is Some,
    ensures
        exists|row: RelationRowView| #[trigger]
            replaced_both_ways(rows, owner_id, owner, now).contains(row) && row.owner_id
                == owner.relations[i].id && row.related_provider_id == owner.id
                && row.related_mal_id == owner.id_mal && Some(row.relation_type) == reversed(
                owner.relations[i].relation_type,
            ) && row.title_romaji == owner.title_romaji && row.title_english
                == owner.title_english && row.title_native == owner.title_native && row.cover_url
                == owner.cover_url && row.format == owner.format && row.status == owner.status
                && row.episodes == owner.episodes && row.season_year == owner.season_year
                && row.media_type == "ANIME"@ && row.cached_at == now,
{
    let both = mirrored(owner_id, owner);
    let f = owner.relations.filter(both);
    let more = f.map_values(mirror_row(owner, now));
    assert(both(owner.relations[i]));
    owner.relations.lemma_filter_contains(both, i);
    let n = choose|n: int| 0 <= n < f.len() && f[n] == owner.relations[i];
    let had = replaced_relations(rows, owner_id, owner, now);
    lemma_put_all_holds(had, more, n);
    let row = choose|r: RelationRowView| #[trigger]
        put_all(had, more).contains(r) && more.contains(r) && relation_key(r) == relation_key(
            more[n],
        );
    let m = choose|m: int| 0 <= m < more.len() && more[m] == row;
    assert(more[m] == mirror_row(owner, now)(f[m]));
    assert(more[n] == mirror_row(owner, now)(f[n]));
    assert(replaced_both_ways(rows, owner_id, owner, now).contains(row));
}

/// The relations of a title are read as they are stored.
pub proof fn a_relation_is_read_as_it_is_stored(r: RelationRowView)
    ensures
        ({
            let e = read_relation()(r);
            &&& e.id == r.related_provider_id && e.id_mal == r.related_mal_id
            &&& e.title_romaji == r.title_romaji && e.title_english == r.title_english
                && e.title_native == r.title_native && e.cover_url == r.cover_url
            &&& e.format == r.format && e.status == r.status && e.episodes == r.episodes
                && e.season_year == r.season_year && e.media_type == r.media_type
                && e.relation_type == r.relation_type
            &&& e.status_display == replaced(r.status, "_"@, " "@)
        }),
{
}

/// Every stored relation of a title, and nothing else, is read for it.
pub proof fn the_relations_of_a_title_are_read(
    rows: Seq<RelationRowView>,
    owner_id: i64,
    i: int,
    k: int,
)
    ensures
        0 <= i < rows.len() && rows[i].owner_id == owner_id ==> relations_of(
            rows,
            owner_id,
        ).contains(read_relation()(rows[i])),
        0 <= k < relations_of(rows, owner_id).len() ==> exists|j: int|
            0 <= j < rows.len() && (#[trigger] rows[j]).owner_id == owner_id && relations_of(
                rows,
                owner_id,
            )[k] == read_relation()(rows[j]),
{
    let chosen = owned_by(owner_id);
    let o = ordered(rows.filter(chosen), relation_order());
    let list = relations_of(rows, owner_id);
    lemma_relation_order_total();
    crate::table::lemma_listed(rows, chosen, relation_order());
    if 0 <= i < rows.len() && rows[i].owner_id == owner_id {
        assert(chosen(rows[i]));
        assert(o.contains(rows[i]));
        let m = choose|m: int| 0 <= m < o.len() && o[m] == rows[i];
        assert(list[m] == read_relation()(rows[i]));
    }
    if 0 <= k < list.len() {
        assert(rows.contains(o[k]) && chosen(o[k]));
        let j = choose|j: int| 0 <= j < rows.len() && rows[j] == o[k];
        assert(rows[j].owner_id == owner_id);
    }
}

proof fn lemma_relation_order_total()
    ensures
        crate::table::total_preorder(relation_order()),
{
    let before = relation_order();
    assert forall|a: RelationRowView, b: RelationRowView| #[trigger]
        before(a, b) || before(b, a) by {
        crate::text::text_order_is_a_total_order(
            a.relation_type,
            b.relation_type,
            b.relation_type,
        );
    }
    assert forall|a: RelationRowView, b: RelationRowView, c: RelationRowView| #[trigger]
        before(a, b) && #[trigger] before(b, c) implies before(a, c) by {
        crate::text::text_order_is_a_total_order(
            a.relation_type,
            b.relation_type,
            c.relation_type,
        );
        crate::text::text_order_is_a_total_order(
            a.relation_type,
            b.relation_type,
            b.relation_type,
        );
        crate::text::text_order_is_a_total_order(
            b.relation_type,
            c.relation_type,
            a.relation_type,
        );
    }
}

/// A relation that leads to a title is shown from it: the title it comes from,
/// of the kind that it is from there.
pub proof fn an_incoming_relation_comes_from_a_stored_one(
    rows: Seq<RelationRowView>,
    metadata: Seq<ProviderMetadataView>,
    provider_id: i64,
    mal_id: Option<i64>,
    k: int,
)
    requires
        0 <= k < incoming(rows, metadata, provider_id, mal_id).len(),
    ensures
        ({
            let e = incoming(rows, metadata, provider_id, mal_id)[k];
            exists|i: int|
                0 <= i < rows.len() && e.id == (#[trigger] rows[i]).owner_id && Some(
                    e.relation_type,
                ) == reversed(rows[i].relation_type) && e.media_type == "ANIME"@ && (
                rows[i].related_provider_id == provider_id || (mal_id is Some
                    && rows[i].related_mal_id == mal_id))
        }),
{
    let to = leads_to(provider_id, mal_id);
    let f = rows.filter(to);
    let each = first_of_each(f, same_source());
    let sorted = ordered(each, source_order());
    let two = sorted.filter(has_reverse());
    let seen = two.map_values(incoming_entry(metadata));
    crate::table::lemma_first_of_each_members(seen, same_relation());
    let e = incoming(rows, metadata, provider_id, mal_id)[k];
    assert(seen.contains(e));
    let m = choose|m: int| 0 <= m < seen.len() && seen[m] == e;
    crate::table::lemma_filter_members(sorted, has_reverse());
    assert(sorted.contains(two[m]) && has_reverse()(two[m]));
    let p = choose|p: int| 0 <= p < sorted.len() && sorted[p] == two[m];
    crate::table::lemma_ordered_members(each, source_order());
    assert(each.contains(sorted[p]));
    let q = choose|q: int| 0 <= q < each.len() && each[q] == two[m];
    crate::table::lemma_first_of_each_members(f, same_source());
    assert(f.contains(each[q]));
    let n = choose|n: int| 0 <= n < f.len() && f[n] == two[m];
    crate::table::lemma_filter_members(rows, to);
    assert(rows.contains(f[n]) && to(f[n]));
    let i = choose|i: int| 0 <= i < rows.len() && rows[i] == two[m];
    assert(e.id == rows[i].owner_id);
}

/// The title that a relation comes from is shown with what is kept of it, and
/// with the id at MyAnimeList that is known of it or that its own id stands
/// for.
pub proof fn an_incoming_title_is_shown_as_it_is_kept(
    metadata: Seq<ProviderMetadataView>,
    r: RelationRowView,
    i: int,
)
    requires
        0 <= i < metadata.len(),
        metadata[i].provider_id == r.owner_id,
        forall|k: int| 0 <= k < i ==> (#[trigger] metadata[k]).provider_id != r.owner_id,
    ensures
        ({
            let e = incoming_entry(metadata)(r);
            let m = metadata[i];
            &&& e.title_romaji == m.title_romaji && e.title_english == m.title_english
                && e.title_native == m.title_native && e.cover_url == m.cover_url
            &&& e.format == m.format && e.status == m.status && e.episodes == m.episodes
                && e.season_year == m.season_year
            &&& e.status_display == replaced(m.status, "_"@, " "@)
            &&& m.mal_id is Some ==> e.id_mal == m.mal_id
            &&& m.mal_id is None && r.owner_id >= 0 ==> e.id_mal is None
            &&& m.mal_id is None && i64::MIN < r.owner_id < 0 ==> e.id_mal is Some && e.id_mal->0
                == -r.owner_id
        }),
{
    crate::table::lemma_first_where(metadata, of_provider(r.owner_id), i);
}

/// Replacing the episodes of a title leaves those of every other one; of the
/// title there are those that were given, and no others.
pub proof fn replaced_episodes_are_the_given_ones(
    rows: Seq<EpisodeRowView>,
    owner_id: i64,
    episodes: Seq<CachedEpisodeMetadataView>,
    now: Seq<char>,
    row: EpisodeRowView,
)
    ensures
        row.owner_id != owner_id ==> (replaced_episodes(rows, owner_id, episodes, now).contains(
            row,
        ) <==> rows.contains(row)),
        row.owner_id == owner_id ==> (replaced_episodes(rows, owner_id, episodes, now).contains(
            row,
        ) <==> episodes.contains(row.episode) && row.cached_at == now),
{
    let left = without(rows, episodes_of(owner_id));
    let more = episodes.map_values(episode_row(owner_id, now));
    let after = replaced_episodes(rows, owner_id, episodes, now);
    crate::table::lemma_without_contains(rows, episodes_of(owner_id));
    if after.contains(row) {
        let m = choose|m: int| 0 <= m < after.len() && after[m] == row;
        if m < left.len() {
            assert(left[m] == row);
            assert(left.contains(row));
        } else {
            let k = m - left.len();
            assert(more[k] == row);
            assert(episodes[k] == row.episode);
        }
    }
    if left.contains(row) {
        let m = choose|m: int| 0 <= m < left.len() && left[m] == row;
        assert(after[m] == row);
    }
    if row.owner_id == owner_id && row.cached_at == now && episodes.contains(row.episode) {
        let k = choose|k: int| 0 <= k < episodes.len() && episodes[k] == row.episode;
        assert(more[k] == row);
        assert(after[left.len() + k] == row);
    }
}

/// Every stored relation that leads to a title, and that has another side, is
/// among those shown from it: with the title it comes from and the kind it is
/// from there.
pub proof fn a_stored_relation_is_seen_from_the_other_side(
    rows: Seq<RelationRowView>,
    metadata: Seq<ProviderMetadataView>,
    provider_id: i64,
    mal_id: Option<i64>,
    i: int,
)
    requires
        0 <= i < rows.len(),
        rows[i].related_provider_id == provider_id || (mal_id is Some && rows[i].related_mal_id
            == mal_id),
        reversed(rows[i].relation_type) is Some,
    ensures
        exists|k: int|
            0 <= k < incoming(rows, metadata, provider_id, mal_id).len() && ({
                let e = #[trigger] incoming(rows, metadata, provider_id, mal_id)[k];
                let from = incoming_entry(metadata)(rows[i]);
                &&& identity(e.id, e.id_mal) == identity(rows[i].owner_id, from.id_mal)
                &&& normalized(e.relation_type) == normalized(reversed(rows[i].relation_type)->0)
            }),
{
    let to = leads_to(provider_id, mal_id);
    let f = rows.filter(to);
    let each = first_of_each(f, same_source());
    let sorted = ordered(each, source_order());
    let two = sorted.filter(has_reverse());
    let seen = two.map_values(incoming_entry(metadata));
    let list = incoming(rows, metadata, provider_id, mal_id);
    rows.lemma_filter_contains(to, i);
    let n = choose|n: int| 0 <= n < f.len() && f[n] == rows[i];
    let p = lemma_first_source(f, n);
    crate::table::the_first_of_each_is_kept(f, same_source(), p);
    let q = choose|q: int| 0 <= q < each.len() && each[q] == f[p];
    lemma_source_order_total();
    crate::table::lemma_ordered_holds_all(each, source_order());
    assert(sorted.contains(each[q]));
    let s = choose|s: int| 0 <= s < sorted.len() && sorted[s] == f[p];
    assert(has_reverse()(sorted[s]));
    sorted.lemma_filter_contains(has_reverse(), s);
    let m = choose|m: int| 0 <= m < two.len() && two[m] == f[p];
    let w = lemma_first_seen(seen, m);
    crate::table::the_first_of_each_is_kept(seen, same_relation(), w);
    let k = choose|k: int| 0 <= k < list.len() && list[k] == seen[w];
    assert(dedupe_key(list[k]) == dedupe_key(seen[m]));
    assert(seen[m] == incoming_entry(metadata)(f[p]));
    assert(f[p].owner_id == rows[i].owner_id && f[p].relation_type == rows[i].relation_type);
}

proof fn lemma_first_source(f: Seq<RelationRowView>, n: int) -> (p: int)
    requires
        0 <= n < f.len(),
    ensures
        0 <= p <= n,
        f[p].owner_id == f[n].owner_id,
        f[p].relation_type == f[n].relation_type,
        forall|k: int| 0 <= k < p ==> !same_source()(#[trigger] f[k], f[p]),
    decreases n,
{
    if exists|k: int| 0 <= k < n && same_source()(#[trigger] f[k], f[n]) {
        let k = choose|k: int| 0 <= k < n && same_source()(#[trigger] f[k], f[n]);
        lemma_first_source(f, k)
    } else {
        n
    }
}

proof fn lemma_first_seen(f: Seq<RelatedEntryView>, n: int) -> (p: int)
    requires
        0 <= n < f.len(),
    ensures
        0 <= p <= n,
        dedupe_key(f[p]) == dedupe_key(f[n]),
        forall|k: int| 0 <= k < p ==> !same_relation()(#[trigger] f[k], f[p]),
    decreases n,
{
    if exists|k: int| 0 <= k < n && same_relation()(#[trigger] f[k], f[n]) {
        let k = choose|k: int| 0 <= k < n && same_relation()(#[trigger] f[k], f[n]);
        lemma_first_seen(f, k)
    } else {
        n
    }
}

proof fn lemma_source_order_total()
    ensures
        crate::table::total_preorder(source_order()),
{
    let before = source_order();
    assert forall|a: RelationRowView, b: RelationRowView| #[trigger]
        before(a, b) || before(b, a) by {
        crate::text::text_order_is_a_total_order(
            a.relation_type,
            b.relation_type,
            b.relation_type,
        );
    }
    assert forall|a: RelationRowView, b: RelationRowView, c: RelationRowView| #[trigger]
        before(a, b) && #[trigger] before(b, c) implies before(a, c) by {
        crate::text::text_order_is_a_total_order(
            a.relation_type,
            b.relation_type,
            c.relation_type,
        );
        crate::text::text_order_is_a_total_order(
            a.relation_type,
            b.relation_type,
            b.relation_type,
        );
        crate::text::text_order_is_a_total_order(
            b.relation_type,
            c.relation_type,
            a.relation_type,
        );
    }
}

} // verus!
