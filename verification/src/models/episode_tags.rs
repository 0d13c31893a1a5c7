//! What is known of the quality of each episode, and the history of the grabs
//! that brought it.
use crate::models::series::{find, first_of, has_id, is_known, known, SeriesRow, SeriesRowView};
use crate::models::StoreError;
use crate::number::{is_not_a_number, not_a_number};
use crate::source::{
    a_resolution_is_read_from_its_name, a_source_is_read_from_its_name,
    a_web_kind_is_read_from_its_name, resolution_named, source_named, web_kind_named, Resolution,
    Source, WebKind,
};
use crate::table::{
    any, any_where, delete_where, distinct, every, every_pair, first_where, head, order_by, ordered, position,
    project, select, update_where, updated, views, without, Dup,
};
use crate::text::{
    at_most, own, same, text_le, to_lower_text, to_upper_text, lowered, uppered,
};
use std::collections::HashMap;
use vstd::prelude::*;

verus! {

/// Full confidence, `1.0`, as the bits of a single-precision number.
pub const FULL_CONFIDENCE: u32 = 0x3f80_0000;

/// What the classifier says of a release.
#[derive(Debug)]
pub struct ClassificationResult {
    pub source: Source,
    pub resolution: Resolution,
    pub is_remux: bool,
    pub is_bdmv: bool,
    pub web_kind: WebKind,
    /// The confidence as the bits of a single-precision number.
    pub confidence: u32,
    pub needs_review: bool,
    /// The evidence, serialised.
    pub evidence: String,
}

/// The contents of a [`ClassificationResult`].
#[verifier::ext_equal]
pub struct ClassificationResultView {
    pub source: Source,
    pub resolution: Resolution,
    pub is_remux: bool,
    pub is_bdmv: bool,
    pub web_kind: WebKind,
    pub confidence: u32,
    pub needs_review: bool,
    pub evidence: Seq<char>,
}

impl View for ClassificationResult {
    type V = ClassificationResultView;

    open spec fn view(&self) -> ClassificationResultView {
        ClassificationResultView {
            source: self.source,
            resolution: self.resolution,
            is_remux: self.is_remux,
            is_bdmv: self.is_bdmv,
            web_kind: self.web_kind,
            confidence: self.confidence,
            needs_review: self.needs_review,
            evidence: self.evidence@,
        }
    }
}

impl Dup for ClassificationResult {
    fn dup(&self) -> (copy: Self) {
        ClassificationResult {
            source: self.source,
            resolution: self.resolution,
            is_remux: self.is_remux,
            is_bdmv: self.is_bdmv,
            web_kind: self.web_kind,
            confidence: self.confidence,
            needs_review: self.needs_review,
            evidence: self.evidence.clone(),
        }
    }
}

impl Clone for ClassificationResult {
    fn clone(&self) -> (copy: Self)
        ensures
            copy@ == self@,
    {
        self.dup()
    }
}

impl ClassificationResultView {
    /// The label of the quality.
    pub open spec fn label(self) -> Seq<char> {
        quality_label(
            self.source.name(),
            self.resolution.name(),
            self.web_kind.name(),
            self.is_remux,
            self.is_bdmv,
        )
    }
}

impl ClassificationResult {
    /// The label of the quality.
    pub fn label(&self) -> (r: String)
        ensures
            r@ == self@.label(),
    {
        label(
            self.source.as_str(),
            self.resolution.as_str(),
            self.web_kind.as_str(),
            self.is_remux,
            self.is_bdmv,
        )
    }
}

/// What is known of the quality of one episode.
#[derive(Debug)]
pub struct TagRow {
    pub series_id: i64,
    pub episode_number: i32,
    pub quality_tag: String,
    pub release_title: String,
    pub release_group: String,
    /// `grabbed`, `completed` or `failed`.
    pub state: String,
    pub source: String,
    pub resolution: String,
    pub is_remux: bool,
    pub is_bdmv: bool,
    pub web_kind: String,
    /// The confidence as the bits of a single-precision number.
    pub classification_confidence: u32,
    pub needs_review: bool,
    /// Whether the user set the classification; the classifier leaves it alone.
    pub manual_override: bool,
    pub classification_evidence: String,
    pub updated_at: String,
}

/// The contents of a [`TagRow`].
#[verifier::ext_equal]
pub struct TagRowView {
    pub series_id: i64,
    pub episode_number: i32,
    pub quality_tag: Seq<char>,
    pub release_title: Seq<char>,
    pub release_group: Seq<char>,
    pub state: Seq<char>,
    pub source: Seq<char>,
    pub resolution: Seq<char>,
    pub is_remux: bool,
    pub is_bdmv: bool,
    pub web_kind: Seq<char>,
    pub classification_confidence: u32,
    pub needs_review: bool,
    pub manual_override: bool,
    pub classification_evidence: Seq<char>,
    pub updated_at: Seq<char>,
}

impl View for TagRow {
    type V = TagRowView;

    open spec fn view(&self) -> TagRowView {
        TagRowView {
            series_id: self.series_id,
            episode_number: self.episode_number,
            quality_tag: self.quality_tag@,
            release_title: self.release_title@,
            release_group: self.release_group@,
            state: self.state@,
            source: self.source@,
            resolution: self.resolution@,
            is_remux: self.is_remux,
            is_bdmv: self.is_bdmv,
            web_kind: self.web_kind@,
            classification_confidence: self.classification_confidence,
            needs_review: self.needs_review,
            manual_override: self.manual_override,
            classification_evidence: self.classification_evidence@,
            updated_at: self.updated_at@,
        }
    }
}

impl Dup for TagRow {
    fn dup(&self) -> (copy: Self) {
        TagRow {
            series_id: self.series_id,
            episode_number: self.episode_number,
            quality_tag: self.quality_tag.clone(),
            release_title: self.release_title.clone(),
            release_group: self.release_group.clone(),
            state: self.state.clone(),
            source: self.source.clone(),
            resolution: self.resolution.clone(),
            is_remux: self.is_remux,
            is_bdmv: self.is_bdmv,
            web_kind: self.web_kind.clone(),
            classification_confidence: self.classification_confidence,
            needs_review: self.needs_review,
            manual_override: self.manual_override,
            classification_evidence: self.classification_evidence.clone(),
            updated_at: self.updated_at.clone(),
        }
    }
}

impl Clone for TagRow {
    fn clone(&self) -> (copy: Self)
        ensures
            copy@ == self@,
    {
        self.dup()
    }
}

/// One grab of one episode.
#[derive(Debug)]
pub struct HistoryRow {
    pub id: i64,
    pub series_id: i64,
    pub episode_number: i32,
    pub quality_tag: String,
    pub release_title: String,
    pub release_group: String,
    pub file_name: String,
    pub size_bytes: i64,
    pub is_batch: bool,
    /// `grabbed`, `completed`, `failed` or `removed`.
    pub state: String,
    pub grabbed_at: String,
}

/// The contents of a [`HistoryRow`].
#[verifier::ext_equal]
pub struct HistoryRowView {
    pub id: i64,
    pub series_id: i64,
    pub episode_number: i32,
    pub quality_tag: Seq<char>,
    pub release_title: Seq<char>,
    pub release_group: Seq<char>,
    pub file_name: Seq<char>,
    pub size_bytes: i64,
    pub is_batch: bool,
    pub state: Seq<char>,
    pub grabbed_at: Seq<char>,
}

impl View for HistoryRow {
    type V = HistoryRowView;

    open spec fn view(&self) -> HistoryRowView {
        HistoryRowView {
            id: self.id,
            series_id: self.series_id,
            episode_number: self.episode_number,
            quality_tag: self.quality_tag@,
            release_title: self.release_title@,
            release_group: self.release_group@,
            file_name: self.file_name@,
            size_bytes: self.size_bytes,
            is_batch: self.is_batch,
            state: self.state@,
            grabbed_at: self.grabbed_at@,
        }
    }
}

impl Dup for HistoryRow {
    fn dup(&self) -> (copy: Self) {
        HistoryRow {
            id: self.id,
            series_id: self.series_id,
            episode_number: self.episode_number,
            quality_tag: self.quality_tag.clone(),
            release_title: self.release_title.clone(),
            release_group: self.release_group.clone(),
            file_name: self.file_name.clone(),
            size_bytes: self.size_bytes,
            is_batch: self.is_batch,
            state: self.state.clone(),
            grabbed_at: self.grabbed_at.clone(),
        }
    }
}

impl Clone for HistoryRow {
    fn clone(&self) -> (copy: Self)
        ensures
            copy@ == self@,
    {
        self.dup()
    }
}

/// One grab of an episode as it is shown.
#[derive(Debug)]
pub struct GrabHistoryEntry {
    pub id: i64,
    pub quality_tag: String,
    pub release_title: String,
    pub release_group: String,
    /// The file on disk; the release title until the import.
    pub file_name: String,
    /// The size of the file; of the whole torrent for a batch.
    pub size_bytes: i64,
    pub is_batch: bool,
    pub grabbed_at: String,
    pub state: String,
}

/// The contents of a [`GrabHistoryEntry`].
#[verifier::ext_equal]
pub struct GrabHistoryEntryView {
    pub id: i64,
    pub quality_tag: Seq<char>,
    pub release_title: Seq<char>,
    pub release_group: Seq<char>,
    pub file_name: Seq<char>,
    pub size_bytes: i64,
    pub is_batch: bool,
    pub grabbed_at: Seq<char>,
    pub state: Seq<char>,
}

impl View for GrabHistoryEntry {
    type V = GrabHistoryEntryView;

    open spec fn view(&self) -> GrabHistoryEntryView {
        GrabHistoryEntryView {
            id: self.id,
            quality_tag: self.quality_tag@,
            release_title: self.release_title@,
            release_group: self.release_group@,
            file_name: self.file_name@,
            size_bytes: self.size_bytes,
            is_batch: self.is_batch,
            grabbed_at: self.grabbed_at@,
            state: self.state@,
        }
    }
}

impl Dup for GrabHistoryEntry {
    fn dup(&self) -> (copy: Self) {
        GrabHistoryEntry {
            id: self.id,
            quality_tag: self.quality_tag.clone(),
            release_title: self.release_title.clone(),
            release_group: self.release_group.clone(),
            file_name: self.file_name.clone(),
            size_bytes: self.size_bytes,
            is_batch: self.is_batch,
            grabbed_at: self.grabbed_at.clone(),
            state: self.state.clone(),
        }
    }
}

impl Clone for GrabHistoryEntry {
    fn clone(&self) -> (copy: Self)
        ensures
            copy@ == self@,
    {
        self.dup()
    }
}

/// The quality of an episode as it is shown.
#[derive(Debug)]
pub struct EpisodeQualityTag {
    pub quality_tag: String,
    pub release_title: String,
    pub release_group: String,
    pub state: String,
    pub source: String,
    pub resolution: String,
    pub is_remux: bool,
    pub is_bdmv: bool,
    pub web_kind: String,
    /// The confidence as the bits of a single-precision number.
    pub classification_confidence: u32,
    pub needs_review: bool,
    pub manual_override: bool,
    pub classification_evidence: String,
}

/// The contents of a [`EpisodeQualityTag`].
#[verifier::ext_equal]
pub struct EpisodeQualityTagView {
    pub quality_tag: Seq<char>,
    pub release_title: Seq<char>,
    pub release_group: Seq<char>,
    pub state: Seq<char>,
    pub source: Seq<char>,
    pub resolution: Seq<char>,
    pub is_remux: bool,
    pub is_bdmv: bool,
    pub web_kind: Seq<char>,
    pub classification_confidence: u32,
    pub needs_review: bool,
    pub manual_override: bool,
    pub classification_evidence: Seq<char>,
}

impl View for EpisodeQualityTag {
    type V = EpisodeQualityTagView;

    open spec fn view(&self) -> EpisodeQualityTagView {
        EpisodeQualityTagView {
            quality_tag: self.quality_tag@,
            release_title: self.release_title@,
            release_group: self.release_group@,
            state: self.state@,
            source: self.source@,
            resolution: self.resolution@,
            is_remux: self.is_remux,
            is_bdmv: self.is_bdmv,
            web_kind: self.web_kind@,
            classification_confidence: self.classification_confidence,
            needs_review: self.needs_review,
            manual_override: self.manual_override,
            classification_evidence: self.classification_evidence@,
        }
    }
}

impl Dup for EpisodeQualityTag {
    fn dup(&self) -> (copy: Self) {
        EpisodeQualityTag {
            quality_tag: self.quality_tag.clone(),
            release_title: self.release_title.clone(),
            release_group: self.release_group.clone(),
            state: self.state.clone(),
            source: self.source.clone(),
            resolution: self.resolution.clone(),
            is_remux: self.is_remux,
            is_bdmv: self.is_bdmv,
            web_kind: self.web_kind.clone(),
            classification_confidence: self.classification_confidence,
            needs_review: self.needs_review,
            manual_override: self.manual_override,
            classification_evidence: self.classification_evidence.clone(),
        }
    }
}

impl Clone for EpisodeQualityTag {
    fn clone(&self) -> (copy: Self)
        ensures
            copy@ == self@,
    {
        self.dup()
    }
}

/// An episode whose classification waits for the user.
#[derive(Debug)]
pub struct NeedsReviewEntry {
    pub series_id: i64,
    pub series_anilist_id: i64,
    pub series_title: String,
    pub cover_url: String,
    pub episode_number: i32,
    pub quality_tag: String,
    pub release_title: String,
    pub release_group: String,
    pub source: String,
    pub resolution: String,
    /// The confidence as the bits of a single-precision number.
    pub classification_confidence: u32,
    pub classification_evidence: String,
}

/// The contents of a [`NeedsReviewEntry`].
#[verifier::ext_equal]
pub struct NeedsReviewEntryView {
    pub series_id: i64,
    pub series_anilist_id: i64,
    pub series_title: Seq<char>,
    pub cover_url: Seq<char>,
    pub episode_number: i32,
    pub quality_tag: Seq<char>,
    pub release_title: Seq<char>,
    pub release_group: Seq<char>,
    pub source: Seq<char>,
    pub resolution: Seq<char>,
    pub classification_confidence: u32,
    pub classification_evidence: Seq<char>,
}

impl View for NeedsReviewEntry {
    type V = NeedsReviewEntryView;

    open spec fn view(&self) -> NeedsReviewEntryView {
        NeedsReviewEntryView {
            series_id: self.series_id,
            series_anilist_id: self.series_anilist_id,
            series_title: self.series_title@,
            cover_url: self.cover_url@,
            episode_number: self.episode_number,
            quality_tag: self.quality_tag@,
            release_title: self.release_title@,
            release_group: self.release_group@,
            source: self.source@,
            resolution: self.resolution@,
            classification_confidence: self.classification_confidence,
            classification_evidence: self.classification_evidence@,
        }
    }
}

impl Dup for NeedsReviewEntry {
    fn dup(&self) -> (copy: Self) {
        NeedsReviewEntry {
            series_id: self.series_id,
            series_anilist_id: self.series_anilist_id,
            series_title: self.series_title.clone(),
            cover_url: self.cover_url.clone(),
            episode_number: self.episode_number,
            quality_tag: self.quality_tag.clone(),
            release_title: self.release_title.clone(),
            release_group: self.release_group.clone(),
            source: self.source.clone(),
            resolution: self.resolution.clone(),
            classification_confidence: self.classification_confidence,
            classification_evidence: self.classification_evidence.clone(),
        }
    }
}

impl Clone for NeedsReviewEntry {
    fn clone(&self) -> (copy: Self)
        ensures
            copy@ == self@,
    {
        self.dup()
    }
}

/// The tags and the history.
#[derive(Debug)]
pub struct TagStore {
    pub tags: Vec<TagRow>,
    pub history: Vec<HistoryRow>,
    /// The largest history id given out so far.
    pub last_id: i64,
}

/// The contents of a [`TagStore`].
#[verifier::ext_equal]
pub struct TagStoreView {
    pub tags: Seq<TagRowView>,
    pub history: Seq<HistoryRowView>,
    pub last_id: i64,
}

impl View for TagStore {
    type V = TagStoreView;

    open spec fn view(&self) -> TagStoreView {
        TagStoreView {
            tags: views(self.tags@),
            history: views(self.history@),
            last_id: self.last_id,
        }
    }
}

pub open spec fn tag_key() -> spec_fn(TagRowView) -> (i64, i32) {
    |t: TagRowView| (t.series_id, t.episode_number)
}

pub open spec fn history_key() -> spec_fn(HistoryRowView) -> i64 {
    |h: HistoryRowView| h.id
}

pub open spec fn tag_of(series_id: i64, episode: i32) -> spec_fn(TagRowView) -> bool {
    |t: TagRowView| t.series_id == series_id && t.episode_number == episode
}

pub open spec fn free_tag_of(series_id: i64, episode: i32) -> spec_fn(TagRowView) -> bool {
    |t: TagRowView| t.series_id == series_id && t.episode_number == episode && !t.manual_override
}

impl TagStoreView {
    /// An episode has one tag at most; every history id is given once and is
    /// at most the last one.
    pub open spec fn wf(self) -> bool {
        &&& distinct(self.tags, tag_key())
        &&& distinct(self.history, history_key())
        &&& forall|i: int|
            0 <= i < self.history.len() ==> (#[trigger] self.history[i]).id <= self.last_id
    }
}

pub open spec fn is_bluray(source: Seq<char>) -> bool {
    lowered(source) == "bluray"@ || lowered(source) == "blu-ray"@ || lowered(source) == "bd"@
}

/// Whether nothing is known of the resolution.
pub open spec fn no_resolution(resolution: Seq<char>) -> bool {
    resolution == ""@ || resolution == "Unknown"@
}

/// Whether `s` holds nothing but spaces.
pub open spec fn only_spaces(s: Seq<char>) -> bool {
    forall|i: int| 0 <= i < s.len() ==> #[trigger] s[i] == ' '
}

/// The label of a source: `BD`, `WEB`, `WEBRip`, or the source in capitals.
pub open spec fn source_label(source: Seq<char>, web_kind: Seq<char>) -> Seq<char> {
    if is_bluray(source) {
        "BD"@
    } else if lowered(source) == "web"@ {
        let kind = lowered(web_kind);
        if kind == "webrip"@ || kind == "web-rip"@ || kind == "web.rip"@ {
            "WEBRip"@
        } else {
            "WEB"@
        }
    } else {
        uppered(source)
    }
}

/// The label of a quality: `BD-1080p Remux`, `WEB-720p`, and so on.
pub open spec fn quality_label(
    source: Seq<char>,
    resolution: Seq<char>,
    web_kind: Seq<char>,
    is_remux: bool,
    is_bdmv: bool,
) -> Seq<char> {
    if only_spaces(source) || lowered(source) == "unknown"@ {
        if no_resolution(resolution) {
            "Unknown"@
        } else {
            resolution
        }
    } else {
        source_label(source, web_kind) + (if no_resolution(resolution) {
            ""@
        } else {
            "-"@ + resolution
        }) + (if is_bluray(source) && is_bdmv {
            " RAW"@
        } else if is_bluray(source) && is_remux {
            " Remux"@
        } else {
            ""@
        })
    }
}

fn bluray(source: &str) -> (r: bool)
    ensures
        r == is_bluray(source@),
{
    let low = to_lower_text(source);
    same(&low, "bluray") || same(&low, "blu-ray") || same(&low, "bd")
}

fn blank(source: &str) -> (r: bool)
    ensures
        r == only_spaces(source@),
{
    let chars = crate::text::chars_of(source);
    let mut i: usize = 0;
    while i < chars.len()
        invariant
            i <= chars.len(),
            chars@ == source@,
            forall|k: int| 0 <= k < i ==> #[trigger] source@[k] == ' ',
        decreases chars.len() - i,
    {
        if chars[i] != ' ' {
            assert(source@[i as int] != ' ');
            return false;
        }
        i += 1;
    }
    true
}

/// The label of a quality: the source, the resolution, and for a disc whether
/// it is raw or a remux.
pub fn label(source: &str, resolution: &str, web_kind: &str, is_remux: bool, is_bdmv: bool) -> (r:
    String)
    ensures
        r@ == quality_label(source@, resolution@, web_kind@, is_remux, is_bdmv),
{
    let unresolved: bool = same(resolution, "") || same(resolution, "Unknown");
    if blank(source) || same(&to_lower_text(source), "unknown") {
        return if unresolved {
            own("Unknown")
        } else {
            own(resolution)
        };
    }
    let disc: bool = bluray(source);
    let mut out: String = if disc {
        own("BD")
    } else if same(&to_lower_text(source), "web") {
        let kind = to_lower_text(web_kind);
        if same(&kind, "webrip") || same(&kind, "web-rip") || same(&kind, "web.rip") {
            own("WEBRip")
        } else {
            own("WEB")
        }
    } else {
        to_upper_text(source)
    };
    let ghost head = out@;
    if !unresolved {
        out.append("-");
        out.append(resolution);
        assert(out@ =~= head + ("-"@ + resolution@));
    } else {
        proof {
            reveal_strlit("");
        }
        assert(out@ =~= head + ""@);
    }
    let ghost middle = out@;
    if disc && is_bdmv {
        out.append(" RAW");
    } else if disc && is_remux {
        out.append(" Remux");
    } else {
        proof {
            reveal_strlit("");
        }
        assert(out@ =~= middle + ""@);
    }
    out
}

/// A tag as a classification leaves it.
pub open spec fn classified(t: TagRowView, c: ClassificationResultView, now: Seq<char>) -> TagRowView {
    TagRowView {
        quality_tag: c.label(),
        source: c.source.name(),
        resolution: c.resolution.name(),
        is_remux: c.is_remux,
        is_bdmv: c.is_bdmv,
        web_kind: c.web_kind.name(),
        classification_confidence: c.confidence,
        needs_review: c.needs_review,
        classification_evidence: c.evidence,
        updated_at: now,
        ..t
    }
}

/// A tag without a classification.
pub open spec fn bare_tag(series_id: i64, episode: i32, state: Seq<char>) -> TagRowView {
    TagRowView {
        series_id,
        episode_number: episode,
        quality_tag: Seq::empty(),
        release_title: Seq::empty(),
        release_group: Seq::empty(),
        state,
        source: Seq::empty(),
        resolution: Seq::empty(),
        is_remux: false,
        is_bdmv: false,
        web_kind: Seq::empty(),
        classification_confidence: 0,
        needs_review: false,
        manual_override: false,
        classification_evidence: Seq::empty(),
        updated_at: Seq::empty(),
    }
}

/// A tag as a grab leaves it.
pub open spec fn regrabbed(
    c: ClassificationResultView,
    release_title: Seq<char>,
    release_group: Seq<char>,
    now: Seq<char>,
) -> spec_fn(TagRowView) -> TagRowView {
    |t: TagRowView|
        TagRowView { release_title, release_group, state: "grabbed"@, ..classified(t, c, now) }
}

impl TagStoreView {
    /// The store after a grab of one episode, with the history id.
    pub open spec fn record_grab(
        self,
        series: Seq<SeriesRowView>,
        series_id: i64,
        episode: i32,
        c: ClassificationResultView,
        release_title: Seq<char>,
        release_group: Seq<char>,
        size_bytes: i64,
        is_batch: bool,
        now: Seq<char>,
    ) -> (TagStoreView, Result<i64, StoreError>) {
        if self.last_id == i64::MAX {
            (self, Err(StoreError::Full))
        } else if !known(series, series_id) {
            (self, Err(StoreError::MissingParent))
        } else {
            let id = (self.last_id + 1) as i64;
            let entry = HistoryRowView {
                id,
                series_id,
                episode_number: episode,
                quality_tag: c.label(),
                release_title,
                release_group,
                file_name: release_title,
                size_bytes,
                is_batch,
                state: "grabbed"@,
                grabbed_at: now,
            };
            let change = regrabbed(c, release_title, release_group, now);
            let told = TagStoreView { history: self.history.push(entry), last_id: id, ..self };
            if not_a_number(c.confidence) {
                (told, Err(StoreError::MissingValue))
            } else {
                (
                    TagStoreView {
                        tags: match first_where(self.tags, tag_of(series_id, episode)) {
                            Some(t) => updated(self.tags, free_tag_of(series_id, episode), change),
                            None => self.tags.push(change(bare_tag(series_id, episode, "grabbed"@))),
                        },
                        ..told
                    },
                    Ok(id),
                )
            }
        }
    }
}

proof fn lemma_updated_distinct(
    s: Seq<TagRowView>,
    chosen: spec_fn(TagRowView) -> bool,
    change: spec_fn(TagRowView) -> TagRowView,
)
    requires
        distinct(s, tag_key()),
        forall|t: TagRowView| tag_key()(#[trigger] change(t)) == tag_key()(t),
    ensures
        distinct(updated(s, chosen, change), tag_key()),
{
    let after = updated(s, chosen, change);
    assert forall|i: int| 0 <= i < s.len() implies tag_key()(#[trigger] after[i]) == tag_key()(
        s[i],
    ) by {
        let n = change(s[i]);
        assert(tag_key()(n) == tag_key()(s[i]));
    }
    assert forall|i: int, j: int| 0 <= i < j < after.len() implies tag_key()(#[trigger] after[i])
        != tag_key()(#[trigger] after[j]) by {
        assert(tag_key()(s[i]) != tag_key()(s[j]));
    }
}

proof fn lemma_pushed_distinct(s: Seq<TagRowView>, t: TagRowView)
    requires
        distinct(s, tag_key()),
        first_where(s, tag_of(t.series_id, t.episode_number)) is None,
    ensures
        distinct(s.push(t), tag_key()),
{
    crate::table::lemma_first_where_any(s, tag_of(t.series_id, t.episode_number));
    let after = s.push(t);
    assert forall|i: int, j: int| 0 <= i < j < after.len() implies tag_key()(#[trigger] after[i])
        != tag_key()(#[trigger] after[j]) by {
        if j == s.len() {
            assert(!tag_of(t.series_id, t.episode_number)(s[i]));
        } else {
            assert(tag_key()(s[i]) != tag_key()(s[j]));
        }
    }
}

fn apply(t: TagRow, c: &ClassificationResult, now: &str) -> (o: TagRow)
    ensures
        o@ == classified(t@, c@, now@),
{
    TagRow {
        quality_tag: c.label(),
        source: own(c.source.as_str()),
        resolution: own(c.resolution.as_str()),
        is_remux: c.is_remux,
        is_bdmv: c.is_bdmv,
        web_kind: own(c.web_kind.as_str()),
        classification_confidence: c.confidence,
        needs_review: c.needs_review,
        classification_evidence: c.evidence.clone(),
        updated_at: own(now),
        ..t
    }
}

fn empty_tag(series_id: i64, episode: i32, state: &str) -> (t: TagRow)
    ensures
        t@ == bare_tag(series_id, episode, state@),
{
    TagRow {
        series_id,
        episode_number: episode,
        quality_tag: String::new(),
        release_title: String::new(),
        release_group: String::new(),
        state: own(state),
        source: String::new(),
        resolution: String::new(),
        is_remux: false,
        is_bdmv: false,
        web_kind: String::new(),
        classification_confidence: 0,
        needs_review: false,
        manual_override: false,
        classification_evidence: String::new(),
        updated_at: String::new(),
    }
}

fn regrab(t: TagRow, c: &ClassificationResult, release_title: &str, release_group: &str, now: &str)
    -> (o: TagRow)
    ensures
        o@ == regrabbed(c@, release_title@, release_group@, now@)(t@),
{
    let t = apply(t, c, now);
    TagRow {
        release_title: own(release_title),
        release_group: own(release_group),
        state: own("grabbed"),
        ..t
    }
}

/// Records a grab of an episode: always in the history, and in the tag of the
/// episode unless the user set it. The file name starts as the release title.
/// A confidence that is no number is refused once the history is written.
pub fn record_grab(
    db: &mut TagStore,
    series: &Vec<SeriesRow>,
    series_id: i64,
    episode_number: i32,
    classification: &ClassificationResult,
    release_title: &str,
    release_group: &str,
    size_bytes: i64,
    is_batch: bool,
    now: &str,
) -> (r: Result<i64, StoreError>)
    requires
        old(db)@.wf(),
    ensures
        (final(db)@, r) == old(db)@.record_grab(
            views(series@),
            series_id,
            episode_number,
            classification@,
            release_title@,
            release_group@,
            size_bytes,
            is_batch,
            now@,
        ),
        final(db)@.wf(),
{
    if db.last_id == i64::MAX {
        return Err(StoreError::Full);
    }
    if !is_known(series, series_id) {
        return Err(StoreError::MissingParent);
    }
    let id: i64 = db.last_id + 1;
    let ghost before = db@;
    let c = classification;
    let entry = HistoryRow {
        id,
        series_id,
        episode_number,
        quality_tag: c.label(),
        release_title: own(release_title),
        release_group: own(release_group),
        file_name: own(release_title),
        size_bytes,
        is_batch,
        state: own("grabbed"),
        grabbed_at: own(now),
    };
    let ghost had = db.history@;
    db.history.push(entry);
    db.last_id = id;
    proof {
        crate::table::lemma_views_push(had, entry);
    }
    if is_not_a_number(c.confidence) {
        return Err(StoreError::MissingValue);
    }
    let ghost change = regrabbed(c@, release_title@, release_group@, now@);
    let by_key = |t: &TagRow| -> (b: bool)
        ensures b == tag_of(series_id, episode_number)(t@)
        { t.series_id == series_id && t.episode_number == episode_number };
    match position(&db.tags, by_key, Ghost(tag_of(series_id, episode_number))) {
        Some(_) => {
            let free = |t: &TagRow| -> (b: bool)
                ensures b == free_tag_of(series_id, episode_number)(t@)
                {
                    t.series_id == series_id && t.episode_number == episode_number
                        && !t.manual_override
                };
            let make = |t: TagRow| -> (o: TagRow)
                ensures o@ == change(t@)
                { regrab(t, c, release_title, release_group, now) };
            let _n: usize = update_where(
                &mut db.tags,
                free,
                make,
                Ghost(free_tag_of(series_id, episode_number)),
                Ghost(change),
            );
            proof {
                lemma_updated_distinct(
                    before.tags,
                    free_tag_of(series_id, episode_number),
                    change,
                );
            }
        },
        None => {
            let t = regrab(
                empty_tag(series_id, episode_number, "grabbed"),
                c,
                release_title,
                release_group,
                now,
            );
            let ghost had = db.tags@;
            proof {
                lemma_pushed_distinct(before.tags, t@);
            }
            db.tags.push(t);
            proof {
                crate::table::lemma_views_push(had, t);
            }
        },
    }
    Ok(id)
}

/// A tag as it is shown.
pub open spec fn shown(t: TagRowView) -> EpisodeQualityTagView {
    EpisodeQualityTagView {
        quality_tag: t.quality_tag,
        release_title: t.release_title,
        release_group: t.release_group,
        state: t.state,
        source: t.source,
        resolution: t.resolution,
        is_remux: t.is_remux,
        is_bdmv: t.is_bdmv,
        web_kind: t.web_kind,
        classification_confidence: t.classification_confidence,
        needs_review: t.needs_review,
        manual_override: t.manual_override,
        classification_evidence: t.classification_evidence,
    }
}

fn show(t: &TagRow) -> (o: EpisodeQualityTag)
    ensures
        o@ == shown(t@),
{
    EpisodeQualityTag {
        quality_tag: t.quality_tag.clone(),
        release_title: t.release_title.clone(),
        release_group: t.release_group.clone(),
        state: t.state.clone(),
        source: t.source.clone(),
        resolution: t.resolution.clone(),
        is_remux: t.is_remux,
        is_bdmv: t.is_bdmv,
        web_kind: t.web_kind.clone(),
        classification_confidence: t.classification_confidence,
        needs_review: t.needs_review,
        manual_override: t.manual_override,
        classification_evidence: t.classification_evidence.clone(),
    }
}

/// The tags of a series by episode.
pub fn get_for_series(db: &TagStore, series_id: i64) -> (out: HashMap<i32, EpisodeQualityTag>)
    requires
        db@.wf(),
    ensures
        forall|e: i32| #[trigger]
            out@.contains_key(e) <==> first_where(db@.tags, tag_of(series_id, e)) is Some,
        forall|e: i32| #[trigger]
            out@.contains_key(e) ==> out@[e]@ == shown(
                first_where(db@.tags, tag_of(series_id, e))->0,
            ),
{
    broadcast use vstd::std_specs::hash::group_hash_axioms;

    let mut out: HashMap<i32, EpisodeQualityTag> = HashMap::new();
    let mut i: usize = 0;
    let ghost tags = db@.tags;
    while i < db.tags.len()
        invariant
            i <= db.tags.len(),
            tags == db@.tags,
            db@.wf(),
            forall|e: i32| #[trigger]
                out@.contains_key(e) <==> exists|k: int|
                    0 <= k < i && tag_of(series_id, e)(#[trigger] tags[k]),
            forall|e: i32, k: int|
                0 <= k < i && tag_of(series_id, e)(#[trigger] tags[k]) && #[trigger]
                    out@.contains_key(e) ==> out@[e]@ == shown(tags[k]),
        decreases db.tags.len() - i,
    {
        if db.tags[i].series_id == series_id {
            let e: i32 = db.tags[i].episode_number;
            let shown_tag = show(&db.tags[i]);
            let ghost before = out@;
            out.insert(e, shown_tag);
            proof {
                assert(tag_of(series_id, e)(tags[i as int]));
                assert forall|f: i32, k: int|
                    0 <= k < i + 1 && tag_of(series_id, f)(#[trigger] tags[k]) && #[trigger]
                        out@.contains_key(f) implies out@[f]@ == shown(tags[k]) by {
                    if k < i {
                        assert(tag_key()(tags[k]) != tag_key()(tags[i as int]));
                        assert(before.contains_key(f));
                    }
                }
                assert forall|f: i32| #[trigger] out@.contains_key(f) <==> exists|k: int|
                    0 <= k < i + 1 && tag_of(series_id, f)(#[trigger] tags[k]) by {
                    if f == e {
                        assert(tag_of(series_id, f)(tags[i as int]));
                    } else {
                        assert(out@.contains_key(f) == before.contains_key(f));
                        if exists|k: int|
                            0 <= k < i + 1 && tag_of(series_id, f)(#[trigger] tags[k]) {
                            let k = choose|k: int|
                                0 <= k < i + 1 && tag_of(series_id, f)(#[trigger] tags[k]);
                            assert(k < i);
                        }
                    }
                }
            }
        } else {
            proof {
                assert forall|f: i32| #[trigger] out@.contains_key(f) <==> exists|k: int|
                    0 <= k < i + 1 && tag_of(series_id, f)(#[trigger] tags[k]) by {
                    if exists|k: int|
                        0 <= k < i + 1 && tag_of(series_id, f)(#[trigger] tags[k]) {
                        let k = choose|k: int|
                            0 <= k < i + 1 && tag_of(series_id, f)(#[trigger] tags[k]);
                        assert(k < i);
                    }
                }
            }
        }
        i += 1;
    }
    proof {
        assert forall|e: i32| #[trigger] out@.contains_key(e) <==> first_where(
            tags,
            tag_of(series_id, e),
        ) is Some by {
            crate::table::lemma_first_where_any(tags, tag_of(series_id, e));
        }
        assert forall|e: i32| #[trigger] out@.contains_key(e) implies out@[e]@ == shown(
            first_where(tags, tag_of(series_id, e))->0,
        ) by {
            crate::table::lemma_first_where_any(tags, tag_of(series_id, e));
            let t = first_where(tags, tag_of(series_id, e))->0;
            let k = choose|k: int| 0 <= k < tags.len() && tags[k] == t;
            assert(tag_of(series_id, e)(tags[k]));
        }
    }
    out
}

pub open spec fn history_of(series_id: i64, episode: i32) -> spec_fn(HistoryRowView) -> bool {
    |h: HistoryRowView| h.series_id == series_id && h.episode_number == episode
}

pub open spec fn newest_first() -> spec_fn(HistoryRowView, HistoryRowView) -> bool {
    |a: HistoryRowView, b: HistoryRowView| text_le(b.grabbed_at, a.grabbed_at)
}

pub open spec fn entry_of() -> spec_fn(HistoryRowView) -> GrabHistoryEntryView {
    |h: HistoryRowView|
        GrabHistoryEntryView {
            id: h.id,
            quality_tag: h.quality_tag,
            release_title: h.release_title,
            release_group: h.release_group,
            file_name: h.file_name,
            size_bytes: h.size_bytes,
            is_batch: h.is_batch,
            grabbed_at: h.grabbed_at,
            state: h.state,
        }
}

fn sort_newest_first(rows: Vec<HistoryRow>) -> (out: Vec<HistoryRow>)
    ensures
        views(out@) == ordered(views(rows@), newest_first()),
{
    let before = |a: &HistoryRow, b: &HistoryRow| -> (r: bool)
        ensures r == newest_first()(a@, b@)
        { at_most(&b.grabbed_at, &a.grabbed_at) };
    order_by(rows, before, Ghost(newest_first()))
}

/// The grabs of an episode, newest first.
pub fn get_grab_history(db: &TagStore, series_id: i64, episode_number: i32) -> (out: Vec<
    GrabHistoryEntry,
>)
    ensures
        views(out@) == ordered(
            db@.history.filter(history_of(series_id, episode_number)),
            newest_first(),
        ).map_values(entry_of()),
{
    let test = |h: &HistoryRow| -> (b: bool)
        ensures b == history_of(series_id, episode_number)(h@)
        { h.series_id == series_id && h.episode_number == episode_number };
    let rows = sort_newest_first(
        select(&db.history, test, Ghost(history_of(series_id, episode_number))),
    );
    let make = |h: &HistoryRow| -> (o: GrabHistoryEntry)
        ensures o@ == entry_of()(h@)
        {
            GrabHistoryEntry {
                id: h.id,
                quality_tag: h.quality_tag.clone(),
                release_title: h.release_title.clone(),
                release_group: h.release_group.clone(),
                file_name: h.file_name.clone(),
                size_bytes: h.size_bytes,
                is_batch: h.is_batch,
                grabbed_at: h.grabbed_at.clone(),
                state: h.state.clone(),
            }
        };
    project(&rows, make, Ghost(entry_of()), Ghost(|h: HistoryRowView| true))
}

pub open spec fn reclassified(c: ClassificationResultView, now: Seq<char>) -> spec_fn(
    TagRowView,
) -> TagRowView {
    |t: TagRowView| classified(t, c, now)
}

/// Puts a new classification on the tag of an episode, unless the user set
/// it. Title, group and state stay. A confidence that is no number is refused
/// where there is a tag to put it on.
pub fn update_classification(
    db: &mut TagStore,
    series_id: i64,
    episode_number: i32,
    classification: &ClassificationResult,
    now: &str,
) -> (r: Result<(), StoreError>)
    requires
        old(db)@.wf(),
    ensures
        r is Err <==> not_a_number(classification@.confidence) && any_where(
            old(db)@.tags,
            free_tag_of(series_id, episode_number),
        ),
        r matches Err(e) ==> e == StoreError::MissingValue && final(db)@ == old(db)@,
        r is Ok ==> final(db)@ == (TagStoreView {
            tags: updated(
                old(db)@.tags,
                free_tag_of(series_id, episode_number),
                reclassified(classification@, now@),
            ),
            ..old(db)@
        }),
        final(db)@.wf(),
        final(db)@.tags.len() == old(db)@.tags.len(),
        final(db)@.history == old(db)@.history,
        forall|i: int|
            0 <= i < old(db)@.tags.len() && r is Ok ==> (#[trigger] final(db)@.tags[i]) == ({
                let r = old(db)@.tags[i];
                if r.series_id == series_id && r.episode_number == episode_number && !r.manual_override {
                    TagRowView {
                        quality_tag: classification@.label(),
                        source: classification@.source.name(),
                        resolution: classification@.resolution.name(),
                        is_remux: classification@.is_remux,
                        is_bdmv: classification@.is_bdmv,
                        web_kind: classification@.web_kind.name(),
                        classification_confidence: classification@.confidence,
                        needs_review: classification@.needs_review,
                        classification_evidence: classification@.evidence,
                        updated_at: now@,
                        ..r
                    }
                } else {
                    r
                }
            }),
{
    let there = |t: &TagRow| -> (b: bool)
        ensures b == free_tag_of(series_id, episode_number)(t@)
        { t.series_id == series_id && t.episode_number == episode_number && !t.manual_override };
    if is_not_a_number(classification.confidence) && any(
        &db.tags,
        there,
        Ghost(free_tag_of(series_id, episode_number)),
    ) {
        return Err(StoreError::MissingValue);
    }
    proof {
        lemma_updated_distinct(
            db@.tags,
            free_tag_of(series_id, episode_number),
            reclassified(classification@, now@),
        );
    }
    let free = |t: &TagRow| -> (b: bool)
        ensures b == free_tag_of(series_id, episode_number)(t@)
        { t.series_id == series_id && t.episode_number == episode_number && !t.manual_override };
    let make = |t: TagRow| -> (o: TagRow)
        ensures o@ == reclassified(classification@, now@)(t@)
        { apply(t, classification, now) };
    let _n: usize = update_where(
        &mut db.tags,
        free,
        make,
        Ghost(free_tag_of(series_id, episode_number)),
        Ghost(reclassified(classification@, now@)),
    );
    Ok(())
}

/// What the user says of an episode, as a classification: each text counts as
/// what it names, and as unknown, or as nothing said, where it names nothing.
pub open spec fn user_verdict(
    source: Seq<char>,
    resolution: Seq<char>,
    is_remux: bool,
    is_bdmv: bool,
    web_kind: Seq<char>,
) -> ClassificationResultView {
    ClassificationResultView {
        source: source_named(lowered(source)),
        resolution: resolution_named(lowered(resolution)),
        is_remux,
        is_bdmv,
        web_kind: web_kind_named(lowered(web_kind)),
        confidence: FULL_CONFIDENCE,
        needs_review: false,
        evidence: Seq::empty(),
    }
}

pub open spec fn pinned(c: ClassificationResultView, now: Seq<char>) -> spec_fn(
    TagRowView,
) -> TagRowView {
    |t: TagRowView| TagRowView { manual_override: true, ..classified(t, c, now) }
}

pub open spec fn unpinned(now: Seq<char>) -> spec_fn(TagRowView) -> TagRowView {
    |t: TagRowView| TagRowView { manual_override: false, updated_at: now, ..t }
}

impl TagStoreView {
    /// The store after the user set, or with an empty source gave back, the
    /// classification of an episode.
    pub open spec fn set_manual_override(
        self,
        series: Seq<SeriesRowView>,
        series_id: i64,
        episode: i32,
        source: Seq<char>,
        verdict: ClassificationResultView,
        now: Seq<char>,
    ) -> (TagStoreView, Result<(), StoreError>) {
        let here = tag_of(series_id, episode);
        if source.len() == 0 {
            (TagStoreView { tags: updated(self.tags, here, unpinned(now)), ..self }, Ok(()))
        } else if first_where(self.tags, here) is Some {
            (TagStoreView { tags: updated(self.tags, here, pinned(verdict, now)), ..self }, Ok(()))
        } else if !known(series, series_id) {
            (self, Err(StoreError::MissingParent))
        } else {
            (
                TagStoreView {
                    tags: self.tags.push(
                        pinned(verdict, now)(bare_tag(series_id, episode, "completed"@)),
                    ),
                    ..self
                },
                Ok(()),
            )
        }
    }
}

fn pin(t: TagRow, c: &ClassificationResult, now: &str) -> (o: TagRow)
    ensures
        o@ == pinned(c@, now@)(t@),
{
    let t = apply(t, c, now);
    TagRow { manual_override: true, ..t }
}

/// Sets the classification of an episode to what the user says, with full
/// confidence and no evidence; from then on the classifier leaves it alone.
/// An empty source gives the episode back to the classifier and leaves the
/// rest as it is. An episode without a tag gets one. Source, resolution and
/// web kind are stored under the names of what the texts stand for, however
/// the texts are written.
pub fn set_manual_override(
    db: &mut TagStore,
    series: &Vec<SeriesRow>,
    series_id: i64,
    episode_number: i32,
    source: &str,
    resolution: &str,
    is_remux: bool,
    is_bdmv: bool,
    web_kind: &str,
    now: &str,
) -> (r: Result<(), StoreError>)
    requires
        old(db)@.wf(),
    ensures
        (final(db)@, r) == old(db)@.set_manual_override(
            views(series@),
            series_id,
            episode_number,
            source@,
            user_verdict(source@, resolution@, is_remux, is_bdmv, web_kind@),
            now@,
        ),
        final(db)@.wf(),
{
    let ghost here = tag_of(series_id, episode_number);
    let ghost before = db@;
    let by_key = |t: &TagRow| -> (b: bool)
        ensures b == here(t@)
        { t.series_id == series_id && t.episode_number == episode_number };
    if source.is_empty() {
        proof {
            lemma_updated_distinct(db@.tags, here, unpinned(now@));
        }
        let make = |t: TagRow| -> (o: TagRow)
            ensures o@ == unpinned(now@)(t@)
            { TagRow { manual_override: false, updated_at: own(now), ..t } };
        let _n: usize = update_where(&mut db.tags, by_key, make, Ghost(here), Ghost(unpinned(now@)));
        return Ok(());
    }
    let c = ClassificationResult {
        source: Source::from_str(source),
        resolution: Resolution::from_str(resolution),
        is_remux,
        is_bdmv,
        web_kind: WebKind::from_str(web_kind),
        confidence: FULL_CONFIDENCE,
        needs_review: false,
        evidence: String::new(),
    };
    let ghost verdict = user_verdict(source@, resolution@, is_remux, is_bdmv, web_kind@);
    assert(c@ == verdict);
    match position(&db.tags, by_key, Ghost(here)) {
        Some(_) => {
            proof {
                lemma_updated_distinct(db@.tags, here, pinned(verdict, now@));
            }
            let again = |t: &TagRow| -> (b: bool)
                ensures b == here(t@)
                { t.series_id == series_id && t.episode_number == episode_number };
            let ghost change = pinned(verdict, now@);
            let make = |t: TagRow| -> (o: TagRow)
                ensures o@ == change(t@)
                { pin(t, &c, now) };
            let _n: usize = update_where(&mut db.tags, again, make, Ghost(here), Ghost(change));
        },
        None => {
            if !is_known(series, series_id) {
                return Err(StoreError::MissingParent);
            }
            let t = pin(empty_tag(series_id, episode_number, "completed"), &c, now);
            let ghost had = db.tags@;
            proof {
                lemma_pushed_distinct(before.tags, t@);
            }
            db.tags.push(t);
            proof {
                crate::table::lemma_views_push(had, t);
            }
        },
    }
    Ok(())
}

pub open spec fn grabbed_among(series_id: i64, episodes: Seq<i32>) -> spec_fn(TagRowView) -> bool {
    |t: TagRowView|
        t.series_id == series_id && t.state == "grabbed"@ && episodes.contains(t.episode_number)
}

pub open spec fn in_state(state: Seq<char>, now: Seq<char>) -> spec_fn(TagRowView) -> TagRowView {
    |t: TagRowView| TagRowView { state, updated_at: now, ..t }
}

fn among(episodes: &[i32], e: i32) -> (r: bool)
    ensures
        r == episodes@.contains(e),
{
    let mut i: usize = 0;
    while i < episodes.len()
        invariant
            i <= episodes.len(),
            forall|k: int| 0 <= k < i ==> episodes@[k] != e,
        decreases episodes.len() - i,
    {
        if episodes[i] == e {
            assert(episodes@[i as int] == e);
            return true;
        }
        i += 1;
    }
    false
}

/// Marks the grabbed ones of the given episodes as completed.
pub fn mark_completed(db: &mut TagStore, series_id: i64, episode_numbers: &[i32], now: &str)
    requires
        old(db)@.wf(),
    ensures
        final(db)@ == (TagStoreView {
            tags: updated(
                old(db)@.tags,
                grabbed_among(series_id, episode_numbers@),
                in_state("completed"@, now@),
            ),
            ..old(db)@
        }),
        final(db)@.wf(),
        final(db)@.tags.len() == old(db)@.tags.len(),
        final(db)@.history == old(db)@.history,
        forall|i: int|
            0 <= i < old(db)@.tags.len() ==> (#[trigger] final(db)@.tags[i]) == ({
                let r = old(db)@.tags[i];
                if r.series_id == series_id && r.state == "grabbed"@ && episode_numbers@.contains(r.episode_number) {
                    TagRowView { state: "completed"@, updated_at: now@, ..r }
                } else {
                    r
                }
            }),
{
    let ghost chosen = grabbed_among(series_id, episode_numbers@);
    let ghost change = in_state("completed"@, now@);
    proof {
        lemma_updated_distinct(db@.tags, chosen, change);
    }
    let test = |t: &TagRow| -> (b: bool)
        ensures b == chosen(t@)
        {
            t.series_id == series_id && same(&t.state, "grabbed") && among(
                episode_numbers,
                t.episode_number,
            )
        };
    let make = |t: TagRow| -> (o: TagRow)
        ensures o@ == change(t@)
        { TagRow { state: own("completed"), updated_at: own(now), ..t } };
    let _n: usize = update_where(&mut db.tags, test, make, Ghost(chosen), Ghost(change));
}

pub open spec fn grabbed_history(series_id: i64, episode: i32) -> spec_fn(HistoryRowView) -> bool {
    |h: HistoryRowView|
        h.series_id == series_id && h.episode_number == episode && h.state == "grabbed"@
}

pub open spec fn history_id(id: i64) -> spec_fn(HistoryRowView) -> bool {
    |h: HistoryRowView| h.id == id
}

pub open spec fn landed(file_name: Seq<char>, size_bytes: i64) -> spec_fn(
    HistoryRowView,
) -> HistoryRowView {
    |h: HistoryRowView|
        HistoryRowView {
            state: "completed"@,
            file_name,
            size_bytes: if h.is_batch {
                h.size_bytes
            } else {
                size_bytes
            },
            ..h
        }
}

impl TagStoreView {
    /// The newest grab of an episode that is not completed.
    pub open spec fn open_grab(self, series_id: i64, episode: i32) -> Option<HistoryRowView> {
        head(ordered(self.history.filter(grabbed_history(series_id, episode)), newest_first()))
    }
}

proof fn lemma_history_update(
    s: Seq<HistoryRowView>,
    chosen: spec_fn(HistoryRowView) -> bool,
    change: spec_fn(HistoryRowView) -> HistoryRowView,
)
    requires
        distinct(s, history_key()),
        forall|h: HistoryRowView| (#[trigger] change(h)).id == h.id,
    ensures
        distinct(updated(s, chosen, change), history_key()),
        forall|i: int| 0 <= i < s.len() ==> (#[trigger] updated(s, chosen, change)[i]).id == s[i].id,
{
    let after = updated(s, chosen, change);
    assert forall|i: int| 0 <= i < s.len() implies (#[trigger] after[i]).id == s[i].id by {
        let n = change(s[i]);
        assert(n.id == s[i].id);
    }
    assert forall|i: int, j: int| 0 <= i < j < after.len() implies history_key()(
        #[trigger] after[i],
    ) != history_key()(#[trigger] after[j]) by {
        assert(history_key()(s[i]) != history_key()(s[j]));
    }
}

/// Marks the newest open grab of an episode as completed, with the name of
/// the file on disk. The size becomes the file's; a batch keeps the size of
/// the whole torrent.
pub fn mark_grab_history_completed(
    db: &mut TagStore,
    series_id: i64,
    episode_number: i32,
    file_name: &str,
    file_size_bytes: i64,
)
    requires
        old(db)@.wf(),
    ensures
        final(db)@ == (match old(db)@.open_grab(series_id, episode_number) {
            Some(g) => TagStoreView {
                history: updated(
                    old(db)@.history,
                    history_id(g.id),
                    landed(file_name@, file_size_bytes),
                ),
                ..old(db)@
            },
            None => old(db)@,
        }),
        final(db)@.wf(),
{
    let ghost chosen = grabbed_history(series_id, episode_number);
    let test = |h: &HistoryRow| -> (b: bool)
        ensures b == chosen(h@)
        {
            h.series_id == series_id && h.episode_number == episode_number && same(
                &h.state,
                "grabbed",
            )
        };
    let rows = sort_newest_first(select(&db.history, test, Ghost(chosen)));
    assert(views(rows@).len() == rows.len());
    if rows.len() > 0 {
        assert(views(rows@)[0] == rows[0]@);
        let id: i64 = rows[0].id;
        let ghost change = landed(file_name@, file_size_bytes);
        proof {
            lemma_history_update(db@.history, history_id(id), change);
        }
        let by_id = |h: &HistoryRow| -> (b: bool)
            ensures b == history_id(id)(h@)
            { h.id == id };
        let make = |h: HistoryRow| -> (o: HistoryRow)
            ensures o@ == change(h@)
            {
                let size_bytes: i64 = if h.is_batch {
                    h.size_bytes
                } else {
                    file_size_bytes
                };
                HistoryRow { state: own("completed"), file_name: own(file_name), size_bytes, ..h }
            };
        let _n: usize = update_where(
            &mut db.history,
            by_id,
            make,
            Ghost(history_id(id)),
            Ghost(change),
        );
    }
}

/// Forgets the tag of an episode.
pub fn clear_episode_tag(db: &mut TagStore, series_id: i64, episode_number: i32)
    requires
        old(db)@.wf(),
    ensures
        final(db)@ == (TagStoreView {
            tags: without(old(db)@.tags, tag_of(series_id, episode_number)),
            ..old(db)@
        }),
        final(db)@.wf(),
        final(db)@.history == old(db)@.history,
        forall|r: TagRowView| #[trigger]
            final(db)@.tags.contains(r) <==> old(db)@.tags.contains(r) && !(r.series_id == series_id && r.episode_number == episode_number),
{
    proof {
        crate::table::lemma_without_contains(
            db@.tags,
            tag_of(series_id, episode_number),
        );
    }
    proof {
        crate::table::lemma_without_distinct(
            db@.tags,
            tag_of(series_id, episode_number),
            tag_key(),
        );
    }
    let test = |t: &TagRow| -> (b: bool)
        ensures b == tag_of(series_id, episode_number)(t@)
        { t.series_id == series_id && t.episode_number == episode_number };
    let _n: usize = delete_where(&mut db.tags, test, Ghost(tag_of(series_id, episode_number)));
}

pub open spec fn history_in_state(state: Seq<char>) -> spec_fn(HistoryRowView) -> HistoryRowView {
    |h: HistoryRowView| HistoryRowView { state, ..h }
}

impl TagStoreView {
    /// The store without the tag of one episode and with its open grabs
    /// marked as removed.
    pub open spec fn removed_episode(self, series_id: i64, episode: i32) -> TagStoreView {
        TagStoreView {
            tags: without(self.tags, tag_of(series_id, episode)),
            history: updated(
                self.history,
                grabbed_history(series_id, episode),
                history_in_state("removed"@),
            ),
            ..self
        }
    }

    /// The same for several episodes.
    pub open spec fn removed_episodes(self, series_id: i64, episodes: Seq<i32>) -> TagStoreView
        decreases episodes.len(),
    {
        if episodes.len() == 0 {
            self
        } else {
            self.removed_episode(series_id, episodes[0]).removed_episodes(
                series_id,
                episodes.drop_first(),
            )
        }
    }
}

/// Forgets the tags of the given episodes and marks their open grabs as
/// removed.
pub fn clear_tags_for_removal(db: &mut TagStore, series_id: i64, episode_numbers: &[i32])
    requires
        old(db)@.wf(),
    ensures
        final(db)@ == old(db)@.removed_episodes(series_id, episode_numbers@),
        final(db)@.wf(),
{
    let mut i: usize = 0;
    assert(episode_numbers@.skip(0) =~= episode_numbers@);
    while i < episode_numbers.len()
        invariant
            i <= episode_numbers.len(),
            db@.wf(),
            db@.removed_episodes(series_id, episode_numbers@.skip(i as int)) == old(
                db,
            )@.removed_episodes(series_id, episode_numbers@),
        decreases episode_numbers.len() - i,
    {
        let e: i32 = episode_numbers[i];
        proof {
            assert(episode_numbers@.skip(i as int)[0] == e);
            assert(episode_numbers@.skip(i as int).drop_first() =~= episode_numbers@.skip(i + 1));
        }
        clear_episode_tag(db, series_id, e);
        let ghost chosen = grabbed_history(series_id, e);
        proof {
            lemma_history_update(db@.history, chosen, history_in_state("removed"@));
        }
        let test = |h: &HistoryRow| -> (b: bool)
            ensures b == chosen(h@)
            { h.series_id == series_id && h.episode_number == e && same(&h.state, "grabbed") };
        let make = |h: HistoryRow| -> (o: HistoryRow)
            ensures o@ == history_in_state("removed"@)(h@)
            { HistoryRow { state: own("removed"), ..h } };
        let _n: usize = update_where(
            &mut db.history,
            test,
            make,
            Ghost(chosen),
            Ghost(history_in_state("removed"@)),
        );
        i += 1;
    }
    assert(episode_numbers@.skip(i as int).len() == 0);
}

/// Marks a grab in the history as failed, and with it the tag of its episode.
/// Says which series, episode and release it was; refused when there is no
/// such grab.
pub fn mark_grab_failed(db: &mut TagStore, history_id_: i64, now: &str) -> (r: Result<
    (i64, i32, String),
    StoreError,
>)
    requires
        old(db)@.wf(),
    ensures
        match first_where(old(db)@.history, history_id(history_id_)) {
            Some(h) => {
                &&& r matches Ok(x) && x.0 == h.series_id && x.1 == h.episode_number && x.2@
                    == h.release_title
                &&& final(db)@ == (TagStoreView {
                    tags: updated(
                        old(db)@.tags,
                        tag_of(h.series_id, h.episode_number),
                        in_state("failed"@, now@),
                    ),
                    history: updated(
                        old(db)@.history,
                        history_id(history_id_),
                        history_in_state("failed"@),
                    ),
                    ..old(db)@
                })
            },
            None => r matches Err(e) && e == StoreError::NotFound && final(db)@ == old(db)@,
        },
        final(db)@.wf(),
        r matches Ok(x) ==> forall|i: int|
            0 <= i < old(db)@.tags.len() ==> (#[trigger] final(db)@.tags[i]) == ({
                let t = old(db)@.tags[i];
                if t.series_id == x.0 && t.episode_number == x.1 {
                    TagRowView { state: "failed"@, updated_at: now@, ..t }
                } else {
                    t
                }
            }),
        r is Ok ==> forall|i: int|
            0 <= i < old(db)@.history.len() ==> (#[trigger] final(db)@.history[i]) == ({
                let h = old(db)@.history[i];
                if h.id == history_id_ {
                    HistoryRowView { state: "failed"@, ..h }
                } else {
                    h
                }
            }),
        r is Ok <==> exists|i: int|
            0 <= i < old(db)@.history.len() && (#[trigger] old(db)@.history[i]).id == history_id_,
        r matches Ok(x) ==> exists|i: int|
            0 <= i < old(db)@.history.len() && (#[trigger] old(db)@.history[i]).id == history_id_
                && x.0 == old(db)@.history[i].series_id && x.1 == old(db)@.history[i].episode_number
                && x.2@ == old(db)@.history[i].release_title,
{
    proof {
        crate::table::lemma_first_where_any(db@.history, history_id(history_id_));
    }
    let by_id = |h: &HistoryRow| -> (b: bool)
        ensures b == history_id(history_id_)(h@)
        { h.id == history_id_ };
    match position(&db.history, by_id, Ghost(history_id(history_id_))) {
        Some(i) => {
            let series_id: i64 = db.history[i].series_id;
            let episode_number: i32 = db.history[i].episode_number;
            let release_title = db.history[i].release_title.clone();
            proof {
                lemma_history_update(
                    db@.history,
                    history_id(history_id_),
                    history_in_state("failed"@),
                );
                lemma_updated_distinct(
                    db@.tags,
                    tag_of(series_id, episode_number),
                    in_state("failed"@, now@),
                );
            }
            let again = |h: &HistoryRow| -> (b: bool)
                ensures b == history_id(history_id_)(h@)
                { h.id == history_id_ };
            let make = |h: HistoryRow| -> (o: HistoryRow)
                ensures o@ == history_in_state("failed"@)(h@)
                { HistoryRow { state: own("failed"), ..h } };
            let _n: usize = update_where(
                &mut db.history,
                again,
                make,
                Ghost(history_id(history_id_)),
                Ghost(history_in_state("failed"@)),
            );
            let by_key = |t: &TagRow| -> (b: bool)
                ensures b == tag_of(series_id, episode_number)(t@)
                { t.series_id == series_id && t.episode_number == episode_number };
            let tag = |t: TagRow| -> (o: TagRow)
                ensures o@ == in_state("failed"@, now@)(t@)
                { TagRow { state: own("failed"), updated_at: own(now), ..t } };
            let _m: usize = update_where(
                &mut db.tags,
                by_key,
                tag,
                Ghost(tag_of(series_id, episode_number)),
                Ghost(in_state("failed"@, now@)),
            );
            Ok((series_id, episode_number, release_title))
        },
        None => Err(StoreError::NotFound),
    }
}

/// Whether the tag waits for the user and its series is in the library.
pub open spec fn wants_review(series: Seq<SeriesRowView>) -> spec_fn(TagRowView) -> bool {
    |t: TagRowView| t.needs_review && !t.manual_override && known(series, t.series_id)
}

/// The English title of the tag's series.
pub open spec fn english_title(series: Seq<SeriesRowView>, t: TagRowView) -> Seq<char> {
    match first_where(series, has_id(t.series_id)) {
        Some(s) => s.title_english,
        None => Seq::empty(),
    }
}

/// The order of the review list: by English title, then by episode.
pub open spec fn review_order(series: Seq<SeriesRowView>) -> spec_fn(
    TagRowView,
    TagRowView,
) -> bool {
    |a: TagRowView, b: TagRowView|
        {
            let x = english_title(series, a);
            let y = english_title(series, b);
            if x == y {
                a.episode_number <= b.episode_number
            } else {
                text_le(x, y)
            }
        }
}

/// An entry of the review list.
pub open spec fn review_entry(series: Seq<SeriesRowView>) -> spec_fn(
    TagRowView,
) -> NeedsReviewEntryView {
    |t: TagRowView|
        {
            let s = first_where(series, has_id(t.series_id));
            NeedsReviewEntryView {
                series_id: t.series_id,
                series_anilist_id: match s {
                    Some(s) => s.anilist_id,
                    None => 0,
                },
                series_title: match s {
                    Some(s) => first_of(s.title_english, s.title_romaji, s.title, s.title),
                    None => Seq::empty(),
                },
                cover_url: match s {
                    Some(s) => s.cover_url,
                    None => Seq::empty(),
                },
                episode_number: t.episode_number,
                quality_tag: t.quality_tag,
                release_title: t.release_title,
                release_group: t.release_group,
                source: t.source,
                resolution: t.resolution,
                classification_confidence: t.classification_confidence,
                classification_evidence: t.classification_evidence,
            }
        }
}

fn title_of(series: &Vec<SeriesRow>, t: &TagRow) -> (r: String)
    ensures
        r@ == english_title(views(series@), t@),
{
    match find(series, t.series_id) {
        Some(s) => s.title_english.clone(),
        None => String::new(),
    }
}

fn make_entry(series: &Vec<SeriesRow>, t: &TagRow) -> (o: NeedsReviewEntry)
    ensures
        o@ == review_entry(views(series@))(t@),
{
    let (series_anilist_id, series_title, cover_url): (i64, String, String) = match find(
        series,
        t.series_id,
    ) {
        Some(s) => (
            s.anilist_id,
            if !s.title_english.as_str().is_empty() {
                s.title_english.clone()
            } else if !s.title_romaji.as_str().is_empty() {
                s.title_romaji.clone()
            } else {
                s.title.clone()
            },
            s.cover_url.clone(),
        ),
        None => (0, String::new(), String::new()),
    };
    NeedsReviewEntry {
        series_id: t.series_id,
        series_anilist_id,
        series_title,
        cover_url,
        episode_number: t.episode_number,
        quality_tag: t.quality_tag.clone(),
        release_title: t.release_title.clone(),
        release_group: t.release_group.clone(),
        source: t.source.clone(),
        resolution: t.resolution.clone(),
        classification_confidence: t.classification_confidence,
        classification_evidence: t.classification_evidence.clone(),
    }
}

/// The episodes whose classification waits for the user, by the English title
/// of the series and the episode. What the user set is not among them.
pub fn get_needs_review(db: &TagStore, series: &Vec<SeriesRow>) -> (out: Vec<NeedsReviewEntry>)
    ensures
        views(out@) == ordered(
            db@.tags.filter(wants_review(views(series@))),
            review_order(views(series@)),
        ).map_values(review_entry(views(series@))),
{
    let ghost wanted = wants_review(views(series@));
    let ghost order = review_order(views(series@));
    let ghost entry = review_entry(views(series@));
    let test = |t: &TagRow| -> (b: bool)
        ensures b == wanted(t@)
        { t.needs_review && !t.manual_override && is_known(series, t.series_id) };
    let rows = select(&db.tags, test, Ghost(wanted));
    let before = |a: &TagRow, b: &TagRow| -> (r: bool)
        ensures r == order(a@, b@)
        {
            let x = title_of(series, a);
            let y = title_of(series, b);
            if same(&x, &y) {
                a.episode_number <= b.episode_number
            } else {
                at_most(&x, &y)
            }
        };
    let sorted = order_by(rows, before, Ghost(order));
    let make = |t: &TagRow| -> (o: NeedsReviewEntry)
        ensures o@ == entry(t@)
        { make_entry(series, t) };
    project(&sorted, make, Ghost(entry), Ghost(|t: TagRowView| true))
}

pub open spec fn tag_of_series(series_id: i64) -> spec_fn(TagRowView) -> bool {
    |t: TagRowView| t.series_id == series_id
}

pub open spec fn history_of_series(series_id: i64) -> spec_fn(HistoryRowView) -> bool {
    |h: HistoryRowView| h.series_id == series_id
}

/// Forgets the tags and the history of a series that leaves the library.
pub fn forget_series(db: &mut TagStore, series_id: i64)
    requires
        old(db)@.wf(),
    ensures
        final(db)@ == (TagStoreView {
            tags: without(old(db)@.tags, tag_of_series(series_id)),
            history: without(old(db)@.history, history_of_series(series_id)),
            ..old(db)@
        }),
        final(db)@.wf(),
        forall|r: TagRowView| #[trigger]
            final(db)@.tags.contains(r) <==> old(db)@.tags.contains(r) && !(r.series_id == series_id),
        forall|r: HistoryRowView| #[trigger]
            final(db)@.history.contains(r) <==> old(db)@.history.contains(r) && !(r.series_id == series_id),
{
    proof {
        crate::table::lemma_without_contains(db@.tags, tag_of_series(series_id));
        crate::table::lemma_without_contains(db@.history, history_of_series(series_id));
    }
    let ghost tags = tag_of_series(series_id);
    let ghost history = history_of_series(series_id);
    let ghost before = db@;
    proof {
        crate::table::lemma_without_distinct(before.tags, tags, tag_key());
        crate::table::lemma_without_distinct(before.history, history, history_key());
        crate::table::lemma_without_members(before.history, history);
    }
    let tag_test = |t: &TagRow| -> (b: bool)
        ensures b == tags(t@)
        { t.series_id == series_id };
    let history_test = |h: &HistoryRow| -> (b: bool)
        ensures b == history(h@)
        { h.series_id == series_id };
    let _n: usize = delete_where(&mut db.tags, tag_test, Ghost(tags));
    let _m: usize = delete_where(&mut db.history, history_test, Ghost(history));
    proof {
        assert forall|i: int| 0 <= i < db@.history.len() implies (#[trigger] db@.history[i]).id
            <= db@.last_id by {
            assert(before.history.contains(db@.history[i]));
        }
    }
}

impl TagStore {
    /// A store without tags.
    pub fn new() -> (db: TagStore)
        ensures
            db@.tags == Seq::<TagRowView>::empty(),
            db@.history == Seq::<HistoryRowView>::empty(),
            db@.last_id == 0,
            db@.wf(),
    {
        let db = TagStore { tags: Vec::new(), history: Vec::new(), last_id: 0 };
        assert(db@.tags =~= Seq::<TagRowView>::empty());
        assert(db@.history =~= Seq::<HistoryRowView>::empty());
        db
    }

    /// Whether the store is as the rules leave it.
    pub fn check(&self) -> (r: bool)
        ensures
            r == self@.wf(),
    {
        let ghost keys = |a: TagRowView, b: TagRowView| tag_key()(a) != tag_key()(b);
        let other_key = |a: &TagRow, b: &TagRow| -> (r: bool)
            ensures r == keys(a@, b@)
            { a.series_id != b.series_id || a.episode_number != b.episode_number };
        let ghost ids = |a: HistoryRowView, b: HistoryRowView| a.id != b.id;
        let other_id = |a: &HistoryRow, b: &HistoryRow| -> (r: bool)
            ensures r == ids(a@, b@)
            { a.id != b.id };
        let last: i64 = self.last_id;
        let ghost below = |h: HistoryRowView| h.id <= last;
        let small = |h: &HistoryRow| -> (b: bool)
            ensures b == below(h@)
            { h.id <= last };
        let a: bool = every_pair(&self.tags, other_key, Ghost(keys));
        let b: bool = every_pair(&self.history, other_id, Ghost(ids));
        let c: bool = every(&self.history, small, Ghost(below));
        proof {
            assert(a == distinct(self@.tags, tag_key()));
            assert(b == distinct(self@.history, history_key()));
            assert(c == forall|i: int|
                0 <= i < self@.history.len() ==> (#[trigger] self@.history[i]).id
                    <= self@.last_id) by {
                if c {
                    assert forall|i: int| 0 <= i < self@.history.len() implies (
                    #[trigger] self@.history[i]).id <= self@.last_id by {
                        assert(below(views(self.history@)[i]));
                    }
                }
            }
        }
        a && b && c
    }
}

/// What the user set stays through grabs and new classifications.
pub proof fn a_pinned_tag_stays(
    db: TagStoreView,
    series: Seq<SeriesRowView>,
    series_id: i64,
    episode: i32,
    c: ClassificationResultView,
    release_title: Seq<char>,
    release_group: Seq<char>,
    size_bytes: i64,
    is_batch: bool,
    now: Seq<char>,
)
    requires
        db.wf(),
        first_where(db.tags, tag_of(series_id, episode)) matches Some(t) && t.manual_override,
    ensures
        db.record_grab(
            series,
            series_id,
            episode,
            c,
            release_title,
            release_group,
            size_bytes,
            is_batch,
            now,
        ).0.tags == db.tags,
        updated(db.tags, free_tag_of(series_id, episode), reclassified(c, now)) == db.tags,
{
    crate::table::lemma_first_where_any(db.tags, tag_of(series_id, episode));
    let t = first_where(db.tags, tag_of(series_id, episode))->0;
    let k = choose|k: int| 0 <= k < db.tags.len() && db.tags[k] == t;
    assert forall|i: int| 0 <= i < db.tags.len() implies !free_tag_of(series_id, episode)(
        #[trigger] db.tags[i],
    ) by {
        if i != k && tag_of(series_id, episode)(db.tags[i]) {
            if i < k {
                assert(tag_key()(db.tags[i]) != tag_key()(db.tags[k]));
            } else {
                assert(tag_key()(db.tags[k]) != tag_key()(db.tags[i]));
            }
        }
    }
    assert(updated(db.tags, free_tag_of(series_id, episode), reclassified(c, now)) =~= db.tags);
    assert(updated(
        db.tags,
        free_tag_of(series_id, episode),
        regrabbed(c, release_title, release_group, now),
    ) =~= db.tags);
}

/// An episode that the user classified has that classification and needs no
/// review.
pub proof fn an_override_is_what_the_user_said(
    db: TagStoreView,
    series: Seq<SeriesRowView>,
    series_id: i64,
    episode: i32,
    source: Seq<char>,
    verdict: ClassificationResultView,
    now: Seq<char>,
)
    requires
        db.wf(),
        source.len() > 0,
        known(series, series_id),
        !verdict.needs_review,
    ensures
        ({
            let (after, r) = db.set_manual_override(
                series,
                series_id,
                episode,
                source,
                verdict,
                now,
            );
            &&& r is Ok
            &&& first_where(after.tags, tag_of(series_id, episode)) matches Some(t)
            &&& t.manual_override
            &&& !t.needs_review
            &&& t.source == verdict.source.name()
            &&& t.resolution == verdict.resolution.name()
            &&& t.web_kind == verdict.web_kind.name()
            &&& t.quality_tag == verdict.label()
        }),
{
    let here = tag_of(series_id, episode);
    let after = db.set_manual_override(series, series_id, episode, source, verdict, now).0;
    crate::table::lemma_first_where_any(db.tags, here);
    crate::table::lemma_first_where_any(after.tags, here);
    if first_where(db.tags, here) is Some {
        let t = first_where(db.tags, here)->0;
        let k = choose|k: int| 0 <= k < db.tags.len() && db.tags[k] == t;
        assert(here(after.tags[k]));
        let u = first_where(after.tags, here)->0;
        let j = choose|j: int| 0 <= j < after.tags.len() && after.tags[j] == u;
        assert(here(db.tags[j]));
    } else {
        assert(here(after.tags[db.tags.len() as int]));
        let u = first_where(after.tags, here)->0;
        let j = choose|j: int| 0 <= j < after.tags.len() && after.tags[j] == u;
        if j < db.tags.len() {
            assert(!here(db.tags[j]));
        }
    }
}

/// However the user writes source, resolution and web kind, a name that is
/// stored is read as what it was stored for, and storing what is read from it
/// gives the same name.
pub proof fn an_override_is_stored_under_its_names(
    db: TagStoreView,
    series: Seq<SeriesRowView>,
    series_id: i64,
    episode: i32,
    source: Seq<char>,
    resolution: Seq<char>,
    is_remux: bool,
    is_bdmv: bool,
    web_kind: Seq<char>,
    now: Seq<char>,
)
    requires
        db.wf(),
        source.len() > 0,
        known(series, series_id),
    ensures
        ({
            let verdict = user_verdict(source, resolution, is_remux, is_bdmv, web_kind);
            let after = db.set_manual_override(series, series_id, episode, source, verdict, now).0;
            &&& first_where(after.tags, tag_of(series_id, episode)) matches Some(t)
            &&& source_named(lowered(t.source)) == source_named(lowered(source))
            &&& t.source == source_named(lowered(t.source)).name()
            &&& resolution_named(lowered(t.resolution)) == resolution_named(lowered(resolution))
            &&& t.resolution == resolution_named(lowered(t.resolution)).name()
            &&& web_kind_named(lowered(t.web_kind)) == web_kind_named(lowered(web_kind))
            &&& t.web_kind == web_kind_named(lowered(t.web_kind)).name()
        }),
{
    let verdict = user_verdict(source, resolution, is_remux, is_bdmv, web_kind);
    an_override_is_what_the_user_said(db, series, series_id, episode, source, verdict, now);
    a_source_is_read_from_its_name(verdict.source);
    a_resolution_is_read_from_its_name(verdict.resolution);
    a_web_kind_is_read_from_its_name(verdict.web_kind);
}

/// The classifier's verdict, too, is stored under its names.
pub proof fn a_classification_is_stored_under_its_names(
    t: TagRowView,
    c: ClassificationResultView,
    now: Seq<char>,
)
    ensures
        ({
            let stored = classified(t, c, now);
            &&& source_named(lowered(stored.source)) == c.source
            &&& resolution_named(lowered(stored.resolution)) == c.resolution
            &&& web_kind_named(lowered(stored.web_kind)) == c.web_kind
        }),
{
    a_source_is_read_from_its_name(c.source);
    a_resolution_is_read_from_its_name(c.resolution);
    a_web_kind_is_read_from_its_name(c.web_kind);
}

/// Marking episodes as completed leaves the tag of every other episode and of
/// every other series as it was. A tag of the series that was grabbed and
/// whose episode is given is completed, and nothing else of it changes but the
/// time.
pub proof fn completing_touches_only_the_given_episodes(
    tags: Seq<TagRowView>,
    series_id: i64,
    episodes: Seq<i32>,
    now: Seq<char>,
    i: int,
)
    requires
        0 <= i < tags.len(),
    ensures
        ({
            let after = updated(
                tags,
                grabbed_among(series_id, episodes),
                in_state("completed"@, now),
            );
            let t = tags[i];
            let u = after[i];
            &&& after.len() == tags.len()
            &&& u.series_id == t.series_id && u.episode_number == t.episode_number
            &&& !episodes.contains(t.episode_number) ==> u == t
            &&& t.series_id != series_id ==> u == t
            &&& t.state != "grabbed"@ ==> u == t
            &&& t.series_id == series_id && t.state == "grabbed"@ && episodes.contains(
                t.episode_number,
            ) ==> {
                &&& u.state == "completed"@
                &&& u.updated_at == now
                &&& u.quality_tag == t.quality_tag && u.source == t.source && u.resolution
                    == t.resolution && u.web_kind == t.web_kind && u.is_remux == t.is_remux
                    && u.is_bdmv == t.is_bdmv && u.release_title == t.release_title
                    && u.release_group == t.release_group && u.manual_override
                    == t.manual_override && u.needs_review == t.needs_review
            }
        }),
{
}

proof fn lemma_newest_first_total()
    ensures
        crate::table::total_preorder(newest_first()),
{
    assert forall|a: HistoryRowView, b: HistoryRowView| #[trigger]
        newest_first()(a, b) || newest_first()(b, a) by {
        crate::text::text_order_is_a_total_order(a.grabbed_at, b.grabbed_at, b.grabbed_at);
    }
    assert forall|a: HistoryRowView, b: HistoryRowView, c: HistoryRowView| #[trigger]
        newest_first()(a, b) && #[trigger] newest_first()(b, c) implies newest_first()(a, c) by {
        crate::text::text_order_is_a_total_order(c.grabbed_at, b.grabbed_at, a.grabbed_at);
    }
}

/// A recorded grab stands in the history under a new id, grabbed at the given
/// time, with the title as the file's name. Earlier entries stay.
pub proof fn a_recorded_grab_stands_in_the_history(
    db: TagStoreView,
    series: Seq<SeriesRowView>,
    series_id: i64,
    episode: i32,
    c: ClassificationResultView,
    release_title: Seq<char>,
    release_group: Seq<char>,
    size_bytes: i64,
    is_batch: bool,
    now: Seq<char>,
)
    requires
        db.wf(),
        db.last_id < i64::MAX,
    ensures
        ({
            let (after, r) = db.record_grab(
                series,
                series_id,
                episode,
                c,
                release_title,
                release_group,
                size_bytes,
                is_batch,
                now,
            );
            let there = exists|i: int|
                0 <= i < series.len() && (#[trigger] series[i]).id == series_id;
            &&& !there ==> r == Err::<i64, StoreError>(StoreError::MissingParent) && after == db
            &&& there ==> {
                let h = after.history.last();
                &&& r == (if not_a_number(c.confidence) {
                    Err::<i64, StoreError>(StoreError::MissingValue)
                } else {
                    Ok(h.id)
                })
                &&& after.history.len() == db.history.len() + 1
                &&& forall|i: int|
                    0 <= i < db.history.len() ==> #[trigger] after.history[i] == db.history[i]
                        && db.history[i].id < h.id
                &&& h.series_id == series_id
                &&& h.episode_number == episode
                &&& h.quality_tag == c.label()
                &&& h.release_title == release_title
                &&& h.release_group == release_group
                &&& h.file_name == release_title
                &&& h.size_bytes == size_bytes
                &&& h.is_batch == is_batch
                &&& h.state == "grabbed"@
                &&& h.grabbed_at == now
            }
        }),
{
    assert(known(series, series_id) <==> exists|i: int|
        0 <= i < series.len() && (#[trigger] series[i]).id == series_id);
}

/// A recorded grab gives the episode's tag the quality and the release of the
/// grab, unless the user has pinned the tag; the tags of other episodes stay.
pub proof fn a_recorded_grab_is_what_the_tag_says(
    db: TagStoreView,
    series: Seq<SeriesRowView>,
    series_id: i64,
    episode: i32,
    c: ClassificationResultView,
    release_title: Seq<char>,
    release_group: Seq<char>,
    size_bytes: i64,
    is_batch: bool,
    now: Seq<char>,
    other: (i64, i32),
)
    requires
        db.wf(),
        db.record_grab(
            series,
            series_id,
            episode,
            c,
            release_title,
            release_group,
            size_bytes,
            is_batch,
            now,
        ).1 is Ok,
    ensures
        ({
            let after = db.record_grab(
                series,
                series_id,
                episode,
                c,
                release_title,
                release_group,
                size_bytes,
                is_batch,
                now,
            ).0;
            let had = first_where(db.tags, tag_of(series_id, episode));
            &&& first_where(after.tags, tag_of(series_id, episode)) matches Some(t)
            &&& t.series_id == series_id && t.episode_number == episode
            &&& had is Some && (had->0).manual_override ==> t == had->0
            &&& !(had is Some && (had->0).manual_override) ==> {
                &&& t.state == "grabbed"@
                &&& t.release_title == release_title
                &&& t.release_group == release_group
                &&& t.quality_tag == c.label()
                &&& t.source == c.source.name()
                &&& t.resolution == c.resolution.name()
                &&& t.web_kind == c.web_kind.name()
                &&& t.is_remux == c.is_remux
                &&& t.is_bdmv == c.is_bdmv
                &&& t.classification_confidence == c.confidence
                &&& t.needs_review == c.needs_review
                &&& t.classification_evidence == c.evidence
                &&& !t.manual_override
                &&& t.updated_at == now
            }
            &&& other != (series_id, episode) ==> first_where(after.tags, tag_of(other.0, other.1))
                == first_where(db.tags, tag_of(other.0, other.1))
        }),
{
    let here = tag_of(series_id, episode);
    let free = free_tag_of(series_id, episode);
    let there = tag_of(other.0, other.1);
    let change = regrabbed(c, release_title, release_group, now);
    crate::table::lemma_first_where_any(db.tags, here);
    if first_where(db.tags, here) is Some {
        crate::table::lemma_first_where_updated(db.tags, free, change, here);
        crate::table::lemma_first_where_updated(db.tags, free, change, there);
        crate::table::lemma_first_where_any(db.tags, there);
    } else {
        let t = change(bare_tag(series_id, episode, "grabbed"@));
        crate::table::lemma_first_where_push(db.tags, t, here);
        crate::table::lemma_first_where_push(db.tags, t, there);
    }
}

/// What the user says of an episode is what its tag holds, at full confidence
/// and pinned, with the release and the state it had; with no source given the
/// tag is only released. The tags of other episodes stay, and so does the
/// history.
pub proof fn an_override_changes_its_own_tag_alone(
    db: TagStoreView,
    series: Seq<SeriesRowView>,
    series_id: i64,
    episode: i32,
    source: Seq<char>,
    resolution: Seq<char>,
    is_remux: bool,
    is_bdmv: bool,
    web_kind: Seq<char>,
    now: Seq<char>,
    other: (i64, i32),
)
    requires
        db.wf(),
    ensures
        ({
            let verdict = user_verdict(source, resolution, is_remux, is_bdmv, web_kind);
            let (after, r) = db.set_manual_override(
                series,
                series_id,
                episode,
                source,
                verdict,
                now,
            );
            let had = first_where(db.tags, tag_of(series_id, episode));
            let has = first_where(after.tags, tag_of(series_id, episode));
            &&& after.history == db.history
            &&& other != (series_id, episode) ==> first_where(after.tags, tag_of(other.0, other.1))
                == first_where(db.tags, tag_of(other.0, other.1))
            &&& r is Err <==> source.len() > 0 && had is None && !known(series, series_id)
            &&& r matches Err(e) ==> e == StoreError::MissingParent && after == db
            &&& source.len() == 0 && had is None ==> has is None
            &&& source.len() == 0 ==> (had matches Some(h) ==> has == Some(
                TagRowView { manual_override: false, updated_at: now, ..h },
            ))
            &&& source.len() > 0 && r is Ok ==> {
                &&& has matches Some(t)
                &&& t.manual_override
                &&& !t.needs_review
                &&& t.is_remux == is_remux
                &&& t.is_bdmv == is_bdmv
                &&& t.classification_confidence == 0x3f80_0000
                &&& t.classification_evidence.len() == 0
                &&& t.updated_at == now
                &&& t.quality_tag == quality_label(
                    t.source,
                    t.resolution,
                    t.web_kind,
                    is_remux,
                    is_bdmv,
                )
                &&& had matches Some(h) ==> t.state == h.state && t.release_title
                    == h.release_title && t.release_group == h.release_group
                &&& had is None ==> t.state == "completed"@ && t.release_title.len() == 0
                    && t.release_group.len() == 0
            }
        }),
{
    let verdict = user_verdict(source, resolution, is_remux, is_bdmv, web_kind);
    let here = tag_of(series_id, episode);
    let there = tag_of(other.0, other.1);
    crate::table::lemma_first_where_any(db.tags, here);
    crate::table::lemma_first_where_any(db.tags, there);
    crate::table::lemma_first_where_updated(db.tags, here, unpinned(now), here);
    crate::table::lemma_first_where_updated(db.tags, here, unpinned(now), there);
    crate::table::lemma_first_where_updated(db.tags, here, pinned(verdict, now), here);
    crate::table::lemma_first_where_updated(db.tags, here, pinned(verdict, now), there);
    let t = pinned(verdict, now)(bare_tag(series_id, episode, "completed"@));
    crate::table::lemma_first_where_push(db.tags, t, here);
    crate::table::lemma_first_where_push(db.tags, t, there);
}

/// The open grab of an episode is its newest grab that is neither completed
/// nor failed nor removed.
pub proof fn the_open_grab_is_the_newest(db: TagStoreView, series_id: i64, episode: i32)
    ensures
        match db.open_grab(series_id, episode) {
            Some(g) => {
                &&& db.history.contains(g)
                &&& g.series_id == series_id && g.episode_number == episode && g.state
                    == "grabbed"@
                &&& forall|i: int|
                    0 <= i < db.history.len() && (#[trigger] db.history[i]).series_id == series_id
                        && db.history[i].episode_number == episode && db.history[i].state
                        == "grabbed"@ ==> text_le(db.history[i].grabbed_at, g.grabbed_at)
            },
            None => forall|i: int|
                0 <= i < db.history.len() ==> !((#[trigger] db.history[i]).series_id == series_id
                    && db.history[i].episode_number == episode && db.history[i].state
                    == "grabbed"@),
        },
{
    lemma_newest_first_total();
    crate::table::lemma_head_of_list(
        db.history,
        grabbed_history(series_id, episode),
        newest_first(),
    );
}

/// An entry whose file has landed is completed under the file's name. It has
/// the file's size, unless the grab was of a batch; the rest of it stays.
pub proof fn a_landed_grab_has_its_file(
    history: Seq<HistoryRowView>,
    id: i64,
    file_name: Seq<char>,
    size_bytes: i64,
    i: int,
)
    requires
        0 <= i < history.len(),
    ensures
        ({
            let after = updated(history, history_id(id), landed(file_name, size_bytes));
            let h = history[i];
            let l = after[i];
            &&& after.len() == history.len()
            &&& h.id != id ==> l == h
            &&& h.id == id ==> {
                &&& l.state == "completed"@
                &&& l.file_name == file_name
                &&& h.is_batch ==> l.size_bytes == h.size_bytes
                &&& !h.is_batch ==> l.size_bytes == size_bytes
                &&& l.id == h.id && l.series_id == h.series_id && l.episode_number
                    == h.episode_number && l.quality_tag == h.quality_tag && l.release_title
                    == h.release_title && l.release_group == h.release_group && l.is_batch
                    == h.is_batch && l.grabbed_at == h.grabbed_at
            }
        }),
{
}

/// After a removal the given episodes of the series have no tags, and every
/// other tag is there. An entry of such an episode that was grabbed is removed;
/// every other entry is as it was.
pub proof fn a_removal_clears_the_given_episodes(
    db: TagStoreView,
    series_id: i64,
    episodes: Seq<i32>,
)
    ensures
        ({
            let after = db.removed_episodes(series_id, episodes);
            &&& forall|t: TagRowView| #[trigger]
                after.tags.contains(t) <==> db.tags.contains(t) && !(t.series_id == series_id
                    && episodes.contains(t.episode_number))
            &&& after.history.len() == db.history.len()
            &&& forall|i: int|
                0 <= i < db.history.len() ==> #[trigger] after.history[i] == ({
                    let h = db.history[i];
                    if h.series_id == series_id && episodes.contains(h.episode_number) && h.state
                        == "grabbed"@ {
                        HistoryRowView { state: "removed"@, ..h }
                    } else {
                        h
                    }
                })
        }),
    decreases episodes.len(),
{
    if episodes.len() > 0 {
        let e = episodes[0];
        let rest = episodes.drop_first();
        let mid = db.removed_episode(series_id, e);
        crate::table::lemma_without_contains(db.tags, tag_of(series_id, e));
        a_removal_clears_the_given_episodes(mid, series_id, rest);
        reveal_strlit("grabbed");
        reveal_strlit("removed");
        assert("grabbed"@[0] != "removed"@[0]);
        assert forall|x: i32| #[trigger] episodes.contains(x) <==> x == e || rest.contains(x) by {
            if episodes.contains(x) && x != e {
                let k = choose|k: int| 0 <= k < episodes.len() && episodes[k] == x;
                assert(rest[k - 1] == x);
            }
            if rest.contains(x) {
                let k = choose|k: int| 0 <= k < rest.len() && rest[k] == x;
                assert(episodes[k + 1] == x);
            }
        }
    }
}

/// Each entry of an episode stands in its history.
pub proof fn the_history_lists_every_entry(
    db: TagStoreView,
    series_id: i64,
    episode: i32,
    i: int,
)
    requires
        0 <= i < db.history.len(),
        db.history[i].series_id == series_id,
        db.history[i].episode_number == episode,
    ensures
        ({
            let list = ordered(
                db.history.filter(history_of(series_id, episode)),
                newest_first(),
            ).map_values(entry_of());
            exists|k: int| 0 <= k < list.len() && shows(#[trigger] list[k], db.history[i])
        }),
{
    let chosen = history_of(series_id, episode);
    let o = ordered(db.history.filter(chosen), newest_first());
    let list = o.map_values(entry_of());
    lemma_newest_first_total();
    crate::table::lemma_listed(db.history, chosen, newest_first());
    assert(chosen(db.history[i]));
    assert(o.contains(db.history[i]));
    let k = choose|k: int| 0 <= k < o.len() && o[k] == db.history[i];
    assert(shows(list[k], db.history[i]));
}

/// The history of an episode lists its own entries alone, newest first.
pub proof fn the_history_lists_nothing_else(
    db: TagStoreView,
    series_id: i64,
    episode: i32,
    k: int,
)
    requires
        0 <= k < db.history.filter(history_of(series_id, episode)).len(),
    ensures
        ({
            let list = ordered(
                db.history.filter(history_of(series_id, episode)),
                newest_first(),
            ).map_values(entry_of());
            &&& list.len() == db.history.filter(history_of(series_id, episode)).len()
            &&& exists|i: int|
                0 <= i < db.history.len() && (#[trigger] db.history[i]).series_id == series_id
                    && db.history[i].episode_number == episode && shows(list[k], db.history[i])
            &&& forall|j: int|
                0 <= j < k ==> text_le(list[k].grabbed_at, (#[trigger] list[j]).grabbed_at)
        }),
{
    let chosen = history_of(series_id, episode);
    let o = ordered(db.history.filter(chosen), newest_first());
    let list = o.map_values(entry_of());
    lemma_newest_first_total();
    crate::table::lemma_listed(db.history, chosen, newest_first());
    assert(db.history.contains(o[k]) && chosen(o[k]));
    let i = choose|i: int| 0 <= i < db.history.len() && db.history[i] == o[k];
    assert(shows(list[k], db.history[i]));
    assert forall|j: int| 0 <= j < k implies text_le(
        list[k].grabbed_at,
        (#[trigger] list[j]).grabbed_at,
    ) by {
        assert(newest_first()(o[j], o[k]));
    }
}

/// Whether an entry of a list says what a row of the history holds.
pub open spec fn shows(e: GrabHistoryEntryView, h: HistoryRowView) -> bool {
    e.id == h.id && e.quality_tag == h.quality_tag && e.release_title == h.release_title
        && e.release_group == h.release_group && e.file_name == h.file_name && e.size_bytes
        == h.size_bytes && e.is_batch == h.is_batch && e.grabbed_at == h.grabbed_at && e.state
        == h.state
}

proof fn lemma_review_order_total(series: Seq<SeriesRowView>)
    ensures
        crate::table::total_preorder(review_order(series)),
{
    let before = review_order(series);
    assert forall|a: TagRowView, b: TagRowView| #[trigger] before(a, b) || before(b, a) by {
        let x = english_title(series, a);
        let y = english_title(series, b);
        crate::text::text_order_is_a_total_order(x, y, y);
    }
    assert forall|a: TagRowView, b: TagRowView, c: TagRowView| #[trigger]
        before(a, b) && #[trigger] before(b, c) implies before(a, c) by {
        let x = english_title(series, a);
        let y = english_title(series, b);
        let z = english_title(series, c);
        crate::text::text_order_is_a_total_order(x, y, z);
        crate::text::text_order_is_a_total_order(x, y, y);
        crate::text::text_order_is_a_total_order(y, z, x);
    }
}

/// A tag that needs review and that the user has not pinned, of a series that
/// is there, stands in the review list.
pub proof fn the_review_list_holds_what_needs_review(
    db: TagStoreView,
    series: Seq<SeriesRowView>,
    i: int,
)
    requires
        0 <= i < db.tags.len(),
        db.tags[i].needs_review,
        !db.tags[i].manual_override,
        exists|s: int| 0 <= s < series.len() && (#[trigger] series[s]).id == db.tags[i].series_id,
    ensures
        ({
            let list = ordered(
                db.tags.filter(wants_review(series)),
                review_order(series),
            ).map_values(review_entry(series));
            exists|k: int| 0 <= k < list.len() && asks(#[trigger] list[k], db.tags[i])
        }),
{
    let chosen = wants_review(series);
    let o = ordered(db.tags.filter(chosen), review_order(series));
    let list = o.map_values(review_entry(series));
    lemma_review_order_total(series);
    crate::table::lemma_listed(db.tags, chosen, review_order(series));
    assert(chosen(db.tags[i]));
    assert(o.contains(db.tags[i]));
    let k = choose|k: int| 0 <= k < o.len() && o[k] == db.tags[i];
    assert(asks(list[k], db.tags[i]));
}

/// The review list holds nothing else, and each entry names its series by the
/// English title, else the romanised one, else the plain one.
pub proof fn the_review_list_holds_nothing_else(
    db: TagStoreView,
    series: Seq<SeriesRowView>,
    k: int,
)
    requires
        0 <= k < db.tags.filter(wants_review(series)).len(),
    ensures
        ({
            let list = ordered(
                db.tags.filter(wants_review(series)),
                review_order(series),
            ).map_values(review_entry(series));
            &&& list.len() == db.tags.filter(wants_review(series)).len()
            &&& exists|i: int|
                0 <= i < db.tags.len() && (#[trigger] db.tags[i]).needs_review
                    && !db.tags[i].manual_override && asks(list[k], db.tags[i])
            &&& exists|s: int|
                0 <= s < series.len() && (#[trigger] series[s]).id == list[k].series_id
                    && list[k].series_anilist_id == series[s].anilist_id && list[k].cover_url
                    == series[s].cover_url && list[k].series_title == (if series[s].title_english.len()
                    > 0 {
                    series[s].title_english
                } else if series[s].title_romaji.len() > 0 {
                    series[s].title_romaji
                } else {
                    series[s].title
                })
        }),
{
    let chosen = wants_review(series);
    let o = ordered(db.tags.filter(chosen), review_order(series));
    let list = o.map_values(review_entry(series));
    lemma_review_order_total(series);
    crate::table::lemma_listed(db.tags, chosen, review_order(series));
    assert(db.tags.contains(o[k]) && chosen(o[k]));
    let i = choose|i: int| 0 <= i < db.tags.len() && db.tags[i] == o[k];
    assert(asks(list[k], db.tags[i]));
    let m = has_id(o[k].series_id);
    crate::table::lemma_first_where_any(series, m);
    let s = crate::table::lemma_first_index(series, m);
    assert(list[k] == review_entry(series)(o[k]));
    assert(series[s].id == list[k].series_id);
}

/// Whether an entry of the review list says what a tag holds.
pub open spec fn asks(e: NeedsReviewEntryView, t: TagRowView) -> bool {
    e.series_id == t.series_id && e.episode_number == t.episode_number && e.quality_tag
        == t.quality_tag && e.release_title == t.release_title && e.release_group
        == t.release_group && e.source == t.source && e.resolution == t.resolution
        && e.classification_confidence == t.classification_confidence
        && e.classification_evidence == t.classification_evidence
}

} // verus!
