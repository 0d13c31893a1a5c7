//! The wizard that imports an existing library: the start form, the preview
//! with its corrections, and the confirmation.
use crate::json::{dup_texts, texts};
use crate::table::{delete_where, dup_all, first_where, position, project, views, without, Dup};
use crate::text::{
    decimal, dup_optional, optional_text, own, push_decimal, push_natural, same, to_lower_text,
    to_upper_text, trim, trimmed, lowered, uppered,
};
use std::collections::HashMap;
use vstd::prelude::*;

verus! {

/// Which scan the page is for.
#[derive(Debug)]
pub struct PageQuery {
    pub session: String,
}

/// The contents of a [`PageQuery`].
#[verifier::ext_equal]
pub struct PageQueryView {
    pub session: Seq<char>,
}

impl View for PageQuery {
    type V = PageQueryView;

    open spec fn view(&self) -> PageQueryView {
        PageQueryView {
            session: self.session@,
        }
    }
}

impl Dup for PageQuery {
    fn dup(&self) -> (copy: Self) {
        PageQuery {
            session: self.session.clone(),
        }
    }
}

impl Clone for PageQuery {
    fn clone(&self) -> (copy: Self)
        ensures
            copy@ == self@,
    {
        self.dup()
    }
}

/// What the start form sends.
#[derive(Debug)]
pub struct StartForm {
    pub path: String,
    pub mode: String,
    pub follow_symlinks: Option<String>,
    pub include_hidden: Option<String>,
}

/// The contents of a [`StartForm`].
#[verifier::ext_equal]
pub struct StartFormView {
    pub path: Seq<char>,
    pub mode: Seq<char>,
    pub follow_symlinks: Option<Seq<char>>,
    pub include_hidden: Option<Seq<char>>,
}

impl View for StartForm {
    type V = StartFormView;

    open spec fn view(&self) -> StartFormView {
        StartFormView {
            path: self.path@,
            mode: self.mode@,
            follow_symlinks: optional_text(self.follow_symlinks),
            include_hidden: optional_text(self.include_hidden),
        }
    }
}

impl Dup for StartForm {
    fn dup(&self) -> (copy: Self) {
        StartForm {
            path: self.path.clone(),
            mode: self.mode.clone(),
            follow_symlinks: dup_optional(&self.follow_symlinks),
            include_hidden: dup_optional(&self.include_hidden),
        }
    }
}

impl Clone for StartForm {
    fn clone(&self) -> (copy: Self)
        ensures
            copy@ == self@,
    {
        self.dup()
    }
}

/// A correction to one series of the preview.
#[derive(Debug)]
pub struct GroupActionForm {
    /// `skip`, `unskip`, `pick`, `unpick`, `pick_id`, `research`, `toggle_file`,
    /// `select_all` or `select_none`.
    pub action: String,
    pub candidate: Option<usize>,
    pub file: Option<usize>,
    pub query: String,
    /// The provider id to pick: positive for AniList, negative for MAL.
    pub id: Option<i64>,
}

/// The contents of a [`GroupActionForm`].
#[verifier::ext_equal]
pub struct GroupActionFormView {
    pub action: Seq<char>,
    pub candidate: Option<usize>,
    pub file: Option<usize>,
    pub query: Seq<char>,
    pub id: Option<i64>,
}

impl View for GroupActionForm {
    type V = GroupActionFormView;

    open spec fn view(&self) -> GroupActionFormView {
        GroupActionFormView {
            action: self.action@,
            candidate: self.candidate,
            file: self.file,
            query: self.query@,
            id: self.id,
        }
    }
}

impl Dup for GroupActionForm {
    fn dup(&self) -> (copy: Self) {
        GroupActionForm {
            action: self.action.clone(),
            candidate: self.candidate,
            file: self.file,
            query: self.query.clone(),
            id: self.id,
        }
    }
}

impl Clone for GroupActionForm {
    fn clone(&self) -> (copy: Self)
        ensures
            copy@ == self@,
    {
        self.dup()
    }
}

/// What is searched for in the picker.
#[derive(Debug)]
pub struct PickerQuery {
    pub q: String,
}

/// The contents of a [`PickerQuery`].
#[verifier::ext_equal]
pub struct PickerQueryView {
    pub q: Seq<char>,
}

impl View for PickerQuery {
    type V = PickerQueryView;

    open spec fn view(&self) -> PickerQueryView {
        PickerQueryView {
            q: self.q@,
        }
    }
}

impl Dup for PickerQuery {
    fn dup(&self) -> (copy: Self) {
        PickerQuery {
            q: self.q.clone(),
        }
    }
}

impl Clone for PickerQuery {
    fn clone(&self) -> (copy: Self)
        ensures
            copy@ == self@,
    {
        self.dup()
    }
}

/// The start form with what was typed.
#[derive(Debug)]
pub struct StartFormEcho {
    pub path: String,
    pub mode: String,
    pub follow_symlinks: bool,
    pub include_hidden: bool,
}

/// The contents of a [`StartFormEcho`].
#[verifier::ext_equal]
pub struct StartFormEchoView {
    pub path: Seq<char>,
    pub mode: Seq<char>,
    pub follow_symlinks: bool,
    pub include_hidden: bool,
}

impl View for StartFormEcho {
    type V = StartFormEchoView;

    open spec fn view(&self) -> StartFormEchoView {
        StartFormEchoView {
            path: self.path@,
            mode: self.mode@,
            follow_symlinks: self.follow_symlinks,
            include_hidden: self.include_hidden,
        }
    }
}

impl Dup for StartFormEcho {
    fn dup(&self) -> (copy: Self) {
        StartFormEcho {
            path: self.path.clone(),
            mode: self.mode.clone(),
            follow_symlinks: self.follow_symlinks,
            include_hidden: self.include_hidden,
        }
    }
}

impl Clone for StartFormEcho {
    fn clone(&self) -> (copy: Self)
        ensures
            copy@ == self@,
    {
        self.dup()
    }
}

/// How files get into the library.
#[derive(Debug, Clone, Copy, PartialEq, Eq, Structural)]
pub enum ImportMode {
    Hardlink,
    Copy,
    Move,
}

/// A title that a provider offers for a series.
#[derive(Debug)]
pub struct AnimeEntry {
    pub id: i64,
    pub id_mal: Option<i64>,
    /// The title in the language the user prefers.
    pub title: String,
    pub title_romaji: String,
    pub title_english: String,
    pub title_native: String,
    pub cover_url: String,
    pub format: String,
    pub episodes: Option<i32>,
    pub season_year: Option<i32>,
    pub source: String,
}

/// The contents of a [`AnimeEntry`].
#[verifier::ext_equal]
pub struct AnimeEntryView {
    pub id: i64,
    pub id_mal: Option<i64>,
    pub title: Seq<char>,
    pub title_romaji: Seq<char>,
    pub title_english: Seq<char>,
    pub title_native: Seq<char>,
    pub cover_url: Seq<char>,
    pub format: Seq<char>,
    pub episodes: Option<i32>,
    pub season_year: Option<i32>,
    pub source: Seq<char>,
}

impl View for AnimeEntry {
    type V = AnimeEntryView;

    open spec fn view(&self) -> AnimeEntryView {
        AnimeEntryView {
            id: self.id,
            id_mal: self.id_mal,
            title: self.title@,
            title_romaji: self.title_romaji@,
            title_english: self.title_english@,
            title_native: self.title_native@,
            cover_url: self.cover_url@,
            format: self.format@,
            episodes: self.episodes,
            season_year: self.season_year,
            source: self.source@,
        }
    }
}

impl Dup for AnimeEntry {
    fn dup(&self) -> (copy: Self) {
        AnimeEntry {
            id: self.id,
            id_mal: self.id_mal,
            title: self.title.clone(),
            title_romaji: self.title_romaji.clone(),
            title_english: self.title_english.clone(),
            title_native: self.title_native.clone(),
            cover_url: self.cover_url.clone(),
            format: self.format.clone(),
            episodes: self.episodes,
            season_year: self.season_year,
            source: self.source.clone(),
        }
    }
}

impl Clone for AnimeEntry {
    fn clone(&self) -> (copy: Self)
        ensures
            copy@ == self@,
    {
        self.dup()
    }
}

/// A file that was found.
#[derive(Debug)]
pub struct CandidateFile {
    pub rel_path: String,
    pub size_bytes: u64,
    /// Whether the series name was read from the folder.
    pub title_from_folder: bool,
    pub episode_label: String,
    pub quality_label: String,
    pub selected: bool,
}

/// The contents of a [`CandidateFile`].
#[verifier::ext_equal]
pub struct CandidateFileView {
    pub rel_path: Seq<char>,
    pub size_bytes: u64,
    pub title_from_folder: bool,
    pub episode_label: Seq<char>,
    pub quality_label: Seq<char>,
    pub selected: bool,
}

impl View for CandidateFile {
    type V = CandidateFileView;

    open spec fn view(&self) -> CandidateFileView {
        CandidateFileView {
            rel_path: self.rel_path@,
            size_bytes: self.size_bytes,
            title_from_folder: self.title_from_folder,
            episode_label: self.episode_label@,
            quality_label: self.quality_label@,
            selected: self.selected,
        }
    }
}

impl Dup for CandidateFile {
    fn dup(&self) -> (copy: Self) {
        CandidateFile {
            rel_path: self.rel_path.clone(),
            size_bytes: self.size_bytes,
            title_from_folder: self.title_from_folder,
            episode_label: self.episode_label.clone(),
            quality_label: self.quality_label.clone(),
            selected: self.selected,
        }
    }
}

impl Clone for CandidateFile {
    fn clone(&self) -> (copy: Self)
        ensures
            copy@ == self@,
    {
        self.dup()
    }
}

/// The series of the library that a group belongs to.
#[derive(Debug)]
pub struct ExistingSeries {
    pub anilist_id: i64,
    pub title: String,
}

/// The contents of a [`ExistingSeries`].
#[verifier::ext_equal]
pub struct ExistingSeriesView {
    pub anilist_id: i64,
    pub title: Seq<char>,
}

impl View for ExistingSeries {
    type V = ExistingSeriesView;

    open spec fn view(&self) -> ExistingSeriesView {
        ExistingSeriesView {
            anilist_id: self.anilist_id,
            title: self.title@,
        }
    }
}

impl Dup for ExistingSeries {
    fn dup(&self) -> (copy: Self) {
        ExistingSeries {
            anilist_id: self.anilist_id,
            title: self.title.clone(),
        }
    }
}

impl Clone for ExistingSeries {
    fn clone(&self) -> (copy: Self)
        ensures
            copy@ == self@,
    {
        self.dup()
    }
}

/// The files that belong to one series.
#[derive(Debug)]
pub struct SeriesGroup {
    pub parsed_title: String,
    pub season: Option<i32>,
    pub year: Option<i32>,
    pub query: String,
    pub files: Vec<CandidateFile>,
    pub total_bytes: u64,
    pub candidates: Vec<AnimeEntry>,
    /// Which candidate is picked.
    pub pick: Option<usize>,
    pub low_confidence: bool,
    pub search_error: Option<String>,
    pub skipped: bool,
    pub existing: Option<ExistingSeries>,
}

/// The contents of a [`SeriesGroup`].
#[verifier::ext_equal]
pub struct SeriesGroupView {
    pub parsed_title: Seq<char>,
    pub season: Option<i32>,
    pub year: Option<i32>,
    pub query: Seq<char>,
    pub files: Seq<CandidateFileView>,
    pub total_bytes: u64,
    pub candidates: Seq<AnimeEntryView>,
    pub pick: Option<usize>,
    pub low_confidence: bool,
    pub search_error: Option<Seq<char>>,
    pub skipped: bool,
    pub existing: Option<ExistingSeriesView>,
}

impl View for SeriesGroup {
    type V = SeriesGroupView;

    open spec fn view(&self) -> SeriesGroupView {
        SeriesGroupView {
            parsed_title: self.parsed_title@,
            season: self.season,
            year: self.year,
            query: self.query@,
            files: views(self.files@),
            total_bytes: self.total_bytes,
            candidates: views(self.candidates@),
            pick: self.pick,
            low_confidence: self.low_confidence,
            search_error: optional_text(self.search_error),
            skipped: self.skipped,
            existing: match self.existing {
                Some(x) => Some(x@),
                None => None,
            },
        }
    }
}

impl Dup for SeriesGroup {
    fn dup(&self) -> (copy: Self) {
        SeriesGroup {
            parsed_title: self.parsed_title.clone(),
            season: self.season,
            year: self.year,
            query: self.query.clone(),
            files: dup_all(&self.files),
            total_bytes: self.total_bytes,
            candidates: dup_all(&self.candidates),
            pick: self.pick,
            low_confidence: self.low_confidence,
            search_error: dup_optional(&self.search_error),
            skipped: self.skipped,
            existing: match &self.existing {
                Some(x) => Some(x.dup()),
                None => None,
            },
        }
    }
}

impl Clone for SeriesGroup {
    fn clone(&self) -> (copy: Self)
        ensures
            copy@ == self@,
    {
        self.dup()
    }
}

/// What the scan found.
#[derive(Debug)]
pub struct WalkStats {
    pub files: usize,
    pub skipped_non_video: usize,
    pub total_bytes: u64,
}

/// The contents of a [`WalkStats`].
#[verifier::ext_equal]
pub struct WalkStatsView {
    pub files: usize,
    pub skipped_non_video: usize,
    pub total_bytes: u64,
}

impl View for WalkStats {
    type V = WalkStatsView;

    open spec fn view(&self) -> WalkStatsView {
        WalkStatsView {
            files: self.files,
            skipped_non_video: self.skipped_non_video,
            total_bytes: self.total_bytes,
        }
    }
}

impl Dup for WalkStats {
    fn dup(&self) -> (copy: Self) {
        WalkStats {
            files: self.files,
            skipped_non_video: self.skipped_non_video,
            total_bytes: self.total_bytes,
        }
    }
}

impl Clone for WalkStats {
    fn clone(&self) -> (copy: Self)
        ensures
            copy@ == self@,
    {
        self.dup()
    }
}

/// What became of one series.
#[derive(Debug)]
pub struct GroupReport {
    pub parsed_title: String,
    pub series_title: String,
    pub anilist_id: i64,
    pub folder_name: String,
    pub created: bool,
    pub written: usize,
    pub errors: Vec<String>,
}

/// The contents of a [`GroupReport`].
#[verifier::ext_equal]
pub struct GroupReportView {
    pub parsed_title: Seq<char>,
    pub series_title: Seq<char>,
    pub anilist_id: i64,
    pub folder_name: Seq<char>,
    pub created: bool,
    pub written: usize,
    pub errors: Seq<Seq<char>>,
}

impl View for GroupReport {
    type V = GroupReportView;

    open spec fn view(&self) -> GroupReportView {
        GroupReportView {
            parsed_title: self.parsed_title@,
            series_title: self.series_title@,
            anilist_id: self.anilist_id,
            folder_name: self.folder_name@,
            created: self.created,
            written: self.written,
            errors: texts(self.errors@),
        }
    }
}

impl Dup for GroupReport {
    fn dup(&self) -> (copy: Self) {
        GroupReport {
            parsed_title: self.parsed_title.clone(),
            series_title: self.series_title.clone(),
            anilist_id: self.anilist_id,
            folder_name: self.folder_name.clone(),
            created: self.created,
            written: self.written,
            errors: dup_texts(&self.errors),
        }
    }
}

impl Clone for GroupReport {
    fn clone(&self) -> (copy: Self)
        ensures
            copy@ == self@,
    {
        self.dup()
    }
}

/// What became of an import.
#[derive(Debug)]
pub struct ImportReport {
    pub series_created: usize,
    pub files_written: usize,
    pub files_failed: usize,
    pub bytes_written: u64,
    pub groups: Vec<GroupReport>,
}

/// The contents of a [`ImportReport`].
#[verifier::ext_equal]
pub struct ImportReportView {
    pub series_created: usize,
    pub files_written: usize,
    pub files_failed: usize,
    pub bytes_written: u64,
    pub groups: Seq<GroupReportView>,
}

impl View for ImportReport {
    type V = ImportReportView;

    open spec fn view(&self) -> ImportReportView {
        ImportReportView {
            series_created: self.series_created,
            files_written: self.files_written,
            files_failed: self.files_failed,
            bytes_written: self.bytes_written,
            groups: views(self.groups@),
        }
    }
}

impl Dup for ImportReport {
    fn dup(&self) -> (copy: Self) {
        ImportReport {
            series_created: self.series_created,
            files_written: self.files_written,
            files_failed: self.files_failed,
            bytes_written: self.bytes_written,
            groups: dup_all(&self.groups),
        }
    }
}

impl Clone for ImportReport {
    fn clone(&self) -> (copy: Self)
        ensures
            copy@ == self@,
    {
        self.dup()
    }
}

/// Where a scan stands.
#[derive(Debug)]
pub enum SessionStatus {
    Scanning,
    Ready,
    Importing,
    Done(ImportReport),
    Failed(String),
}

/// The contents of a [`SessionStatus`].
#[verifier::ext_equal]
pub enum SessionStatusView {
    Scanning,
    Ready,
    Importing,
    Done(ImportReportView),
    Failed(Seq<char>),
}

impl View for SessionStatus {
    type V = SessionStatusView;

    open spec fn view(&self) -> SessionStatusView {
        match self {
            SessionStatus::Scanning => SessionStatusView::Scanning,
            SessionStatus::Ready => SessionStatusView::Ready,
            SessionStatus::Importing => SessionStatusView::Importing,
            SessionStatus::Done(report) => SessionStatusView::Done(report@),
            SessionStatus::Failed(message) => SessionStatusView::Failed(message@),
        }
    }
}

impl Dup for SessionStatus {
    fn dup(&self) -> (copy: Self) {
        match self {
            SessionStatus::Scanning => SessionStatus::Scanning,
            SessionStatus::Ready => SessionStatus::Ready,
            SessionStatus::Importing => SessionStatus::Importing,
            SessionStatus::Done(report) => SessionStatus::Done(report.dup()),
            SessionStatus::Failed(message) => SessionStatus::Failed(message.clone()),
        }
    }
}

/// A scan with what was found and what the user corrected.
#[derive(Debug)]
pub struct ImportSession {
    pub id: String,
    pub root: String,
    pub mode: ImportMode,
    pub follow_symlinks: bool,
    pub include_hidden: bool,
    pub status: SessionStatus,
    pub groups: Vec<SeriesGroup>,
    pub unmatched_files: Vec<CandidateFile>,
    pub stats: WalkStats,
    /// Whether the files lie on another file system than the library.
    pub cross_fs: Option<bool>,
    /// Whether the running import is to stop.
    pub cancel: bool,
}

/// The contents of a [`ImportSession`].
#[verifier::ext_equal]
pub struct ImportSessionView {
    pub id: Seq<char>,
    pub root: Seq<char>,
    pub mode: ImportMode,
    pub follow_symlinks: bool,
    pub include_hidden: bool,
    pub status: SessionStatusView,
    pub groups: Seq<SeriesGroupView>,
    pub unmatched_files: Seq<CandidateFileView>,
    pub stats: WalkStatsView,
    pub cross_fs: Option<bool>,
    pub cancel: bool,
}

impl View for ImportSession {
    type V = ImportSessionView;

    open spec fn view(&self) -> ImportSessionView {
        ImportSessionView {
            id: self.id@,
            root: self.root@,
            mode: self.mode,
            follow_symlinks: self.follow_symlinks,
            include_hidden: self.include_hidden,
            status: self.status@,
            groups: views(self.groups@),
            unmatched_files: views(self.unmatched_files@),
            stats: self.stats@,
            cross_fs: self.cross_fs,
            cancel: self.cancel,
        }
    }
}

impl Dup for ImportSession {
    fn dup(&self) -> (copy: Self) {
        ImportSession {
            id: self.id.clone(),
            root: self.root.clone(),
            mode: self.mode,
            follow_symlinks: self.follow_symlinks,
            include_hidden: self.include_hidden,
            status: self.status.dup(),
            groups: dup_all(&self.groups),
            unmatched_files: dup_all(&self.unmatched_files),
            stats: self.stats.dup(),
            cross_fs: self.cross_fs,
            cancel: self.cancel,
        }
    }
}

impl Clone for ImportSession {
    fn clone(&self) -> (copy: Self)
        ensures
            copy@ == self@,
    {
        self.dup()
    }
}

/// A file as the preview shows it.
#[derive(Debug)]
pub struct FileView {
    pub rel_path: String,
    pub destination: String,
    pub status: String,
    pub selected: bool,
}

/// The contents of a [`FileView`].
#[verifier::ext_equal]
pub struct FileViewView {
    pub rel_path: Seq<char>,
    pub destination: Seq<char>,
    pub status: Seq<char>,
    pub selected: bool,
}

impl View for FileView {
    type V = FileViewView;

    open spec fn view(&self) -> FileViewView {
        FileViewView {
            rel_path: self.rel_path@,
            destination: self.destination@,
            status: self.status@,
            selected: self.selected,
        }
    }
}

impl Dup for FileView {
    fn dup(&self) -> (copy: Self) {
        FileView {
            rel_path: self.rel_path.clone(),
            destination: self.destination.clone(),
            status: self.status.clone(),
            selected: self.selected,
        }
    }
}

impl Clone for FileView {
    fn clone(&self) -> (copy: Self)
        ensures
            copy@ == self@,
    {
        self.dup()
    }
}

/// How many files of a series are imported, left out and there already.
#[derive(Debug)]
pub struct GroupCounts {
    pub to_import: usize,
    pub excluded: usize,
    pub present: usize,
}

/// The contents of a [`GroupCounts`].
#[verifier::ext_equal]
pub struct GroupCountsView {
    pub to_import: usize,
    pub excluded: usize,
    pub present: usize,
}

impl View for GroupCounts {
    type V = GroupCountsView;

    open spec fn view(&self) -> GroupCountsView {
        GroupCountsView {
            to_import: self.to_import,
            excluded: self.excluded,
            present: self.present,
        }
    }
}

impl Dup for GroupCounts {
    fn dup(&self) -> (copy: Self) {
        GroupCounts {
            to_import: self.to_import,
            excluded: self.excluded,
            present: self.present,
        }
    }
}

impl Clone for GroupCounts {
    fn clone(&self) -> (copy: Self)
        ensures
            copy@ == self@,
    {
        self.dup()
    }
}

/// What an import would do with a series.
#[derive(Debug)]
pub struct GroupView {
    pub kind: String,
    pub kind_label: String,
    pub files: Vec<FileView>,
    pub counts: GroupCounts,
}

/// The contents of a [`GroupView`].
#[verifier::ext_equal]
pub struct GroupViewView {
    pub kind: Seq<char>,
    pub kind_label: Seq<char>,
    pub files: Seq<FileViewView>,
    pub counts: GroupCountsView,
}

impl View for GroupView {
    type V = GroupViewView;

    open spec fn view(&self) -> GroupViewView {
        GroupViewView {
            kind: self.kind@,
            kind_label: self.kind_label@,
            files: views(self.files@),
            counts: self.counts@,
        }
    }
}

impl Dup for GroupView {
    fn dup(&self) -> (copy: Self) {
        GroupView {
            kind: self.kind.clone(),
            kind_label: self.kind_label.clone(),
            files: dup_all(&self.files),
            counts: self.counts.dup(),
        }
    }
}

impl Clone for GroupView {
    fn clone(&self) -> (copy: Self)
        ensures
            copy@ == self@,
    {
        self.dup()
    }
}

/// What an import would do in all.
#[derive(Debug)]
pub struct SessionSummary {
    pub new_series: usize,
    pub merged_series: usize,
    pub skipped: usize,
    pub files_to_write: usize,
    pub write_bytes: u64,
}

/// The contents of a [`SessionSummary`].
#[verifier::ext_equal]
pub struct SessionSummaryView {
    pub new_series: usize,
    pub merged_series: usize,
    pub skipped: usize,
    pub files_to_write: usize,
    pub write_bytes: u64,
}

impl View for SessionSummary {
    type V = SessionSummaryView;

    open spec fn view(&self) -> SessionSummaryView {
        SessionSummaryView {
            new_series: self.new_series,
            merged_series: self.merged_series,
            skipped: self.skipped,
            files_to_write: self.files_to_write,
            write_bytes: self.write_bytes,
        }
    }
}

impl Dup for SessionSummary {
    fn dup(&self) -> (copy: Self) {
        SessionSummary {
            new_series: self.new_series,
            merged_series: self.merged_series,
            skipped: self.skipped,
            files_to_write: self.files_to_write,
            write_bytes: self.write_bytes,
        }
    }
}

impl Clone for SessionSummary {
    fn clone(&self) -> (copy: Self)
        ensures
            copy@ == self@,
    {
        self.dup()
    }
}

/// A candidate as the picker shows it.
#[derive(Debug)]
pub struct CandidateView {
    pub index: usize,
    pub id: i64,
    pub title: String,
    pub subtitle: String,
    pub cover_url: String,
    pub format: String,
    pub year: String,
    pub episodes: String,
    pub external_href: String,
    /// `AniList` or `MAL`.
    pub source_label: String,
    pub is_current: bool,
}

/// The contents of a [`CandidateView`].
#[verifier::ext_equal]
pub struct CandidateViewView {
    pub index: usize,
    pub id: i64,
    pub title: Seq<char>,
    pub subtitle: Seq<char>,
    pub cover_url: Seq<char>,
    pub format: Seq<char>,
    pub year: Seq<char>,
    pub episodes: Seq<char>,
    pub external_href: Seq<char>,
    pub source_label: Seq<char>,
    pub is_current: bool,
}

impl View for CandidateView {
    type V = CandidateViewView;

    open spec fn view(&self) -> CandidateViewView {
        CandidateViewView {
            index: self.index,
            id: self.id,
            title: self.title@,
            subtitle: self.subtitle@,
            cover_url: self.cover_url@,
            format: self.format@,
            year: self.year@,
            episodes: self.episodes@,
            external_href: self.external_href@,
            source_label: self.source_label@,
            is_current: self.is_current,
        }
    }
}

impl Dup for CandidateView {
    fn dup(&self) -> (copy: Self) {
        CandidateView {
            index: self.index,
            id: self.id,
            title: self.title.clone(),
            subtitle: self.subtitle.clone(),
            cover_url: self.cover_url.clone(),
            format: self.format.clone(),
            year: self.year.clone(),
            episodes: self.episodes.clone(),
            external_href: self.external_href.clone(),
            source_label: self.source_label.clone(),
            is_current: self.is_current,
        }
    }
}

impl Clone for CandidateView {
    fn clone(&self) -> (copy: Self)
        ensures
            copy@ == self@,
    {
        self.dup()
    }
}

/// The picker's list.
#[derive(Debug)]
pub struct PickerCtx {
    pub idx: usize,
    pub query: String,
    pub picker_rows: Vec<CandidateView>,
    pub picker_error: String,
}

/// The contents of a [`PickerCtx`].
#[verifier::ext_equal]
pub struct PickerCtxView {
    pub idx: usize,
    pub query: Seq<char>,
    pub picker_rows: Seq<CandidateViewView>,
    pub picker_error: Seq<char>,
}

impl View for PickerCtx {
    type V = PickerCtxView;

    open spec fn view(&self) -> PickerCtxView {
        PickerCtxView {
            idx: self.idx,
            query: self.query@,
            picker_rows: views(self.picker_rows@),
            picker_error: self.picker_error@,
        }
    }
}

impl Dup for PickerCtx {
    fn dup(&self) -> (copy: Self) {
        PickerCtx {
            idx: self.idx,
            query: self.query.clone(),
            picker_rows: dup_all(&self.picker_rows),
            picker_error: self.picker_error.clone(),
        }
    }
}

impl Clone for PickerCtx {
    fn clone(&self) -> (copy: Self)
        ensures
            copy@ == self@,
    {
        self.dup()
    }
}

/// A series of the preview.
#[derive(Debug)]
pub struct GroupCard {
    pub idx: usize,
    pub parsed_title: String,
    pub season_label: String,
    pub year_label: String,
    pub title_from_folder: bool,
    pub query: String,
    pub file_count: usize,
    pub size_bytes: u64,
    pub kind: String,
    pub kind_label: String,
    pub pick: Option<CandidateView>,
    pub picker_rows: Vec<CandidateView>,
    pub picker_error: String,
    pub low_confidence: bool,
    pub search_error: String,
    pub skipped: bool,
    pub existing_title: String,
    pub existing_anilist_id: i64,
    pub files: Vec<FileView>,
    pub counts: GroupCounts,
    /// The other series of the preview that has the same pick.
    pub duplicate_of: String,
    pub action_error: String,
}

/// The contents of a [`GroupCard`].
#[verifier::ext_equal]
pub struct GroupCardView {
    pub idx: usize,
    pub parsed_title: Seq<char>,
    pub season_label: Seq<char>,
    pub year_label: Seq<char>,
    pub title_from_folder: bool,
    pub query: Seq<char>,
    pub file_count: usize,
    pub size_bytes: u64,
    pub kind: Seq<char>,
    pub kind_label: Seq<char>,
    pub pick: Option<CandidateViewView>,
    pub picker_rows: Seq<CandidateViewView>,
    pub picker_error: Seq<char>,
    pub low_confidence: bool,
    pub search_error: Seq<char>,
    pub skipped: bool,
    pub existing_title: Seq<char>,
    pub existing_anilist_id: i64,
    pub files: Seq<FileViewView>,
    pub counts: GroupCountsView,
    pub duplicate_of: Seq<char>,
    pub action_error: Seq<char>,
}

impl View for GroupCard {
    type V = GroupCardView;

    open spec fn view(&self) -> GroupCardView {
        GroupCardView {
            idx: self.idx,
            parsed_title: self.parsed_title@,
            season_label: self.season_label@,
            year_label: self.year_label@,
            title_from_folder: self.title_from_folder,
            query: self.query@,
            file_count: self.file_count,
            size_bytes: self.size_bytes,
            kind: self.kind@,
            kind_label: self.kind_label@,
            pick: match self.pick {
                Some(x) => Some(x@),
                None => None,
            },
            picker_rows: views(self.picker_rows@),
            picker_error: self.picker_error@,
            low_confidence: self.low_confidence,
            search_error: self.search_error@,
            skipped: self.skipped,
            existing_title: self.existing_title@,
            existing_anilist_id: self.existing_anilist_id,
            files: views(self.files@),
            counts: self.counts@,
            duplicate_of: self.duplicate_of@,
            action_error: self.action_error@,
        }
    }
}

impl Dup for GroupCard {
    fn dup(&self) -> (copy: Self) {
        GroupCard {
            idx: self.idx,
            parsed_title: self.parsed_title.clone(),
            season_label: self.season_label.clone(),
            year_label: self.year_label.clone(),
            title_from_folder: self.title_from_folder,
            query: self.query.clone(),
            file_count: self.file_count,
            size_bytes: self.size_bytes,
            kind: self.kind.clone(),
            kind_label: self.kind_label.clone(),
            pick: match &self.pick {
                Some(x) => Some(x.dup()),
                None => None,
            },
            picker_rows: dup_all(&self.picker_rows),
            picker_error: self.picker_error.clone(),
            low_confidence: self.low_confidence,
            search_error: self.search_error.clone(),
            skipped: self.skipped,
            existing_title: self.existing_title.clone(),
            existing_anilist_id: self.existing_anilist_id,
            files: dup_all(&self.files),
            counts: self.counts.dup(),
            duplicate_of: self.duplicate_of.clone(),
            action_error: self.action_error.clone(),
        }
    }
}

impl Clone for GroupCard {
    fn clone(&self) -> (copy: Self)
        ensures
            copy@ == self@,
    {
        self.dup()
    }
}

/// A scan in the list of recent ones.
#[derive(Debug)]
pub struct RecentView {
    pub id: String,
    pub root: String,
    pub status: String,
}

/// The contents of a [`RecentView`].
#[verifier::ext_equal]
pub struct RecentViewView {
    pub id: Seq<char>,
    pub root: Seq<char>,
    pub status: Seq<char>,
}

impl View for RecentView {
    type V = RecentViewView;

    open spec fn view(&self) -> RecentViewView {
        RecentViewView {
            id: self.id@,
            root: self.root@,
            status: self.status@,
        }
    }
}

impl Dup for RecentView {
    fn dup(&self) -> (copy: Self) {
        RecentView {
            id: self.id.clone(),
            root: self.root.clone(),
            status: self.status.clone(),
        }
    }
}

impl Clone for RecentView {
    fn clone(&self) -> (copy: Self)
        ensures
            copy@ == self@,
    {
        self.dup()
    }
}

/// A file without a hint of its series.
#[derive(Debug)]
pub struct UnmatchedView {
    pub rel_path: String,
    pub episode_label: String,
    pub quality_label: String,
    pub size_bytes: u64,
}

/// The contents of a [`UnmatchedView`].
#[verifier::ext_equal]
pub struct UnmatchedViewView {
    pub rel_path: Seq<char>,
    pub episode_label: Seq<char>,
    pub quality_label: Seq<char>,
    pub size_bytes: u64,
}

impl View for UnmatchedView {
    type V = UnmatchedViewView;

    open spec fn view(&self) -> UnmatchedViewView {
        UnmatchedViewView {
            rel_path: self.rel_path@,
            episode_label: self.episode_label@,
            quality_label: self.quality_label@,
            size_bytes: self.size_bytes,
        }
    }
}

impl Dup for UnmatchedView {
    fn dup(&self) -> (copy: Self) {
        UnmatchedView {
            rel_path: self.rel_path.clone(),
            episode_label: self.episode_label.clone(),
            quality_label: self.quality_label.clone(),
            size_bytes: self.size_bytes,
        }
    }
}

impl Clone for UnmatchedView {
    fn clone(&self) -> (copy: Self)
        ensures
            copy@ == self@,
    {
        self.dup()
    }
}

/// The settings that the page shows.
#[derive(Debug)]
pub struct RenderContext {
    pub media_root: String,
    pub title_pref: String,
}

/// The contents of a [`RenderContext`].
#[verifier::ext_equal]
pub struct RenderContextView {
    pub media_root: Seq<char>,
    pub title_pref: Seq<char>,
}

impl View for RenderContext {
    type V = RenderContextView;

    open spec fn view(&self) -> RenderContextView {
        RenderContextView {
            media_root: self.media_root@,
            title_pref: self.title_pref@,
        }
    }
}

impl Dup for RenderContext {
    fn dup(&self) -> (copy: Self) {
        RenderContext {
            media_root: self.media_root.clone(),
            title_pref: self.title_pref.clone(),
        }
    }
}

impl Clone for RenderContext {
    fn clone(&self) -> (copy: Self)
        ensures
            copy@ == self@,
    {
        self.dup()
    }
}

/// The page of the wizard.
#[derive(Debug)]
pub struct ImportPage {
    pub page: String,
    pub tab: String,
    pub title_language: String,
    pub media_root: String,
    /// `start`, `scanning`, `ready`, `importing`, `done` or `failed`.
    pub step: String,
    pub error: String,
    pub notice: String,
    pub progress_id: String,
    pub report: ImportReport,
    pub form: StartFormEcho,
    pub session_id: String,
    pub root: String,
    pub mode: ImportMode,
    pub follow_symlinks: bool,
    pub include_hidden: bool,
    pub stats: WalkStats,
    pub summary: SessionSummary,
    /// Hard links across file systems: the import would copy.
    pub cross_fs_warning: bool,
    pub failed_message: String,
    pub groups: Vec<GroupCard>,
    pub unmatched: Vec<UnmatchedView>,
    pub recent: Vec<RecentView>,
    pub oob: bool,
}

/// The contents of a [`ImportPage`].
#[verifier::ext_equal]
pub struct ImportPageView {
    pub page: Seq<char>,
    pub tab: Seq<char>,
    pub title_language: Seq<char>,
    pub media_root: Seq<char>,
    pub step: Seq<char>,
    pub error: Seq<char>,
    pub notice: Seq<char>,
    pub progress_id: Seq<char>,
    pub report: ImportReportView,
    pub form: StartFormEchoView,
    pub session_id: Seq<char>,
    pub root: Seq<char>,
    pub mode: ImportMode,
    pub follow_symlinks: bool,
    pub include_hidden: bool,
    pub stats: WalkStatsView,
    pub summary: SessionSummaryView,
    pub cross_fs_warning: bool,
    pub failed_message: Seq<char>,
    pub groups: Seq<GroupCardView>,
    pub unmatched: Seq<UnmatchedViewView>,
    pub recent: Seq<RecentViewView>,
    pub oob: bool,
}

impl View for ImportPage {
    type V = ImportPageView;

    open spec fn view(&self) -> ImportPageView {
        ImportPageView {
            page: self.page@,
            tab: self.tab@,
            title_language: self.title_language@,
            media_root: self.media_root@,
            step: self.step@,
            error: self.error@,
            notice: self.notice@,
            progress_id: self.progress_id@,
            report: self.report@,
            form: self.form@,
            session_id: self.session_id@,
            root: self.root@,
            mode: self.mode,
            follow_symlinks: self.follow_symlinks,
            include_hidden: self.include_hidden,
            stats: self.stats@,
            summary: self.summary@,
            cross_fs_warning: self.cross_fs_warning,
            failed_message: self.failed_message@,
            groups: views(self.groups@),
            unmatched: views(self.unmatched@),
            recent: views(self.recent@),
            oob: self.oob,
        }
    }
}

impl Dup for ImportPage {
    fn dup(&self) -> (copy: Self) {
        ImportPage {
            page: self.page.clone(),
            tab: self.tab.clone(),
            title_language: self.title_language.clone(),
            media_root: self.media_root.clone(),
            step: self.step.clone(),
            error: self.error.clone(),
            notice: self.notice.clone(),
            progress_id: self.progress_id.clone(),
            report: self.report.dup(),
            form: self.form.dup(),
            session_id: self.session_id.clone(),
            root: self.root.clone(),
            mode: self.mode,
            follow_symlinks: self.follow_symlinks,
            include_hidden: self.include_hidden,
            stats: self.stats.dup(),
            summary: self.summary.dup(),
            cross_fs_warning: self.cross_fs_warning,
            failed_message: self.failed_message.clone(),
            groups: dup_all(&self.groups),
            unmatched: dup_all(&self.unmatched),
            recent: dup_all(&self.recent),
            oob: self.oob,
        }
    }
}

impl Clone for ImportPage {
    fn clone(&self) -> (copy: Self)
        ensures
            copy@ == self@,
    {
        self.dup()
    }
}

pub open spec fn status_text(status: SessionStatusView) -> Seq<char> {
    match status {
        SessionStatusView::Scanning => "Scanning"@,
        SessionStatusView::Ready => "Ready to review"@,
        SessionStatusView::Importing => "Importing"@,
        SessionStatusView::Done(_) => "Imported"@,
        SessionStatusView::Failed(_) => "Failed"@,
    }
}

/// Where a scan stands, in words.
pub fn recent_status(status: &SessionStatus) -> (r: &'static str)
    ensures
        r@ == status_text(status@),
{
    match status {
        SessionStatus::Scanning => "Scanning",
        SessionStatus::Ready => "Ready to review",
        SessionStatus::Importing => "Importing",
        SessionStatus::Done(_) => "Imported",
        SessionStatus::Failed(_) => "Failed",
    }
}

pub open spec fn displayed_format(format: Seq<char>) -> Seq<char> {
    let f = uppered(format);
    if f == ""@ {
        "TBA"@
    } else if f == "TV_SHORT"@ {
        "TV Short"@
    } else if f == "MOVIE"@ {
        "Movie"@
    } else if f == "SPECIAL"@ {
        "Special"@
    } else if f == "MUSIC"@ {
        "Music"@
    } else {
        f
    }
}

/// A provider's format as it is shown.
pub fn format_display(format: &str) -> (r: String)
    ensures
        r@ == displayed_format(format@),
{
    let f = to_upper_text(format);
    if same(&f, "") {
        own("TBA")
    } else if same(&f, "TV_SHORT") {
        own("TV Short")
    } else if same(&f, "MOVIE") {
        own("Movie")
    } else if same(&f, "SPECIAL") {
        own("Special")
    } else if same(&f, "MUSIC") {
        own("Music")
    } else {
        f
    }
}

/// The first of the other titles that says something else.
pub open spec fn second_title(e: AnimeEntryView) -> Seq<char> {
    if e.title_english.len() > 0 && e.title_english != e.title {
        e.title_english
    } else if e.title_romaji.len() > 0 && e.title_romaji != e.title {
        e.title_romaji
    } else if e.title_native.len() > 0 && e.title_native != e.title {
        e.title_native
    } else {
        Seq::empty()
    }
}

/// Where the title can be looked up.
pub open spec fn external_link(e: AnimeEntryView) -> Seq<char> {
    if e.id > 0 {
        "https://anilist.co/anime/"@ + decimal(e.id as int)
    } else {
        match e.id_mal {
            Some(mal) => "https://myanimelist.net/anime/"@ + decimal(mal as int),
            None => Seq::empty(),
        }
    }
}

pub open spec fn optional_number(n: Option<i32>) -> Seq<char> {
    match n {
        Some(n) => decimal(n as int),
        None => Seq::empty(),
    }
}

/// A candidate as the picker shows it; `current` says whether it is picked.
pub open spec fn candidate(index: usize, e: AnimeEntryView, current: bool) -> CandidateViewView {
    CandidateViewView {
        index,
        id: e.id,
        title: e.title,
        subtitle: second_title(e),
        cover_url: e.cover_url,
        format: displayed_format(e.format),
        year: optional_number(e.season_year),
        episodes: match e.episodes {
            Some(n) => decimal(n as int) + " ep"@,
            None => "? ep"@,
        },
        external_href: external_link(e),
        source_label: if e.source == "mal"@ {
            "MAL"@
        } else {
            "AniList"@
        },
        is_current: current,
    }
}

fn number_text(n: Option<i32>) -> (r: String)
    ensures
        r@ == optional_number(n),
{
    let mut out: String = String::new();
    if let Some(n) = n {
        push_decimal(&mut out, n as i64);
        assert(out@ =~= decimal(n as int));
    }
    out
}

fn other_title(e: &AnimeEntry) -> (r: String)
    ensures
        r@ == second_title(e@),
{
    if !e.title_english.as_str().is_empty() && !same(&e.title_english, &e.title) {
        e.title_english.clone()
    } else if !e.title_romaji.as_str().is_empty() && !same(&e.title_romaji, &e.title) {
        e.title_romaji.clone()
    } else if !e.title_native.as_str().is_empty() && !same(&e.title_native, &e.title) {
        e.title_native.clone()
    } else {
        String::new()
    }
}

fn link(e: &AnimeEntry) -> (r: String)
    ensures
        r@ == external_link(e@),
{
    if e.id > 0 {
        let mut out = own("https://anilist.co/anime/");
        push_decimal(&mut out, e.id);
        out
    } else {
        match e.id_mal {
            Some(mal) => {
                let mut out = own("https://myanimelist.net/anime/");
                push_decimal(&mut out, mal);
                out
            },
            None => String::new(),
        }
    }
}

/// A candidate as the picker shows it.
pub fn candidate_view(index: usize, entry: &AnimeEntry) -> (v: CandidateView)
    ensures
        v@ == candidate(index, entry@, false),
{
    let episodes = match entry.episodes {
        Some(n) => {
            let mut out: String = String::new();
            push_decimal(&mut out, n as i64);
            out.append(" ep");
            assert(out@ =~= decimal(n as int) + " ep"@);
            out
        },
        None => own("? ep"),
    };
    CandidateView {
        index,
        id: entry.id,
        title: entry.title.clone(),
        subtitle: other_title(entry),
        cover_url: entry.cover_url.clone(),
        format: format_display(&entry.format),
        year: number_text(entry.season_year),
        episodes,
        external_href: link(entry),
        source_label: if same(&entry.source, "mal") {
            own("MAL")
        } else {
            own("AniList")
        },
        is_current: false,
    }
}

/// The candidates of a group, the picked one marked.
pub open spec fn rows_of(g: SeriesGroupView) -> Seq<CandidateViewView> {
    Seq::new(
        g.candidates.len(),
        |i: int| candidate(i as usize, g.candidates[i], g.pick == Some(i as usize)),
    )
}

/// The candidates of a series as the picker shows them, the picked one
/// marked.
pub fn picker_rows(group: &SeriesGroup) -> (rows: Vec<CandidateView>)
    ensures
        views(rows@) == rows_of(group@),
{
    let mut rows: Vec<CandidateView> = Vec::new();
    let mut i: usize = 0;
    while i < group.candidates.len()
        invariant
            i <= group.candidates.len(),
            views(rows@) == rows_of(group@).take(i as int),
        decreases group.candidates.len() - i,
    {
        let mut v = candidate_view(i, &group.candidates[i]);
        v.is_current = group.pick == Some(i);
        let ghost had = rows@;
        rows.push(v);
        proof {
            crate::table::lemma_views_push(had, v);
            assert(views(rows@) =~= rows_of(group@).take(i + 1));
        }
        i += 1;
    }
    assert(rows_of(group@).take(i as int) =~= rows_of(group@));
    rows
}

/// The picked candidate of a group.
pub open spec fn picked(g: SeriesGroupView) -> Option<AnimeEntryView> {
    match g.pick {
        Some(i) => if i < g.candidates.len() {
            Some(g.candidates[i as int])
        } else {
            None
        },
        None => None,
    }
}

pub open spec fn picked_id(g: SeriesGroupView) -> Option<i64> {
    match picked(g) {
        Some(e) => Some(e.id),
        None => None,
    }
}

fn id_of_pick(g: &SeriesGroup) -> (r: Option<i64>)
    ensures
        r == picked_id(g@),
{
    match g.pick {
        Some(i) => if i < g.candidates.len() {
            assert(g@.candidates[i as int] == g.candidates[i as int]@);
            Some(g.candidates[i].id)
        } else {
            None
        },
        None => None,
    }
}

/// Whether the group takes part and has picked this title.
pub open spec fn takes(id: i64) -> spec_fn(SeriesGroupView) -> bool {
    |g: SeriesGroupView| !g.skipped && picked_id(g) == Some(id)
}

/// For every picked title the first series that picked it. Skipped series do
/// not count.
pub fn duplicate_picks(groups: &Vec<SeriesGroup>) -> (first: HashMap<i64, String>)
    ensures
        forall|id: i64| #[trigger]
            first@.contains_key(id) <==> first_where(views(groups@), takes(id)) is Some,
        forall|id: i64| #[trigger]
            first@.contains_key(id) ==> first@[id]@ == first_where(
                views(groups@),
                takes(id),
            )->0.parsed_title,
{
    broadcast use vstd::std_specs::hash::group_hash_axioms;

    let mut first: HashMap<i64, String> = HashMap::new();
    let ghost all = views(groups@);
    let mut i: usize = 0;
    while i < groups.len()
        invariant
            i <= groups.len(),
            all == views(groups@),
            forall|id: i64| #[trigger]
                first@.contains_key(id) <==> first_where(all.take(i as int), takes(id)) is Some,
            forall|id: i64| #[trigger]
                first@.contains_key(id) ==> first@[id]@ == first_where(
                    all.take(i as int),
                    takes(id),
                )->0.parsed_title,
        decreases groups.len() - i,
    {
        let g = &groups[i];
        let ghost before = first@;
        proof {
            assert(all.take(i + 1) =~= all.take(i as int).push(g@));
            assert forall|id: i64| #[trigger] first_where(all.take(i + 1), takes(id)) == (
            if first_where(all.take(i as int), takes(id)) is Some {
                first_where(all.take(i as int), takes(id))
            } else if takes(id)(g@) {
                Some(g@)
            } else {
                None
            }) by {
                crate::table::lemma_first_where_push(all.take(i as int), g@, takes(id));
            }
        }
        if !g.skipped {
            if let Some(id) = id_of_pick(g) {
                if !first.contains_key(&id) {
                    first.insert(id, g.parsed_title.clone());
                }
            }
        }
        i += 1;
    }
    assert(all.take(i as int) =~= all);
    first
}

/// The other series of the preview that has the same pick; empty when there
/// is none.
pub open spec fn duplicate_title(groups: Seq<SeriesGroupView>, g: SeriesGroupView) -> Seq<char> {
    if g.skipped {
        Seq::empty()
    } else {
        match picked_id(g) {
            Some(id) => match first_where(groups, takes(id)) {
                Some(f) => if f.parsed_title != g.parsed_title {
                    f.parsed_title
                } else {
                    Seq::empty()
                },
                None => Seq::empty(),
            },
            None => Seq::empty(),
        }
    }
}

/// The title of the first series with the same pick, where it is another one
/// than this. `firsts` is what [`duplicate_picks`] gives for the preview.
pub fn duplicate_for(firsts: &HashMap<i64, String>, group: &SeriesGroup) -> (r: String)
    ensures
        r@ == (if group@.skipped {
            Seq::<char>::empty()
        } else {
            match picked_id(group@) {
                Some(id) => if firsts@.contains_key(id) && firsts@[id]@ != group@.parsed_title {
                    firsts@[id]@
                } else {
                    Seq::<char>::empty()
                },
                None => Seq::<char>::empty(),
            }
        }),
{
    broadcast use vstd::std_specs::hash::group_hash_axioms;

    if group.skipped {
        return String::new();
    }
    if let Some(id) = id_of_pick(group) {
        if let Some(title) = firsts.get(&id) {
            if !same(title, &group.parsed_title) {
                return title.clone();
            }
        }
    }
    String::new()
}

pub open spec fn from_folder() -> spec_fn(CandidateFileView) -> bool {
    |f: CandidateFileView| f.title_from_folder
}

/// A series of the preview.
pub open spec fn card(
    idx: usize,
    g: SeriesGroupView,
    v: GroupViewView,
    duplicate_of: Seq<char>,
    action_error: Seq<char>,
) -> GroupCardView {
    GroupCardView {
        idx,
        parsed_title: g.parsed_title,
        season_label: match g.season {
            Some(s) => if s > 1 {
                "Season "@ + decimal(s as int)
            } else {
                Seq::empty()
            },
            None => Seq::empty(),
        },
        year_label: optional_number(g.year),
        title_from_folder: crate::table::any_where(g.files, from_folder()),
        query: g.query,
        file_count: g.files.len() as usize,
        size_bytes: g.total_bytes,
        kind: v.kind,
        kind_label: v.kind_label,
        pick: match g.pick {
            Some(i) => if i < g.candidates.len() {
                Some(candidate(i, g.candidates[i as int], false))
            } else {
                None
            },
            None => None,
        },
        picker_rows: rows_of(g),
        picker_error: Seq::empty(),
        low_confidence: g.low_confidence,
        search_error: match g.search_error {
            Some(e) => e,
            None => Seq::empty(),
        },
        skipped: g.skipped,
        existing_title: match g.existing {
            Some(e) => e.title,
            None => Seq::empty(),
        },
        existing_anilist_id: match g.existing {
            Some(e) => e.anilist_id,
            None => 0,
        },
        files: v.files,
        counts: v.counts,
        duplicate_of,
        action_error,
    }
}

/// Everything the preview shows of a series.
pub fn build_card(
    idx: usize,
    group: &SeriesGroup,
    view: &GroupView,
    duplicate_of: String,
    action_error: String,
) -> (c: GroupCard)
    ensures
        c@ == card(idx, group@, view@, duplicate_of@, action_error@),
{
    let season_label = match group.season {
        Some(s) => if s > 1 {
            let mut out = own("Season ");
            push_decimal(&mut out, s as i64);
            out
        } else {
            String::new()
        },
        None => String::new(),
    };
    let folder = |f: &CandidateFile| -> (b: bool)
        ensures b == from_folder()(f@)
        { f.title_from_folder };
    let title_from_folder: bool = crate::table::any(&group.files, folder, Ghost(from_folder()));
    let pick = match group.pick {
        Some(i) => if i < group.candidates.len() {
            assert(group@.candidates[i as int] == group.candidates[i as int]@);
            Some(candidate_view(i, &group.candidates[i]))
        } else {
            None
        },
        None => None,
    };
    let (existing_title, existing_anilist_id): (String, i64) = match &group.existing {
        Some(e) => (e.title.clone(), e.anilist_id),
        None => (String::new(), 0),
    };
    assert(group@.files.len() == group.files.len());
    GroupCard {
        idx,
        parsed_title: group.parsed_title.clone(),
        season_label,
        year_label: number_text(group.year),
        title_from_folder,
        query: group.query.clone(),
        file_count: group.files.len(),
        size_bytes: group.total_bytes,
        kind: view.kind.clone(),
        kind_label: view.kind_label.clone(),
        pick,
        picker_rows: picker_rows(group),
        picker_error: String::new(),
        low_confidence: group.low_confidence,
        search_error: match &group.search_error {
            Some(e) => e.clone(),
            None => String::new(),
        },
        skipped: group.skipped,
        existing_title,
        existing_anilist_id,
        files: dup_all(&view.files),
        counts: view.counts.dup(),
        duplicate_of,
        action_error,
    }
}

/// The series of the preview, each with what an import would do with it.
pub open spec fn cards(groups: Seq<SeriesGroupView>, shown: Seq<GroupViewView>) -> Seq<
    GroupCardView,
> {
    Seq::new(
        groups.len(),
        |i: int|
            card(
                i as usize,
                groups[i],
                shown[i],
                duplicate_title(groups, groups[i]),
                Seq::empty(),
            ),
    )
}

/// The cards of a preview. `shown` holds what an import would do, group by
/// group.
pub fn build_cards(session: &ImportSession, shown: &Vec<GroupView>) -> (out: Vec<GroupCard>)
    requires
        session@.groups.len() == shown.len(),
    ensures
        views(out@) == cards(session@.groups, views(shown@)),
{
    let firsts = duplicate_picks(&session.groups);
    let ghost all = cards(session@.groups, views(shown@));
    let mut out: Vec<GroupCard> = Vec::new();
    let mut i: usize = 0;
    assert(session@.groups.len() == session.groups.len());
    while i < session.groups.len()
        invariant
            i <= session.groups.len(),
            session.groups.len() == shown.len(),
            session@.groups.len() == session.groups.len(),
            all == cards(session@.groups, views(shown@)),
            forall|id: i64| #[trigger]
                firsts@.contains_key(id) <==> first_where(session@.groups, takes(id)) is Some,
            forall|id: i64| #[trigger]
                firsts@.contains_key(id) ==> firsts@[id]@ == first_where(
                    session@.groups,
                    takes(id),
                )->0.parsed_title,
            views(out@) == all.take(i as int),
        decreases session.groups.len() - i,
    {
        let g = &session.groups[i];
        let duplicate_of = duplicate_for(&firsts, g);
        let c = build_card(i, g, &shown[i], duplicate_of, String::new());
        let ghost had = out@;
        proof {
            assert(session@.groups[i as int] == g@);
            assert(views(shown@)[i as int] == shown[i as int]@);
            if let Some(id) = picked_id(g@) {
                assert(firsts@.contains_key(id) <==> first_where(session@.groups, takes(id)) is Some);
            }
            assert(duplicate_of@ =~= duplicate_title(session@.groups, g@));
            assert(c@ == all[i as int]);
        }
        out.push(c);
        proof {
            crate::table::lemma_views_push(had, c);
            assert(views(out@) =~= all.take(i + 1));
        }
        i += 1;
    }
    assert(all.take(i as int) =~= all);
    out
}


/// The parts of a path between its slashes.
pub open spec fn pieces(path: Seq<char>) -> Seq<Seq<char>>
    decreases path.len(),
{
    if path.len() == 0 {
        seq![Seq::empty()]
    } else {
        let rest = pieces(path.drop_last());
        if path.last() == '/' {
            rest.push(Seq::empty())
        } else {
            rest.drop_last().push(rest.last().push(path.last()))
        }
    }
}

pub open spec fn names_something() -> spec_fn(Seq<char>) -> bool {
    |p: Seq<char>| p.len() > 0 && p != "."@
}

/// The steps of a path: the root, or a dot that starts it, and the names in
/// it. Repeated slashes and dots between names do not count.
pub open spec fn steps(path: Seq<char>) -> Seq<Seq<char>> {
    let names = pieces(path).filter(names_something());
    if path.len() > 0 && path[0] == '/' {
        seq!["/"@] + names
    } else if pieces(path)[0] == "."@ {
        seq!["."@] + names
    } else {
        names
    }
}

/// Whether `path` is `base` or lies under it.
pub open spec fn lies_under(path: Seq<char>, base: Seq<char>) -> bool {
    steps(base).len() <= steps(path).len() && steps(path).take(steps(base).len() as int) == steps(
        base,
    )
}

proof fn lemma_pieces_nonempty(path: Seq<char>)
    ensures
        pieces(path).len() > 0,
    decreases path.len(),
{
    if path.len() > 0 {
        lemma_pieces_nonempty(path.drop_last());
    }
}

fn split_path(path: &str) -> (out: Vec<String>)
    ensures
        texts(out@) == pieces(path@),
        out.len() > 0,
{
    let chars = crate::text::chars_of(path);
    let mut done: Vec<String> = Vec::new();
    let mut open: String = String::new();
    let mut i: usize = 0;
    assert(texts(done@).push(open@) =~= pieces(path@.take(0)));
    while i < chars.len()
        invariant
            i <= chars.len(),
            chars@ == path@,
            texts(done@).push(open@) == pieces(path@.take(i as int)),
        decreases chars.len() - i,
    {
        let ghost had = done@;
        let ghost was = open@;
        proof {
            assert(path@.take(i + 1).drop_last() =~= path@.take(i as int));
            assert(texts(had).push(was).drop_last() =~= texts(had));
        }
        if chars[i] == '/' {
            done.push(open);
            open = String::new();
            assert(texts(done@) =~= texts(had).push(was));
            assert(texts(done@).push(open@) =~= texts(had).push(was).push(Seq::empty()));
        } else {
            open.push(chars[i]);
            assert(texts(done@).push(open@) =~= texts(had).push(was.push(chars@[i as int])));
        }
        i += 1;
    }
    assert(path@.take(i as int) =~= path@);
    let ghost had = done@;
    let ghost last = open@;
    done.push(open);
    assert(texts(done@) =~= texts(had).push(last));
    done
}

fn path_steps(path: &str) -> (out: Vec<String>)
    ensures
        texts(out@) == steps(path@),
{
    let parts = split_path(path);
    let rooted: bool = crate::text::begins(path, "/");
    proof {
        reveal_strlit("/");
        if path@.len() > 0 {
            assert(path@.subrange(0, 1)[0] == path@[0]);
            if path@[0] == '/' {
                assert(path@.subrange(0, 1) =~= "/"@);
            }
        }
    }
    let mut out: Vec<String> = Vec::new();
    assert(texts(parts@)[0] == parts@[0]@);
    if rooted {
        out.push(own("/"));
    } else if same(&parts[0], ".") {
        out.push(own("."));
    }
    let ghost start = texts(out@);
    let ghost all = pieces(path@);
    let ghost named = names_something();
    let mut i: usize = 0;
    proof {
        reveal(Seq::filter);
        assert(all.take(0).filter(named) =~= Seq::<Seq<char>>::empty());
        assert(start + Seq::<Seq<char>>::empty() =~= start);
        assert(start =~= (if path@.len() > 0 && path@[0] == '/' {
            seq!["/"@]
        } else if all[0] == "."@ {
            seq!["."@]
        } else {
            Seq::empty()
        }));
    }
    while i < parts.len()
        invariant
            i <= parts.len(),
            texts(parts@) == all,
            named == names_something(),
            texts(out@) == start + all.take(i as int).filter(named),
        decreases parts.len() - i,
    {
        let ghost had = out@;
        proof {
            assert(all[i as int] == parts@[i as int]@);
            assert(all.take(i + 1) =~= all.take(i as int).push(all[i as int]));
            all.take(i as int).lemma_filter_push(all[i as int], named);
        }
        if !parts[i].as_str().is_empty() && !same(&parts[i], ".") {
            out.push(parts[i].clone());
            proof {
                assert(texts(out@) =~= texts(had).push(all[i as int]));
                assert(start + all.take(i as int).filter(named).push(all[i as int]) =~= (start
                    + all.take(i as int).filter(named)).push(all[i as int]));
            }
        }
        i += 1;
    }
    proof {
        assert(all.take(i as int) =~= all);
        assert(texts(out@) =~= steps(path@));
    }
    out
}

/// Whether `path` is `base` or lies under it, step by step.
pub fn is_under(path: &str, base: &str) -> (r: bool)
    ensures
        r == lies_under(path@, base@),
{
    let p = path_steps(path);
    let b = path_steps(base);
    assert(texts(p@).len() == p.len());
    assert(texts(b@).len() == b.len());
    if b.len() > p.len() {
        return false;
    }
    let mut i: usize = 0;
    while i < b.len()
        invariant
            i <= b.len() <= p.len(),
            texts(p@) == steps(path@),
            texts(b@) == steps(base@),
            forall|k: int| 0 <= k < i ==> #[trigger] steps(path@)[k] == steps(base@)[k],
        decreases b.len() - i,
    {
        proof {
            assert(texts(p@)[i as int] == p@[i as int]@);
            assert(texts(b@)[i as int] == b@[i as int]@);
        }
        if !same(&p[i], &b[i]) {
            proof {
                if steps(path@).take(steps(base@).len() as int) == steps(base@) {
                    assert(steps(path@).take(steps(base@).len() as int)[i as int] == steps(
                        base@,
                    )[i as int]);
                }
            }
            return false;
        }
        i += 1;
    }
    assert(steps(path@).take(steps(base@).len() as int) =~= steps(base@));
    true
}

pub open spec fn parsed_mode(s: Seq<char>) -> Option<ImportMode> {
    let m = lowered(trimmed(s));
    if m == "hardlink"@ {
        Some(ImportMode::Hardlink)
    } else if m == "copy"@ {
        Some(ImportMode::Copy)
    } else if m == "move"@ {
        Some(ImportMode::Move)
    } else {
        None
    }
}

impl ImportMode {
    /// The mode a form names, in any case and with space around it.
    pub fn parse(s: &str) -> (r: Option<ImportMode>)
        ensures
            r == parsed_mode(s@),
    {
        let m = to_lower_text(&trim(s));
        if same(&m, "hardlink") {
            Some(ImportMode::Hardlink)
        } else if same(&m, "copy") {
            Some(ImportMode::Copy)
        } else if same(&m, "move") {
            Some(ImportMode::Move)
        } else {
            None
        }
    }
}

pub open spec fn switched_on(v: Option<Seq<char>>) -> bool {
    v == Some("1"@) || v == Some("on"@) || v == Some("true"@)
}

/// Whether a form's checkbox is on.
pub fn checkbox_on(v: &Option<String>) -> (r: bool)
    ensures
        r == switched_on(optional_text(*v)),
{
    match v {
        Some(s) => same(s, "1") || same(s, "on") || same(s, "true"),
        None => false,
    }
}

/// What the file system says of the folder to scan and of the media root.
#[derive(Debug)]
pub struct PathFacts {
    /// Whether the folder is one that can be read.
    pub is_dir: bool,
    /// The folder with links resolved; as typed where that is not possible.
    pub canonical_root: String,
    /// The media root with links resolved; as set where that is not possible.
    pub canonical_media: String,
}

/// The contents of a [`PathFacts`].
#[verifier::ext_equal]
pub struct PathFactsView {
    pub is_dir: bool,
    pub canonical_root: Seq<char>,
    pub canonical_media: Seq<char>,
}

impl View for PathFacts {
    type V = PathFactsView;

    open spec fn view(&self) -> PathFactsView {
        PathFactsView {
            is_dir: self.is_dir,
            canonical_root: self.canonical_root@,
            canonical_media: self.canonical_media@,
        }
    }
}

impl Dup for PathFacts {
    fn dup(&self) -> (copy: Self) {
        PathFacts {
            is_dir: self.is_dir,
            canonical_root: self.canonical_root.clone(),
            canonical_media: self.canonical_media.clone(),
        }
    }
}

impl Clone for PathFacts {
    fn clone(&self) -> (copy: Self)
        ensures
            copy@ == self@,
    {
        self.dup()
    }
}

/// A scan that has just begun.
pub open spec fn fresh_session(
    id: Seq<char>,
    root: Seq<char>,
    mode: ImportMode,
    follow_symlinks: bool,
    include_hidden: bool,
) -> ImportSessionView {
    ImportSessionView {
        id,
        root,
        mode,
        follow_symlinks,
        include_hidden,
        status: SessionStatusView::Scanning,
        groups: Seq::empty(),
        unmatched_files: Seq::empty(),
        stats: no_stats(),
        cross_fs: None,
        cancel: false,
    }
}

pub open spec fn no_stats() -> WalkStatsView {
    WalkStatsView { files: 0, skipped_non_video: 0, total_bytes: 0 }
}

fn empty_stats() -> (s: WalkStats)
    ensures
        s@ == no_stats(),
{
    WalkStats { files: 0, skipped_non_video: 0, total_bytes: 0 }
}

pub open spec fn not_a_folder(path: Seq<char>) -> Seq<char> {
    path
        + " is not a folder Ryokan can read. Check the path, and if Ryokan runs in Docker make sure the folder is mounted into the container."@
}

pub open spec fn inside_media_root(path: Seq<char>, media_root: Seq<char>) -> Seq<char> {
    path + " is inside your Ryokan media root ("@ + media_root
        + "). Ryokan already tracks files there; point the wizard at a folder outside it."@
}

/// The scan that a start form asks for, or the message to show.
pub open spec fn start_outcome(
    form: StartFormView,
    media_root: Seq<char>,
    facts: PathFactsView,
    session_id: Seq<char>,
) -> Result<ImportSessionView, Seq<char>> {
    let path = trimmed(form.path);
    if media_root.len() == 0 {
        Err(
            "Set a media root under Settings before importing. Imported files are placed under it."@,
        )
    } else if path.len() == 0 {
        Err("Enter the folder to scan."@)
    } else if path[0] != '/' {
        Err("Enter an absolute path, for example /mnt/anime."@)
    } else if !facts.is_dir {
        Err(not_a_folder(path))
    } else if lies_under(facts.canonical_root, facts.canonical_media) {
        Err(inside_media_root(path, media_root))
    } else if trimmed(form.mode).len() > 0 && parsed_mode(form.mode) is None {
        Err("Unknown import mode."@)
    } else {
        Ok(
            fresh_session(
                session_id,
                path,
                if trimmed(form.mode).len() == 0 {
                    ImportMode::Hardlink
                } else {
                    parsed_mode(form.mode)->0
                },
                switched_on(form.follow_symlinks),
                switched_on(form.include_hidden),
            ),
        )
    }
}

/// The scan that a start form asks for, or the message to show: the media
/// root must be set, and the path must be absolute, a folder that can be read,
/// and outside the media root.
pub fn validate_start(form: &StartForm, media_root: &str, facts: &PathFacts, session_id: &str) -> (r:
    Result<ImportSession, String>)
    ensures
        match (r, start_outcome(form@, media_root@, facts@, session_id@)) {
            (Ok(s), Ok(v)) => s@ == v,
            (Err(m), Err(v)) => m@ == v,
            _ => false,
        },
{
    let path = trim(&form.path);
    if media_root.is_empty() {
        return Err(
            own(
                "Set a media root under Settings before importing. Imported files are placed under it.",
            ),
        );
    }
    if path.as_str().is_empty() {
        return Err(own("Enter the folder to scan."));
    }
    if path.as_str().get_char(0) != '/' {
        return Err(own("Enter an absolute path, for example /mnt/anime."));
    }
    if !facts.is_dir {
        let mut message = path.clone();
        message.append(
            " is not a folder Ryokan can read. Check the path, and if Ryokan runs in Docker make sure the folder is mounted into the container.",
        );
        return Err(message);
    }
    if is_under(&facts.canonical_root, &facts.canonical_media) {
        let mut message = path.clone();
        message.append(" is inside your Ryokan media root (");
        message.append(media_root);
        message.append(
            "). Ryokan already tracks files there; point the wizard at a folder outside it.",
        );
        return Err(message);
    }
    let mode = if trim(&form.mode).as_str().is_empty() {
        ImportMode::Hardlink
    } else {
        match ImportMode::parse(&form.mode) {
            Some(mode) => mode,
            None => {
                return Err(own("Unknown import mode."));
            },
        }
    };
    let session = ImportSession {
        id: own(session_id),
        root: path,
        mode,
        follow_symlinks: checkbox_on(&form.follow_symlinks),
        include_hidden: checkbox_on(&form.include_hidden),
        status: SessionStatus::Scanning,
        groups: Vec::new(),
        unmatched_files: Vec::new(),
        stats: empty_stats(),
        cross_fs: None,
        cancel: false,
    };
    proof {
        assert(session@.groups =~= Seq::<SeriesGroupView>::empty());
        assert(session@.unmatched_files =~= Seq::<CandidateFileView>::empty());
    }
    Ok(session)
}

/// The start form as it was sent.
pub open spec fn echoed(form: StartFormView) -> StartFormEchoView {
    StartFormEchoView {
        path: trimmed(form.path),
        mode: if parsed_mode(form.mode) is Some {
            lowered(trimmed(form.mode))
        } else {
            "hardlink"@
        },
        follow_symlinks: switched_on(form.follow_symlinks),
        include_hidden: switched_on(form.include_hidden),
    }
}

/// The start form with what was typed, to show beside a message. A mode that
/// is none becomes the usual one.
pub fn echo_form(form: &StartForm) -> (o: StartFormEcho)
    ensures
        o@ == echoed(form@),
{
    StartFormEcho {
        path: trim(&form.path),
        mode: if ImportMode::parse(&form.mode).is_some() {
            to_lower_text(&trim(&form.mode))
        } else {
            own("hardlink")
        },
        follow_symlinks: checkbox_on(&form.follow_symlinks),
        include_hidden: checkbox_on(&form.include_hidden),
    }
}

pub open spec fn blank_form() -> StartFormEchoView {
    StartFormEchoView {
        path: Seq::empty(),
        mode: "hardlink"@,
        follow_symlinks: false,
        include_hidden: false,
    }
}

/// The start form before anything is typed.
pub fn empty_form() -> (o: StartFormEcho)
    ensures
        o@ == blank_form(),
{
    StartFormEcho {
        path: String::new(),
        mode: own("hardlink"),
        follow_symlinks: false,
        include_hidden: false,
    }
}

pub open spec fn no_report() -> ImportReportView {
    ImportReportView {
        series_created: 0,
        files_written: 0,
        files_failed: 0,
        bytes_written: 0,
        groups: Seq::empty(),
    }
}

pub open spec fn no_summary() -> SessionSummaryView {
    SessionSummaryView {
        new_series: 0,
        merged_series: 0,
        skipped: 0,
        files_to_write: 0,
        write_bytes: 0,
    }
}

/// The page before anything is known of a scan.
pub open spec fn base_page(ctx: RenderContextView) -> ImportPageView {
    ImportPageView {
        page: "system"@,
        tab: "import"@,
        title_language: ctx.title_pref,
        media_root: ctx.media_root,
        step: "start"@,
        error: Seq::empty(),
        notice: Seq::empty(),
        progress_id: Seq::empty(),
        report: no_report(),
        form: blank_form(),
        session_id: Seq::empty(),
        root: Seq::empty(),
        mode: ImportMode::Hardlink,
        follow_symlinks: false,
        include_hidden: false,
        stats: no_stats(),
        summary: no_summary(),
        cross_fs_warning: false,
        failed_message: Seq::empty(),
        groups: Seq::empty(),
        unmatched: Seq::empty(),
        recent: Seq::empty(),
        oob: false,
    }
}

/// The page before anything is known of a scan.
pub fn base_template(ctx: &RenderContext) -> (t: ImportPage)
    ensures
        t@ == base_page(ctx@),
{
    let t = ImportPage {
        page: own("system"),
        tab: own("import"),
        title_language: ctx.title_pref.clone(),
        media_root: ctx.media_root.clone(),
        step: own("start"),
        error: String::new(),
        notice: String::new(),
        progress_id: String::new(),
        report: ImportReport {
            series_created: 0,
            files_written: 0,
            files_failed: 0,
            bytes_written: 0,
            groups: Vec::new(),
        },
        form: empty_form(),
        session_id: String::new(),
        root: String::new(),
        mode: ImportMode::Hardlink,
        follow_symlinks: false,
        include_hidden: false,
        stats: empty_stats(),
        summary: SessionSummary {
            new_series: 0,
            merged_series: 0,
            skipped: 0,
            files_to_write: 0,
            write_bytes: 0,
        },
        cross_fs_warning: false,
        failed_message: String::new(),
        groups: Vec::new(),
        unmatched: Vec::new(),
        recent: Vec::new(),
        oob: false,
    };
    proof {
        assert(t@.report.groups =~= Seq::<GroupReportView>::empty());
        assert(t@.groups =~= Seq::<GroupCardView>::empty());
        assert(t@.unmatched =~= Seq::<UnmatchedViewView>::empty());
        assert(t@.recent =~= Seq::<RecentViewView>::empty());
    }
    t
}

pub open spec fn recent_row() -> spec_fn(ImportSessionView) -> RecentViewView {
    |s: ImportSessionView|
        RecentViewView { id: s.id, root: s.root, status: status_text(s.status) }
}

/// The scans that are there, as the start page lists them.
pub fn recent_sessions(sessions: &Vec<ImportSession>) -> (out: Vec<RecentView>)
    ensures
        views(out@) == views(sessions@).map_values(recent_row()),
{
    let make = |s: &ImportSession| -> (o: RecentView)
        ensures o@ == recent_row()(s@)
        {
            RecentView {
                id: s.id.clone(),
                root: s.root.clone(),
                status: own(recent_status(&s.status)),
            }
        };
    project(sessions, make, Ghost(recent_row()), Ghost(|s: ImportSessionView| true))
}

pub open spec fn url_of(id: Seq<char>) -> Seq<char> {
    "/system/import?session="@ + id
}

/// The address of a scan's page.
pub fn session_url(id: &str) -> (r: String)
    ensures
        r@ == url_of(id@),
{
    let mut out = own("/system/import?session=");
    out.append(id);
    out
}

pub open spec fn unmatched_row() -> spec_fn(CandidateFileView) -> UnmatchedViewView {
    |f: CandidateFileView|
        UnmatchedViewView {
            rel_path: f.rel_path,
            episode_label: f.episode_label,
            quality_label: f.quality_label,
            size_bytes: f.size_bytes,
        }
}

/// The page of a scan in whatever state it is.
pub open spec fn page_of(
    ctx: RenderContextView,
    id: Seq<char>,
    session: Option<ImportSessionView>,
    shown: Seq<GroupViewView>,
    summary: SessionSummaryView,
    recent: Seq<RecentViewView>,
    notice: Seq<char>,
) -> ImportPageView {
    let base = base_page(ctx);
    if id.len() == 0 {
        ImportPageView { recent, ..base }
    } else {
        match session {
            None => ImportPageView {
                error: "That preview has expired. Start a new scan."@,
                recent,
                ..base
            },
            Some(s) => {
                let page = ImportPageView {
                    session_id: s.id,
                    root: s.root,
                    mode: s.mode,
                    follow_symlinks: s.follow_symlinks,
                    include_hidden: s.include_hidden,
                    notice,
                    ..base
                };
                match s.status {
                    SessionStatusView::Scanning => ImportPageView {
                        step: "scanning"@,
                        progress_id: s.id,
                        ..page
                    },
                    SessionStatusView::Importing => ImportPageView {
                        step: "importing"@,
                        progress_id: s.id + "-import"@,
                        ..page
                    },
                    SessionStatusView::Done(report) => ImportPageView {
                        step: "done"@,
                        report,
                        ..page
                    },
                    SessionStatusView::Failed(message) => ImportPageView {
                        step: "failed"@,
                        failed_message: message,
                        ..page
                    },
                    SessionStatusView::Ready => ImportPageView {
                        step: "ready"@,
                        summary,
                        groups: cards(s.groups, shown),
                        stats: s.stats,
                        cross_fs_warning: s.mode == ImportMode::Hardlink && s.cross_fs == Some(
                            true,
                        ),
                        unmatched: s.unmatched_files.map_values(unmatched_row()),
                        ..page
                    },
                }
            },
        }
    }
}

/// What a scan is for the contracts: nothing where there is none.
pub open spec fn optional_session(s: Option<&ImportSession>) -> Option<ImportSessionView> {
    match s {
        Some(s) => Some(s@),
        None => None,
    }
}

/// Whether there are as many projections as a preview that is ready has
/// groups.
pub open spec fn all_shown(s: Option<ImportSessionView>, shown: nat) -> bool {
    match s {
        Some(s) => s.status is Ready ==> s.groups.len() == shown,
        None => true,
    }
}

/// The page of the scan `id`: the start form without an id, a message for a
/// scan that is unknown, and otherwise what the scan's state calls for.
/// `shown` and `summary` say what an import would do, for a preview that is
/// ready.
pub fn render_session_page(
    ctx: &RenderContext,
    id: &str,
    session: Option<&ImportSession>,
    shown: &Vec<GroupView>,
    summary: &SessionSummary,
    recent: Vec<RecentView>,
    notice: String,
) -> (t: ImportPage)
    requires
        all_shown(optional_session(session), shown.len() as nat),
    ensures
        t@ == page_of(
            ctx@,
            id@,
            optional_session(session),
            views(shown@),
            summary@,
            views(recent@),
            notice@,
        ),
{
    let mut t = base_template(ctx);
    if id.is_empty() {
        t.recent = recent;
        return t;
    }
    let s = match session {
        None => {
            t.error = own("That preview has expired. Start a new scan.");
            t.recent = recent;
            return t;
        },
        Some(s) => s,
    };
    t.session_id = s.id.clone();
    t.root = s.root.clone();
    t.mode = s.mode;
    t.follow_symlinks = s.follow_symlinks;
    t.include_hidden = s.include_hidden;
    t.notice = notice;
    match &s.status {
        SessionStatus::Scanning => {
            t.step = own("scanning");
            t.progress_id = s.id.clone();
        },
        SessionStatus::Importing => {
            t.step = own("importing");
            let mut progress_id = s.id.clone();
            progress_id.append("-import");
            t.progress_id = progress_id;
        },
        SessionStatus::Done(report) => {
            t.step = own("done");
            t.report = report.dup();
        },
        SessionStatus::Failed(message) => {
            t.step = own("failed");
            t.failed_message = message.clone();
        },
        SessionStatus::Ready => {
            t.step = own("ready");
            t.summary = summary.dup();
            t.groups = build_cards(s, shown);
            t.stats = s.stats.dup();
            t.cross_fs_warning = s.mode == ImportMode::Hardlink && s.cross_fs == Some(true);
            let make = |f: &CandidateFile| -> (o: UnmatchedView)
                ensures o@ == unmatched_row()(f@)
                {
                    UnmatchedView {
                        rel_path: f.rel_path.clone(),
                        episode_label: f.episode_label.clone(),
                        quality_label: f.quality_label.clone(),
                        size_bytes: f.size_bytes,
                    }
                };
            t.unmatched = project(
                &s.unmatched_files,
                make,
                Ghost(unmatched_row()),
                Ghost(|f: CandidateFileView| true),
            );
        },
    }
    t
}

/// What a start form leads to.
#[derive(Debug)]
pub enum StartStep {
    /// Begin this scan, then go to its page.
    Begin(ImportSession),
    /// Show the start form again with a message.
    Show(ImportPage),
}

/// The contents of a [`StartStep`].
#[verifier::ext_equal]
pub enum StartStepView {
    Begin(ImportSessionView),
    Show(ImportPageView),
}

impl View for StartStep {
    type V = StartStepView;

    open spec fn view(&self) -> StartStepView {
        match self {
            StartStep::Begin(s) => StartStepView::Begin(s@),
            StartStep::Show(t) => StartStepView::Show(t@),
        }
    }
}

/// What a start form leads to: a scan, or the form with what was typed and the
/// message why there is none.
pub open spec fn started(
    ctx: RenderContextView,
    form: StartFormView,
    facts: PathFactsView,
    session_id: Seq<char>,
    recent: Seq<RecentViewView>,
) -> StartStepView {
    match start_outcome(form, ctx.media_root, facts, session_id) {
        Ok(s) => StartStepView::Begin(s),
        Err(message) => StartStepView::Show(
            ImportPageView { error: message, recent, form: echoed(form), ..base_page(ctx) },
        ),
    }
}

/// What a start form leads to. `session_id` is the id that a new scan gets.
pub fn start(
    ctx: &RenderContext,
    form: &StartForm,
    facts: &PathFacts,
    session_id: &str,
    recent: Vec<RecentView>,
) -> (r: StartStep)
    ensures
        r@ == started(ctx@, form@, facts@, session_id@, views(recent@)),
{
    match validate_start(form, &ctx.media_root, facts, session_id) {
        Ok(s) => StartStep::Begin(s),
        Err(message) => {
            let mut t = base_template(ctx);
            t.error = message;
            t.recent = recent;
            t.form = echo_form(form);
            StartStep::Show(t)
        },
    }
}

/// The wizard's page: for the scan that the address names, without the space
/// around its id. `shown` and `summary` say what an import of that scan would
/// do.
pub fn page(
    ctx: &RenderContext,
    q: &PageQuery,
    sessions: &Vec<ImportSession>,
    shown: &Vec<GroupView>,
    summary: &SessionSummary,
) -> (t: ImportPage)
    requires
        all_shown(
            first_where(views(sessions@), is_session(trimmed(q.session@))),
            shown.len() as nat,
        ),
    ensures
        t@ == page_of(
            ctx@,
            trimmed(q.session@),
            first_where(views(sessions@), is_session(trimmed(q.session@))),
            views(shown@),
            summary@,
            views(sessions@).map_values(recent_row()),
            Seq::empty(),
        ),
{
    let id = trim(&q.session);
    let found = get_session(sessions, &id);
    let recent = recent_sessions(sessions);
    match &found {
        Some(s) => render_session_page(ctx, &id, Some(s), shown, summary, recent, String::new()),
        None => render_session_page(ctx, &id, None, shown, summary, recent, String::new()),
    }
}

/// What is to be done for a correction.
#[derive(Debug)]
pub enum GroupStep {
    /// Nothing more: the correction is made, or refused with a message.
    Finished(Result<(), String>),
    /// Pick this candidate of the group, or none.
    PickCandidate(Option<usize>),
    /// Pick the title with this provider id.
    PickById(i64),
    /// Search again for this.
    Research(String),
}

/// The contents of a [`GroupStep`].
#[verifier::ext_equal]
pub enum GroupStepView {
    Finished(Result<(), Seq<char>>),
    PickCandidate(Option<usize>),
    PickById(i64),
    Research(Seq<char>),
}

impl View for GroupStep {
    type V = GroupStepView;

    open spec fn view(&self) -> GroupStepView {
        match self {
            GroupStep::Finished(Ok(_)) => GroupStepView::Finished(Ok(())),
            GroupStep::Finished(Err(m)) => GroupStepView::Finished(Err(m@)),
            GroupStep::PickCandidate(c) => GroupStepView::PickCandidate(*c),
            GroupStep::PickById(id) => GroupStepView::PickById(*id),
            GroupStep::Research(q) => GroupStepView::Research(q@),
        }
    }
}

pub open spec fn chosen_or_not(on: bool) -> spec_fn(CandidateFileView) -> CandidateFileView {
    |f: CandidateFileView| CandidateFileView { selected: on, ..f }
}

/// The group with a file's tick turned round; as it is when there is no such
/// file.
pub open spec fn toggled(g: SeriesGroupView, file: usize) -> SeriesGroupView {
    if file < g.files.len() {
        let f = g.files[file as int];
        SeriesGroupView {
            files: g.files.update(
                file as int,
                CandidateFileView { selected: !f.selected, ..f },
            ),
            ..g
        }
    } else {
        g
    }
}

/// The scan with one group changed, and what comes of it.
pub open spec fn with_group(
    session: Option<ImportSessionView>,
    idx: usize,
    change: spec_fn(SeriesGroupView) -> SeriesGroupView,
) -> (Option<ImportSessionView>, GroupStepView) {
    match session {
        None => (session, GroupStepView::Finished(Err("Preview session not found"@))),
        Some(s) => if idx < s.groups.len() {
            (
                Some(
                    ImportSessionView {
                        groups: s.groups.update(idx as int, change(s.groups[idx as int])),
                        ..s
                    },
                ),
                GroupStepView::Finished(Ok(())),
            )
        } else {
            (session, GroupStepView::Finished(Err("Unknown series in this preview"@)))
        },
    }
}

/// The scan after a correction, and what is to be done for it.
pub open spec fn corrected(
    session: Option<ImportSessionView>,
    idx: usize,
    form: GroupActionFormView,
) -> (Option<ImportSessionView>, GroupStepView) {
    if form.action == "skip"@ {
        with_group(session, idx, |g: SeriesGroupView| SeriesGroupView { skipped: true, ..g })
    } else if form.action == "unskip"@ {
        with_group(session, idx, |g: SeriesGroupView| SeriesGroupView { skipped: false, ..g })
    } else if form.action == "pick"@ {
        match form.candidate {
            Some(c) => (session, GroupStepView::PickCandidate(Some(c))),
            None => (session, GroupStepView::Finished(Err("Pick a series"@))),
        }
    } else if form.action == "unpick"@ {
        (session, GroupStepView::PickCandidate(None))
    } else if form.action == "pick_id"@ {
        match form.id {
            Some(id) => (session, GroupStepView::PickById(id)),
            None => (session, GroupStepView::Finished(Err("Pick a series"@))),
        }
    } else if form.action == "research"@ {
        (session, GroupStepView::Research(form.query))
    } else if form.action == "toggle_file"@ {
        match form.file {
            Some(file) => with_group(session, idx, |g: SeriesGroupView| toggled(g, file)),
            None => (session, GroupStepView::Finished(Err("Unknown file"@))),
        }
    } else if form.action == "select_all"@ {
        with_group(
            session,
            idx,
            |g: SeriesGroupView|
                SeriesGroupView { files: g.files.map_values(chosen_or_not(true)), ..g },
        )
    } else if form.action == "select_none"@ {
        with_group(
            session,
            idx,
            |g: SeriesGroupView|
                SeriesGroupView { files: g.files.map_values(chosen_or_not(false)), ..g },
        )
    } else {
        (session, GroupStepView::Finished(Err("Unknown action "@ + form.action)))
    }
}

/// What a scan is for the contracts: nothing where there is none.
pub open spec fn held_session(s: Option<ImportSession>) -> Option<ImportSessionView> {
    match s {
        Some(s) => Some(s@),
        None => None,
    }
}

fn change_group<F: Fn(SeriesGroup) -> SeriesGroup>(
    session: &mut Option<ImportSession>,
    idx: usize,
    change: F,
    Ghost(changed): Ghost<spec_fn(SeriesGroupView) -> SeriesGroupView>,
) -> (step: GroupStep)
    requires
        forall|g: SeriesGroup| #[trigger] call_requires(change, (g,)),
        forall|g: SeriesGroup, r: SeriesGroup| #[trigger]
            call_ensures(change, (g,), r) ==> r@ == changed(g@),
    ensures
        (held_session(*final(session)), step@) == with_group(
            held_session(*old(session)),
            idx,
            changed,
        ),
{
    match session.take() {
        None => {
            *session = None;
            GroupStep::Finished(Err(own("Preview session not found")))
        },
        Some(s) => {
            let mut s = s;
            if idx < s.groups.len() {
                let ghost before = s@;
                let g = s.groups[idx].dup();
                let fresh = change(g);
                assert(before.groups[idx as int] == s.groups[idx as int]@);
                s.groups.set(idx, fresh);
                proof {
                    assert(s@.groups =~= before.groups.update(
                        idx as int,
                        changed(before.groups[idx as int]),
                    ));
                }
                *session = Some(s);
                GroupStep::Finished(Ok(()))
            } else {
                *session = Some(s);
                GroupStep::Finished(Err(own("Unknown series in this preview")))
            }
        },
    }
}

fn set_all(g: SeriesGroup, on: bool) -> (o: SeriesGroup)
    ensures
        o@ == (SeriesGroupView { files: g@.files.map_values(chosen_or_not(on)), ..g@ }),
{
    let make = |f: &CandidateFile| -> (o: CandidateFile)
        ensures o@ == chosen_or_not(on)(f@)
        {
            let f = f.dup();
            CandidateFile { selected: on, ..f }
        };
    let files = project(
        &g.files,
        make,
        Ghost(chosen_or_not(on)),
        Ghost(|f: CandidateFileView| true),
    );
    SeriesGroup { files, ..g }
}

fn toggle(g: SeriesGroup, file: usize) -> (o: SeriesGroup)
    ensures
        o@ == toggled(g@, file),
{
    let mut g = g;
    if file < g.files.len() {
        let ghost before = g@;
        let f = g.files[file].dup();
        let on: bool = !f.selected;
        let flipped = CandidateFile { selected: on, ..f };
        assert(before.files[file as int] == g.files[file as int]@);
        g.files.set(file, flipped);
        proof {
            assert(g@.files =~= before.files.update(file as int, flipped@));
        }
    }
    g
}

/// Makes a correction to one series of the preview, or says what is to be
/// done for it: skipping, ticking and unticking files are made here; picking
/// and searching ask a provider first.
pub fn apply_group_action(
    session: &mut Option<ImportSession>,
    idx: usize,
    form: &GroupActionForm,
) -> (step: GroupStep)
    ensures
        (held_session(*final(session)), step@) == corrected(
            held_session(*old(session)),
            idx,
            form@,
        ),
{
    if same(&form.action, "skip") {
        let ghost changed = |g: SeriesGroupView| SeriesGroupView { skipped: true, ..g };
        let change = |g: SeriesGroup| -> (o: SeriesGroup)
            ensures o@ == changed(g@)
            { SeriesGroup { skipped: true, ..g } };
        change_group(session, idx, change, Ghost(changed))
    } else if same(&form.action, "unskip") {
        let ghost changed = |g: SeriesGroupView| SeriesGroupView { skipped: false, ..g };
        let change = |g: SeriesGroup| -> (o: SeriesGroup)
            ensures o@ == changed(g@)
            { SeriesGroup { skipped: false, ..g } };
        change_group(session, idx, change, Ghost(changed))
    } else if same(&form.action, "pick") {
        match form.candidate {
            Some(c) => GroupStep::PickCandidate(Some(c)),
            None => GroupStep::Finished(Err(own("Pick a series"))),
        }
    } else if same(&form.action, "unpick") {
        GroupStep::PickCandidate(None)
    } else if same(&form.action, "pick_id") {
        match form.id {
            Some(id) => GroupStep::PickById(id),
            None => GroupStep::Finished(Err(own("Pick a series"))),
        }
    } else if same(&form.action, "research") {
        GroupStep::Research(form.query.clone())
    } else if same(&form.action, "toggle_file") {
        match form.file {
            Some(file) => {
                let ghost changed = |g: SeriesGroupView| toggled(g, file);
                let change = |g: SeriesGroup| -> (o: SeriesGroup)
                    ensures o@ == changed(g@)
                    { toggle(g, file) };
                change_group(session, idx, change, Ghost(changed))
            },
            None => GroupStep::Finished(Err(own("Unknown file"))),
        }
    } else if same(&form.action, "select_all") {
        let ghost changed = |g: SeriesGroupView|
            SeriesGroupView { files: g.files.map_values(chosen_or_not(true)), ..g };
        let change = |g: SeriesGroup| -> (o: SeriesGroup)
            ensures o@ == changed(g@)
            { set_all(g, true) };
        change_group(session, idx, change, Ghost(changed))
    } else if same(&form.action, "select_none") {
        let ghost changed = |g: SeriesGroupView|
            SeriesGroupView { files: g.files.map_values(chosen_or_not(false)), ..g };
        let change = |g: SeriesGroup| -> (o: SeriesGroup)
            ensures o@ == changed(g@)
            { set_all(g, false) };
        change_group(session, idx, change, Ghost(changed))
    } else {
        let mut message = own("Unknown action ");
        message.append(&form.action);
        GroupStep::Finished(Err(message))
    }
}


/// How a correction is answered.
#[derive(Debug)]
pub enum GroupReply {
    /// Go to this address.
    Redirect(String),
    /// Show this card in place of the old one.
    Card(GroupCard),
}

/// The contents of a [`GroupReply`].
#[verifier::ext_equal]
pub enum GroupReplyView {
    Redirect(Seq<char>),
    Card(GroupCardView),
}

impl View for GroupReply {
    type V = GroupReplyView;

    open spec fn view(&self) -> GroupReplyView {
        match self {
            GroupReply::Redirect(url) => GroupReplyView::Redirect(url@),
            GroupReply::Card(card) => GroupReplyView::Card(card@),
        }
    }
}

/// Where a correction goes that is for a scan that is unknown; nothing when
/// it can be made.
pub fn group_action_gate(known_session: bool, session_id: &str) -> (r: Option<String>)
    ensures
        known_session ==> r is None,
        !known_session ==> r is Some && r->0@ == url_of(session_id@),
{
    if known_session {
        None
    } else {
        Some(session_url(session_id))
    }
}

/// How a correction is answered once it is made or refused: a plain form goes
/// back to the card's place on the page, and a script gets the card, or goes
/// to the page when the scan or the series went meanwhile.
pub open spec fn group_reply(
    is_htmx: bool,
    session_id: Seq<char>,
    idx: usize,
    session: Option<ImportSessionView>,
    shown: GroupViewView,
    action_error: Seq<char>,
) -> GroupReplyView {
    if !is_htmx {
        GroupReplyView::Redirect(url_of(session_id) + "#import-group-"@ + decimal(idx as int))
    } else {
        match session {
            None => GroupReplyView::Redirect(url_of(session_id)),
            Some(s) => if idx < s.groups.len() {
                let g = s.groups[idx as int];
                GroupReplyView::Card(
                    card(idx, g, shown, duplicate_title(s.groups, g), action_error),
                )
            } else {
                GroupReplyView::Redirect(url_of(session_id))
            },
        }
    }
}

/// How a correction is answered. `shown` says what an import would do with
/// the series.
pub fn group_action(
    is_htmx: bool,
    session_id: &str,
    idx: usize,
    session: Option<&ImportSession>,
    shown: &GroupView,
    action_error: String,
) -> (r: GroupReply)
    ensures
        r@ == group_reply(
            is_htmx,
            session_id@,
            idx,
            optional_session(session),
            shown@,
            action_error@,
        ),
{
    if !is_htmx {
        let mut url = session_url(session_id);
        url.append("#import-group-");
        push_natural(&mut url, idx as u64);
        return GroupReply::Redirect(url);
    }
    match session {
        None => GroupReply::Redirect(session_url(session_id)),
        Some(s) => if idx < s.groups.len() {
            let g = &s.groups[idx];
            let firsts = duplicate_picks(&s.groups);
            let duplicate_of = duplicate_for(&firsts, g);
            proof {
                assert(s@.groups[idx as int] == g@);
                if let Some(id) = picked_id(g@) {
                    assert(firsts@.contains_key(id) <==> first_where(
                        s@.groups,
                        takes(id),
                    ) is Some);
                }
                assert(duplicate_of@ =~= duplicate_title(s@.groups, g@));
            }
            GroupReply::Card(build_card(idx, g, shown, duplicate_of, action_error))
        } else {
            GroupReply::Redirect(session_url(session_id))
        },
    }
}

/// The line that sums a preview up.
#[derive(Debug)]
pub struct SummaryStrip {
    pub session_id: String,
    pub root: String,
    pub mode: ImportMode,
    pub stats: WalkStats,
    pub summary: SessionSummary,
    pub oob: bool,
}

/// The contents of a [`SummaryStrip`].
#[verifier::ext_equal]
pub struct SummaryStripView {
    pub session_id: Seq<char>,
    pub root: Seq<char>,
    pub mode: ImportMode,
    pub stats: WalkStatsView,
    pub summary: SessionSummaryView,
    pub oob: bool,
}

impl View for SummaryStrip {
    type V = SummaryStripView;

    open spec fn view(&self) -> SummaryStripView {
        SummaryStripView {
            session_id: self.session_id@,
            root: self.root@,
            mode: self.mode,
            stats: self.stats@,
            summary: self.summary@,
            oob: self.oob,
        }
    }
}

impl Dup for SummaryStrip {
    fn dup(&self) -> (copy: Self) {
        SummaryStrip {
            session_id: self.session_id.clone(),
            root: self.root.clone(),
            mode: self.mode,
            stats: self.stats.dup(),
            summary: self.summary.dup(),
            oob: self.oob,
        }
    }
}

impl Clone for SummaryStrip {
    fn clone(&self) -> (copy: Self)
        ensures
            copy@ == self@,
    {
        self.dup()
    }
}

/// The bar that confirms an import.
#[derive(Debug)]
pub struct ConfirmBar {
    pub session_id: String,
    pub mode: ImportMode,
    pub summary: SessionSummary,
    pub oob: bool,
}

/// The contents of a [`ConfirmBar`].
#[verifier::ext_equal]
pub struct ConfirmBarView {
    pub session_id: Seq<char>,
    pub mode: ImportMode,
    pub summary: SessionSummaryView,
    pub oob: bool,
}

impl View for ConfirmBar {
    type V = ConfirmBarView;

    open spec fn view(&self) -> ConfirmBarView {
        ConfirmBarView {
            session_id: self.session_id@,
            mode: self.mode,
            summary: self.summary@,
            oob: self.oob,
        }
    }
}

impl Dup for ConfirmBar {
    fn dup(&self) -> (copy: Self) {
        ConfirmBar {
            session_id: self.session_id.clone(),
            mode: self.mode,
            summary: self.summary.dup(),
            oob: self.oob,
        }
    }
}

impl Clone for ConfirmBar {
    fn clone(&self) -> (copy: Self)
        ensures
            copy@ == self@,
    {
        self.dup()
    }
}

/// The two blocks that are sent along with a card, so that the totals follow
/// every correction.
pub fn oob_totals(session: &ImportSession, summary: &SessionSummary) -> (r: (
    SummaryStrip,
    ConfirmBar,
))
    ensures
        r.0@ == (SummaryStripView {
            session_id: session@.id,
            root: session@.root,
            mode: session@.mode,
            stats: session@.stats,
            summary: summary@,
            oob: true,
        }),
        r.1@ == (ConfirmBarView {
            session_id: session@.id,
            mode: session@.mode,
            summary: summary@,
            oob: true,
        }),
{
    (
        SummaryStrip {
            session_id: session.id.clone(),
            root: session.root.clone(),
            mode: session.mode,
            stats: session.stats.dup(),
            summary: summary.dup(),
            oob: true,
        },
        ConfirmBar {
            session_id: session.id.clone(),
            mode: session.mode,
            summary: summary.dup(),
            oob: true,
        },
    )
}

/// What a search found; the message when it failed.
pub open spec fn found(search: Result<Vec<AnimeEntry>, String>) -> Result<
    Seq<AnimeEntryView>,
    Seq<char>,
> {
    match search {
        Ok(hits) => Ok(views(hits@)),
        Err(e) => Err(e@),
    }
}

/// The hits of a search, the picked title marked.
pub open spec fn hit_rows(hits: Seq<AnimeEntryView>, current: Option<i64>) -> Seq<
    CandidateViewView,
> {
    Seq::new(
        hits.len(),
        |i: int| candidate(i as usize, hits[i], current == Some(hits[i].id)),
    )
}

/// The picker's list.
pub open spec fn picker_list(
    idx: usize,
    query: Seq<char>,
    group: Option<SeriesGroupView>,
    search: Result<Seq<AnimeEntryView>, Seq<char>>,
) -> PickerCtxView {
    match group {
        None => PickerCtxView {
            idx,
            query,
            picker_rows: Seq::empty(),
            picker_error: "This preview has expired. Start a new scan."@,
        },
        Some(g) => if query.len() == 0 {
            PickerCtxView { idx, query, picker_rows: rows_of(g), picker_error: Seq::empty() }
        } else {
            match search {
                Ok(hits) => PickerCtxView {
                    idx,
                    query,
                    picker_rows: hit_rows(hits, picked_id(g)),
                    picker_error: Seq::empty(),
                },
                Err(e) => PickerCtxView {
                    idx,
                    query,
                    picker_rows: Seq::empty(),
                    picker_error: "Search failed: "@ + e,
                },
            }
        },
    }
}

/// What is searched for, without the space around it.
pub fn picker_query(q: &PickerQuery) -> (r: String)
    ensures
        r@ == trimmed(q.q@),
{
    trim(&q.q)
}

pub open spec fn optional_group(g: Option<&SeriesGroup>) -> Option<SeriesGroupView> {
    match g {
        Some(g) => Some(g@),
        None => None,
    }
}

/// The picker's list: the candidates of the series, or where something is
/// searched for what the search found. `search` counts only then.
pub fn picker_candidates(
    idx: usize,
    query: String,
    group: Option<&SeriesGroup>,
    search: Result<Vec<AnimeEntry>, String>,
) -> (r: PickerCtx)
    ensures
        r@ == picker_list(idx, query@, optional_group(group), found(search)),
{
    let g = match group {
        None => {
            let r = PickerCtx {
                idx,
                query,
                picker_rows: Vec::new(),
                picker_error: own("This preview has expired. Start a new scan."),
            };
            assert(r@.picker_rows =~= Seq::<CandidateViewView>::empty());
            return r;
        },
        Some(g) => g,
    };
    if query.as_str().is_empty() {
        return PickerCtx {
            idx,
            query,
            picker_rows: picker_rows(g),
            picker_error: String::new(),
        };
    }
    match search {
        Ok(hits) => {
            let current = id_of_pick(g);
            let ghost all = hit_rows(views(hits@), current);
            let mut rows: Vec<CandidateView> = Vec::new();
            let mut i: usize = 0;
            while i < hits.len()
                invariant
                    i <= hits.len(),
                    all == hit_rows(views(hits@), current),
                    views(rows@) == all.take(i as int),
                decreases hits.len() - i,
            {
                let mut v = candidate_view(i, &hits[i]);
                v.is_current = current == Some(hits[i].id);
                let ghost had = rows@;
                rows.push(v);
                proof {
                    assert(views(hits@)[i as int] == hits[i as int]@);
                    crate::table::lemma_views_push(had, v);
                    assert(views(rows@) =~= all.take(i + 1));
                }
                i += 1;
            }
            assert(all.take(i as int) =~= all);
            PickerCtx { idx, query, picker_rows: rows, picker_error: String::new() }
        },
        Err(e) => {
            let mut message = own("Search failed: ");
            message.append(&e);
            let r = PickerCtx { idx, query, picker_rows: Vec::new(), picker_error: message };
            assert(r@.picker_rows =~= Seq::<CandidateViewView>::empty());
            r
        },
    }
}

/// What a confirmation leads to.
#[derive(Debug)]
pub enum ConfirmStep {
    /// Go to this address.
    Redirect(String),
    /// Show the preview again with this message.
    Refuse(String),
    /// Start the import.
    Start,
}

/// The contents of a [`ConfirmStep`].
#[verifier::ext_equal]
pub enum ConfirmStepView {
    Redirect(Seq<char>),
    Refuse(Seq<char>),
    Start,
}

impl View for ConfirmStep {
    type V = ConfirmStepView;

    open spec fn view(&self) -> ConfirmStepView {
        match self {
            ConfirmStep::Redirect(url) => ConfirmStepView::Redirect(url@),
            ConfirmStep::Refuse(message) => ConfirmStepView::Refuse(message@),
            ConfirmStep::Start => ConfirmStepView::Start,
        }
    }
}

/// What a confirmation leads to: a scan that is unknown or not ready goes to
/// its page; without a media root, or with nothing to write, the import is
/// refused.
pub open spec fn confirm_outcome(
    session: Option<ImportSessionView>,
    session_id: Seq<char>,
    media_root: Seq<char>,
    writes: usize,
) -> ConfirmStepView {
    match session {
        None => ConfirmStepView::Redirect(url_of(session_id)),
        Some(s) => if s.status != SessionStatusView::Ready {
            ConfirmStepView::Redirect(url_of(session_id))
        } else if media_root.len() == 0 {
            ConfirmStepView::Refuse("Set a media root under Settings before importing."@)
        } else if writes == 0 {
            ConfirmStepView::Refuse(
                "Nothing to import: every file is excluded, already present, or unmatched."@,
            )
        } else {
            ConfirmStepView::Start
        },
    }
}

/// What a confirmation leads to; `writes` says how many files the import
/// would write.
pub fn confirm(
    session: Option<&ImportSession>,
    session_id: &str,
    media_root: &str,
    writes: usize,
) -> (r: ConfirmStep)
    ensures
        r@ == confirm_outcome(optional_session(session), session_id@, media_root@, writes),
{
    let ready: bool = match session {
        None => false,
        Some(s) => match &s.status {
            SessionStatus::Ready => true,
            _ => false,
        },
    };
    if !ready {
        ConfirmStep::Redirect(session_url(session_id))
    } else if media_root.is_empty() {
        ConfirmStep::Refuse(own("Set a media root under Settings before importing."))
    } else if writes == 0 {
        ConfirmStep::Refuse(
            own("Nothing to import: every file is excluded, already present, or unmatched."),
        )
    } else {
        ConfirmStep::Start
    }
}

/// Tells a running import to stop. Does nothing to any other scan.
pub fn cancel(session: &mut ImportSession)
    ensures
        final(session)@ == (ImportSessionView {
            cancel: old(session)@.cancel || old(session)@.status == SessionStatusView::Importing,
            ..old(session)@
        }),
        old(session)@.status == SessionStatusView::Importing ==> final(session)@.cancel,
        old(session)@.status != SessionStatusView::Importing ==> final(session)@ == old(session)@,
        same_scan(final(session)@, (ImportSessionView { cancel: final(session)@.cancel, ..old(session)@ })),
        final(session)@.groups == old(session)@.groups,
{
    let running: bool = match &session.status {
        SessionStatus::Importing => true,
        _ => false,
    };
    if running {
        session.cancel = true;
    }
}

pub open spec fn is_session(id: Seq<char>) -> spec_fn(ImportSessionView) -> bool {
    |s: ImportSessionView| s.id == id
}

/// Forgets a scan.
pub fn discard(sessions: &mut Vec<ImportSession>, session_id: &str)
    ensures
        views(final(sessions)@) == without(views(old(sessions)@), is_session(session_id@)),
{
    let test = |s: &ImportSession| -> (b: bool)
        ensures b == is_session(session_id@)(s@)
        { same(&s.id, session_id) };
    let _n: usize = delete_where(sessions, test, Ghost(is_session(session_id@)));
}

/// The scan with this id.
pub fn get_session(sessions: &Vec<ImportSession>, session_id: &str) -> (r: Option<ImportSession>)
    ensures
        held_session(r) == first_where(views(sessions@), is_session(session_id@)),
{
    let test = |s: &ImportSession| -> (b: bool)
        ensures b == is_session(session_id@)(s@)
        { same(&s.id, session_id) };
    match position(sessions, test, Ghost(is_session(session_id@))) {
        Some(i) => Some(sessions[i].dup()),
        None => None,
    }
}

/// A folder lies under itself: the media root is refused like everything in
/// it.
pub proof fn a_folder_lies_under_itself(path: Seq<char>)
    ensures
        lies_under(path, path),
{
    assert(steps(path).take(steps(path).len() as int) =~= steps(path));
}

/// Lying under carries over: what is inside a folder that is inside the media
/// root is inside the media root.
pub proof fn lying_under_carries_over(a: Seq<char>, b: Seq<char>, c: Seq<char>)
    requires
        lies_under(a, b),
        lies_under(b, c),
    ensures
        lies_under(a, c),
{
    let n = steps(c).len() as int;
    assert(steps(a).take(n) =~= steps(a).take(steps(b).len() as int).take(n));
}

/// A scan that starts has an absolute path and lies outside the media root.
pub proof fn a_started_scan_lies_outside_the_media_root(
    form: StartFormView,
    media_root: Seq<char>,
    facts: PathFactsView,
    session_id: Seq<char>,
)
    requires
        start_outcome(form, media_root, facts, session_id) is Ok,
    ensures
        ({
            let s = start_outcome(form, media_root, facts, session_id)->Ok_0;
            &&& media_root.len() > 0
            &&& s.root == trimmed(form.path)
            &&& s.root.len() > 0 && s.root[0] == '/'
            &&& facts.is_dir
            &&& !lies_under(facts.canonical_root, facts.canonical_media)
            &&& s.status == SessionStatusView::Scanning
        }),
{
}

/// Turning a file's tick round twice leaves the group as it was.
pub proof fn toggling_twice_changes_nothing(g: SeriesGroupView, file: usize)
    ensures
        toggled(toggled(g, file), file) == g,
{
    assert(toggled(toggled(g, file), file).files =~= g.files);
}

/// A correction that is refused leaves the scan as it was, and so does one
/// that asks a provider first.
pub proof fn only_a_finished_correction_changes_the_scan(
    session: Option<ImportSessionView>,
    idx: usize,
    form: GroupActionFormView,
)
    ensures
        ({
            let (after, step) = corrected(session, idx, form);
            step != GroupStepView::Finished(Ok(())) ==> after == session
        }),
{
}

/// A correction to one series leaves the others as they were.
pub proof fn a_correction_touches_one_series(
    session: ImportSessionView,
    idx: usize,
    form: GroupActionFormView,
)
    ensures
        ({
            let after = corrected(Some(session), idx, form).0;
            &&& after is Some
            &&& after->0.groups.len() == session.groups.len()
            &&& forall|i: int|
                0 <= i < session.groups.len() && i != idx ==> (#[trigger] after->0.groups[i])
                    == session.groups[i]
            &&& after->0.status == session.status
            &&& after->0.id == session.id
        }),
{
}

/// The only row marked in the picker is the picked one.
pub proof fn the_picked_row_is_the_marked_one(g: SeriesGroupView, i: int)
    requires
        0 <= i < g.candidates.len() <= usize::MAX,
    ensures
        rows_of(g)[i].is_current <==> g.pick == Some(i as usize),
        rows_of(g)[i].id == g.candidates[i].id,
{
}

/// A series is never named as its own duplicate, and a skipped one never has
/// any.
pub proof fn a_duplicate_is_another_series(groups: Seq<SeriesGroupView>, g: SeriesGroupView)
    ensures
        g.skipped ==> duplicate_title(groups, g).len() == 0,
        duplicate_title(groups, g).len() > 0 ==> duplicate_title(groups, g) != g.parsed_title,
{
}

/// Whether two groups differ at most in being skipped.
pub open spec fn alike_but_for_skipping(a: SeriesGroupView, b: SeriesGroupView) -> bool {
    a.parsed_title == b.parsed_title && a.season == b.season && a.year == b.year && a.query
        == b.query && a.files == b.files && a.total_bytes == b.total_bytes && a.candidates
        == b.candidates && a.pick == b.pick && a.low_confidence == b.low_confidence
        && a.search_error == b.search_error && a.existing == b.existing
}

/// Skipping a series, or taking it up again, changes nothing of the group but
/// whether it is skipped: the pick, the files and the rest stay.
pub proof fn skipping_changes_nothing_else(
    session: ImportSessionView,
    idx: usize,
    form: GroupActionFormView,
)
    requires
        idx < session.groups.len(),
        form.action == "skip"@ || form.action == "unskip"@,
    ensures
        ({
            let (after, step) = corrected(Some(session), idx, form);
            &&& step == GroupStepView::Finished(Ok(()))
            &&& after matches Some(s)
            &&& s.groups.len() == session.groups.len()
            &&& alike_but_for_skipping(s.groups[idx as int], session.groups[idx as int])
            &&& form.action == "skip"@ ==> s.groups[idx as int].skipped
            &&& form.action == "unskip"@ ==> !s.groups[idx as int].skipped
            &&& forall|i: int|
                0 <= i < session.groups.len() && i != idx ==> #[trigger] s.groups[i]
                    == session.groups[i]
            &&& same_scan(s, session)
        }),
{
    reveal_strlit("skip");
    reveal_strlit("unskip");
    assert("skip"@.len() != "unskip"@.len());
}

/// Whether two states of a scan differ at most in their groups.
pub open spec fn same_scan(a: ImportSessionView, b: ImportSessionView) -> bool {
    a.id == b.id && a.root == b.root && a.mode == b.mode && a.follow_symlinks
        == b.follow_symlinks && a.include_hidden == b.include_hidden && a.status == b.status
        && a.unmatched_files == b.unmatched_files && a.stats == b.stats && a.cross_fs
        == b.cross_fs && a.cancel == b.cancel
}

/// A series that is skipped and taken up again is as it was, its pick
/// included.
pub proof fn taking_up_a_skipped_series_undoes_the_skip(
    session: ImportSessionView,
    idx: usize,
    skip: GroupActionFormView,
    unskip: GroupActionFormView,
)
    requires
        idx < session.groups.len(),
        !session.groups[idx as int].skipped,
        skip.action == "skip"@,
        unskip.action == "unskip"@,
    ensures
        corrected(corrected(Some(session), idx, skip).0, idx, unskip).0 == Some(session),
        corrected(corrected(Some(session), idx, skip).0, idx, unskip).1 == GroupStepView::Finished(
            Ok(()),
        ),
{
    skipping_changes_nothing_else(session, idx, skip);
    let mid = corrected(Some(session), idx, skip).0->0;
    skipping_changes_nothing_else(mid, idx, unskip);
    let end = corrected(Some(mid), idx, unskip).0->0;
    assert(end.groups[idx as int] == session.groups[idx as int]);
    assert(end.groups =~= session.groups);
    assert(end == session);
}

/// Ticking one file turns that file round and nothing else.
pub proof fn ticking_a_file_turns_it_round(
    session: ImportSessionView,
    idx: usize,
    form: GroupActionFormView,
    file: usize,
)
    requires
        idx < session.groups.len(),
        form.action == "toggle_file"@,
        form.file == Some(file),
    ensures
        ({
            let (after, step) = corrected(Some(session), idx, form);
            let had = session.groups[idx as int];
            &&& step == GroupStepView::Finished(Ok(()))
            &&& after matches Some(s)
            &&& same_scan(s, session)
            &&& s.groups[idx as int].files.len() == had.files.len()
            &&& s.groups[idx as int] == (SeriesGroupView {
                files: s.groups[idx as int].files,
                ..had
            })
            &&& forall|i: int|
                0 <= i < had.files.len() ==> {
                    let f = #[trigger] s.groups[idx as int].files[i];
                    &&& f.selected == (if i == file {
                        !had.files[i].selected
                    } else {
                        had.files[i].selected
                    })
                    &&& f == (CandidateFileView { selected: f.selected, ..had.files[i] })
                }
        }),
{
    lemma_actions_differ();
}

/// Ticking every file, or none, sets each file so and changes nothing else.
pub proof fn ticking_all_sets_every_file(
    session: ImportSessionView,
    idx: usize,
    form: GroupActionFormView,
)
    requires
        idx < session.groups.len(),
        form.action == "select_all"@ || form.action == "select_none"@,
    ensures
        ({
            let (after, step) = corrected(Some(session), idx, form);
            let had = session.groups[idx as int];
            &&& step == GroupStepView::Finished(Ok(()))
            &&& after matches Some(s)
            &&& same_scan(s, session)
            &&& s.groups[idx as int].files.len() == had.files.len()
            &&& s.groups[idx as int] == (SeriesGroupView {
                files: s.groups[idx as int].files,
                ..had
            })
            &&& forall|i: int|
                0 <= i < had.files.len() ==> {
                    let f = #[trigger] s.groups[idx as int].files[i];
                    &&& f.selected <==> form.action == "select_all"@
                    &&& f == (CandidateFileView { selected: f.selected, ..had.files[i] })
                }
        }),
{
    lemma_actions_differ();
}

/// The names of the corrections are different texts.
proof fn lemma_actions_differ()
    ensures
        "skip"@.len() == 4,
        "unskip"@.len() == 6,
        "pick"@.len() == 4,
        "unpick"@.len() == 6,
        "pick_id"@.len() == 7,
        "research"@.len() == 8,
        "toggle_file"@.len() == 11,
        "select_all"@.len() == 10,
        "select_none"@.len() == 11,
        "skip"@ != "pick"@,
        "unskip"@ != "unpick"@,
        "toggle_file"@ != "select_none"@,
{
    reveal_strlit("skip");
    reveal_strlit("unskip");
    reveal_strlit("pick");
    reveal_strlit("unpick");
    reveal_strlit("pick_id");
    reveal_strlit("research");
    reveal_strlit("toggle_file");
    reveal_strlit("select_all");
    reveal_strlit("select_none");
    assert("skip"@[0] != "pick"@[0]);
    assert("unskip"@[2] != "unpick"@[2]);
    assert("toggle_file"@[0] != "select_none"@[0]);
}

/// A correction that needs a provider says which one is asked for, with what
/// the form holds, and one without its choice is refused.
pub proof fn a_pick_asks_for_what_was_chosen(
    session: Option<ImportSessionView>,
    idx: usize,
    form: GroupActionFormView,
)
    ensures
        ({
            let step = corrected(session, idx, form).1;
            &&& form.action == "pick"@ ==> (match form.candidate {
                Some(c) => step == GroupStepView::PickCandidate(Some(c)),
                None => step == GroupStepView::Finished(Err("Pick a series"@)),
            })
            &&& form.action == "unpick"@ ==> step == GroupStepView::PickCandidate(None)
            &&& form.action == "pick_id"@ ==> (match form.id {
                Some(id) => step == GroupStepView::PickById(id),
                None => step == GroupStepView::Finished(Err("Pick a series"@)),
            })
            &&& form.action == "research"@ ==> step == GroupStepView::Research(form.query)
            &&& form.action == "toggle_file"@ && form.file is None ==> step
                == GroupStepView::Finished(Err("Unknown file"@))
        }),
{
    lemma_actions_differ();
}

/// A correction of a scan that is gone, or of a series that the scan does not
/// have, is refused, and so is one that is not known.
pub proof fn a_correction_needs_its_scan_and_series(
    session: Option<ImportSessionView>,
    idx: usize,
    form: GroupActionFormView,
)
    ensures
        ({
            let step = corrected(session, idx, form).1;
            let direct = form.action == "skip"@ || form.action == "unskip"@ || form.action
                == "select_all"@ || form.action == "select_none"@ || (form.action == "toggle_file"@
                && form.file is Some);
            &&& direct && session is None ==> step == GroupStepView::Finished(
                Err("Preview session not found"@),
            )
            &&& direct && session is Some && idx >= (session->0).groups.len() ==> step
                == GroupStepView::Finished(Err("Unknown series in this preview"@))
            &&& !direct && form.action != "pick"@ && form.action != "unpick"@ && form.action
                != "pick_id"@ && form.action != "research"@ && form.action != "toggle_file"@ ==> step
                == GroupStepView::Finished(Err("Unknown action "@ + form.action))
        }),
{
    lemma_actions_differ();
}

/// The format of an entry is shown by its usual name, in whatever case it came.
pub proof fn a_format_is_shown_by_its_name(format: Seq<char>)
    ensures
        format.len() == 0 ==> displayed_format(format) == "TBA"@,
        uppered(format) == "TV_SHORT"@ ==> displayed_format(format) == "TV Short"@,
        uppered(format) == "MOVIE"@ ==> displayed_format(format) == "Movie"@,
        uppered(format) == "SPECIAL"@ ==> displayed_format(format) == "Special"@,
        uppered(format) == "MUSIC"@ ==> displayed_format(format) == "Music"@,
        uppered(format) == "TV"@ ==> displayed_format(format) == "TV"@,
        uppered(format) == "OVA"@ ==> displayed_format(format) == "OVA"@,
        uppered(format) == "ONA"@ ==> displayed_format(format) == "ONA"@,
{
    reveal_strlit("");
    reveal_strlit("TV_SHORT");
    reveal_strlit("MOVIE");
    reveal_strlit("SPECIAL");
    reveal_strlit("MUSIC");
    reveal_strlit("TV");
    reveal_strlit("OVA");
    reveal_strlit("ONA");
    assert("TV_SHORT"@.len() == 8);
    assert("SPECIAL"@.len() == 7);
    assert("MOVIE"@.len() == 5 && "MUSIC"@.len() == 5 && "MOVIE"@[1] != "MUSIC"@[1]);
    assert("TV"@.len() == 2 && "OVA"@.len() == 3 && "ONA"@.len() == 3);
    assert(""@.len() == 0);
    if format.len() == 0 {
        assert(uppered(format) =~= ""@);
    }
}

/// The second title of a candidate is not its title. It is missing only where
/// no other title is there, and the English one goes before the romanised one,
/// which goes before the native one.
pub proof fn the_second_title_is_another_one(e: AnimeEntryView)
    ensures
        second_title(e).len() > 0 ==> second_title(e) != e.title,
        second_title(e).len() == 0 ==> (e.title_english.len() == 0 || e.title_english == e.title)
            && (e.title_romaji.len() == 0 || e.title_romaji == e.title) && (
        e.title_native.len() == 0 || e.title_native == e.title),
        e.title_english.len() > 0 && e.title_english != e.title ==> second_title(e)
            == e.title_english,
        (e.title_english.len() == 0 || e.title_english == e.title) && e.title_romaji.len() > 0
            && e.title_romaji != e.title ==> second_title(e) == e.title_romaji,
        second_title(e).len() > 0 ==> second_title(e) == e.title_english || second_title(e)
            == e.title_romaji || second_title(e) == e.title_native,
{
}

/// A candidate is shown with its own titles, cover and numbers, and with a
/// link to the provider that knows it.
pub proof fn a_candidate_shows_its_entry(index: usize, e: AnimeEntryView, current: bool)
    ensures
        ({
            let v = candidate(index, e, current);
            &&& v.index == index && v.id == e.id && v.title == e.title && v.cover_url
                == e.cover_url && v.is_current == current
            &&& v.subtitle != e.title || v.subtitle.len() == 0
            &&& e.id > 0 ==> v.external_href == "https://anilist.co/anime/"@ + decimal(
                e.id as int,
            )
            &&& e.id <= 0 && e.id_mal is Some ==> v.external_href
                == "https://myanimelist.net/anime/"@ + decimal(e.id_mal->0 as int)
            &&& e.id <= 0 && e.id_mal is None ==> v.external_href.len() == 0
            &&& e.season_year is None ==> v.year.len() == 0
            &&& e.season_year is Some ==> v.year == decimal(e.season_year->0 as int)
            &&& e.episodes is None ==> v.episodes == "? ep"@
            &&& e.episodes is Some ==> v.episodes == decimal(e.episodes->0 as int) + " ep"@
            &&& e.source == "mal"@ ==> v.source_label == "MAL"@
            &&& e.source != "mal"@ ==> v.source_label == "AniList"@
        }),
{
}

/// A card shows its group, the files and counts that were worked out for it,
/// and the pick where there is one.
pub proof fn a_card_shows_its_group(
    idx: usize,
    g: SeriesGroupView,
    v: GroupViewView,
    duplicate_of: Seq<char>,
    action_error: Seq<char>,
)
    ensures
        ({
            let c = card(idx, g, v, duplicate_of, action_error);
            &&& c.idx == idx && c.parsed_title == g.parsed_title && c.query == g.query
            &&& c.size_bytes == g.total_bytes && c.low_confidence == g.low_confidence && c.skipped
                == g.skipped
            &&& c.kind == v.kind && c.kind_label == v.kind_label && c.files == v.files && c.counts
                == v.counts
            &&& c.duplicate_of == duplicate_of && c.action_error == action_error
            &&& c.picker_rows.len() == g.candidates.len()
            &&& g.files.len() <= usize::MAX ==> c.file_count == g.files.len()
            &&& c.season_label == (if g.season is Some && g.season->0 > 1 {
                "Season "@ + decimal(g.season->0 as int)
            } else {
                Seq::<char>::empty()
            })
            &&& g.year is Some ==> c.year_label == decimal(g.year->0 as int)
            &&& g.year is None ==> c.year_label.len() == 0
            &&& c.title_from_folder <==> exists|i: int|
                0 <= i < g.files.len() && (#[trigger] g.files[i]).title_from_folder
            &&& c.pick is Some <==> g.pick is Some && g.pick->0 < g.candidates.len()
            &&& c.pick is Some ==> (c.pick->0).id == g.candidates[g.pick->0 as int].id && (
            c.pick->0).title == g.candidates[g.pick->0 as int].title
            &&& g.search_error is Some ==> c.search_error == g.search_error->0
            &&& g.search_error is None ==> c.search_error.len() == 0
            &&& g.existing is Some ==> c.existing_title == (g.existing->0).title
                && c.existing_anilist_id == (g.existing->0).anilist_id
            &&& g.existing is None ==> c.existing_title.len() == 0 && c.existing_anilist_id == 0
        }),
{
}

/// A series that is taken twice is named by the first group that takes it: the
/// first one that is not skipped and picks the same entry.
pub proof fn a_duplicate_names_the_first_that_takes_the_entry(
    groups: Seq<SeriesGroupView>,
    i: int,
    j: int,
)
    requires
        0 <= i < groups.len(),
        0 <= j < groups.len(),
        !groups[j].skipped,
        groups[j].pick is Some,
        groups[j].pick->0 < groups[j].candidates.len(),
        !groups[i].skipped,
        groups[i].pick is Some,
        groups[i].pick->0 < groups[i].candidates.len(),
        groups[i].candidates[groups[i].pick->0 as int].id
            == groups[j].candidates[groups[j].pick->0 as int].id,
        forall|k: int|
            0 <= k < i && !(#[trigger] groups[k]).skipped && groups[k].pick is Some
                && groups[k].pick->0 < groups[k].candidates.len()
                ==> groups[k].candidates[groups[k].pick->0 as int].id
                != groups[j].candidates[groups[j].pick->0 as int].id,
    ensures
        groups[i].parsed_title != groups[j].parsed_title ==> duplicate_title(groups, groups[j])
            == groups[i].parsed_title,
        groups[i].parsed_title == groups[j].parsed_title ==> duplicate_title(
            groups,
            groups[j],
        ).len() == 0,
{
    let id = groups[j].candidates[groups[j].pick->0 as int].id;
    crate::table::lemma_first_where(groups, takes(id), i);
}

/// The import mode is read in any case and with white space round it; nothing
/// else is a mode.
pub proof fn a_mode_is_read_by_its_name(s: Seq<char>)
    ensures
        lowered(trimmed(s)) == "hardlink"@ <==> parsed_mode(s) == Some(ImportMode::Hardlink),
        lowered(trimmed(s)) == "copy"@ <==> parsed_mode(s) == Some(ImportMode::Copy),
        lowered(trimmed(s)) == "move"@ <==> parsed_mode(s) == Some(ImportMode::Move),
{
    reveal_strlit("hardlink");
    reveal_strlit("copy");
    reveal_strlit("move");
    assert("hardlink"@.len() == 8 && "copy"@.len() == 4 && "move"@.len() == 4);
    assert("copy"@[0] != "move"@[0]);
}

/// A box of the form is ticked where it says so, and only there.
pub proof fn a_box_is_ticked_by_its_value(v: Option<Seq<char>>)
    ensures
        v is None ==> !switched_on(v),
        v is Some ==> (switched_on(v) <==> v->0 == "1"@ || v->0 == "on"@ || v->0 == "true"@),
{
}

/// A scan starts exactly where there is a media root and the form names an
/// absolute folder outside it that can be read, in a known mode or in none.
/// It starts empty, with what the form says.
pub proof fn a_scan_starts_with_what_the_form_says(
    form: StartFormView,
    media_root: Seq<char>,
    facts: PathFactsView,
    session_id: Seq<char>,
)
    ensures
        ({
            let r = start_outcome(form, media_root, facts, session_id);
            let path = trimmed(form.path);
            let mode = lowered(trimmed(form.mode));
            &&& r is Ok <==> media_root.len() > 0 && path.len() > 0 && path[0] == '/'
                && facts.is_dir && !lies_under(facts.canonical_root, facts.canonical_media) && (
            trimmed(form.mode).len() == 0 || mode == "hardlink"@ || mode == "copy"@ || mode
                == "move"@)
            &&& r matches Ok(s) ==> {
                &&& s.id == session_id && s.root == path
                &&& trimmed(form.mode).len() == 0 || mode == "hardlink"@ ==> s.mode
                    == ImportMode::Hardlink
                &&& trimmed(form.mode).len() > 0 && mode == "copy"@ ==> s.mode == ImportMode::Copy
                &&& trimmed(form.mode).len() > 0 && mode == "move"@ ==> s.mode == ImportMode::Move
                &&& s.follow_symlinks == switched_on(form.follow_symlinks)
                &&& s.include_hidden == switched_on(form.include_hidden)
                &&& s.status == SessionStatusView::Scanning
                &&& s.groups.len() == 0 && s.unmatched_files.len() == 0
                &&& s.stats.files == 0 && s.stats.skipped_non_video == 0 && s.stats.total_bytes
                    == 0
                &&& s.cross_fs is None && !s.cancel
            }
            &&& media_root.len() == 0 ==> r == Err::<ImportSessionView, Seq<char>>(
                "Set a media root under Settings before importing. Imported files are placed under it."@,
            )
            &&& media_root.len() > 0 && path.len() == 0 ==> r == Err::<
                ImportSessionView,
                Seq<char>,
            >("Enter the folder to scan."@)
            &&& media_root.len() > 0 && path.len() > 0 && path[0] != '/' ==> r == Err::<
                ImportSessionView,
                Seq<char>,
            >("Enter an absolute path, for example /mnt/anime."@)
            &&& media_root.len() > 0 && path.len() > 0 && path[0] == '/' && !facts.is_dir ==> r
                == Err::<ImportSessionView, Seq<char>>(
                path
                    + " is not a folder Ryokan can read. Check the path, and if Ryokan runs in Docker make sure the folder is mounted into the container."@,
            )
            &&& media_root.len() > 0 && path.len() > 0 && path[0] == '/' && facts.is_dir
                && lies_under(facts.canonical_root, facts.canonical_media) ==> r == Err::<
                ImportSessionView,
                Seq<char>,
            >(
                path + " is inside your Ryokan media root ("@ + media_root
                    + "). Ryokan already tracks files there; point the wizard at a folder outside it."@,
            )
        }),
{
    a_mode_is_read_by_its_name(form.mode);
    reveal_strlit("hardlink");
    reveal_strlit("copy");
    reveal_strlit("move");
    assert("hardlink"@.len() == 8 && "copy"@.len() == 4 && "move"@.len() == 4);
    assert("copy"@[0] != "move"@[0]);
}

/// The form is shown again as it was filled in.
pub proof fn the_form_is_shown_as_it_was_filled_in(form: StartFormView)
    ensures
        ({
            let e = echoed(form);
            let mode = lowered(trimmed(form.mode));
            &&& e.path == trimmed(form.path)
            &&& e.mode == (if mode == "copy"@ || mode == "move"@ {
                mode
            } else {
                "hardlink"@
            })
            &&& e.follow_symlinks == switched_on(form.follow_symlinks)
            &&& e.include_hidden == switched_on(form.include_hidden)
        }),
{
    a_mode_is_read_by_its_name(form.mode);
}

/// A start that is refused shows the start page with the reason and the form;
/// one that is not begins the scan.
pub proof fn a_refused_start_shows_why(
    ctx: RenderContextView,
    form: StartFormView,
    facts: PathFactsView,
    session_id: Seq<char>,
    recent: Seq<RecentViewView>,
)
    ensures
        match start_outcome(form, ctx.media_root, facts, session_id) {
            Ok(s) => started(ctx, form, facts, session_id, recent) == StartStepView::Begin(s),
            Err(m) => {
                &&& started(ctx, form, facts, session_id, recent) matches StartStepView::Show(p)
                &&& p.error == m && p.recent == recent && p.form == echoed(form)
                &&& p.step == "start"@ && p.page == "system"@ && p.tab == "import"@
                &&& p.title_language == ctx.title_pref && p.media_root == ctx.media_root
                &&& p.groups.len() == 0 && p.session_id.len() == 0 && p.notice.len() == 0
            },
        },
{
}

/// The page shows the step that the scan is at, and of the scan what belongs
/// to that step.
pub proof fn the_page_shows_the_step_of_the_scan(
    ctx: RenderContextView,
    id: Seq<char>,
    session: Option<ImportSessionView>,
    shown: Seq<GroupViewView>,
    summary: SessionSummaryView,
    recent: Seq<RecentViewView>,
    notice: Seq<char>,
)
    ensures
        ({
            let p = page_of(ctx, id, session, shown, summary, recent, notice);
            &&& p.page == "system"@ && p.tab == "import"@ && p.title_language == ctx.title_pref
                && p.media_root == ctx.media_root && !p.oob
            &&& p.form.path.len() == 0 && p.form.mode == "hardlink"@ && !p.form.follow_symlinks
                && !p.form.include_hidden
            &&& id.len() == 0 ==> p.step == "start"@ && p.recent == recent && p.error.len() == 0
                && p.notice.len() == 0
            &&& id.len() > 0 && session is None ==> p.step == "start"@ && p.recent == recent
                && p.error == "That preview has expired. Start a new scan."@
            &&& id.len() > 0 && session is Some ==> {
                let s = session->0;
                &&& p.session_id == s.id && p.root == s.root && p.mode == s.mode
                    && p.follow_symlinks == s.follow_symlinks && p.include_hidden
                    == s.include_hidden && p.notice == notice && p.error.len() == 0
                    && p.recent.len() == 0
                &&& s.status is Scanning ==> p.step == "scanning"@ && p.progress_id == s.id
                &&& s.status is Importing ==> p.step == "importing"@ && p.progress_id == s.id
                    + "-import"@
                &&& s.status matches SessionStatusView::Done(r) ==> p.step == "done"@ && p.report
                    == r
                &&& s.status matches SessionStatusView::Failed(m) ==> p.step == "failed"@
                    && p.failed_message == m
                &&& s.status is Ready ==> {
                    &&& p.step == "ready"@ && p.summary == summary && p.stats == s.stats
                    &&& p.groups.len() == s.groups.len()
                    &&& p.unmatched.len() == s.unmatched_files.len()
                    &&& p.cross_fs_warning <==> s.mode == ImportMode::Hardlink && s.cross_fs
                        == Some(true)
                    &&& forall|i: int|
                        0 <= i < s.groups.len() ==> (#[trigger] p.groups[i]).parsed_title
                            == s.groups[i].parsed_title && p.groups[i].idx == i as usize
                            && p.groups[i].files == shown[i].files && p.groups[i].duplicate_of
                            == duplicate_title(s.groups, s.groups[i])
                    &&& forall|i: int|
                        0 <= i < s.unmatched_files.len() ==> (#[trigger] p.unmatched[i]).rel_path
                            == s.unmatched_files[i].rel_path && p.unmatched[i].episode_label
                            == s.unmatched_files[i].episode_label && p.unmatched[i].quality_label
                            == s.unmatched_files[i].quality_label && p.unmatched[i].size_bytes
                            == s.unmatched_files[i].size_bytes
                }
                &&& s.status !is Ready ==> p.groups.len() == 0 && !p.cross_fs_warning
            }
        }),
{
}

/// The list of earlier scans has each of them, with its folder and where it
/// stands.
pub proof fn earlier_scans_are_listed_with_their_status(sessions: Seq<ImportSessionView>, i: int)
    requires
        0 <= i < sessions.len(),
    ensures
        ({
            let rows = sessions.map_values(recent_row());
            &&& rows.len() == sessions.len()
            &&& rows[i].id == sessions[i].id && rows[i].root == sessions[i].root
            &&& rows[i].status == (match sessions[i].status {
                SessionStatusView::Scanning => "Scanning"@,
                SessionStatusView::Ready => "Ready to review"@,
                SessionStatusView::Importing => "Importing"@,
                SessionStatusView::Done(_) => "Imported"@,
                SessionStatusView::Failed(_) => "Failed"@,
            })
        }),
{
}

/// The picker shows the candidates of the group where nothing is searched for,
/// else what the search found, and marks the entry that is picked.
pub proof fn the_picker_shows_what_was_found(
    idx: usize,
    query: Seq<char>,
    group: Option<SeriesGroupView>,
    search: Result<Seq<AnimeEntryView>, Seq<char>>,
)
    ensures
        ({
            let p = picker_list(idx, query, group, search);
            &&& p.idx == idx && p.query == query
            &&& group is None ==> p.picker_rows.len() == 0 && p.picker_error
                == "This preview has expired. Start a new scan."@
            &&& group is Some && query.len() == 0 ==> {
                &&& p.picker_error.len() == 0
                &&& p.picker_rows.len() == (group->0).candidates.len()
                &&& forall|i: int|
                    0 <= i < (group->0).candidates.len() ==> (#[trigger] p.picker_rows[i]).id == (
                    group->0).candidates[i].id && (p.picker_rows[i].is_current <==> (group->0).pick
                        == Some(i as usize))
            }
            &&& group is Some && query.len() > 0 ==> (match search {
                Err(e) => p.picker_rows.len() == 0 && p.picker_error == "Search failed: "@ + e,
                Ok(hits) => {
                    &&& p.picker_error.len() == 0
                    &&& p.picker_rows.len() == hits.len()
                    &&& forall|i: int|
                        0 <= i < hits.len() ==> (#[trigger] p.picker_rows[i]).id == hits[i].id
                            && (p.picker_rows[i].is_current <==> (group->0).pick is Some && (
                        group->0).pick->0 < (group->0).candidates.len() && (
                        group->0).candidates[(group->0).pick->0 as int].id == hits[i].id)
                },
            })
        }),
{
}

/// An import starts exactly where the scan is ready, there is a media root and
/// there is something to write.
pub proof fn an_import_starts_where_there_is_something_to_write(
    session: Option<ImportSessionView>,
    session_id: Seq<char>,
    media_root: Seq<char>,
    writes: usize,
)
    ensures
        ({
            let r = confirm_outcome(session, session_id, media_root, writes);
            let ready = session is Some && (session->0).status is Ready;
            &&& r is Start <==> ready && media_root.len() > 0 && writes > 0
            &&& !ready ==> r == ConfirmStepView::Redirect(
                "/system/import?session="@ + session_id,
            )
            &&& ready && media_root.len() == 0 ==> r == ConfirmStepView::Refuse(
                "Set a media root under Settings before importing."@,
            )
            &&& ready && media_root.len() > 0 && writes == 0 ==> r == ConfirmStepView::Refuse(
                "Nothing to import: every file is excluded, already present, or unmatched."@,
            )
        }),
{
}

/// A correction is answered with the card of its group, or, where the page is
/// loaded whole or the group is gone, with the page of the scan.
pub proof fn a_correction_is_answered_with_its_card(
    is_htmx: bool,
    session_id: Seq<char>,
    idx: usize,
    session: Option<ImportSessionView>,
    shown: GroupViewView,
    action_error: Seq<char>,
)
    ensures
        ({
            let r = group_reply(is_htmx, session_id, idx, session, shown, action_error);
            let there = session is Some && idx < (session->0).groups.len();
            &&& !is_htmx ==> r == GroupReplyView::Redirect(
                "/system/import?session="@ + session_id + "#import-group-"@ + decimal(idx as int),
            )
            &&& is_htmx && !there ==> r == GroupReplyView::Redirect(
                "/system/import?session="@ + session_id,
            )
            &&& is_htmx && there ==> {
                &&& r matches GroupReplyView::Card(c)
                &&& c.idx == idx && c.parsed_title == (session->0).groups[idx as int].parsed_title
                &&& c.action_error == action_error && c.files == shown.files
                &&& c.skipped == (session->0).groups[idx as int].skipped
                &&& c.duplicate_of == duplicate_title(
                    (session->0).groups,
                    (session->0).groups[idx as int],
                )
            }
        }),
{
}

/// Forgetting a scan forgets that one alone, and it is found no more.
pub proof fn a_forgotten_scan_is_gone(
    sessions: Seq<ImportSessionView>,
    id: Seq<char>,
    other: Seq<char>,
)
    ensures
        first_where(without(sessions, is_session(id)), is_session(id)) is None,
        other != id ==> first_where(without(sessions, is_session(id)), is_session(other))
            == first_where(sessions, is_session(other)),
{
    crate::table::lemma_first_where_gone(sessions, is_session(id), is_session(id));
    if other != id {
        crate::table::lemma_first_where_without(sessions, is_session(id), is_session(other));
    }
}

proof fn lemma_pieces_joined(a: Seq<char>, b: Seq<char>)
    ensures
        pieces(a + seq!['/'] + b) == pieces(a) + pieces(b),
    decreases b.len(),
{
    let whole = a + seq!['/'] + b;
    lemma_pieces_nonempty(b);
    if b.len() == 0 {
        assert(whole.drop_last() =~= a);
        assert(pieces(whole) =~= pieces(a) + pieces(b));
    } else {
        lemma_pieces_joined(a, b.drop_last());
        lemma_pieces_nonempty(b.drop_last());
        assert(whole.drop_last() =~= a + seq!['/'] + b.drop_last());
        assert(whole.last() == b.last());
        assert(pieces(whole) =~= pieces(a) + pieces(b));
    }
}

proof fn lemma_pieces_run_on(a: Seq<char>, b: Seq<char>)
    ensures
        pieces(a + b) == pieces(a).drop_last().push(pieces(a).last() + pieces(b)[0]) + pieces(
            b,
        ).drop_first(),
    decreases b.len(),
{
    let whole = a + b;
    lemma_pieces_nonempty(a);
    lemma_pieces_nonempty(b);
    if b.len() == 0 {
        assert(whole =~= a);
        assert(pieces(a).last() + pieces(b)[0] =~= pieces(a).last());
        assert(pieces(whole) =~= pieces(a).drop_last().push(pieces(a).last() + pieces(b)[0])
            + pieces(b).drop_first());
    } else {
        lemma_pieces_run_on(a, b.drop_last());
        lemma_pieces_nonempty(b.drop_last());
        assert(whole.drop_last() =~= a + b.drop_last());
        assert(whole.last() == b.last());
        let rest = pieces(b.drop_last());
        if b.last() != '/' && rest.len() == 1 {
            assert((pieces(a).last() + rest[0]).push(b.last()) =~= pieces(a).last()
                + rest[0].push(b.last()));
        }
        assert(pieces(whole) =~= pieces(a).drop_last().push(pieces(a).last() + pieces(b)[0])
            + pieces(b).drop_first());
    }
}

proof fn lemma_filter_joined(a: Seq<Seq<char>>, b: Seq<Seq<char>>)
    ensures
        (a + b).filter(names_something()) == a.filter(names_something()) + b.filter(
            names_something(),
        ),
    decreases b.len(),
{
    reveal(Seq::filter);
    let keep = names_something();
    if b.len() == 0 {
        assert(a + b =~= a);
        assert(b.filter(keep) =~= b);
        assert((a + b).filter(keep) =~= a.filter(keep) + b.filter(keep));
    } else {
        lemma_filter_joined(a, b.drop_last());
        assert((a + b).drop_last() =~= a + b.drop_last());
        assert((a + b).filter(keep) =~= a.filter(keep) + b.filter(keep));
    }
}

/// What stands below a folder lies under it: its path is the folder's, a slash
/// and more.
pub proof fn what_is_below_a_folder_lies_under_it(base: Seq<char>, rest: Seq<char>)
    requires
        base.len() > 0,
    ensures
        lies_under(base + seq!['/'] + rest, base),
{
    let path = base + seq!['/'] + rest;
    lemma_pieces_joined(base, rest);
    lemma_pieces_nonempty(base);
    lemma_filter_joined(pieces(base), pieces(rest));
    assert(path[0] == base[0]);
    assert(pieces(path)[0] == pieces(base)[0]);
    assert(steps(path) =~= steps(base) + pieces(rest).filter(names_something()));
    assert(steps(path).take(steps(base).len() as int) =~= steps(base));
}

/// A folder whose name only begins as another's does not lie under it.
pub proof fn a_longer_name_is_another_folder(base: Seq<char>, rest: Seq<char>)
    requires
        base.len() > 0,
        base[0] == '/',
        base.last() != '/',
        pieces(base).last() != "."@,
        rest.len() > 0,
        rest[0] != '/',
    ensures
        !lies_under(base + rest, base),
{
    let path = base + rest;
    let keep = names_something();
    lemma_pieces_nonempty(base);
    lemma_pieces_nonempty(base.drop_last());
    lemma_pieces_nonempty(rest);
    lemma_pieces_run_on(base, rest);
    let last = pieces(base).last();
    assert(last.len() > 0);
    lemma_first_piece_nonempty(rest);
    let longer = last + pieces(rest)[0];
    assert(longer.len() > last.len());
    let front = pieces(base).drop_last();
    assert(pieces(base) =~= front + seq![last]);
    assert(pieces(path) =~= front + (seq![longer] + pieces(rest).drop_first()));
    lemma_filter_joined(front, seq![last]);
    lemma_filter_joined(front, seq![longer] + pieces(rest).drop_first());
    lemma_filter_joined(seq![longer], pieces(rest).drop_first());
    reveal_strlit(".");
    assert("."@.len() == 1);
    assert(keep(last) && keep(longer));
    reveal(Seq::filter);
    assert(seq![last].drop_last() =~= Seq::<Seq<char>>::empty());
    assert(seq![longer].drop_last() =~= Seq::<Seq<char>>::empty());
    reveal_with_fuel(Seq::filter, 2);
    assert(seq![last].filter(keep) =~= seq![last]);
    assert(seq![longer].filter(keep) =~= seq![longer]);
    let n = front.filter(keep).len() as int;
    assert(path[0] == '/');
    assert(steps(base) =~= seq!["/"@] + (front.filter(keep) + seq![last]));
    assert(steps(base)[n + 1] == last);
    assert(steps(path)[n + 1] == longer);
    assert(steps(path).take(n + 2)[n + 1] == longer);
}

proof fn lemma_first_piece_nonempty(s: Seq<char>)
    requires
        s.len() > 0,
        s[0] != '/',
    ensures
        pieces(s)[0].len() > 0,
    decreases s.len(),
{
    lemma_pieces_nonempty(s.drop_last());
    if s.len() == 1 {
        assert(pieces(s.drop_last()) =~= seq![Seq::<char>::empty()]);
        assert(pieces(s)[0] =~= Seq::<char>::empty().push(s[0]));
    } else {
        lemma_first_piece_nonempty(s.drop_last());
    }
}

proof fn lemma_pieces_hold_no_slash(path: Seq<char>)
    ensures
        forall|k: int, i: int|
            0 <= k < pieces(path).len() && 0 <= i < pieces(path)[k].len() ==> #[trigger] pieces(
                path,
            )[k][i] != '/',
    decreases path.len(),
{
    if path.len() > 0 {
        let rest = pieces(path.drop_last());
        let all = pieces(path);
        lemma_pieces_nonempty(path.drop_last());
        lemma_pieces_hold_no_slash(path.drop_last());
        assert forall|k: int, i: int|
            0 <= k < all.len() && 0 <= i < all[k].len() implies #[trigger] all[k][i] != '/' by {
            if path.last() == '/' {
                if k < rest.len() {
                    assert(all[k] == rest[k]);
                }
            } else if k < rest.len() - 1 {
                assert(all[k] == rest[k]);
            } else if i < rest.last().len() {
                assert(all[k][i] == rest[k][i]);
            }
        }
    }
}

/// Only an absolute path has steps that begin at the root, so a relative path
/// never lies under an absolute one.
pub proof fn only_an_absolute_path_begins_at_the_root(path: Seq<char>, base: Seq<char>)
    ensures
        steps(path).len() > 0 && steps(path)[0] == "/"@ <==> path.len() > 0 && path[0] == '/',
        base.len() > 0 && base[0] == '/' && !(path.len() > 0 && path[0] == '/') ==> !lies_under(
            path,
            base,
        ),
{
    let names = pieces(path).filter(names_something());
    reveal_strlit("/");
    reveal_strlit(".");
    assert("/"@.len() == 1 && "/"@[0] == '/' && "."@.len() == 1 && "."@[0] == '.');
    lemma_pieces_nonempty(path);
    lemma_pieces_hold_no_slash(path);
    crate::table::lemma_filter_members(pieces(path), names_something());
    if !(path.len() > 0 && path[0] == '/') && steps(path).len() > 0 && steps(path)[0] == "/"@ {
        if pieces(path)[0] == "."@ {
            assert(steps(path)[0] == "."@);
        } else {
            assert(steps(path)[0] == names[0]);
            assert(pieces(path).contains(names[0]));
            let k = choose|k: int| 0 <= k < pieces(path).len() && pieces(path)[k] == names[0];
            assert(pieces(path)[k][0] != '/');
        }
    }
    if base.len() > 0 && base[0] == '/' && lies_under(path, base) {
        assert(steps(base)[0] == "/"@);
        assert(steps(path).take(steps(base).len() as int)[0] == steps(path)[0]);
    }
}

/// A dot or a doubled slash between two names makes no step.
pub proof fn a_dot_between_names_makes_no_step(base: Seq<char>, rest: Seq<char>)
    requires
        base.len() > 0,
    ensures
        steps(base + seq!['/'] + (seq!['.'] + seq!['/'] + rest)) == steps(base + seq!['/'] + rest),
        steps(base + seq!['/'] + (Seq::<char>::empty() + seq!['/'] + rest)) == steps(
            base + seq!['/'] + rest,
        ),
{
    let keep = names_something();
    let plain = base + seq!['/'] + rest;
    let dotted = base + seq!['/'] + (seq!['.'] + seq!['/'] + rest);
    let doubled = base + seq!['/'] + (Seq::<char>::empty() + seq!['/'] + rest);
    reveal_strlit(".");
    assert("."@ =~= seq!['.']);
    lemma_pieces_nonempty(base);
    lemma_pieces_joined(base, rest);
    lemma_pieces_joined(base, seq!['.'] + seq!['/'] + rest);
    lemma_pieces_joined(base, Seq::<char>::empty() + seq!['/'] + rest);
    lemma_pieces_joined(seq!['.'], rest);
    lemma_pieces_joined(Seq::<char>::empty(), rest);
    assert(seq!['.'].drop_last() =~= Seq::<char>::empty());
    assert(pieces(Seq::<char>::empty()) =~= seq![Seq::<char>::empty()]);
    assert(pieces(seq!['.']) =~= seq![Seq::<char>::empty().push('.')]);
    assert(Seq::<char>::empty().push('.') =~= seq!['.']);
    assert(pieces(seq!['.']) =~= seq![seq!['.']]);
    let none = Seq::<Seq<char>>::empty();
    assert(seq![seq!['.']].filter(keep) =~= none) by {
        crate::table::lemma_filter_none(seq![seq!['.']], keep);
    }
    assert(seq![Seq::<char>::empty()].filter(keep) =~= none) by {
        crate::table::lemma_filter_none(seq![Seq::<char>::empty()], keep);
    }
    lemma_filter_joined(pieces(base), pieces(rest));
    lemma_filter_joined(pieces(base), pieces(seq!['.'] + seq!['/'] + rest));
    lemma_filter_joined(pieces(base), pieces(Seq::<char>::empty() + seq!['/'] + rest));
    lemma_filter_joined(pieces(seq!['.']), pieces(rest));
    lemma_filter_joined(pieces(Seq::<char>::empty()), pieces(rest));
    assert(pieces(dotted).filter(keep) =~= pieces(plain).filter(keep));
    assert(pieces(doubled).filter(keep) =~= pieces(plain).filter(keep));
    assert(plain[0] == base[0] && dotted[0] == base[0] && doubled[0] == base[0]);
    assert(pieces(plain)[0] == pieces(base)[0]);
    assert(pieces(dotted)[0] == pieces(base)[0]);
    assert(pieces(doubled)[0] == pieces(base)[0]);
    assert(steps(dotted) =~= steps(plain));
    assert(steps(doubled) =~= steps(plain));
}

} // verus!
