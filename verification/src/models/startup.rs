//! What every start does to the records of earlier versions.
use crate::models::episode_tags::{HistoryRow, HistoryRowView, TagRow, TagRowView};
use crate::models::grabbed_torrents::{
    self, drop_duplicate_grabs, superfluous, GrabRow, GrabRowView, GrabStore, GrabStoreView,
};
use crate::models::group_source_map::{self, seeds_there_are, GroupRowView, GroupStore};
use crate::models::label_forms::{
    an_ordinary_label_settles, an_unmarked_label_has_no_earlier_part, ordinary,
};
use crate::models::migrations::{
    self, label_rewrites, occurs, reconcile_column_rename, reconcile_column_rename_typed,
    reconcile_file_names, reconciled_number, reconciled_text, regenerate_labels, relabelling,
    rewrite_history, rewriting, rewritten, settled_file_names, upgrade_config, upgraded_config,
    LegacyConfig, LegacyConfigView, NumberColumns, NumberColumnsView, TextCellsView, TextColumns,
    TextColumnsView,
};
use crate::models::series::{SeriesRow, SeriesRowView};
use crate::json::texts;
use crate::table::{distinct, every_pair, views, Dup};
use vstd::prelude::*;

verus! {

/// The records that earlier versions kept in another form.
#[derive(Debug)]
pub struct Records {
    /// The settings; none until they are saved first.
    pub config: Option<LegacyConfig>,
    /// The switch for the fallback, under the name of either provider.
    pub kitsu_fallback: NumberColumns,
    /// The uploader to search, unless a series has its own.
    pub default_uploader: TextColumns,
    /// The uploader to search for a series.
    pub series_uploader: TextColumns,
    /// The names of the files in the history, entry by entry, under the names
    /// that the column has had.
    pub file_names: TextColumns,
    pub grabs: GrabStore,
    pub groups: GroupStore,
    pub tags: Vec<TagRow>,
    pub history: Vec<HistoryRow>,
    pub series: Vec<SeriesRow>,
}

/// The contents of [`Records`].
#[verifier::ext_equal]
pub struct RecordsView {
    pub config: Option<LegacyConfigView>,
    pub kitsu_fallback: NumberColumnsView,
    pub default_uploader: TextColumnsView,
    pub series_uploader: TextColumnsView,
    pub file_names: TextColumnsView,
    pub grabs: GrabStoreView,
    pub groups: Seq<GroupRowView>,
    pub tags: Seq<TagRowView>,
    pub history: Seq<HistoryRowView>,
    pub series: Seq<SeriesRowView>,
}

impl View for Records {
    type V = RecordsView;

    open spec fn view(&self) -> RecordsView {
        RecordsView {
            config: match self.config {
                Some(c) => Some(c@),
                None => None,
            },
            kitsu_fallback: self.kitsu_fallback@,
            default_uploader: self.default_uploader@,
            series_uploader: self.series_uploader@,
            file_names: self.file_names@,
            grabs: self.grabs@,
            groups: self.groups@,
            tags: views(self.tags@),
            history: views(self.history@),
            series: views(self.series@),
        }
    }
}

impl RecordsView {
    /// No two grabs have the same id, a group stands there once, and every
    /// entry of the history has its cells for the name of the file. That a hash
    /// has one active grab is what a start sees to.
    pub open spec fn wf(self) -> bool {
        &&& distinct(self.grabs.rows, |r: GrabRowView| r.id)
        &&& group_source_map::one_row_each(self.groups)
        &&& self.file_names.rows.len() == self.history.len()
    }

    /// Whether every entry of the history has the name that stands in its
    /// cell.
    pub open spec fn names_agree(self) -> bool {
        forall|i: int|
            0 <= i < self.history.len() ==> (#[trigger] self.history[i]).file_name
                == name_in(self.file_names.rows[i])
    }
}

/// The name in a cell; an empty one where it holds none.
pub open spec fn name_in(c: TextCellsView) -> Seq<char> {
    match c.current {
        Some(name) => name,
        None => Seq::empty(),
    }
}

/// The history with the names that stand in the cells.
pub open spec fn with_names(history: Seq<HistoryRowView>, names: TextColumnsView) -> Seq<
    HistoryRowView,
> {
    Seq::new(
        history.len(),
        |i: int| HistoryRowView { file_name: name_in(names.rows[i]), ..history[i] },
    )
}

/// A renamed text column of a table without rows, with neither name yet.
pub open spec fn no_column() -> TextColumnsView {
    TextColumnsView { has_legacy: false, has_current: false, rows: Seq::empty() }
}

fn new_column() -> (t: TextColumns)
    ensures
        t@ == no_column(),
{
    let t = TextColumns { has_legacy: false, has_current: false, rows: Vec::new() };
    assert(t@.rows =~= no_column().rows);
    t
}

impl Records {
    /// The records of a new installation.
    pub fn new() -> (db: Records)
        ensures
            db@ == (RecordsView {
                config: None,
                kitsu_fallback: NumberColumnsView {
                    has_legacy: false,
                    has_current: false,
                    rows: Seq::empty(),
                },
                default_uploader: no_column(),
                series_uploader: no_column(),
                file_names: no_column(),
                grabs: GrabStoreView { rows: Seq::empty(), routes: Seq::empty(), last_id: 0 },
                groups: Seq::empty(),
                tags: Seq::empty(),
                history: Seq::empty(),
                series: Seq::empty(),
            }),
            db@.wf(),
    {
        let db = Records {
            config: None,
            kitsu_fallback: NumberColumns {
                has_legacy: false,
                has_current: false,
                rows: Vec::new(),
            },
            default_uploader: new_column(),
            series_uploader: new_column(),
            file_names: new_column(),
            grabs: GrabStore::new(),
            groups: GroupStore::new(),
            tags: Vec::new(),
            history: Vec::new(),
            series: Vec::new(),
        };
        proof {
            assert(db@.kitsu_fallback.rows =~= Seq::empty());
            assert(db@.tags =~= Seq::empty());
            assert(db@.history =~= Seq::empty());
            assert(db@.series =~= Seq::empty());
        }
        db
    }

    /// Whether the records are such that a start can bring them to their
    /// present form.
    pub fn check(&self) -> (r: bool)
        ensures
            r == self@.wf(),
    {
        let ghost apart = |a: GrabRowView, b: GrabRowView| a.id != b.id;
        let other_id = |a: &GrabRow, b: &GrabRow| -> (r: bool)
            ensures r == apart(a@, b@)
            { a.id != b.id };
        let a: bool = every_pair(&self.grabs.rows, other_id, Ghost(apart));
        let b: bool = self.groups.check();
        assert(a == distinct(self@.grabs.rows, |r: GrabRowView| r.id));
        assert(self@.history.len() == self.history.len());
        assert(self@.file_names.rows.len() == self.file_names.rows.len());
        a && b && self.file_names.rows.len() == self.history.len()
    }
}

/// The series, those without a folder in the folder that stands at their
/// place in the list, unless it is empty.
pub open spec fn with_folders(series: Seq<SeriesRowView>, folders: Seq<Seq<char>>) -> Seq<
    SeriesRowView,
> {
    Seq::new(
        series.len(),
        |i: int|
            if series[i].folder_name.len() == 0 && i < folders.len() && folders[i].len() > 0 {
                SeriesRowView { folder_name: folders[i], ..series[i] }
            } else {
                series[i]
            },
    )
}

/// The records in their present form.
pub open spec fn migrated(r: RecordsView, folders: Seq<Seq<char>>, now: Seq<char>) -> RecordsView {
    RecordsView {
        config: match r.config {
            Some(c) => Some(upgraded_config(c)),
            None => None,
        },
        kitsu_fallback: reconciled_number(r.kitsu_fallback, 0),
        default_uploader: reconciled_text(r.default_uploader),
        series_uploader: reconciled_text(r.series_uploader),
        file_names: settled_file_names(r.file_names),
        grabs: r.grabs.deleted(superfluous(r.grabs.rows)),
        groups: group_source_map::migrated(r.groups, seeds_there_are(), now),
        tags: r.tags.map_values(relabelling()),
        history: with_names(
            r.history.map_values(rewriting()),
            settled_file_names(r.file_names),
        ),
        series: with_folders(r.series, folders),
    }
}

/// Gives every series without a folder the one that stands at its place in
/// the list, unless that is empty.
pub fn backfill_folders(series: &mut Vec<SeriesRow>, folders: &Vec<String>)
    ensures
        views(final(series)@) == with_folders(views(old(series)@), texts(folders@)),
{
    let ghost before = views(series@);
    let ghost all = with_folders(before, texts(folders@));
    assert(texts(folders@).len() == folders.len());
    assert(before.len() == series.len());
    assert(views(series@) =~= all.take(0) + before.skip(0));
    let mut i: usize = 0;
    while i < series.len()
        invariant
            i <= series.len(),
            series.len() == before.len(),
            texts(folders@).len() == folders.len(),
            all == with_folders(before, texts(folders@)),
            views(series@) == all.take(i as int) + before.skip(i as int),
        decreases series.len() - i,
    {
        let ghost had = views(series@);
        assert(series[i as int]@ == had[i as int] && had[i as int] == before[i as int]);
        if i < folders.len() {
            assert(texts(folders@)[i as int] == folders[i as int]@);
            if series[i].folder_name.as_str().is_empty() && !folders[i].as_str().is_empty() {
                let s = series[i].dup();
                let filled = SeriesRow { folder_name: folders[i].clone(), ..s };
                assert(filled@ =~= all[i as int]);
                series.set(i, filled);
                assert(views(series@) =~= had.update(i as int, all[i as int]));
            } else {
                assert(all[i as int] == before[i as int]);
            }
        } else {
            assert(all[i as int] == before[i as int]);
        }
        assert(views(series@) =~= had.update(i as int, all[i as int]));
        assert(views(series@) =~= all.take(i + 1) + before.skip(i + 1));
        i += 1;
    }
    assert(all.take(i as int) + before.skip(i as int) =~= all);
}

/// Gives every entry of the history the name that stands in its cell.
fn fill_names(history: &mut Vec<HistoryRow>, names: &TextColumns)
    requires
        names@.rows.len() == old(history).len(),
    ensures
        views(final(history)@) == with_names(views(old(history)@), names@),
{
    let ghost before = views(history@);
    let ghost all = with_names(before, names@);
    assert(names@.rows.len() == names.rows.len());
    assert(before.len() == history.len());
    assert(views(history@) =~= all.take(0) + before.skip(0));
    let mut i: usize = 0;
    while i < history.len()
        invariant
            i <= history.len(),
            history.len() == before.len(),
            names.rows.len() == before.len(),
            names@.rows.len() == names.rows.len(),
            all == with_names(before, names@),
            views(history@) == all.take(i as int) + before.skip(i as int),
        decreases history.len() - i,
    {
        let ghost had = views(history@);
        assert(history[i as int]@ == had[i as int] && had[i as int] == before[i as int]);
        assert(names@.rows[i as int] == names.rows[i as int]@);
        let file_name = match &names.rows[i].current {
            Some(name) => name.clone(),
            None => String::new(),
        };
        let h = history[i].dup();
        let filled = HistoryRow { file_name, ..h };
        assert(filled@ =~= all[i as int]);
        history.set(i, filled);
        assert(views(history@) =~= had.update(i as int, all[i as int]));
        assert(views(history@) =~= all.take(i + 1) + before.skip(i + 1));
        i += 1;
    }
    assert(all.take(i as int) + before.skip(i as int) =~= all);
}

/// Brings the records of earlier versions to their present form. `folders`
/// holds, for every series, the folder that its title names.
pub fn migrate(db: &mut Records, folders: &Vec<String>, now: &str)
    requires
        old(db)@.wf(),
    ensures
        final(db)@ == migrated(old(db)@, texts(folders@), now@),
        final(db)@.wf(),
        final(db)@.names_agree(),
        final(db)@.grabs.one_active_per_hash(),
{
    proof {
        crate::table::lemma_without_distinct(
            db@.grabs.rows,
            superfluous(db@.grabs.rows),
            |r: GrabRowView| r.id,
        );
    }
    if let Some(mut config) = db.config.take() {
        upgrade_config(&mut config);
        db.config = Some(config);
    }
    reconcile_column_rename_typed(&mut db.kitsu_fallback, 0);
    let _dropped: u64 = drop_duplicate_grabs(&mut db.grabs);
    reconcile_file_names(&mut db.file_names);
    group_source_map::migrate(&mut db.groups, now);
    let _relabelled: usize = regenerate_labels(&mut db.tags);
    rewrite_history(&mut db.history);
    assert(views(db.history@).len() == db.history.len());
    fill_names(&mut db.history, &db.file_names);
    backfill_folders(&mut db.series, folders);
    reconcile_column_rename(&mut db.default_uploader);
    reconcile_column_rename(&mut db.series_uploader);
}

/// Whether no part of an earlier form is left in the labels of the history.
pub open spec fn labels_settled(history: Seq<HistoryRowView>) -> bool {
    forall|i: int, k: int|
        0 <= i < history.len() && 0 <= k < label_rewrites().len() ==> !occurs(
            (#[trigger] history[i]).quality_tag,
            (#[trigger] label_rewrites()[k]).0,
        )
}

/// A second start changes nothing, where the first one left no part of an
/// earlier form in the labels of the history.
pub proof fn migrating_again_changes_nothing(
    r: RecordsView,
    folders: Seq<Seq<char>>,
    now: Seq<char>,
)
    requires
        r.wf(),
        labels_settled(migrated(r, folders, now).history),
    ensures
        migrated(migrated(r, folders, now), folders, now) == migrated(r, folders, now),
{
    let once = migrated(r, folders, now);
    let twice = migrated(once, folders, now);
    if let Some(c) = r.config {
        migrations::upgrading_the_config_again_changes_nothing(c);
    }
    migrations::reconciling_again_changes_nothing(r.default_uploader, r.kitsu_fallback, 0);
    migrations::reconciling_again_changes_nothing(r.series_uploader, r.kitsu_fallback, 0);
    assert(twice.file_names.rows =~= once.file_names.rows);
    grabbed_torrents::dropping_duplicates_again_changes_nothing(r.grabs);
    group_source_map::starting_again_changes_nothing(r.groups, seeds_there_are(), now);
    migrations::regenerating_labels_again_changes_nothing(r.tags);
    assert forall|i: int| 0 <= i < once.history.len() implies #[trigger] twice.history[i]
        == once.history[i] by {
        let h = once.history[i];
        assert forall|k: int| 0 <= k < label_rewrites().len() implies !occurs(
            h.quality_tag,
            (#[trigger] label_rewrites()[k]).0,
        ) by {
            assert(once.history[i] == h);
        }
        migrations::a_label_in_its_present_form_stays(h.quality_tag, label_rewrites());
        assert(rewritten(h.quality_tag, label_rewrites()) == h.quality_tag);
    }
    assert(twice.history =~= once.history);
    assert(twice.series =~= once.series);
    assert(twice =~= once);
}

/// Whether every label in the history is one that this or an earlier version
/// made, or none.
pub open spec fn ordinary_labels(history: Seq<HistoryRowView>) -> bool {
    forall|i: int| 0 <= i < history.len() ==> ordinary((#[trigger] history[i]).quality_tag)
}

/// A start can be repeated: a second one changes nothing, whatever the records
/// were, as long as the labels in the history are ones that this or an earlier
/// version made.
pub proof fn a_start_can_be_repeated(r: RecordsView, folders: Seq<Seq<char>>, now: Seq<char>)
    requires
        r.wf(),
        ordinary_labels(r.history),
    ensures
        migrated(migrated(r, folders, now), folders, now) == migrated(r, folders, now),
{
    let once = migrated(r, folders, now);
    assert forall|i: int, k: int|
        0 <= i < once.history.len() && 0 <= k < label_rewrites().len() implies !occurs(
        (#[trigger] once.history[i]).quality_tag,
        (#[trigger] label_rewrites()[k]).0,
    ) by {
        let label = r.history[i].quality_tag;
        an_ordinary_label_settles(label);
        an_unmarked_label_has_no_earlier_part(rewritten(label, label_rewrites()));
        assert(r.history.map_values(rewriting())[i] == rewriting()(r.history[i]));
    }
    migrating_again_changes_nothing(r, folders, now);
}

/// A start keeps what the user has: no series, no entry of the history and no
/// tag goes, a folder that was chosen stays, and so does what the user set.
pub proof fn a_start_keeps_what_the_user_has(
    r: RecordsView,
    folders: Seq<Seq<char>>,
    now: Seq<char>,
    i: int,
)
    ensures
        ({
            let after = migrated(r, folders, now);
            &&& after.series.len() == r.series.len()
            &&& after.tags.len() == r.tags.len()
            &&& after.history.len() == r.history.len()
            &&& 0 <= i < r.series.len() ==> after.series[i].id == r.series[i].id && (
            r.series[i].folder_name.len() > 0 ==> after.series[i] == r.series[i])
            &&& 0 <= i < r.tags.len() ==> after.tags[i].source == r.tags[i].source
                && after.tags[i].manual_override == r.tags[i].manual_override
            &&& r.config matches Some(c) ==> after.config is Some && (c.jellyfin_url.len() > 0
                ==> after.config->0.jellyfin_url == c.jellyfin_url)
        }),
{
}

/// A series without a folder takes the one that was found for it; one that has
/// a folder keeps it, and nothing else of a series changes.
pub proof fn a_found_folder_fills_an_empty_one(
    series: Seq<SeriesRowView>,
    folders: Seq<Seq<char>>,
    i: int,
)
    requires
        0 <= i < series.len(),
    ensures
        ({
            let s = with_folders(series, folders)[i];
            &&& with_folders(series, folders).len() == series.len()
            &&& s == (SeriesRowView { folder_name: s.folder_name, ..series[i] })
            &&& series[i].folder_name.len() > 0 ==> s.folder_name == series[i].folder_name
            &&& series[i].folder_name.len() == 0 && i < folders.len() ==> s.folder_name
                == folders[i]
            &&& series[i].folder_name.len() == 0 && i >= folders.len() ==> s.folder_name.len() == 0
        }),
{
    if series[i].folder_name.len() == 0 && i < folders.len() && folders[i].len() == 0 {
        assert(series[i].folder_name =~= folders[i]);
    }
}

/// A start drops the duplicate grabs, and no others: of those active under one
/// hash the oldest stays. Of each tag and each entry of the history it may
/// change the label; an entry has the file name of its column.
pub proof fn a_start_drops_duplicates_and_renews_labels(
    r: RecordsView,
    folders: Seq<Seq<char>>,
    now: Seq<char>,
    g: GrabRowView,
    i: int,
)
    ensures
        ({
            let after = migrated(r, folders, now);
            &&& after.grabs.rows.contains(g) <==> r.grabs.rows.contains(g) && (g.hash.len() == 0
                || !(g.state == "pending"@ || g.state == "imported"@) || forall|k: int|
                0 <= k < r.grabs.rows.len() && (#[trigger] r.grabs.rows[k]).hash == g.hash && (
                r.grabs.rows[k].state == "pending"@ || r.grabs.rows[k].state == "imported"@)
                    ==> g.id <= r.grabs.rows[k].id)
            &&& 0 <= i < r.tags.len() ==> after.tags[i] == (TagRowView {
                quality_tag: after.tags[i].quality_tag,
                ..r.tags[i]
            })
            &&& 0 <= i < r.history.len() ==> {
                let h = after.history[i];
                &&& h == (HistoryRowView {
                    quality_tag: h.quality_tag,
                    file_name: h.file_name,
                    ..r.history[i]
                })
                &&& after.file_names.rows[i].current is Some ==> h.file_name
                    == after.file_names.rows[i].current->0
                &&& after.file_names.rows[i].current is None ==> h.file_name.len() == 0
            }
            &&& after.config is Some <==> r.config is Some
        }),
{
    crate::models::grabbed_torrents::the_oldest_of_the_duplicates_stays(r.grabs, g);
}

} // verus!
