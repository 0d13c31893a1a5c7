//! Bringing records of earlier versions to their present form. Everything
//! here may run on every start: records in their present form stay as they
//! are.
use crate::json::texts;
use crate::models::episode_tags::{
    label, quality_label, HistoryRow, HistoryRowView, TagRow, TagRowView,
};
use crate::models::series::{SeriesRow, SeriesRowView};
use crate::table::{dup_all, update_where, updated, views, Dup};
use crate::text::{
    dup_optional, like, lower, lowered, matches_like, optional_text, own, replace_all, replaced,
    same, stands_at,
};
use vstd::prelude::*;

verus! {

/// The settings that earlier versions kept in another form.
#[derive(Debug)]
pub struct LegacyConfig {
    pub jellyfin_url: String,
    pub jellyfin_host: String,
    pub jellyfin_port: String,
    pub jellyfin_use_ssl: bool,
    pub preferred_source: String,
    pub cutoff_source: String,
    pub cutoff_resolution: String,
    pub quality_profile: String,
    pub quality_cutoff: String,
}

/// The contents of a [`LegacyConfig`].
#[verifier::ext_equal]
pub struct LegacyConfigView {
    pub jellyfin_url: Seq<char>,
    pub jellyfin_host: Seq<char>,
    pub jellyfin_port: Seq<char>,
    pub jellyfin_use_ssl: bool,
    pub preferred_source: Seq<char>,
    pub cutoff_source: Seq<char>,
    pub cutoff_resolution: Seq<char>,
    pub quality_profile: Seq<char>,
    pub quality_cutoff: Seq<char>,
}

impl View for LegacyConfig {
    type V = LegacyConfigView;

    open spec fn view(&self) -> LegacyConfigView {
        LegacyConfigView {
            jellyfin_url: self.jellyfin_url@,
            jellyfin_host: self.jellyfin_host@,
            jellyfin_port: self.jellyfin_port@,
            jellyfin_use_ssl: self.jellyfin_use_ssl,
            preferred_source: self.preferred_source@,
            cutoff_source: self.cutoff_source@,
            cutoff_resolution: self.cutoff_resolution@,
            quality_profile: self.quality_profile@,
            quality_cutoff: self.quality_cutoff@,
        }
    }
}

impl Dup for LegacyConfig {
    fn dup(&self) -> (copy: Self) {
        LegacyConfig {
            jellyfin_url: self.jellyfin_url.clone(),
            jellyfin_host: self.jellyfin_host.clone(),
            jellyfin_port: self.jellyfin_port.clone(),
            jellyfin_use_ssl: self.jellyfin_use_ssl,
            preferred_source: self.preferred_source.clone(),
            cutoff_source: self.cutoff_source.clone(),
            cutoff_resolution: self.cutoff_resolution.clone(),
            quality_profile: self.quality_profile.clone(),
            quality_cutoff: self.quality_cutoff.clone(),
        }
    }
}

impl Clone for LegacyConfig {
    fn clone(&self) -> (copy: Self)
        ensures
            copy@ == self@,
    {
        self.dup()
    }
}

/// The address of the media server, from its parts.
pub open spec fn server_url(host: Seq<char>, port: Seq<char>, use_ssl: bool) -> Seq<char> {
    let scheme = if use_ssl {
        "https://"@
    } else {
        "http://"@
    };
    if port.len() > 0 {
        scheme + host + ":"@ + port
    } else {
        scheme + host
    }
}

/// The source that a combined setting names; `otherwise` when it names none.
pub open spec fn source_of_profile(profile: Seq<char>, otherwise: Seq<char>) -> Seq<char> {
    if like("web_%"@, profile) {
        "web"@
    } else if like("bd_%"@, profile) {
        "bluray"@
    } else if like("remux_%"@, profile) {
        "bluray"@
    } else if profile == "dvd"@ {
        "dvd"@
    } else {
        otherwise
    }
}

/// The resolution that a combined setting names.
pub open spec fn resolution_of_profile(profile: Seq<char>) -> Seq<char> {
    if like("%_480"@, profile) || profile == "dvd"@ {
        "480"@
    } else if like("%_720"@, profile) {
        "720"@
    } else if like("%_1080"@, profile) {
        "1080"@
    } else if like("%_2160"@, profile) {
        "2160"@
    } else {
        "1080"@
    }
}

/// The settings in their present form. What the user set stays.
pub open spec fn upgraded_config(c: LegacyConfigView) -> LegacyConfigView {
    LegacyConfigView {
        jellyfin_url: if c.jellyfin_url.len() == 0 && c.jellyfin_host.len() > 0 {
            server_url(c.jellyfin_host, c.jellyfin_port, c.jellyfin_use_ssl)
        } else {
            c.jellyfin_url
        },
        preferred_source: if c.preferred_source.len() == 0 {
            source_of_profile(c.quality_profile, "web"@)
        } else {
            c.preferred_source
        },
        cutoff_source: if c.cutoff_source.len() == 0 {
            source_of_profile(c.quality_cutoff, "bluray"@)
        } else {
            c.cutoff_source
        },
        cutoff_resolution: if c.cutoff_resolution.len() == 0 {
            resolution_of_profile(c.quality_cutoff)
        } else {
            c.cutoff_resolution
        },
        ..c
    }
}

fn build_url(host: &str, port: &str, use_ssl: bool) -> (url: String)
    ensures
        url@ == server_url(host@, port@, use_ssl),
{
    let mut url: String = if use_ssl {
        own("https://")
    } else {
        own("http://")
    };
    url.append(host);
    if !port.is_empty() {
        url.append(":");
        url.append(port);
    }
    url
}

fn profile_source(profile: &str, otherwise: &str) -> (r: String)
    ensures
        r@ == source_of_profile(profile@, otherwise@),
{
    if matches_like("web_%", profile) {
        own("web")
    } else if matches_like("bd_%", profile) {
        own("bluray")
    } else if matches_like("remux_%", profile) {
        own("bluray")
    } else if same(profile, "dvd") {
        own("dvd")
    } else {
        own(otherwise)
    }
}

fn profile_resolution(profile: &str) -> (r: String)
    ensures
        r@ == resolution_of_profile(profile@),
{
    if matches_like("%_480", profile) || same(profile, "dvd") {
        own("480")
    } else if matches_like("%_720", profile) {
        own("720")
    } else if matches_like("%_1080", profile) {
        own("1080")
    } else if matches_like("%_2160", profile) {
        own("2160")
    } else {
        own("1080")
    }
}

/// Fills the settings that are empty from the form that earlier versions
/// kept them in.
pub fn upgrade_config(config: &mut LegacyConfig)
    ensures
        final(config)@ == upgraded_config(old(config)@),
{
    if config.jellyfin_url.as_str().is_empty() && !config.jellyfin_host.as_str().is_empty() {
        config.jellyfin_url = build_url(
            &config.jellyfin_host,
            &config.jellyfin_port,
            config.jellyfin_use_ssl,
        );
    }
    if config.preferred_source.as_str().is_empty() {
        config.preferred_source = profile_source(&config.quality_profile, "web");
    }
    if config.cutoff_source.as_str().is_empty() {
        config.cutoff_source = profile_source(&config.quality_cutoff, "bluray");
    }
    if config.cutoff_resolution.as_str().is_empty() {
        config.cutoff_resolution = profile_resolution(&config.quality_cutoff);
    }
}

/// A tag with its label made from its source and resolution.
pub open spec fn relabelled(t: TagRowView) -> TagRowView {
    TagRowView {
        quality_tag: quality_label(t.source, t.resolution, t.web_kind, t.is_remux, t.is_bdmv),
        ..t
    }
}

pub open spec fn relabelling() -> spec_fn(TagRowView) -> TagRowView {
    |t: TagRowView| relabelled(t)
}

pub open spec fn mislabelled() -> spec_fn(TagRowView) -> bool {
    |t: TagRowView| t.quality_tag != relabelled(t).quality_tag
}

/// Makes the label of every tag from its source and resolution again and says
/// how many labels changed.
pub fn regenerate_labels(tags: &mut Vec<TagRow>) -> (n: usize)
    ensures
        views(final(tags)@) == views(old(tags)@).map_values(relabelling()),
        n == views(old(tags)@).filter(mislabelled()).len(),
{
    let test = |t: &TagRow| -> (b: bool)
        ensures b == mislabelled()(t@)
        {
            let fresh = label(&t.source, &t.resolution, &t.web_kind, t.is_remux, t.is_bdmv);
            !same(&t.quality_tag, &fresh)
        };
    let make = |t: TagRow| -> (o: TagRow)
        ensures o@ == relabelling()(t@)
        {
            let quality_tag = label(&t.source, &t.resolution, &t.web_kind, t.is_remux, t.is_bdmv);
            TagRow { quality_tag, ..t }
        };
    let ghost before = views(tags@);
    let n: usize = update_where(tags, test, make, Ghost(mislabelled()), Ghost(relabelling()));
    proof {
        let after = updated(before, mislabelled(), relabelling());
        assert forall|i: int| 0 <= i < before.len() implies #[trigger] after[i] == before.map_values(
            relabelling(),
        )[i] by {
            let t = before[i];
            if !mislabelled()(t) {
                assert(relabelled(t) =~= t);
            }
        }
        assert(after =~= before.map_values(relabelling()));
    }
    n
}

/// What each part of an earlier label became, in the order in which the parts
/// are replaced: the qualified discs before the plain ones, and the joined
/// forms before they are turned round.
pub open spec fn label_rewrites() -> Seq<(Seq<char>, Seq<char>)> {
    seq![
        ("BluRay BDMV "@, "BD-RAW-"@),
        ("BluRay Remux "@, "BD-Remux-"@),
        ("BluRay "@, "BD-"@),
        ("WEB-DL "@, "WEB-"@),
        ("WEBRip "@, "WEBRip-"@),
        ("Web "@, "WEB-"@),
        ("HDTV "@, "HDTV-"@),
        ("DVD "@, "DVD-"@),
        ("TV "@, "TV-"@),
        ("BD-RAW-480p"@, "BD-480p RAW"@),
        ("BD-RAW-576p"@, "BD-576p RAW"@),
        ("BD-RAW-720p"@, "BD-720p RAW"@),
        ("BD-RAW-1080p"@, "BD-1080p RAW"@),
        ("BD-RAW-2160p"@, "BD-2160p RAW"@),
        ("BD-Remux-480p"@, "BD-480p Remux"@),
        ("BD-Remux-576p"@, "BD-576p Remux"@),
        ("BD-Remux-720p"@, "BD-720p Remux"@),
        ("BD-Remux-1080p"@, "BD-1080p Remux"@),
        ("BD-Remux-2160p"@, "BD-2160p Remux"@),
        ("WEBRIP-"@, "WEBRip-"@),
        ("WEBDL-480p"@, "WEB-480p"@),
        ("WEBDL-576p"@, "WEB-576p"@),
        ("WEBDL-720p"@, "WEB-720p"@),
        ("WEBDL-1080p"@, "WEB-1080p"@),
        ("WEBDL-2160p"@, "WEB-2160p"@),
    ]
}

/// A label with the rewrites applied one after the other.
pub open spec fn rewritten(label: Seq<char>, rules: Seq<(Seq<char>, Seq<char>)>) -> Seq<char>
    decreases rules.len(),
{
    if rules.len() == 0 {
        label
    } else {
        rewritten(replaced(label, rules[0].0, rules[0].1), rules.drop_first())
    }
}

/// A label of an earlier version in its present form.
pub fn rewrite_label(old_label: &str) -> (r: String)
    ensures
        r@ == rewritten(old_label@, label_rewrites()),
{
    let rules: Vec<(&str, &str)> = vec![
        ("BluRay BDMV ", "BD-RAW-"),
        ("BluRay Remux ", "BD-Remux-"),
        ("BluRay ", "BD-"),
        ("WEB-DL ", "WEB-"),
        ("WEBRip ", "WEBRip-"),
        ("Web ", "WEB-"),
        ("HDTV ", "HDTV-"),
        ("DVD ", "DVD-"),
        ("TV ", "TV-"),
        ("BD-RAW-480p", "BD-480p RAW"),
        ("BD-RAW-576p", "BD-576p RAW"),
        ("BD-RAW-720p", "BD-720p RAW"),
        ("BD-RAW-1080p", "BD-1080p RAW"),
        ("BD-RAW-2160p", "BD-2160p RAW"),
        ("BD-Remux-480p", "BD-480p Remux"),
        ("BD-Remux-576p", "BD-576p Remux"),
        ("BD-Remux-720p", "BD-720p Remux"),
        ("BD-Remux-1080p", "BD-1080p Remux"),
        ("BD-Remux-2160p", "BD-2160p Remux"),
        ("WEBRIP-", "WEBRip-"),
        ("WEBDL-480p", "WEB-480p"),
        ("WEBDL-576p", "WEB-576p"),
        ("WEBDL-720p", "WEB-720p"),
        ("WEBDL-1080p", "WEB-1080p"),
        ("WEBDL-2160p", "WEB-2160p"),
    ];
    let ghost all = label_rewrites();
    let ghost seen = rules@.map_values(|p: (&str, &str)| (p.0@, p.1@));
    assert(seen =~= all);
    assert forall|k: int| 0 <= k < all.len() implies rules[k].0@ == (#[trigger] all[k]).0
        && rules[k].1@ == all[k].1 by {
        assert(seen[k] == all[k]);
    }
    let mut out: String = own(old_label);
    let mut i: usize = 0;
    assert(all.skip(0) =~= all);
    while i < rules.len()
        invariant
            i <= rules.len(),
            rules.len() == all.len(),
            forall|k: int|
                0 <= k < all.len() ==> rules[k].0@ == (#[trigger] all[k]).0 && rules[k].1@
                    == all[k].1,
            rewritten(out@, all.skip(i as int)) == rewritten(old_label@, all),
        decreases rules.len() - i,
    {
        proof {
            assert(all.skip(i as int)[0] == all[i as int]);
            assert(all.skip(i as int).drop_first() =~= all.skip(i + 1));
        }
        out = replace_all(&out, rules[i].0, rules[i].1);
        i += 1;
    }
    assert(all.skip(i as int).len() == 0);
    out
}

pub open spec fn rewriting() -> spec_fn(HistoryRowView) -> HistoryRowView {
    |h: HistoryRowView|
        HistoryRowView { quality_tag: rewritten(h.quality_tag, label_rewrites()), ..h }
}

/// Brings the labels in the history to their present form.
pub fn rewrite_history(history: &mut Vec<HistoryRow>)
    ensures
        views(final(history)@) == views(old(history)@).map_values(rewriting()),
{
    let ghost all = |h: HistoryRowView| true;
    let test = |h: &HistoryRow| -> (b: bool)
        ensures b == all(h@)
        { true };
    let make = |h: HistoryRow| -> (o: HistoryRow)
        ensures o@ == rewriting()(h@)
        {
            let quality_tag = rewrite_label(&h.quality_tag);
            HistoryRow { quality_tag, ..h }
        };
    let ghost before = views(history@);
    let _n: usize = update_where(history, test, make, Ghost(all), Ghost(rewriting()));
    assert(updated(before, all, rewriting()) =~= before.map_values(rewriting()));
}


/// What to do to a table so that a renamed column stands under its new name.
#[derive(Debug, Clone, Copy, PartialEq, Eq, Structural)]
pub enum ColumnPlan {
    /// The column is there.
    Keep,
    /// Rename the column that has the old name.
    Rename,
    /// Add the column with its default.
    Add,
    /// Both are there: carry the old values over, then drop the old column.
    CopyThenDrop,
}

/// What to do, from which of the two columns are there.
pub open spec fn column_plan(legacy_exists: bool, new_exists: bool) -> ColumnPlan {
    if legacy_exists && new_exists {
        ColumnPlan::CopyThenDrop
    } else if legacy_exists {
        ColumnPlan::Rename
    } else if new_exists {
        ColumnPlan::Keep
    } else {
        ColumnPlan::Add
    }
}

pub fn plan_column_rename(legacy_exists: bool, new_exists: bool) -> (plan: ColumnPlan)
    ensures
        plan == column_plan(legacy_exists, new_exists),
{
    if legacy_exists && new_exists {
        ColumnPlan::CopyThenDrop
    } else if legacy_exists {
        ColumnPlan::Rename
    } else if new_exists {
        ColumnPlan::Keep
    } else {
        ColumnPlan::Add
    }
}

/// What to do to the history so that it has a file name: a column that is
/// there stays, also beside the one it was renamed from.
pub fn plan_file_name_column(has_file_name: bool, has_torrent_name: bool) -> (plan: ColumnPlan)
    ensures
        plan == (if has_file_name {
            ColumnPlan::Keep
        } else {
            column_plan(has_torrent_name, false)
        }),
{
    if has_file_name {
        ColumnPlan::Keep
    } else if has_torrent_name {
        ColumnPlan::Rename
    } else {
        ColumnPlan::Add
    }
}

/// The old and the new cell of a row whose text column was renamed; nothing
/// where the cell holds none.
#[derive(Debug)]
pub struct TextCells {
    pub legacy: Option<String>,
    pub current: Option<String>,
}

/// The contents of a [`TextCells`].
#[verifier::ext_equal]
pub struct TextCellsView {
    pub legacy: Option<Seq<char>>,
    pub current: Option<Seq<char>>,
}

impl View for TextCells {
    type V = TextCellsView;

    open spec fn view(&self) -> TextCellsView {
        TextCellsView {
            legacy: optional_text(self.legacy),
            current: optional_text(self.current),
        }
    }
}

impl Dup for TextCells {
    fn dup(&self) -> (copy: Self) {
        TextCells {
            legacy: dup_optional(&self.legacy),
            current: dup_optional(&self.current),
        }
    }
}

impl Clone for TextCells {
    fn clone(&self) -> (copy: Self)
        ensures
            copy@ == self@,
    {
        self.dup()
    }
}

/// The old and the new cell of a row whose number column was renamed;
/// nothing where the cell holds none.
#[derive(Debug)]
pub struct NumberCells {
    pub legacy: Option<i64>,
    pub current: Option<i64>,
}

/// The contents of a [`NumberCells`].
#[verifier::ext_equal]
pub struct NumberCellsView {
    pub legacy: Option<i64>,
    pub current: Option<i64>,
}

impl View for NumberCells {
    type V = NumberCellsView;

    open spec fn view(&self) -> NumberCellsView {
        NumberCellsView {
            legacy: self.legacy,
            current: self.current,
        }
    }
}

impl Dup for NumberCells {
    fn dup(&self) -> (copy: Self) {
        NumberCells {
            legacy: self.legacy,
            current: self.current,
        }
    }
}

impl Clone for NumberCells {
    fn clone(&self) -> (copy: Self)
        ensures
            copy@ == self@,
    {
        self.dup()
    }
}

/// A renamed text column: which of the two columns are there, and the cells.
#[derive(Debug)]
pub struct TextColumns {
    pub has_legacy: bool,
    pub has_current: bool,
    pub rows: Vec<TextCells>,
}

/// The contents of a [`TextColumns`].
#[verifier::ext_equal]
pub struct TextColumnsView {
    pub has_legacy: bool,
    pub has_current: bool,
    pub rows: Seq<TextCellsView>,
}

impl View for TextColumns {
    type V = TextColumnsView;

    open spec fn view(&self) -> TextColumnsView {
        TextColumnsView {
            has_legacy: self.has_legacy,
            has_current: self.has_current,
            rows: views(self.rows@),
        }
    }
}

impl Dup for TextColumns {
    fn dup(&self) -> (copy: Self) {
        TextColumns {
            has_legacy: self.has_legacy,
            has_current: self.has_current,
            rows: dup_all(&self.rows),
        }
    }
}

impl Clone for TextColumns {
    fn clone(&self) -> (copy: Self)
        ensures
            copy@ == self@,
    {
        self.dup()
    }
}

/// A renamed number column: which of the two columns are there, and the
/// cells.
#[derive(Debug)]
pub struct NumberColumns {
    pub has_legacy: bool,
    pub has_current: bool,
    pub rows: Vec<NumberCells>,
}

/// The contents of a [`NumberColumns`].
#[verifier::ext_equal]
pub struct NumberColumnsView {
    pub has_legacy: bool,
    pub has_current: bool,
    pub rows: Seq<NumberCellsView>,
}

impl View for NumberColumns {
    type V = NumberColumnsView;

    open spec fn view(&self) -> NumberColumnsView {
        NumberColumnsView {
            has_legacy: self.has_legacy,
            has_current: self.has_current,
            rows: views(self.rows@),
        }
    }
}

impl Dup for NumberColumns {
    fn dup(&self) -> (copy: Self) {
        NumberColumns {
            has_legacy: self.has_legacy,
            has_current: self.has_current,
            rows: dup_all(&self.rows),
        }
    }
}

impl Clone for NumberColumns {
    fn clone(&self) -> (copy: Self)
        ensures
            copy@ == self@,
    {
        self.dup()
    }
}

/// The cells once the plan is carried out. A cell that was filled under the
/// new name keeps its value.
pub open spec fn settled_text(plan: ColumnPlan) -> spec_fn(TextCellsView) -> TextCellsView {
    |c: TextCellsView|
        match plan {
            ColumnPlan::CopyThenDrop => TextCellsView {
                legacy: None,
                current: if c.current == Some(""@) && c.legacy is Some {
                    c.legacy
                } else {
                    c.current
                },
            },
            ColumnPlan::Rename => TextCellsView { legacy: None, current: c.legacy },
            ColumnPlan::Keep => c,
            ColumnPlan::Add => TextCellsView { current: Some(""@), ..c },
        }
}

/// The cells once the plan is carried out; `fresh` is the default of the
/// column.
pub open spec fn settled_number(plan: ColumnPlan, fresh: i64) -> spec_fn(
    NumberCellsView,
) -> NumberCellsView {
    |c: NumberCellsView|
        match plan {
            ColumnPlan::CopyThenDrop => NumberCellsView {
                legacy: None,
                current: if c.current == Some(fresh) && c.legacy is Some {
                    c.legacy
                } else {
                    c.current
                },
            },
            ColumnPlan::Rename => NumberCellsView { legacy: None, current: c.legacy },
            ColumnPlan::Keep => c,
            ColumnPlan::Add => NumberCellsView { current: Some(fresh), ..c },
        }
}

pub open spec fn reconciled_text(t: TextColumnsView) -> TextColumnsView {
    TextColumnsView {
        has_legacy: false,
        has_current: true,
        rows: t.rows.map_values(settled_text(column_plan(t.has_legacy, t.has_current))),
    }
}

pub open spec fn reconciled_number(t: NumberColumnsView, fresh: i64) -> NumberColumnsView {
    NumberColumnsView {
        has_legacy: false,
        has_current: true,
        rows: t.rows.map_values(settled_number(column_plan(t.has_legacy, t.has_current), fresh)),
    }
}

fn settle_text(c: TextCells, plan: ColumnPlan) -> (o: TextCells)
    ensures
        o@ == settled_text(plan)(c@),
{
    match plan {
        ColumnPlan::CopyThenDrop => {
            let unfilled: bool = match &c.current {
                Some(text) => same(text, ""),
                None => false,
            };
            if unfilled && c.legacy.is_some() {
                TextCells { legacy: None, current: c.legacy }
            } else {
                TextCells { legacy: None, current: c.current }
            }
        },
        ColumnPlan::Rename => TextCells { legacy: None, current: c.legacy },
        ColumnPlan::Keep => c,
        ColumnPlan::Add => TextCells { current: Some(own("")), ..c },
    }
}

fn settle_number(c: NumberCells, plan: ColumnPlan, fresh: i64) -> (o: NumberCells)
    ensures
        o@ == settled_number(plan, fresh)(c@),
{
    match plan {
        ColumnPlan::CopyThenDrop => {
            if c.current == Some(fresh) && c.legacy.is_some() {
                NumberCells { legacy: None, current: c.legacy }
            } else {
                NumberCells { legacy: None, current: c.current }
            }
        },
        ColumnPlan::Rename => NumberCells { legacy: None, current: c.legacy },
        ColumnPlan::Keep => c,
        ColumnPlan::Add => NumberCells { current: Some(fresh), ..c },
    }
}

/// Brings a renamed text column to its new name, from whichever of the two
/// columns are there: both, one or none.
pub fn reconcile_column_rename(columns: &mut TextColumns)
    ensures
        final(columns)@ == reconciled_text(old(columns)@),
{
    let plan = plan_column_rename(columns.has_legacy, columns.has_current);
    let ghost before = views(columns.rows@);
    let ghost all = |c: TextCellsView| true;
    let ghost change = settled_text(plan);
    let test = |c: &TextCells| -> (b: bool)
        ensures b == all(c@)
        { true };
    let make = |c: TextCells| -> (o: TextCells)
        ensures o@ == change(c@)
        { settle_text(c, plan) };
    let _n: usize = update_where(&mut columns.rows, test, make, Ghost(all), Ghost(change));
    assert(updated(before, all, change) =~= before.map_values(change));
    columns.has_legacy = false;
    columns.has_current = true;
}

/// The file names of the history once they have their column: a column that
/// is there stays, also beside the one it was renamed from.
pub open spec fn settled_file_names(t: TextColumnsView) -> TextColumnsView {
    if t.has_current {
        t
    } else {
        reconciled_text(t)
    }
}

/// Brings the file names of the history to the column they have now.
pub fn reconcile_file_names(columns: &mut TextColumns)
    ensures
        final(columns)@ == settled_file_names(old(columns)@),
{
    match plan_file_name_column(columns.has_current, columns.has_legacy) {
        ColumnPlan::Keep => {},
        _ => {
            reconcile_column_rename(columns);
        },
    }
}

/// Brings a renamed number column to its new name; `fresh` is its default.
pub fn reconcile_column_rename_typed(columns: &mut NumberColumns, fresh: i64)
    ensures
        final(columns)@ == reconciled_number(old(columns)@, fresh),
{
    let plan = plan_column_rename(columns.has_legacy, columns.has_current);
    let ghost before = views(columns.rows@);
    let ghost all = |c: NumberCellsView| true;
    let ghost change = settled_number(plan, fresh);
    let test = |c: &NumberCells| -> (b: bool)
        ensures b == all(c@)
        { true };
    let make = |c: NumberCells| -> (o: NumberCells)
        ensures o@ == change(c@)
        { settle_number(c, plan, fresh) };
    let _n: usize = update_where(&mut columns.rows, test, make, Ghost(all), Ghost(change));
    assert(updated(before, all, change) =~= before.map_values(change));
    columns.has_legacy = false;
    columns.has_current = true;
}

/// The title that names the folder of a series.
pub open spec fn folder_title_of(s: SeriesRowView) -> Seq<char> {
    if s.title_english.len() > 0 {
        s.title_english
    } else if s.title_romaji.len() > 0 {
        s.title_romaji
    } else {
        s.title
    }
}

/// The title that names the folder of a series: the English one, else the
/// romaji one, else the plain one.
pub fn folder_title(s: &SeriesRow) -> (r: String)
    ensures
        r@ == folder_title_of(s@),
{
    if !s.title_english.as_str().is_empty() {
        s.title_english.clone()
    } else if !s.title_romaji.as_str().is_empty() {
        s.title_romaji.clone()
    } else {
        s.title.clone()
    }
}

/// Settings in their present form stay as they are.
pub proof fn upgrading_the_config_again_changes_nothing(c: LegacyConfigView)
    ensures
        upgraded_config(upgraded_config(c)) == upgraded_config(c),
{
    reveal_strlit("https://");
    reveal_strlit("http://");
    reveal_strlit("web");
    reveal_strlit("bluray");
    reveal_strlit("dvd");
    reveal_strlit("480");
    reveal_strlit("720");
    reveal_strlit("1080");
    reveal_strlit("2160");
}

/// What the user set is not overwritten.
pub proof fn upgrading_the_config_keeps_what_is_set(c: LegacyConfigView)
    ensures
        c.jellyfin_url.len() > 0 ==> upgraded_config(c).jellyfin_url == c.jellyfin_url,
        c.preferred_source.len() > 0 ==> upgraded_config(c).preferred_source == c.preferred_source,
        c.cutoff_source.len() > 0 ==> upgraded_config(c).cutoff_source == c.cutoff_source,
        c.cutoff_resolution.len() > 0 ==> upgraded_config(c).cutoff_resolution
            == c.cutoff_resolution,
{
}

/// An empty cutoff is filled with the resolution in which the combined setting
/// ends, whatever stands before it; `dvd` stands for the lowest one, and a
/// setting that ends in none of them for 1080.
pub proof fn an_empty_cutoff_is_the_resolution_of_the_setting(
    c: LegacyConfigView,
    head: Seq<char>,
)
    requires
        c.cutoff_resolution.len() == 0,
    ensures
        c.quality_cutoff == head + "_480"@ ==> upgraded_config(c).cutoff_resolution == "480"@,
        c.quality_cutoff == head + "_720"@ ==> upgraded_config(c).cutoff_resolution == "720"@,
        c.quality_cutoff == head + "_1080"@ ==> upgraded_config(c).cutoff_resolution == "1080"@,
        c.quality_cutoff == head + "_2160"@ ==> upgraded_config(c).cutoff_resolution == "2160"@,
        head.len() > 0 && c.quality_cutoff == head + "480"@ ==> upgraded_config(c).cutoff_resolution
            == "480"@,
        head.len() > 0 && c.quality_cutoff == head + "720"@ ==> upgraded_config(c).cutoff_resolution
            == "720"@,
        head.len() > 0 && c.quality_cutoff == head + "1080"@ ==> upgraded_config(c).cutoff_resolution
            == "1080"@,
        head.len() > 0 && c.quality_cutoff == head + "2160"@ ==> upgraded_config(c).cutoff_resolution
            == "2160"@,
        c.quality_cutoff == "dvd"@ ==> upgraded_config(c).cutoff_resolution == "480"@,
        c.quality_cutoff != "dvd"@ && (c.quality_cutoff.len() < 4 || c.quality_cutoff.last() != '0')
            ==> upgraded_config(c).cutoff_resolution == "1080"@,
{
    let q = c.quality_cutoff;
    let n = q.len();
    reveal_strlit("dvd");
    reveal_strlit("480");
    reveal_strlit("_480");
    reveal_strlit("%_480");
    assert("%_480"@ =~= seq!['%', '_'] + "480"@);
    lemma_ends_in(q, "480"@);
    reveal_strlit("720");
    reveal_strlit("_720");
    reveal_strlit("%_720");
    assert("%_720"@ =~= seq!['%', '_'] + "720"@);
    lemma_ends_in(q, "720"@);
    reveal_strlit("1080");
    reveal_strlit("_1080");
    reveal_strlit("%_1080");
    assert("%_1080"@ =~= seq!['%', '_'] + "1080"@);
    lemma_ends_in(q, "1080"@);
    reveal_strlit("2160");
    reveal_strlit("_2160");
    reveal_strlit("%_2160");
    assert("%_2160"@ =~= seq!['%', '_'] + "2160"@);
    lemma_ends_in(q, "2160"@);
    if q == head + "_480"@ || head.len() > 0 && q == head + "480"@ {
        assert(q.skip(n - 3) =~= "480"@);
    }
    if n > 3 && q.skip(n - 3) == "480"@ {
        assert(q[n - 3] == q.skip(n - 3)[0]);
        assert(q[n - 2] == q.skip(n - 3)[1]);
        assert(q[n - 1] == q.skip(n - 3)[2]);
    }
    if q == head + "_720"@ || head.len() > 0 && q == head + "720"@ {
        assert(q.skip(n - 3) =~= "720"@);
    }
    if n > 3 && q.skip(n - 3) == "720"@ {
        assert(q[n - 3] == q.skip(n - 3)[0]);
        assert(q[n - 2] == q.skip(n - 3)[1]);
        assert(q[n - 1] == q.skip(n - 3)[2]);
    }
    if q == head + "_1080"@ || head.len() > 0 && q == head + "1080"@ {
        assert(q.skip(n - 4) =~= "1080"@);
    }
    if n > 4 && q.skip(n - 4) == "1080"@ {
        assert(q[n - 4] == q.skip(n - 4)[0]);
        assert(q[n - 3] == q.skip(n - 4)[1]);
        assert(q[n - 2] == q.skip(n - 4)[2]);
        assert(q[n - 1] == q.skip(n - 4)[3]);
    }
    if q == head + "_2160"@ || head.len() > 0 && q == head + "2160"@ {
        assert(q.skip(n - 4) =~= "2160"@);
    }
    if n > 4 && q.skip(n - 4) == "2160"@ {
        assert(q[n - 4] == q.skip(n - 4)[0]);
        assert(q[n - 3] == q.skip(n - 4)[1]);
        assert(q[n - 2] == q.skip(n - 4)[2]);
        assert(q[n - 1] == q.skip(n - 4)[3]);
    }
}

/// What a pattern with any characters, any one, and digits asks for: that a
/// text ends in the digits and has something before them.
proof fn lemma_ends_in(q: Seq<char>, digits: Seq<char>)
    requires
        forall|i: int| 0 <= i < digits.len() ==> '0' <= #[trigger] digits[i] <= '9',
    ensures
        like(seq!['%', '_'] + digits, q) <==> q.len() > digits.len() && q.skip(
            q.len() - digits.len(),
        ) == digits,
{
    let tail = seq!['_'] + digits;
    let m = q.len() - digits.len();
    assert(seq!['%', '_'] + digits =~= seq!['%'] + tail);
    assert forall|i: int| 0 <= i < tail.len() implies #[trigger] tail[i] != '%' by {
        if i > 0 {
            assert(tail[i] == digits[i - 1]);
        }
    }
    crate::text::a_percent_in_front_matches_what_ends_so(tail, q);
    if like(seq!['%'] + tail, q) {
        assert forall|i: int| 0 <= i < digits.len() implies q.skip(m)[i] == #[trigger] digits[i] by {
            assert(tail[i + 1] == digits[i]);
            assert(lower(tail[i + 1]) == lower(q[q.len() - tail.len() + (i + 1)]));
        }
        assert(q.skip(m) =~= digits);
    }
    if q.len() > digits.len() && q.skip(m) == digits {
        assert forall|i: int| 0 <= i < tail.len() implies tail[i] == '_' || lower(#[trigger] tail[i])
            == lower(q[q.len() - tail.len() + i]) by {
            if i > 0 {
                assert(tail[i] == digits[i - 1]);
                assert(q.skip(m)[i - 1] == q[m + i - 1]);
            }
        }
    }
}

/// What a pattern with small letters, any one character and any characters asks
/// for: that a text begins with the letters, in either case, and goes on.
proof fn lemma_begins_with(q: Seq<char>, word: Seq<char>)
    requires
        forall|i: int| 0 <= i < word.len() ==> 'a' <= #[trigger] word[i] <= 'z',
    ensures
        like(word + seq!['_', '%'], q) <==> q.len() > word.len() && lowered(q).take(
            word.len() as int,
        ) == word,
{
    let head = word.push('_');
    let low = lowered(q);
    let n = word.len() as int;
    assert(word + seq!['_', '%'] =~= head.push('%'));
    assert forall|i: int| 0 <= i < head.len() implies #[trigger] head[i] != '%' by {
        if i < n {
            assert(head[i] == word[i]);
        }
    }
    crate::text::a_percent_behind_matches_what_begins_so(head, q);
    if like(head.push('%'), q) {
        assert forall|i: int| 0 <= i < n implies low.take(n)[i] == #[trigger] word[i] by {
            assert(head[i] == word[i]);
            assert(lower(head[i]) == lower(q[i]));
            assert(low[i] == lower(q[i]));
        }
        assert(low.take(n) =~= word);
    }
    if q.len() > n && low.take(n) == word {
        assert forall|i: int| 0 <= i < head.len() implies head[i] == '_' || lower(#[trigger] head[i])
            == lower(q[i]) by {
            if i < n {
                assert(head[i] == word[i]);
                assert(low.take(n)[i] == low[i]);
            }
        }
    }
}

/// An empty source is filled with the one that the combined setting begins
/// with, in either case; discs and remuxes are discs. A setting that begins
/// with none of them leaves the source that is usual there.
pub proof fn an_empty_source_is_the_one_of_the_setting(
    c: LegacyConfigView,
    rest: Seq<char>,
)
    requires
        rest.len() > 0,
    ensures
        c.preferred_source.len() == 0 ==> ({
            let source = upgraded_config(c).preferred_source;
            &&& lowered(c.quality_profile) == "web"@ + rest ==> source == "web"@
            &&& lowered(c.quality_profile) == "bd"@ + rest ==> source == "bluray"@
            &&& lowered(c.quality_profile) == "remux"@ + rest ==> source == "bluray"@
            &&& c.quality_profile == "dvd"@ ==> source == "dvd"@
            &&& c.quality_profile.len() < 3 ==> source == "web"@
            &&& c.quality_profile.len() > 0 && c.quality_profile[0] != 'd' && c.quality_profile[0]
                != 'b' && c.quality_profile[0] != 'B' && c.quality_profile[0] != 'r'
                && c.quality_profile[0] != 'R' ==> source == "web"@
        }),
        c.cutoff_source.len() == 0 ==> ({
            let source = upgraded_config(c).cutoff_source;
            &&& lowered(c.quality_cutoff) == "web"@ + rest ==> source == "web"@
            &&& lowered(c.quality_cutoff) == "bd"@ + rest ==> source == "bluray"@
            &&& lowered(c.quality_cutoff) == "remux"@ + rest ==> source == "bluray"@
            &&& c.quality_cutoff == "dvd"@ ==> source == "dvd"@
            &&& c.quality_cutoff.len() < 3 ==> source == "bluray"@
            &&& c.quality_cutoff.len() > 0 && c.quality_cutoff[0] != 'd' && c.quality_cutoff[0] != 'w'
                && c.quality_cutoff[0] != 'W' ==> source == "bluray"@
        }),
{
    reveal_strlit("dvd");
    reveal_strlit("web");
    reveal_strlit("bd");
    reveal_strlit("remux");
    lemma_profile_source(c.quality_profile, "web"@, rest);
    lemma_profile_source(c.quality_cutoff, "bluray"@, rest);
}

proof fn lemma_profile_source(q: Seq<char>, otherwise: Seq<char>, rest: Seq<char>)
    requires
        rest.len() > 0,
    ensures
        lowered(q) == "web"@ + rest ==> source_of_profile(q, otherwise) == "web"@,
        lowered(q) == "bd"@ + rest ==> source_of_profile(q, otherwise) == "bluray"@,
        lowered(q) == "remux"@ + rest ==> source_of_profile(q, otherwise) == "bluray"@,
        q == "dvd"@ ==> source_of_profile(q, otherwise) == "dvd"@,
        q.len() < 3 ==> source_of_profile(q, otherwise) == otherwise,
        q.len() > 0 && q[0] != 'w' && q[0] != 'W' && q[0] != 'b' && q[0] != 'B' && q[0] != 'r' && q[0]
            != 'R' && q[0] != 'd' ==> source_of_profile(q, otherwise) == otherwise,
        q.len() > 0 && (q[0] == 'w' || q[0] == 'W') ==> source_of_profile(q, otherwise) == "web"@
            || source_of_profile(q, otherwise) == otherwise,
        q.len() > 0 && (q[0] == 'b' || q[0] == 'B' || q[0] == 'r' || q[0] == 'R')
            ==> source_of_profile(q, otherwise) == "bluray"@ || source_of_profile(q, otherwise)
            == otherwise,
{
    reveal_strlit("dvd");
    reveal_strlit("web");
    reveal_strlit("bd");
    reveal_strlit("remux");
    let low = lowered(q);
    assert(low.len() == q.len());
    if q.len() > 0 {
        assert(low[0] == lower(q[0]));
    }
    reveal_strlit("web_%");
    assert("web_%"@ =~= "web"@ + seq!['_', '%']);
    lemma_begins_with(q, "web"@);
    if q.len() > 3 && low.take(3) == "web"@ {
        assert(low.take(3)[0] == low[0] && low.take(3)[1] == low[1]);
    }
    if low == "web"@ + rest {
        assert(low.take(3) =~= "web"@);
    }
    reveal_strlit("bd_%");
    assert("bd_%"@ =~= "bd"@ + seq!['_', '%']);
    lemma_begins_with(q, "bd"@);
    if q.len() > 2 && low.take(2) == "bd"@ {
        assert(low.take(2)[0] == low[0] && low.take(2)[1] == low[1]);
    }
    if low == "bd"@ + rest {
        assert(low.take(2) =~= "bd"@);
    }
    reveal_strlit("remux_%");
    assert("remux_%"@ =~= "remux"@ + seq!['_', '%']);
    lemma_begins_with(q, "remux"@);
    if q.len() > 5 && low.take(5) == "remux"@ {
        assert(low.take(5)[0] == low[0] && low.take(5)[1] == low[1]);
    }
    if low == "remux"@ + rest {
        assert(low.take(5) =~= "remux"@);
    }
    if q == "dvd"@ {
        assert(low[0] == 'd');
    }
}

/// An empty address of the media server is made of its parts: the scheme that
/// the switch stands for, the host, and the port where there is one. The parts
/// and the combined settings themselves stay.
pub proof fn an_empty_address_is_made_of_its_parts(c: LegacyConfigView)
    ensures
        c.jellyfin_url.len() == 0 && c.jellyfin_host.len() > 0 ==> ({
            let url = upgraded_config(c).jellyfin_url;
            &&& c.jellyfin_use_ssl && c.jellyfin_port.len() > 0 ==> url == "https://"@
                + c.jellyfin_host + ":"@ + c.jellyfin_port
            &&& c.jellyfin_use_ssl && c.jellyfin_port.len() == 0 ==> url == "https://"@
                + c.jellyfin_host
            &&& !c.jellyfin_use_ssl && c.jellyfin_port.len() > 0 ==> url == "http://"@
                + c.jellyfin_host + ":"@ + c.jellyfin_port
            &&& !c.jellyfin_use_ssl && c.jellyfin_port.len() == 0 ==> url == "http://"@
                + c.jellyfin_host
        }),
        c.jellyfin_host.len() == 0 ==> upgraded_config(c).jellyfin_url == c.jellyfin_url,
        upgraded_config(c).jellyfin_host == c.jellyfin_host,
        upgraded_config(c).jellyfin_port == c.jellyfin_port,
        upgraded_config(c).jellyfin_use_ssl == c.jellyfin_use_ssl,
        upgraded_config(c).quality_profile == c.quality_profile,
        upgraded_config(c).quality_cutoff == c.quality_cutoff,
{
}

/// A tag whose label is made again keeps everything else.
pub proof fn relabelling_changes_the_label_alone(tags: Seq<TagRowView>, i: int)
    requires
        0 <= i < tags.len(),
    ensures
        ({
            let after = tags.map_values(relabelling())[i];
            &&& after == TagRowView { quality_tag: after.quality_tag, ..tags[i] }
        }),
{
}

/// The name of the folder is the English title; without one the romaji title,
/// and without that the plain one.
pub proof fn the_first_title_there_is_names_the_folder(s: SeriesRowView)
    ensures
        s.title_english.len() > 0 ==> folder_title_of(s) == s.title_english,
        s.title_english.len() == 0 && s.title_romaji.len() > 0 ==> folder_title_of(s)
            == s.title_romaji,
        s.title_english.len() == 0 && s.title_romaji.len() == 0 ==> folder_title_of(s) == s.title,
{
}

/// The cells of a renamed column, row by row: under the new name alone, with
/// what stood there under either; a new column is empty, and one that has its
/// new name only is left as it is.
pub proof fn a_renamed_column_holds_what_either_held(t: TextColumnsView, i: int)
    requires
        0 <= i < t.rows.len(),
    ensures
        ({
            let after = reconciled_text(t);
            let was = t.rows[i];
            &&& after.has_current && !after.has_legacy
            &&& after.rows.len() == t.rows.len()
            &&& t.has_legacy && !t.has_current ==> after.rows[i].current == was.legacy
            &&& !t.has_legacy && t.has_current ==> after.rows[i] == was
            &&& !t.has_legacy && !t.has_current ==> after.rows[i].current == Some(""@)
            &&& t.has_legacy && t.has_current && was.current != Some(""@) ==> after.rows[i].current
                == was.current
            &&& t.has_legacy && t.has_current && was.current == Some(""@) && was.legacy is Some
                ==> after.rows[i].current == was.legacy
            &&& t.has_legacy && t.has_current && was.legacy is None ==> after.rows[i].current
                == was.current
            &&& t.has_legacy ==> after.rows[i].legacy is None
        }),
{
}

/// The same of a column of numbers, whose default is `fresh`.
pub proof fn a_renamed_number_column_holds_what_either_held(n: NumberColumnsView, fresh: i64, i: int)
    requires
        0 <= i < n.rows.len(),
    ensures
        ({
            let after = reconciled_number(n, fresh);
            let was = n.rows[i];
            &&& after.has_current && !after.has_legacy
            &&& after.rows.len() == n.rows.len()
            &&& n.has_legacy && !n.has_current ==> after.rows[i].current == was.legacy
            &&& !n.has_legacy && n.has_current ==> after.rows[i] == was
            &&& !n.has_legacy && !n.has_current ==> after.rows[i].current == Some(fresh)
            &&& n.has_legacy && n.has_current && was.current != Some(fresh) ==> after.rows[i].current
                == was.current
            &&& n.has_legacy && n.has_current && was.current == Some(fresh) && was.legacy is Some
                ==> after.rows[i].current == was.legacy
            &&& n.has_legacy && n.has_current && was.legacy is None ==> after.rows[i].current
                == was.current
            &&& n.has_legacy ==> after.rows[i].legacy is None
        }),
{
}

/// The names of the files stand under the name that the column has now: where
/// it had that name already they stay, and otherwise they come from the old
/// name.
pub proof fn file_names_are_found_under_the_new_name(t: TextColumnsView, i: int)
    requires
        0 <= i < t.rows.len(),
    ensures
        ({
            let after = settled_file_names(t);
            &&& after.has_current
            &&& after.rows.len() == t.rows.len()
            &&& t.has_current ==> after.rows[i] == t.rows[i]
            &&& !t.has_current && t.has_legacy ==> after.rows[i].current == t.rows[i].legacy
            &&& !t.has_current && !t.has_legacy ==> after.rows[i].current == Some(""@)
        }),
{
}

/// Labels made from the source and the resolution stay as they are.
pub proof fn regenerating_labels_again_changes_nothing(tags: Seq<TagRowView>)
    ensures
        tags.map_values(relabelling()).map_values(relabelling()) == tags.map_values(relabelling()),
{
    assert(tags.map_values(relabelling()).map_values(relabelling()) =~= tags.map_values(
        relabelling(),
    ));
}

/// Whether `part` stands anywhere in `s`.
pub open spec fn occurs(s: Seq<char>, part: Seq<char>) -> bool {
    exists|at: int| 0 <= at <= s.len() && #[trigger] stands_at(s, part, at)
}

/// Replacing what does not stand in a text leaves the text as it is.
pub proof fn lemma_replaced_unchanged(s: Seq<char>, from: Seq<char>, to: Seq<char>)
    requires
        !occurs(s, from),
    ensures
        replaced(s, from, to) == s,
    decreases s.len(),
{
    if s.len() > 0 && from.len() > 0 {
        assert(!stands_at(s, from, 0));
        let rest = s.drop_first();
        assert forall|at: int| 0 <= at <= rest.len() implies !#[trigger] stands_at(rest, from, at) by {
            if stands_at(rest, from, at) {
                assert(s.subrange(at + 1, at + 1 + from.len()) =~= rest.subrange(
                    at,
                    at + from.len(),
                ));
                assert(stands_at(s, from, at + 1));
            }
        }
        lemma_replaced_unchanged(rest, from, to);
        assert(seq![s[0]] + rest =~= s);
    }
}

/// A label in which no part of an earlier form stands stays as it is.
pub proof fn a_label_in_its_present_form_stays(
    label: Seq<char>,
    rules: Seq<(Seq<char>, Seq<char>)>,
)
    requires
        forall|i: int| 0 <= i < rules.len() ==> !occurs(label, (#[trigger] rules[i]).0),
    ensures
        rewritten(label, rules) == label,
    decreases rules.len(),
{
    if rules.len() > 0 {
        assert(!occurs(label, rules[0].0));
        lemma_replaced_unchanged(label, rules[0].0, rules[0].1);
        assert forall|i: int| 0 <= i < rules.drop_first().len() implies !occurs(
            label,
            (#[trigger] rules.drop_first()[i]).0,
        ) by {
            assert(!occurs(label, rules[i + 1].0));
        }
        a_label_in_its_present_form_stays(label, rules.drop_first());
    }
}

/// A column under its new name stays as it is.
pub proof fn reconciling_again_changes_nothing(
    t: TextColumnsView,
    n: NumberColumnsView,
    fresh: i64,
)
    ensures
        reconciled_text(reconciled_text(t)) == reconciled_text(t),
        reconciled_number(reconciled_number(n, fresh), fresh) == reconciled_number(n, fresh),
{
    assert(reconciled_text(reconciled_text(t)).rows =~= reconciled_text(t).rows);
    assert(reconciled_number(reconciled_number(n, fresh), fresh).rows =~= reconciled_number(
        n,
        fresh,
    ).rows);
}

/// No text is lost: what a row held under the new name, or else under the old
/// one, it holds under the new name.
pub proof fn reconciling_loses_no_text(t: TextColumnsView, i: int)
    requires
        0 <= i < t.rows.len(),
    ensures
        ({
            let c = t.rows[i];
            let after = reconciled_text(t).rows[i].current;
            &&& t.has_current && c.current is Some && c.current->0.len() > 0 ==> after == c.current
            &&& t.has_legacy && c.legacy is Some && (t.has_current ==> c.current == Some(""@))
                ==> after == c.legacy
        }),
{
    reveal_strlit("");
}

} // verus!
