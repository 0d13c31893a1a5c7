//! The series of the library, as far as the other records refer to them.
use crate::json::texts;
use crate::table::{any, any_where, first_where, position, select, views, Dup};
use crate::text::{own, same};
use vstd::prelude::*;

verus! {

/// A series of the library.
#[derive(Debug)]
pub struct SeriesRow {
    pub id: i64,
    pub anilist_id: i64,
    pub title: String,
    pub title_english: String,
    pub title_romaji: String,
    pub title_native: String,
    pub cover_url: String,
    /// The folder under the media root; empty while none is chosen.
    pub folder_name: String,
    /// The score on the linked account's list.
    pub user_score: Option<i64>,
    /// The account whose list brought the series in.
    pub synced_from_external_account_id: Option<i64>,
}

/// The contents of a [`SeriesRow`].
#[verifier::ext_equal]
pub struct SeriesRowView {
    pub id: i64,
    pub anilist_id: i64,
    pub title: Seq<char>,
    pub title_english: Seq<char>,
    pub title_romaji: Seq<char>,
    pub title_native: Seq<char>,
    pub cover_url: Seq<char>,
    pub folder_name: Seq<char>,
    pub user_score: Option<i64>,
    pub synced_from_external_account_id: Option<i64>,
}

impl View for SeriesRow {
    type V = SeriesRowView;

    open spec fn view(&self) -> SeriesRowView {
        SeriesRowView {
            id: self.id,
            anilist_id: self.anilist_id,
            title: self.title@,
            title_english: self.title_english@,
            title_romaji: self.title_romaji@,
            title_native: self.title_native@,
            cover_url: self.cover_url@,
            folder_name: self.folder_name@,
            user_score: self.user_score,
            synced_from_external_account_id: self.synced_from_external_account_id,
        }
    }
}

impl Dup for SeriesRow {
    fn dup(&self) -> (copy: Self) {
        SeriesRow {
            id: self.id,
            anilist_id: self.anilist_id,
            title: self.title.clone(),
            title_english: self.title_english.clone(),
            title_romaji: self.title_romaji.clone(),
            title_native: self.title_native.clone(),
            cover_url: self.cover_url.clone(),
            folder_name: self.folder_name.clone(),
            user_score: self.user_score,
            synced_from_external_account_id: self.synced_from_external_account_id,
        }
    }
}

impl Clone for SeriesRow {
    fn clone(&self) -> (copy: Self)
        ensures
            copy@ == self@,
    {
        self.dup()
    }
}

pub open spec fn has_id(id: i64) -> spec_fn(SeriesRowView) -> bool {
    |s: SeriesRowView| s.id == id
}

/// Whether there is a series with this id.
pub open spec fn known(series: Seq<SeriesRowView>, id: i64) -> bool {
    any_where(series, has_id(id))
}

pub fn is_known(series: &Vec<SeriesRow>, id: i64) -> (r: bool)
    ensures
        r == known(views(series@), id),
{
    let test = |s: &SeriesRow| -> (b: bool)
        ensures b == has_id(id)(s@)
        { s.id == id };
    any(series, test, Ghost(has_id(id)))
}

/// The first of four texts that is not empty; the last when the others are.
pub open spec fn first_of(a: Seq<char>, b: Seq<char>, c: Seq<char>, d: Seq<char>) -> Seq<char> {
    if a.len() > 0 {
        a
    } else if b.len() > 0 {
        b
    } else if c.len() > 0 {
        c
    } else {
        d
    }
}

/// The title in the preferred language, with the others to fall back on.
pub open spec fn preferred_title(s: SeriesRowView, preference: Seq<char>) -> Seq<char> {
    if preference == "romaji"@ {
        first_of(s.title_romaji, s.title_english, s.title_native, s.title)
    } else if preference == "native"@ {
        first_of(s.title_native, s.title_english, s.title_romaji, s.title)
    } else {
        first_of(s.title_english, s.title_romaji, s.title_native, s.title)
    }
}

fn choose_text(a: &str, b: &str, c: &str, d: &str) -> (r: String)
    ensures
        r@ == first_of(a@, b@, c@, d@),
{
    if !a.is_empty() {
        own(a)
    } else if !b.is_empty() {
        own(b)
    } else if !c.is_empty() {
        own(c)
    } else {
        own(d)
    }
}

/// The title of `s` in the preferred language: `romaji`, `native`, or English
/// for every other preference. Empty titles are passed over; what is left at
/// the end is the plain title.
pub fn title_for_preference(s: &SeriesRow, preference: &str) -> (title: String)
    ensures
        title@ == preferred_title(s@, preference@),
{
    if same(preference, "romaji") {
        choose_text(&s.title_romaji, &s.title_english, &s.title_native, &s.title)
    } else if same(preference, "native") {
        choose_text(&s.title_native, &s.title_english, &s.title_romaji, &s.title)
    } else {
        choose_text(&s.title_english, &s.title_romaji, &s.title_native, &s.title)
    }
}

pub open spec fn has_folder() -> spec_fn(SeriesRowView) -> bool {
    |s: SeriesRowView| s.folder_name.len() > 0
}

/// The folders that belong to series of the library.
pub fn owned_folders(series: &Vec<SeriesRow>) -> (folders: Vec<String>)
    ensures
        texts(folders@) == views(series@).filter(has_folder()).map_values(
            |s: SeriesRowView| s.folder_name,
        ),
{
    let test = |s: &SeriesRow| -> (b: bool)
        ensures b == has_folder()(s@)
        { !s.folder_name.as_str().is_empty() };
    let rows = select(series, test, Ghost(has_folder()));
    let ghost all = views(rows@).map_values(|s: SeriesRowView| s.folder_name);
    assert(views(rows@).len() == rows.len());
    let mut folders: Vec<String> = Vec::new();
    let mut i: usize = 0;
    assert(texts(folders@) =~= all.take(0));
    while i < rows.len()
        invariant
            i <= rows.len(),
            views(rows@).len() == rows.len(),
            all == views(rows@).map_values(|s: SeriesRowView| s.folder_name),
            texts(folders@) == all.take(i as int),
        decreases rows.len() - i,
    {
        let ghost had = folders@;
        folders.push(rows[i].folder_name.clone());
        proof {
            assert(views(rows@)[i as int] == rows[i as int]@);
            assert(texts(folders@) =~= texts(had).push(all[i as int]));
            assert(all.take(i + 1) =~= all.take(i as int).push(all[i as int]));
        }
        i += 1;
    }
    assert(all.take(i as int) =~= all);
    folders
}

/// The series with this id.
pub fn find(series: &Vec<SeriesRow>, id: i64) -> (r: Option<SeriesRow>)
    ensures
        match r {
            Some(s) => first_where(views(series@), has_id(id)) == Some(s@),
            None => first_where(views(series@), has_id(id)) is None,
        },
{
    let test = |s: &SeriesRow| -> (b: bool)
        ensures b == has_id(id)(s@)
        { s.id == id };
    match position(series, test, Ghost(has_id(id))) {
        Some(i) => Some(series[i].dup()),
        None => None,
    }
}

/// A series is shown under the title that the reader likes best, where it has
/// one. Otherwise the English one goes before the others, the plain one comes
/// last, and no empty one is shown while another is there.
pub proof fn a_series_is_shown_under_the_liked_title(s: SeriesRowView, preference: Seq<char>)
    ensures
        preference == "romaji"@ && s.title_romaji.len() > 0 ==> preferred_title(s, preference)
            == s.title_romaji,
        preference == "native"@ && s.title_native.len() > 0 ==> preferred_title(s, preference)
            == s.title_native,
        preference != "romaji"@ && preference != "native"@ && s.title_english.len() > 0
            ==> preferred_title(s, preference) == s.title_english,
        preference == "romaji"@ && s.title_romaji.len() == 0 && s.title_english.len() > 0
            ==> preferred_title(s, preference) == s.title_english,
        preference == "native"@ && s.title_native.len() == 0 && s.title_english.len() > 0
            ==> preferred_title(s, preference) == s.title_english,
        preference != "romaji"@ && preference != "native"@ && s.title_english.len() == 0
            && s.title_romaji.len() > 0 ==> preferred_title(s, preference) == s.title_romaji,
        preference == "romaji"@ && s.title_romaji.len() == 0 && s.title_english.len() == 0
            && s.title_native.len() > 0 ==> preferred_title(s, preference) == s.title_native,
        preference == "native"@ && s.title_native.len() == 0 && s.title_english.len() == 0
            && s.title_romaji.len() > 0 ==> preferred_title(s, preference) == s.title_romaji,
        preference != "romaji"@ && preference != "native"@ && s.title_english.len() == 0
            && s.title_romaji.len() == 0 && s.title_native.len() > 0 ==> preferred_title(
            s,
            preference,
        ) == s.title_native,
        s.title_english.len() == 0 && s.title_romaji.len() == 0 && s.title_native.len() == 0
            ==> preferred_title(s, preference) == s.title,
        preferred_title(s, preference).len() == 0 ==> s.title.len() == 0 && s.title_english.len()
            == 0 && s.title_romaji.len() == 0 && s.title_native.len() == 0,
{
    reveal_strlit("romaji");
    reveal_strlit("native");
    assert("romaji"@[0] != "native"@[0]);
}

/// The folders that are owned are those of the series that have one.
pub proof fn owned_folders_are_those_of_the_series(series: Seq<SeriesRowView>, folder: Seq<char>)
    ensures
        series.filter(has_folder()).map_values(|s: SeriesRowView| s.folder_name).contains(folder)
            <==> folder.len() > 0 && exists|i: int|
            0 <= i < series.len() && (#[trigger] series[i]).folder_name == folder,
{
    let f = series.filter(has_folder());
    let name = |s: SeriesRowView| s.folder_name;
    let list = f.map_values(name);
    crate::table::lemma_filter_members(series, has_folder());
    if list.contains(folder) {
        let k = choose|k: int| 0 <= k < list.len() && list[k] == folder;
        assert(f.contains(f[k]));
        assert(series.contains(f[k]) && has_folder()(f[k]));
        let i = choose|i: int| 0 <= i < series.len() && series[i] == f[k];
        assert(series[i].folder_name == folder);
    }
    if folder.len() > 0 && exists|i: int|
        0 <= i < series.len() && (#[trigger] series[i]).folder_name == folder {
        let i = choose|i: int| 0 <= i < series.len() && (#[trigger] series[i]).folder_name == folder;
        series.lemma_filter_contains(has_folder(), i);
        let k = choose|k: int| 0 <= k < f.len() && f[k] == series[i];
        assert(list[k] == folder);
    }
}

/// A series is known exactly where a row has its id.
pub proof fn a_known_series_has_a_row(series: Seq<SeriesRowView>, id: i64)
    ensures
        known(series, id) <==> exists|i: int|
            0 <= i < series.len() && (#[trigger] series[i]).id == id,
{
    if known(series, id) {
        let i = choose|i: int| 0 <= i < series.len() && has_id(id)(#[trigger] series[i]);
        assert(series[i].id == id);
    }
    if exists|i: int| 0 <= i < series.len() && (#[trigger] series[i]).id == id {
        let i = choose|i: int| 0 <= i < series.len() && (#[trigger] series[i]).id == id;
        assert(has_id(id)(series[i]));
    }
}

} // verus!
