//! The log: its levels and categories, and its entries.
use crate::json::{has_text, texts};
use crate::models::StoreError;
use crate::table::{
    check_numbered, delete_where, limit, limited, numbered, order_by, ordered, select, views,
    without, Dup,
};
use crate::text::{
    at_most, chars_of, dup_optional, equal_nocase, like, lower, lowered, matches_like, of_chars,
    optional_text, own, same, same_nocase, text_lt, to_lower,
};
use vstd::prelude::*;

verus! {

/// How grave an entry is, from the least on.
#[derive(Debug, Clone, Copy, PartialEq, Eq, Structural)]
pub enum LogLevel {
    Trace,
    Debug,
    Info,
    Warn,
    Error,
}

/// The part of the manager that an entry comes from.
#[derive(Debug, Clone, Copy, PartialEq, Eq, Structural)]
pub enum LogCategory {
    Search,
    Grab,
    AutoSearch,
    Nyaa,
    AniList,
    Jikan,
    QBit,
    Jellyfin,
    Media,
    Library,
    Auth,
    System,
}

/// A character in lower case, as far as the result is an ASCII letter: `A` to
/// `Z`, and the Kelvin sign, whose lower case is `k`.
pub open spec fn folded_char(c: char) -> char {
    if c == '\u{212A}' {
        'k'
    } else {
        lower(c)
    }
}

/// A text in lower case, as far as it can be the name of a level or category.
pub open spec fn folded(s: Seq<char>) -> Seq<char> {
    s.map_values(|c: char| folded_char(c))
}

fn fold(s: &str) -> (out: String)
    ensures
        out@ == folded(s@),
{
    let chars = chars_of(s);
    let mut out: Vec<char> = Vec::new();
    let mut i: usize = 0;
    while i < chars.len()
        invariant
            i <= chars.len(),
            chars@ == s@,
            out.len() == i,
            forall|k: int| 0 <= k < i ==> #[trigger] out@[k] == folded_char(s@[k]),
        decreases chars.len() - i,
    {
        let c = chars[i];
        if c == '\u{212A}' {
            out.push('k');
        } else {
            out.push(to_lower(c));
        }
        i += 1;
    }
    assert(out@ =~= folded(s@));
    of_chars(&out)
}

/// The level with a name; `Info` when there is none.
pub open spec fn level_named(name: Seq<char>) -> LogLevel {
    if name == "trace"@ {
        LogLevel::Trace
    } else if name == "debug"@ {
        LogLevel::Debug
    } else if name == "warn"@ {
        LogLevel::Warn
    } else if name == "error"@ {
        LogLevel::Error
    } else {
        LogLevel::Info
    }
}

impl LogLevel {
    pub open spec fn name(self) -> Seq<char> {
        match self {
            LogLevel::Trace => "trace"@,
            LogLevel::Debug => "debug"@,
            LogLevel::Info => "info"@,
            LogLevel::Warn => "warn"@,
            LogLevel::Error => "error"@,
        }
    }

    /// The name of the level.
    pub fn as_str(&self) -> (name: &'static str)
        ensures
            name@ == self.name(),
    {
        match self {
            LogLevel::Trace => "trace",
            LogLevel::Debug => "debug",
            LogLevel::Info => "info",
            LogLevel::Warn => "warn",
            LogLevel::Error => "error",
        }
    }

    /// The level with a name, in any case; `Info` when there is none.
    pub fn from_str(s: &str) -> (level: Self)
        ensures
            level == level_named(folded(s@)),
    {
        let name = fold(s);
        if same(&name, "trace") {
            LogLevel::Trace
        } else if same(&name, "debug") {
            LogLevel::Debug
        } else if same(&name, "warn") {
            LogLevel::Warn
        } else if same(&name, "error") {
            LogLevel::Error
        } else {
            LogLevel::Info
        }
    }
}

/// The category with a name.
pub open spec fn category_named(name: Seq<char>) -> Option<LogCategory> {
    if name == "search"@ {
        Some(LogCategory::Search)
    } else if name == "grab"@ {
        Some(LogCategory::Grab)
    } else if name == "auto_search"@ {
        Some(LogCategory::AutoSearch)
    } else if name == "nyaa"@ {
        Some(LogCategory::Nyaa)
    } else if name == "anilist"@ {
        Some(LogCategory::AniList)
    } else if name == "jikan"@ {
        Some(LogCategory::Jikan)
    } else if name == "qbit"@ {
        Some(LogCategory::QBit)
    } else if name == "jellyfin"@ {
        Some(LogCategory::Jellyfin)
    } else if name == "media"@ {
        Some(LogCategory::Media)
    } else if name == "library"@ {
        Some(LogCategory::Library)
    } else if name == "auth"@ {
        Some(LogCategory::Auth)
    } else if name == "system"@ {
        Some(LogCategory::System)
    } else {
        None
    }
}

impl LogCategory {
    pub open spec fn name(self) -> Seq<char> {
        match self {
            LogCategory::Search => "search"@,
            LogCategory::Grab => "grab"@,
            LogCategory::AutoSearch => "auto_search"@,
            LogCategory::Nyaa => "nyaa"@,
            LogCategory::AniList => "anilist"@,
            LogCategory::Jikan => "jikan"@,
            LogCategory::QBit => "qbit"@,
            LogCategory::Jellyfin => "jellyfin"@,
            LogCategory::Media => "media"@,
            LogCategory::Library => "library"@,
            LogCategory::Auth => "auth"@,
            LogCategory::System => "system"@,
        }
    }

    /// The name of the category.
    pub fn as_str(&self) -> (name: &'static str)
        ensures
            name@ == self.name(),
    {
        match self {
            LogCategory::Search => "search",
            LogCategory::Grab => "grab",
            LogCategory::AutoSearch => "auto_search",
            LogCategory::Nyaa => "nyaa",
            LogCategory::AniList => "anilist",
            LogCategory::Jikan => "jikan",
            LogCategory::QBit => "qbit",
            LogCategory::Jellyfin => "jellyfin",
            LogCategory::Media => "media",
            LogCategory::Library => "library",
            LogCategory::Auth => "auth",
            LogCategory::System => "system",
        }
    }

    /// The category with a name, in any case.
    pub fn from_str(s: &str) -> (category: Option<Self>)
        ensures
            category == category_named(folded(s@)),
    {
        let name = fold(s);
        if same(&name, "search") {
            Some(LogCategory::Search)
        } else if same(&name, "grab") {
            Some(LogCategory::Grab)
        } else if same(&name, "auto_search") {
            Some(LogCategory::AutoSearch)
        } else if same(&name, "nyaa") {
            Some(LogCategory::Nyaa)
        } else if same(&name, "anilist") {
            Some(LogCategory::AniList)
        } else if same(&name, "jikan") {
            Some(LogCategory::Jikan)
        } else if same(&name, "qbit") {
            Some(LogCategory::QBit)
        } else if same(&name, "jellyfin") {
            Some(LogCategory::Jellyfin)
        } else if same(&name, "media") {
            Some(LogCategory::Media)
        } else if same(&name, "library") {
            Some(LogCategory::Library)
        } else if same(&name, "auth") {
            Some(LogCategory::Auth)
        } else if same(&name, "system") {
            Some(LogCategory::System)
        } else {
            None
        }
    }

    pub open spec fn title(self) -> Seq<char> {
        match self {
            LogCategory::Search => "Search"@,
            LogCategory::Grab => "Grab"@,
            LogCategory::AutoSearch => "Auto Search"@,
            LogCategory::Nyaa => "Nyaa"@,
            LogCategory::AniList => "AniList"@,
            LogCategory::Jikan => "Jikan"@,
            LogCategory::QBit => "qBittorrent"@,
            LogCategory::Jellyfin => "Jellyfin"@,
            LogCategory::Media => "Media"@,
            LogCategory::Library => "Library"@,
            LogCategory::Auth => "Auth"@,
            LogCategory::System => "System"@,
        }
    }

    /// The category as a reader sees it.
    pub fn label(&self) -> (label: &'static str)
        ensures
            label@ == self.title(),
    {
        match self {
            LogCategory::Search => "Search",
            LogCategory::Grab => "Grab",
            LogCategory::AutoSearch => "Auto Search",
            LogCategory::Nyaa => "Nyaa",
            LogCategory::AniList => "AniList",
            LogCategory::Jikan => "Jikan",
            LogCategory::QBit => "qBittorrent",
            LogCategory::Jellyfin => "Jellyfin",
            LogCategory::Media => "Media",
            LogCategory::Library => "Library",
            LogCategory::Auth => "Auth",
            LogCategory::System => "System",
        }
    }
}

/// A level is read from its name.
pub proof fn a_level_is_read_from_its_name(level: LogLevel)
    ensures
        level_named(folded(level.name())) == level,
{
    reveal_strlit("trace");
    reveal_strlit("debug");
    reveal_strlit("info");
    reveal_strlit("warn");
    reveal_strlit("error");
    assert(folded(level.name()) =~= level.name());
    lemma_level_names_differ();
}

proof fn lemma_level_names_differ()
    ensures
        "trace"@ != "debug"@,
        "trace"@ != "info"@,
        "trace"@ != "warn"@,
        "trace"@ != "error"@,
        "debug"@ != "info"@,
        "debug"@ != "warn"@,
        "debug"@ != "error"@,
        "info"@ != "warn"@,
        "info"@ != "error"@,
        "warn"@ != "error"@,
{
    reveal_strlit("trace");
    reveal_strlit("debug");
    reveal_strlit("info");
    reveal_strlit("warn");
    reveal_strlit("error");
    assert("trace"@[0] == 't' && "debug"@[0] == 'd' && "info"@[0] == 'i' && "warn"@[0] == 'w'
        && "error"@[0] == 'e');
}

/// A category is read from its name.
pub proof fn a_category_is_read_from_its_name(category: LogCategory)
    ensures
        category_named(folded(category.name())) == Some(category),
{
    reveal_strlit("search");
    reveal_strlit("grab");
    reveal_strlit("auto_search");
    reveal_strlit("nyaa");
    reveal_strlit("anilist");
    reveal_strlit("jikan");
    reveal_strlit("qbit");
    reveal_strlit("jellyfin");
    reveal_strlit("media");
    reveal_strlit("library");
    reveal_strlit("auth");
    reveal_strlit("system");
    assert(folded(category.name()) =~= category.name());
    assert("search"@[1] == 'e' && "search"@.len() == 6 && "system"@[1] == 'y' && "system"@.len()
        == 6);
    assert("grab"@[0] == 'g' && "auto_search"@.len() == 11 && "nyaa"@[0] == 'n');
    assert("anilist"@[1] == 'n' && "anilist"@.len() == 7 && "library"@[1] == 'i' && "library"@.len()
        == 7);
    assert("jikan"@[0] == 'j' && "jikan"@.len() == 5 && "media"@[0] == 'm' && "media"@.len() == 5);
    assert("qbit"@[0] == 'q' && "jellyfin"@.len() == 8 && "auth"@[0] == 'a' && "auth"@.len() == 4
        && "grab"@.len() == 4 && "nyaa"@.len() == 4 && "qbit"@.len() == 4);
}

/// An entry of the log.
#[derive(Debug)]
pub struct LogEntry {
    pub id: i64,
    pub timestamp: String,
    pub level: String,
    pub category: String,
    pub message: String,
    pub detail: String,
}

/// The contents of a [`LogEntry`].
#[verifier::ext_equal]
pub struct LogEntryView {
    pub id: i64,
    pub timestamp: Seq<char>,
    pub level: Seq<char>,
    pub category: Seq<char>,
    pub message: Seq<char>,
    pub detail: Seq<char>,
}

impl View for LogEntry {
    type V = LogEntryView;

    open spec fn view(&self) -> LogEntryView {
        LogEntryView {
            id: self.id,
            timestamp: self.timestamp@,
            level: self.level@,
            category: self.category@,
            message: self.message@,
            detail: self.detail@,
        }
    }
}

impl Dup for LogEntry {
    fn dup(&self) -> (copy: Self) {
        LogEntry {
            id: self.id,
            timestamp: self.timestamp.clone(),
            level: self.level.clone(),
            category: self.category.clone(),
            message: self.message.clone(),
            detail: self.detail.clone(),
        }
    }
}

impl Clone for LogEntry {
    fn clone(&self) -> (copy: Self)
        ensures
            copy@ == self@,
    {
        self.dup()
    }
}

/// What a reader of the log asks for.
#[derive(Debug)]
pub struct LogQuery {
    /// This level and the graver ones.
    pub level: Option<String>,
    pub category: Option<String>,
    /// A part of the message or of the detail.
    pub search: Option<String>,
    /// How many entries at most.
    pub limit: i64,
    /// Only entries before this one.
    pub before_id: Option<i64>,
}

/// The contents of a [`LogQuery`].
#[verifier::ext_equal]
pub struct LogQueryView {
    pub level: Option<Seq<char>>,
    pub category: Option<Seq<char>>,
    pub search: Option<Seq<char>>,
    pub limit: i64,
    pub before_id: Option<i64>,
}

impl View for LogQuery {
    type V = LogQueryView;

    open spec fn view(&self) -> LogQueryView {
        LogQueryView {
            level: optional_text(self.level),
            category: optional_text(self.category),
            search: optional_text(self.search),
            limit: self.limit,
            before_id: self.before_id,
        }
    }
}

impl Dup for LogQuery {
    fn dup(&self) -> (copy: Self) {
        LogQuery {
            level: dup_optional(&self.level),
            category: dup_optional(&self.category),
            search: dup_optional(&self.search),
            limit: self.limit,
            before_id: self.before_id,
        }
    }
}

impl Clone for LogQuery {
    fn clone(&self) -> (copy: Self)
        ensures
            copy@ == self@,
    {
        self.dup()
    }
}

impl Default for LogQuery {
    /// The last 200 entries.
    fn default() -> (q: LogQuery)
        ensures
            q@ == (LogQueryView {
                level: None,
                category: None,
                search: None,
                limit: 200,
                before_id: None,
            }),
    {
        LogQuery { level: None, category: None, search: None, limit: 200, before_id: None }
    }
}

/// The entries of the log.
#[derive(Debug)]
pub struct LogStore {
    pub entries: Vec<LogEntry>,
    /// The largest id given out so far.
    pub last_id: i64,
}

/// The contents of a [`LogStore`].
#[verifier::ext_equal]
pub struct LogStoreView {
    pub entries: Seq<LogEntryView>,
    pub last_id: i64,
}

impl View for LogStore {
    type V = LogStoreView;

    open spec fn view(&self) -> LogStoreView {
        LogStoreView { entries: views(self.entries@), last_id: self.last_id }
    }
}

pub open spec fn entry_id() -> spec_fn(LogEntryView) -> i64 {
    |r: LogEntryView| r.id
}

impl LogStoreView {
    /// Every entry has an id of its own, among those given out.
    pub open spec fn wf(self) -> bool {
        numbered(self.entries, entry_id(), self.last_id)
    }
}

/// Writes an entry.
pub fn insert(
    db: &mut LogStore,
    level: LogLevel,
    category: LogCategory,
    message: &str,
    detail: &str,
    now: &str,
) -> (r: Result<(), StoreError>)
    requires
        old(db)@.wf(),
    ensures
        r is Err <==> old(db)@.last_id == i64::MAX,
        r matches Err(e) ==> e == StoreError::Full && final(db)@ == old(db)@,
        r is Ok ==> final(db)@ == (LogStoreView {
            entries: old(db)@.entries.push(
                LogEntryView {
                    id: (old(db)@.last_id + 1) as i64,
                    timestamp: now@,
                    level: level.name(),
                    category: category.name(),
                    message: message@,
                    detail: detail@,
                },
            ),
            last_id: (old(db)@.last_id + 1) as i64,
        }),
        final(db)@.wf(),
{
    if db.last_id == i64::MAX {
        return Err(StoreError::Full);
    }
    let id: i64 = db.last_id + 1;
    let row = LogEntry {
        id,
        timestamp: own(now),
        level: own(level.as_str()),
        category: own(category.as_str()),
        message: own(message),
        detail: own(detail),
    };
    proof {
        crate::table::lemma_views_push(db.entries@, row);
        crate::table::lemma_numbered_push(db@.entries, entry_id(), db.last_id, row@);
    }
    db.entries.push(row);
    db.last_id = id;
    Ok(())
}

/// The names of the levels, the least grave first.
pub open spec fn level_names() -> Seq<Seq<char>> {
    seq!["trace"@, "debug"@, "info"@, "warn"@, "error"@]
}

/// Where a level stands in that list, in any ASCII case; at its beginning when
/// it does not.
pub open spec fn rank(level: Seq<char>) -> int {
    if same_nocase("trace"@, level) {
        0
    } else if same_nocase("debug"@, level) {
        1
    } else if same_nocase("info"@, level) {
        2
    } else if same_nocase("warn"@, level) {
        3
    } else if same_nocase("error"@, level) {
        4
    } else {
        0
    }
}

/// A level and the graver ones.
pub fn levels_at_or_above(level: &str) -> (names: Vec<String>)
    ensures
        texts(names@) == level_names().skip(rank(level@)),
{
    let at: usize = if equal_nocase("trace", level) {
        0
    } else if equal_nocase("debug", level) {
        1
    } else if equal_nocase("info", level) {
        2
    } else if equal_nocase("warn", level) {
        3
    } else if equal_nocase("error", level) {
        4
    } else {
        0
    };
    let mut names: Vec<String> = Vec::new();
    if at <= 0 {
        names.push(own("trace"));
    }
    if at <= 1 {
        names.push(own("debug"));
    }
    if at <= 2 {
        names.push(own("info"));
    }
    if at <= 3 {
        names.push(own("warn"));
    }
    names.push(own("error"));
    assert(texts(names@) =~= level_names().skip(rank(level@)));
    names
}

/// The pattern of the texts that hold `part`.
pub open spec fn around(part: Seq<char>) -> Seq<char> {
    seq!['%'] + part + seq!['%']
}

pub open spec fn wanted(q: LogQueryView) -> spec_fn(LogEntryView) -> bool {
    |r: LogEntryView|
        {
            &&& (q.level matches Some(l) ==> level_names().skip(rank(l)).contains(r.level))
            &&& (q.category matches Some(c) ==> r.category == c)
            &&& (q.search matches Some(s) ==> like(around(s), r.message) || like(
                around(s),
                r.detail,
            ))
            &&& (q.before_id matches Some(b) ==> r.id < b)
        }
}

pub open spec fn newest_first() -> spec_fn(LogEntryView, LogEntryView) -> bool {
    |a: LogEntryView, b: LogEntryView| a.id >= b.id
}

impl LogStoreView {
    /// The entries that a query finds, the newest first.
    pub open spec fn found(self, q: LogQueryView) -> Seq<LogEntryView> {
        limited(ordered(self.entries.filter(wanted(q)), newest_first()), q.limit as int)
    }

    /// The entries after one, the newest first, at most `limit_to` of them.
    pub open spec fn after(self, after_id: i64, limit_to: i64) -> Seq<LogEntryView> {
        limited(
            ordered(self.entries.filter(later_than(after_id)), newest_first()),
            limit_to as int,
        )
    }
}

fn around_text(part: &str) -> (pattern: String)
    ensures
        pattern@ == around(part@),
{
    let mut pattern = own("%");
    pattern.append(part);
    pattern.append("%");
    proof {
        reveal_strlit("%");
        assert(pattern@ =~= around(part@));
    }
    pattern
}

fn sort_newest_first(rows: Vec<LogEntry>) -> (out: Vec<LogEntry>)
    ensures
        views(out@) == ordered(views(rows@), newest_first()),
{
    let before = |a: &LogEntry, b: &LogEntry| -> (r: bool)
        ensures r == newest_first()(a@, b@)
        { a.id >= b.id };
    order_by(rows, before, Ghost(newest_first()))
}

/// The entries that a query finds, the newest first.
pub fn query(db: &LogStore, params: &LogQuery) -> (out: Vec<LogEntry>)
    ensures
        views(out@) == db@.found(params@),
{
    let levels: Option<Vec<String>> = match &params.level {
        Some(l) => Some(levels_at_or_above(l)),
        None => None,
    };
    let pattern: Option<String> = match &params.search {
        Some(s) => Some(around_text(s)),
        None => None,
    };
    let ghost chosen = wanted(params@);
    let test = |r: &LogEntry| -> (b: bool)
        ensures b == chosen(r@)
        {
            let level_fits: bool = match &levels {
                Some(names) => has_text(names, &r.level),
                None => true,
            };
            let category_fits: bool = match &params.category {
                Some(c) => same(&r.category, c),
                None => true,
            };
            let text_fits: bool = match &pattern {
                Some(p) => matches_like(p, &r.message) || matches_like(p, &r.detail),
                None => true,
            };
            let early: bool = match params.before_id {
                Some(b) => r.id < b,
                None => true,
            };
            level_fits && category_fits && text_fits && early
        };
    limit(sort_newest_first(select(&db.entries, test, Ghost(chosen))), params.limit)
}

pub open spec fn older_than(cutoff: Seq<char>) -> spec_fn(LogEntryView) -> bool {
    |r: LogEntryView| text_lt(r.timestamp, cutoff)
}

/// Forgets the entries written before `cutoff` and says how many there were.
pub fn cleanup(db: &mut LogStore, cutoff: &str) -> (n: u64)
    requires
        old(db)@.wf(),
    ensures
        final(db)@ == (LogStoreView {
            entries: without(old(db)@.entries, older_than(cutoff@)),
            ..old(db)@
        }),
        n == old(db)@.entries.len() - final(db)@.entries.len(),
        final(db)@.wf(),
        forall|r: LogEntryView| #[trigger]
            final(db)@.entries.contains(r) <==> old(db)@.entries.contains(r) && !(text_lt(r.timestamp, cutoff@)),
{
    proof {
        crate::table::lemma_without_contains(db@.entries, older_than(cutoff@));
    }
    let ghost chosen = older_than(cutoff@);
    proof {
        crate::table::lemma_numbered_without(db@.entries, entry_id(), db.last_id, chosen);
    }
    let test = |r: &LogEntry| -> (b: bool)
        ensures b == chosen(r@)
        { !at_most(cutoff, &r.timestamp) };
    delete_where(&mut db.entries, test, Ghost(chosen)) as u64
}

/// How many entries there are.
pub fn count(db: &LogStore) -> (n: u64)
    ensures
        n == db@.entries.len(),
{
    db.entries.len() as u64
}

/// The id of the newest entry; 0 when there is none.
pub fn latest_id(db: &LogStore) -> (id: i64)
    ensures
        db@.entries.len() == 0 ==> id == 0,
        db@.entries.len() > 0 ==> {
            &&& exists|i: int| 0 <= i < db@.entries.len() && (#[trigger] db@.entries[i]).id == id
            &&& forall|i: int| 0 <= i < db@.entries.len() ==> (#[trigger] db@.entries[i]).id <= id
        },
{
    assert(db@.entries.len() == db.entries.len());
    if db.entries.len() == 0 {
        return 0;
    }
    let mut id: i64 = db.entries[0].id;
    let mut i: usize = 1;
    assert(db@.entries[0] == db.entries[0]@);
    while i < db.entries.len()
        invariant
            1 <= i <= db.entries.len(),
            db@.entries.len() == db.entries.len(),
            exists|k: int| 0 <= k < i && (#[trigger] db@.entries[k]).id == id,
            forall|k: int| 0 <= k < i ==> (#[trigger] db@.entries[k]).id <= id,
        decreases db.entries.len() - i,
    {
        assert(db@.entries[i as int] == db.entries[i as int]@);
        if db.entries[i].id > id {
            id = db.entries[i].id;
        }
        i += 1;
    }
    id
}

pub open spec fn later_than(after_id: i64) -> spec_fn(LogEntryView) -> bool {
    |r: LogEntryView| r.id > after_id
}

/// The entries after one, the newest first, at most `limit_to` of them.
pub fn entries_after(db: &LogStore, after_id: i64, limit_to: i64) -> (out: Vec<LogEntry>)
    ensures
        views(out@) == db@.after(after_id, limit_to),
{
    let test = |r: &LogEntry| -> (b: bool)
        ensures b == later_than(after_id)(r@)
        { r.id > after_id };
    limit(sort_newest_first(select(&db.entries, test, Ghost(later_than(after_id)))), limit_to)
}

impl LogStore {
    /// A log without entries.
    pub fn new() -> (db: LogStore)
        ensures
            db@ == (LogStoreView { entries: Seq::empty(), last_id: 0 }),
            db@.wf(),
    {
        let db = LogStore { entries: Vec::new(), last_id: 0 };
        assert(db@.entries =~= Seq::<LogEntryView>::empty());
        db
    }

    /// Whether the log is as the rules leave it.
    pub fn check(&self) -> (r: bool)
        ensures
            r == self@.wf(),
    {
        let id_of = |r: &LogEntry| -> (n: i64)
            ensures n == entry_id()(r@)
            { r.id };
        check_numbered(&self.entries, self.last_id, id_of, Ghost(entry_id()))
    }
}

proof fn lemma_newest_first_total()
    ensures
        crate::table::total_preorder(newest_first()),
{
}

/// What a query finds is what it asks for, the newest first.
pub proof fn a_query_finds_what_it_asks_for(db: LogStoreView, q: LogQueryView)
    ensures
        crate::table::in_order(db.found(q), newest_first()),
        forall|i: int|
            0 <= i < db.found(q).len() ==> wanted(q)(#[trigger] db.found(q)[i])
                && db.entries.contains(db.found(q)[i]),
        q.limit >= 0 ==> db.found(q).len() <= q.limit,
{
    lemma_newest_first_total();
    crate::table::lemma_page(db.entries, wanted(q), newest_first(), q.limit as int);
}

/// Nothing is after the newest entry.
pub proof fn nothing_is_after_the_newest(db: LogStoreView, id: i64, limit_to: i64)
    requires
        forall|i: int| 0 <= i < db.entries.len() ==> (#[trigger] db.entries[i]).id <= id,
    ensures
        db.after(id, limit_to) == Seq::<LogEntryView>::empty(),
{
    lemma_newest_first_total();
    crate::table::lemma_page(db.entries, later_than(id), newest_first(), limit_to as int);
    let page = db.after(id, limit_to);
    if page.len() > 0 {
        assert(later_than(id)(page[0]) && db.entries.contains(page[0]));
        let k = choose|k: int| 0 <= k < db.entries.len() && db.entries[k] == page[0];
        assert(db.entries[k].id <= id);
    }
}

/// A level is read in any case; what names none is taken for information.
pub proof fn a_level_is_read_in_any_case(s: Seq<char>)
    ensures
        folded(s) == "trace"@ <==> level_named(folded(s)) == LogLevel::Trace,
        folded(s) == "debug"@ <==> level_named(folded(s)) == LogLevel::Debug,
        folded(s) == "warn"@ <==> level_named(folded(s)) == LogLevel::Warn,
        folded(s) == "error"@ <==> level_named(folded(s)) == LogLevel::Error,
        folded(s) == "info"@ ==> level_named(folded(s)) == LogLevel::Info,
        LogLevel::Trace.name() == "trace"@,
        LogLevel::Debug.name() == "debug"@,
        LogLevel::Info.name() == "info"@,
        LogLevel::Warn.name() == "warn"@,
        LogLevel::Error.name() == "error"@,
{
    lemma_level_names_differ();
}

/// The levels at or above a level, in any case, are that one and those that
/// are graver; a name that is no level brings them all.
pub proof fn graver_levels_stand_above(level: Seq<char>)
    ensures
        ({
            let names = level_names().skip(rank(level));
            &&& lowered(level) == lowered("trace"@) ==> names == seq![
                "trace"@,
                "debug"@,
                "info"@,
                "warn"@,
                "error"@,
            ]
            &&& lowered(level) == lowered("debug"@) ==> names == seq![
                "debug"@,
                "info"@,
                "warn"@,
                "error"@,
            ]
            &&& lowered(level) == lowered("info"@) ==> names == seq!["info"@, "warn"@, "error"@]
            &&& lowered(level) == lowered("warn"@) ==> names == seq!["warn"@, "error"@]
            &&& lowered(level) == lowered("error"@) ==> names == seq!["error"@]
            &&& names.len() > 0 && names.last() == "error"@
            &&& lowered(level) != lowered("trace"@) && lowered(level) != lowered("debug"@)
                && lowered(level) != lowered("info"@) && lowered(level) != lowered("warn"@)
                && lowered(level) != lowered("error"@) ==> names.len() == 5
        }),
{
    let names = level_names().skip(rank(level));
    reveal_strlit("trace");
    reveal_strlit("debug");
    reveal_strlit("info");
    reveal_strlit("warn");
    reveal_strlit("error");
    assert(lowered("trace"@)[0] == 't');
    assert(lowered("debug"@)[0] == 'd');
    assert(lowered("info"@)[0] == 'i');
    assert(lowered("warn"@)[0] == 'w');
    assert(lowered("error"@)[0] == 'e');
    if lowered(level) == lowered("trace"@) {
        assert(names =~= seq!["trace"@, "debug"@, "info"@, "warn"@, "error"@]);
    } else if lowered(level) == lowered("debug"@) {
        assert(names =~= seq!["debug"@, "info"@, "warn"@, "error"@]);
    } else if lowered(level) == lowered("info"@) {
        assert(names =~= seq!["info"@, "warn"@, "error"@]);
    } else if lowered(level) == lowered("warn"@) {
        assert(names =~= seq!["warn"@, "error"@]);
    } else if lowered(level) == lowered("error"@) {
        assert(names =~= seq!["error"@]);
    }
}

/// A category is named and shown by its own words.
pub proof fn a_category_is_shown_by_its_words(c: LogCategory)
    ensures
        c == LogCategory::Search ==> c.name() == "search"@ && c.title() == "Search"@,
        c == LogCategory::Grab ==> c.name() == "grab"@ && c.title() == "Grab"@,
        c == LogCategory::AutoSearch ==> c.name() == "auto_search"@ && c.title() == "Auto Search"@,
        c == LogCategory::Nyaa ==> c.name() == "nyaa"@ && c.title() == "Nyaa"@,
        c == LogCategory::AniList ==> c.name() == "anilist"@ && c.title() == "AniList"@,
        c == LogCategory::Jikan ==> c.name() == "jikan"@ && c.title() == "Jikan"@,
        c == LogCategory::QBit ==> c.name() == "qbit"@ && c.title() == "qBittorrent"@,
        c == LogCategory::Jellyfin ==> c.name() == "jellyfin"@ && c.title() == "Jellyfin"@,
        c == LogCategory::Media ==> c.name() == "media"@ && c.title() == "Media"@,
        c == LogCategory::Library ==> c.name() == "library"@ && c.title() == "Library"@,
        c == LogCategory::Auth ==> c.name() == "auth"@ && c.title() == "Auth"@,
        c == LogCategory::System ==> c.name() == "system"@ && c.title() == "System"@,
{
}

/// What a query finds is of the levels and the category asked for, before the
/// cursor, and has the searched text in its message or its detail.
pub proof fn a_found_entry_is_what_was_asked_for(q: LogQueryView, e: LogEntryView)
    ensures
        wanted(q)(e) <==> {
            &&& q.level is Some ==> level_names().skip(
                rank(q.level->0),
            ).contains(e.level)
            &&& q.category is Some ==> e.category == q.category->0
            &&& q.search is Some ==> like(
                seq!['%'] + q.search->0 + seq!['%'],
                e.message,
            ) || like(seq!['%'] + q.search->0 + seq!['%'], e.detail)
            &&& q.before_id is Some ==> e.id < q.before_id->0
        },
{
}

/// With nothing cut off a query finds every entry that is asked for, newest
/// first.
pub proof fn a_query_finds_every_entry(db: LogStoreView, q: LogQueryView, e: LogEntryView)
    requires
        q.limit < 0 || q.limit >= db.entries.filter(wanted(q)).len(),
    ensures
        db.found(q).contains(e) <==> db.entries.contains(e) && wanted(q)(e),
        forall|j: int, k: int|
            0 <= j < k < db.found(q).len() ==> (#[trigger] db.found(q)[j]).id >= (
            #[trigger] db.found(q)[k]).id,
{
    let o = ordered(db.entries.filter(wanted(q)), newest_first());
    lemma_newest_first_total();
    crate::table::lemma_listed(db.entries, wanted(q), newest_first());
    assert(db.found(q) == o);
    if o.contains(e) {
        let k = choose|k: int| 0 <= k < o.len() && o[k] == e;
        assert(wanted(q)(o[k]));
    }
    if db.entries.contains(e) && wanted(q)(e) {
        let i = choose|i: int| 0 <= i < db.entries.len() && db.entries[i] == e;
        assert(o.contains(db.entries[i]));
    }
    assert forall|j: int, k: int| 0 <= j < k < o.len() implies (#[trigger] o[j]).id >= (
    #[trigger] o[k]).id by {
        assert(newest_first()(o[j], o[k]));
    }
}

/// What came after an entry has a greater id, newest first, and with nothing
/// cut off it is all of that.
pub proof fn later_entries_have_greater_ids(
    db: LogStoreView,
    after_id: i64,
    limit_to: i64,
    e: LogEntryView,
)
    ensures
        db.after(after_id, limit_to).contains(e) ==> db.entries.contains(e) && e.id > after_id,
        limit_to < 0 && db.entries.contains(e) && e.id > after_id ==> db.after(
            after_id,
            limit_to,
        ).contains(e),
        limit_to >= 0 ==> db.after(after_id, limit_to).len() <= limit_to,
        forall|j: int, k: int|
            0 <= j < k < db.after(after_id, limit_to).len() ==> (#[trigger] db.after(
                after_id,
                limit_to,
            )[j]).id >= (#[trigger] db.after(after_id, limit_to)[k]).id,
{
    let chosen = later_than(after_id);
    let o = ordered(db.entries.filter(chosen), newest_first());
    let list = db.after(after_id, limit_to);
    lemma_newest_first_total();
    crate::table::lemma_listed(db.entries, chosen, newest_first());
    if list.contains(e) {
        let k = choose|k: int| 0 <= k < list.len() && list[k] == e;
        assert(o[k] == e);
        assert(chosen(o[k]));
    }
    if db.entries.contains(e) && e.id > after_id {
        let i = choose|i: int| 0 <= i < db.entries.len() && db.entries[i] == e;
        assert(chosen(db.entries[i]));
        assert(o.contains(db.entries[i]));
    }
    assert forall|j: int, k: int| 0 <= j < k < list.len() implies (#[trigger] list[j]).id >= (
    #[trigger] list[k]).id by {
        assert(list[j] == o[j] && list[k] == o[k]);
        assert(newest_first()(o[j], o[k]));
    }
}

} // verus!
