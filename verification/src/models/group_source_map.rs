//! What release groups work from: discs or streams.
use crate::json::{split_text, texts};
use crate::models::episode_tags::{TagRow, TagRowView, TagStore};
use crate::models::StoreError;
use crate::number::{magnitude, not_a_number};
use crate::source::{
    a_source_is_read_from_its_name, source_named, web_kind_named, Source, WebKind,
};
use crate::table::{
    any, any_where, count_where, delete_where, distinct, dup_all, every_pair, find_first,
    first_of_each, first_where, keep_first_of_each, optional_view, order_by, ordered, project,
    select, update_where, updated, upsert, upserted, views, without, Dup,
};
use crate::text::{
    at_most_nocase, dup_optional, equal_nocase, lowered, optional_text, own, same, same_nocase,
    split, text_le,
};
use vstd::prelude::*;

verus! {

/// What a group works from, as it is stored.
#[derive(Debug)]
pub struct GroupRow {
    pub group_name: String,
    pub source: String,
    /// The confidence as the bits of a single-precision number.
    pub confidence: u32,
    /// Whether the user said so.
    pub is_user_edit: bool,
    pub notes: String,
    pub web_kind: String,
    pub updated_at: String,
}

/// The contents of a [`GroupRow`].
#[verifier::ext_equal]
pub struct GroupRowView {
    pub group_name: Seq<char>,
    pub source: Seq<char>,
    pub confidence: u32,
    pub is_user_edit: bool,
    pub notes: Seq<char>,
    pub web_kind: Seq<char>,
    pub updated_at: Seq<char>,
}

impl View for GroupRow {
    type V = GroupRowView;

    open spec fn view(&self) -> GroupRowView {
        GroupRowView {
            group_name: self.group_name@,
            source: self.source@,
            confidence: self.confidence,
            is_user_edit: self.is_user_edit,
            notes: self.notes@,
            web_kind: self.web_kind@,
            updated_at: self.updated_at@,
        }
    }
}

impl Dup for GroupRow {
    fn dup(&self) -> (copy: Self) {
        GroupRow {
            group_name: self.group_name.clone(),
            source: self.source.clone(),
            confidence: self.confidence,
            is_user_edit: self.is_user_edit,
            notes: self.notes.clone(),
            web_kind: self.web_kind.clone(),
            updated_at: self.updated_at.clone(),
        }
    }
}

impl Clone for GroupRow {
    fn clone(&self) -> (copy: Self)
        ensures
            copy@ == self@,
    {
        self.dup()
    }
}

/// What a group works from.
#[derive(Debug)]
pub struct GroupSourceEntry {
    pub group_name: String,
    pub source: Source,
    /// The confidence as the bits of a single-precision number.
    pub confidence: u32,
    pub is_user_edit: bool,
    pub notes: String,
    pub web_kind: WebKind,
}

/// The contents of a [`GroupSourceEntry`].
#[verifier::ext_equal]
pub struct GroupSourceEntryView {
    pub group_name: Seq<char>,
    pub source: Source,
    pub confidence: u32,
    pub is_user_edit: bool,
    pub notes: Seq<char>,
    pub web_kind: WebKind,
}

impl View for GroupSourceEntry {
    type V = GroupSourceEntryView;

    open spec fn view(&self) -> GroupSourceEntryView {
        GroupSourceEntryView {
            group_name: self.group_name@,
            source: self.source,
            confidence: self.confidence,
            is_user_edit: self.is_user_edit,
            notes: self.notes@,
            web_kind: self.web_kind,
        }
    }
}

impl Dup for GroupSourceEntry {
    fn dup(&self) -> (copy: Self) {
        GroupSourceEntry {
            group_name: self.group_name.clone(),
            source: self.source,
            confidence: self.confidence,
            is_user_edit: self.is_user_edit,
            notes: self.notes.clone(),
            web_kind: self.web_kind,
        }
    }
}

impl Clone for GroupSourceEntry {
    fn clone(&self) -> (copy: Self)
        ensures
            copy@ == self@,
    {
        self.dup()
    }
}

/// What is known of a group from the start.
#[derive(Debug)]
pub struct Seed {
    pub group_name: String,
    pub source: Source,
    pub confidence: u32,
    pub notes: String,
}

/// The contents of a [`Seed`].
#[verifier::ext_equal]
pub struct SeedView {
    pub group_name: Seq<char>,
    pub source: Source,
    pub confidence: u32,
    pub notes: Seq<char>,
}

impl View for Seed {
    type V = SeedView;

    open spec fn view(&self) -> SeedView {
        SeedView {
            group_name: self.group_name@,
            source: self.source,
            confidence: self.confidence,
            notes: self.notes@,
        }
    }
}

impl Dup for Seed {
    fn dup(&self) -> (copy: Self) {
        Seed {
            group_name: self.group_name.clone(),
            source: self.source,
            confidence: self.confidence,
            notes: self.notes.clone(),
        }
    }
}

impl Clone for Seed {
    fn clone(&self) -> (copy: Self)
        ensures
            copy@ == self@,
    {
        self.dup()
    }
}

/// What the user's own corrections say of a group.
#[derive(Debug)]
pub struct GroupSuggestion {
    pub group_name: String,
    pub source: Source,
    /// How many episodes say so.
    pub episode_count: u64,
    /// What was known of the group, when it was something else.
    pub existing_source: Option<Source>,
}

/// The contents of a [`GroupSuggestion`].
#[verifier::ext_equal]
pub struct GroupSuggestionView {
    pub group_name: Seq<char>,
    pub source: Source,
    pub episode_count: u64,
    pub existing_source: Option<Source>,
}

impl View for GroupSuggestion {
    type V = GroupSuggestionView;

    open spec fn view(&self) -> GroupSuggestionView {
        GroupSuggestionView {
            group_name: self.group_name@,
            source: self.source,
            episode_count: self.episode_count,
            existing_source: self.existing_source,
        }
    }
}

impl Dup for GroupSuggestion {
    fn dup(&self) -> (copy: Self) {
        GroupSuggestion {
            group_name: self.group_name.clone(),
            source: self.source,
            episode_count: self.episode_count,
            existing_source: self.existing_source,
        }
    }
}

impl Clone for GroupSuggestion {
    fn clone(&self) -> (copy: Self)
        ensures
            copy@ == self@,
    {
        self.dup()
    }
}

/// How often the user's own corrections give a group a source.
#[derive(Debug)]
pub struct Tally {
    pub group_name: String,
    pub source: String,
    pub count: u64,
    pub existing_source: Option<String>,
}

/// The contents of a [`Tally`].
#[verifier::ext_equal]
pub struct TallyView {
    pub group_name: Seq<char>,
    pub source: Seq<char>,
    pub count: u64,
    pub existing_source: Option<Seq<char>>,
}

impl View for Tally {
    type V = TallyView;

    open spec fn view(&self) -> TallyView {
        TallyView {
            group_name: self.group_name@,
            source: self.source@,
            count: self.count,
            existing_source: optional_text(self.existing_source),
        }
    }
}

impl Dup for Tally {
    fn dup(&self) -> (copy: Self) {
        Tally {
            group_name: self.group_name.clone(),
            source: self.source.clone(),
            count: self.count,
            existing_source: dup_optional(&self.existing_source),
        }
    }
}

impl Clone for Tally {
    fn clone(&self) -> (copy: Self)
        ensures
            copy@ == self@,
    {
        self.dup()
    }
}

/// The confidence in a group that works from one source only: `0.95`.
pub const SURE: u32 = 0x3f73_3333;

/// The confidence in a group that works from several: `0.6`, too little to
/// outweigh other evidence.
pub const UNSURE: u32 = 0x3f19_999a;

pub const LEGACY_SPECIALIST: &'static str = "VCB-Studio";

pub const LEGACY_ENCODER: &'static str = "Coalgirls";

pub const BD_TIER_01: &'static str = "DemiHuman Flugel Moxie NAN0";

pub const BD_TIER_02: &'static str = "\
    Aergia FateSucks hchcsen hydes JOHNTiTOR JySzE koala Kulot Lulu Meakes Orphan \
    PMR WAP YURI";

pub const BD_TIER_03: &'static str = "\
    ARC BBT-RMX cappybara ChucksMux CRUCiBLE CUNNY Cunnysseur Doc fig Headpatter \
    Inka-Subs LaCroiX Legion Mehul Mysteria Netaro Noiy npz NTRX P9 RaiN RMX RUDY \
    Sekkon Serendipity SubsMix uba";

pub const BD_TIER_04: &'static str = "\
    ABdex Afro aRMX BiRJU BKC CBT Chimera derp DIY EXP grimf IK Iznjie_Biznjie \
    Kaleido-subs Kametsu Kawatare KH LazyRemux Metal MK neko-kBaraka OZR pog42 \
    Quetzal Shimatta Smoke Spirale UDF UQW Vanilla Virtuality VULCAN";

pub const BD_TIER_05: &'static str = "\
    Animorphs AOmundson ASC B00BA Beatrice-Raws Cait-Sidhe CsS CTR D4C deanzel Drag \
    eldon Freehold GHS Hark0N Holomux Judgment MC mottoj NH NTRM o7 QM Thighs TTGA \
    UltraRemux WBDP WSE Yuki";

pub const BD_TIER_06: &'static str = "\
    ANE Bunny-Apocalypse CyC Datte13 EJF GetItTwisted iKaos karios Pookie RASETSU \
    Starbez Yoghurt YURASUKA";

pub const BD_TIER_07: &'static str = "\
    AC Almighty BlurayDesuYo Bolshevik Brrrrrrr Crow Dekinai Dragon-Releases \
    DragsterPS E-D Exiled-Destiny FFF Final8 Geonope iAHD inid4c Koten_Gars \
    kuchikirukia LCE NTW orz RAI REVO SCP-2223 Senjou SEV THORA Vivid";

pub const BD_TIER_08_A: &'static str = "AkihitoSubs Arukoru EDGE EMBER GHOST";

pub const BD_TIER_08_MIXED: &'static str = "Judas";

pub const BD_TIER_08_B: &'static str = "naiyas Nep_Blanc Prof Shiro";

pub const RAWS: &'static str = "\
    Asuka-Raws Daddy-Raws Fumi-Raws Iriza-Raws Kawaiika-Raws Koi-Raws Lilith-Raws \
    LowPower-Raws Moozzi2 Nanako-Raws NC-Raws neko-raws New-Raws Ohys-Raws \
    Pandoratv-Raws Raws-Maji ReinForce Scryous-Raws Seicher-Raws Shiniori-Raws";

pub const WEB_TIER_01: &'static str = "Setsugen Z4ST1N";

pub const WEB_TIER_02: &'static str = "0x539 Cyan Cytox Gao Half-Baked HatSubs MALD Not-Vodes Slyfox SoLCE tenshi";

pub const WEB_TIER_03: &'static str = "AnoZu Dooky Kitsune SubsPlus+";

pub const WEB_TIER_04: &'static str = "Erai-raws ToonsHub VARYG";

pub const WEB_TIER_05: &'static str = "\
    BlueLobster GST HorribleRips HorribleSubs KAN3D2M KiyoshiStar Lia NanDesuKa \
    PlayWeb SobsPlease Some-Stuffs SubsPlease URANIME ZigZag";

pub const WEB_TIER_06: &'static str = "DameDesuYo Doki Kaleido Kantai KawaSubs";

/// The groups of a list with the same source and confidence.
pub open spec fn tier(names: Seq<char>, source: Source, confidence: u32, notes: Seq<char>) -> Seq<
    SeedView,
> {
    split(names, ' ').map_values(
        |n: Seq<char>| SeedView { group_name: n, source, confidence, notes },
    )
}

/// What is known from the start: groups that work from discs only, or from
/// streams only.
pub open spec fn seeds_there_are() -> Seq<SeedView> {
    Seq::<SeedView>::empty()
        + tier(LEGACY_SPECIALIST@, Source::BluRay, SURE, "legacy BD encode specialist"@)
        + tier(LEGACY_ENCODER@, Source::BluRay, SURE, "legacy BD encoder"@)
        + tier(BD_TIER_01@, Source::BluRay, SURE, "TRaSH BD tier 01"@)
        + tier(BD_TIER_02@, Source::BluRay, SURE, "TRaSH BD tier 02"@)
        + tier(BD_TIER_03@, Source::BluRay, SURE, "TRaSH BD tier 03"@)
        + tier(BD_TIER_04@, Source::BluRay, SURE, "TRaSH BD tier 04"@)
        + tier(BD_TIER_05@, Source::BluRay, SURE, "TRaSH BD tier 05"@)
        + tier(BD_TIER_06@, Source::BluRay, SURE, "TRaSH BD tier 06"@)
        + tier(BD_TIER_07@, Source::BluRay, SURE, "TRaSH BD tier 07"@)
        + tier(BD_TIER_08_A@, Source::BluRay, SURE, "TRaSH BD tier 08"@)
        + tier(BD_TIER_08_MIXED@, Source::BluRay, UNSURE, "TRaSH BD tier 08 (mixed BD/WEB — low confidence)"@)
        + tier(BD_TIER_08_B@, Source::BluRay, SURE, "TRaSH BD tier 08"@)
        + tier(RAWS@, Source::BluRay, SURE, "TRaSH anime raws"@)
        + tier(WEB_TIER_01@, Source::Web, SURE, "TRaSH WEB tier 01"@)
        + tier(WEB_TIER_02@, Source::Web, SURE, "TRaSH WEB tier 02"@)
        + tier(WEB_TIER_03@, Source::Web, SURE, "TRaSH WEB tier 03"@)
        + tier(WEB_TIER_04@, Source::Web, SURE, "TRaSH WEB tier 04"@)
        + tier(WEB_TIER_05@, Source::Web, SURE, "TRaSH WEB tier 05"@)
        + tier(WEB_TIER_06@, Source::Web, SURE, "TRaSH WEB tier 06"@)
}

fn add_tier(seeds: &mut Vec<Seed>, names: &str, source: Source, confidence: u32, notes: &str)
    ensures
        views(final(seeds)@) == views(old(seeds)@) + tier(names@, source, confidence, notes@),
{
    let parts = split_text(names, ' ');
    let ghost before = views(seeds@);
    let ghost all = tier(names@, source, confidence, notes@);
    assert(all.len() == texts(parts@).len());
    let mut i: usize = 0;
    assert(views(seeds@) =~= before + all.take(0));
    while i < parts.len()
        invariant
            i <= parts.len(),
            texts(parts@) == split(names@, ' '),
            all == tier(names@, source, confidence, notes@),
            all.len() == parts.len(),
            views(seeds@) == before + all.take(i as int),
        decreases parts.len() - i,
    {
        let seed = Seed {
            group_name: parts[i].clone(),
            source,
            confidence,
            notes: own(notes),
        };
        let ghost had = seeds@;
        seeds.push(seed);
        proof {
            assert(texts(parts@)[i as int] == parts[i as int]@);
            crate::table::lemma_views_push(had, seed);
            assert(seed@ == all[i as int]);
            assert(all.take(i + 1) =~= all.take(i as int).push(all[i as int]));
            assert(before + all.take(i + 1) =~= (before + all.take(i as int)).push(all[i as int]));
        }
        i += 1;
    }
    assert(all.take(i as int) =~= all);
}

/// What is known of groups from the start.
pub fn seed_list() -> (seeds: Vec<Seed>)
    ensures
        views(seeds@) == seeds_there_are(),
{
    let mut seeds: Vec<Seed> = Vec::new();
    assert(views(seeds@) =~= Seq::<SeedView>::empty());
    add_tier(&mut seeds, LEGACY_SPECIALIST, Source::BluRay, SURE, "legacy BD encode specialist");
    add_tier(&mut seeds, LEGACY_ENCODER, Source::BluRay, SURE, "legacy BD encoder");
    add_tier(&mut seeds, BD_TIER_01, Source::BluRay, SURE, "TRaSH BD tier 01");
    add_tier(&mut seeds, BD_TIER_02, Source::BluRay, SURE, "TRaSH BD tier 02");
    add_tier(&mut seeds, BD_TIER_03, Source::BluRay, SURE, "TRaSH BD tier 03");
    add_tier(&mut seeds, BD_TIER_04, Source::BluRay, SURE, "TRaSH BD tier 04");
    add_tier(&mut seeds, BD_TIER_05, Source::BluRay, SURE, "TRaSH BD tier 05");
    add_tier(&mut seeds, BD_TIER_06, Source::BluRay, SURE, "TRaSH BD tier 06");
    add_tier(&mut seeds, BD_TIER_07, Source::BluRay, SURE, "TRaSH BD tier 07");
    add_tier(&mut seeds, BD_TIER_08_A, Source::BluRay, SURE, "TRaSH BD tier 08");
    add_tier(&mut seeds, BD_TIER_08_MIXED, Source::BluRay, UNSURE, "TRaSH BD tier 08 (mixed BD/WEB — low confidence)");
    add_tier(&mut seeds, BD_TIER_08_B, Source::BluRay, SURE, "TRaSH BD tier 08");
    add_tier(&mut seeds, RAWS, Source::BluRay, SURE, "TRaSH anime raws");
    add_tier(&mut seeds, WEB_TIER_01, Source::Web, SURE, "TRaSH WEB tier 01");
    add_tier(&mut seeds, WEB_TIER_02, Source::Web, SURE, "TRaSH WEB tier 02");
    add_tier(&mut seeds, WEB_TIER_03, Source::Web, SURE, "TRaSH WEB tier 03");
    add_tier(&mut seeds, WEB_TIER_04, Source::Web, SURE, "TRaSH WEB tier 04");
    add_tier(&mut seeds, WEB_TIER_05, Source::Web, SURE, "TRaSH WEB tier 05");
    add_tier(&mut seeds, WEB_TIER_06, Source::Web, SURE, "TRaSH WEB tier 06");
    seeds
}

/// What is known of groups.
#[derive(Debug)]
pub struct GroupStore {
    pub rows: Vec<GroupRow>,
}

impl View for GroupStore {
    type V = Seq<GroupRowView>;

    open spec fn view(&self) -> Seq<GroupRowView> {
        views(self.rows@)
    }
}

pub open spec fn row_key() -> spec_fn(GroupRowView) -> Seq<char> {
    |r: GroupRowView| lowered(r.group_name)
}

/// A group stands there once, in whatever case it is written.
pub open spec fn one_row_each(rows: Seq<GroupRowView>) -> bool {
    distinct(rows, row_key())
}

pub open spec fn named(name: Seq<char>) -> spec_fn(GroupRowView) -> bool {
    |r: GroupRowView| same_nocase(r.group_name, name)
}

pub open spec fn named_built_in(name: Seq<char>) -> spec_fn(GroupRowView) -> bool {
    |r: GroupRowView| same_nocase(r.group_name, name) && !r.is_user_edit
}

pub open spec fn built_in() -> spec_fn(GroupRowView) -> bool {
    |r: GroupRowView| !r.is_user_edit
}

pub open spec fn by_name() -> spec_fn(GroupRowView, GroupRowView) -> bool {
    |a: GroupRowView, b: GroupRowView| text_le(lowered(a.group_name), lowered(b.group_name))
}

pub open spec fn seed_row(s: SeedView, now: Seq<char>) -> GroupRowView {
    GroupRowView {
        group_name: s.group_name,
        source: s.source.name(),
        confidence: s.confidence,
        is_user_edit: false,
        notes: s.notes,
        web_kind: Seq::empty(),
        updated_at: now,
    }
}

/// The rows with one more group, unless it is there already.
pub open spec fn planted(rows: Seq<GroupRowView>, s: SeedView, now: Seq<char>) -> Seq<GroupRowView> {
    if any_where(rows, named(s.group_name)) {
        rows
    } else {
        rows.push(seed_row(s, now))
    }
}

/// The rows with the groups that are missing.
pub open spec fn seeded(rows: Seq<GroupRowView>, seeds: Seq<SeedView>, now: Seq<char>) -> Seq<
    GroupRowView,
>
    decreases seeds.len(),
{
    if seeds.len() == 0 {
        rows
    } else {
        planted(seeded(rows, seeds.drop_last(), now), seeds.last(), now)
    }
}

pub open spec fn realigned(s: SeedView) -> spec_fn(GroupRowView) -> GroupRowView {
    |r: GroupRowView|
        GroupRowView {
            source: s.source.name(),
            confidence: s.confidence,
            notes: s.notes,
            ..r
        }
}

/// The rows with the groups that the user left alone as they are known now.
pub open spec fn reconciled(rows: Seq<GroupRowView>, seeds: Seq<SeedView>) -> Seq<GroupRowView>
    decreases seeds.len(),
{
    if seeds.len() == 0 {
        rows
    } else {
        updated(
            reconciled(rows, seeds.drop_last()),
            named_built_in(seeds.last().group_name),
            realigned(seeds.last()),
        )
    }
}

/// The rows after a start of the manager: what the user said, and what is
/// known now of the other groups.
pub open spec fn migrated(rows: Seq<GroupRowView>, seeds: Seq<SeedView>, now: Seq<char>) -> Seq<
    GroupRowView,
> {
    reconciled(seeded(without(rows, built_in()), seeds, now), seeds)
}

fn plant(db: &mut GroupStore, s: &Seed, now: &str)
    requires
        one_row_each(old(db)@),
    ensures
        final(db)@ == planted(old(db)@, s@, now@),
        one_row_each(final(db)@),
{
    let name = &s.group_name;
    let ghost here = named(name@);
    let test = |r: &GroupRow| -> (b: bool)
        ensures b == here(r@)
        { equal_nocase(&r.group_name, name) };
    if !any(&db.rows, test, Ghost(here)) {
        let row = GroupRow {
            group_name: name.clone(),
            source: own(s.source.as_str()),
            confidence: s.confidence,
            is_user_edit: false,
            notes: s.notes.clone(),
            web_kind: String::new(),
            updated_at: own(now),
        };
        proof {
            let rows = db@;
            crate::table::lemma_views_push(db.rows@, row);
            assert forall|i: int| 0 <= i < rows.len() implies row_key()(#[trigger] rows[i])
                != row_key()(row@) by {
                assert(!here(rows[i]));
            }
            crate::table::lemma_distinct_push(rows, row_key(), row@);
        }
        db.rows.push(row);
    }
}

/// Adds the groups that are known from the start and missing.
pub fn seed_defaults(db: &mut GroupStore, now: &str)
    requires
        one_row_each(old(db)@),
    ensures
        final(db)@ == seeded(old(db)@, seeds_there_are(), now@),
        one_row_each(final(db)@),
{
    let seeds = seed_list();
    let ghost all = seeds_there_are();
    let ghost before = db@;
    assert(all.len() == seeds.len());
    let mut i: usize = 0;
    assert(all.take(0).len() == 0);
    while i < seeds.len()
        invariant
            i <= seeds.len(),
            views(seeds@) == all,
            all.len() == seeds.len(),
            one_row_each(db@),
            db@ == seeded(before, all.take(i as int), now@),
        decreases seeds.len() - i,
    {
        assert(views(seeds@)[i as int] == seeds[i as int]@);
        plant(db, &seeds[i], now);
        proof {
            let t = all.take(i + 1);
            assert(t.drop_last() =~= all.take(i as int));
            assert(t.last() == all[i as int]);
        }
        i += 1;
    }
    assert(all.take(i as int) =~= all);
}

fn realign(db: &mut GroupStore, s: &Seed)
    requires
        one_row_each(old(db)@),
    ensures
        final(db)@ == updated(old(db)@, named_built_in(s@.group_name), realigned(s@)),
        one_row_each(final(db)@),
{
    let name = &s.group_name;
    let ghost here = named_built_in(name@);
    let ghost change = realigned(s@);
    proof {
        crate::table::lemma_distinct_updated(db@, row_key(), here, change);
    }
    let test = |r: &GroupRow| -> (b: bool)
        ensures b == here(r@)
        { equal_nocase(&r.group_name, name) && !r.is_user_edit };
    let make = |r: GroupRow| -> (o: GroupRow)
        ensures o@ == change(r@)
        {
            GroupRow {
                source: own(s.source.as_str()),
                confidence: s.confidence,
                notes: s.notes.clone(),
                ..r
            }
        };
    let _n: usize = update_where(&mut db.rows, test, make, Ghost(here), Ghost(change));
}

/// Brings the groups that the user left alone in line with what is known now.
pub fn reconcile_seed_drift(db: &mut GroupStore)
    requires
        one_row_each(old(db)@),
    ensures
        final(db)@ == reconciled(old(db)@, seeds_there_are()),
        one_row_each(final(db)@),
{
    let seeds = seed_list();
    let ghost all = seeds_there_are();
    let ghost before = db@;
    assert(all.len() == seeds.len());
    let mut i: usize = 0;
    assert(all.take(0).len() == 0);
    while i < seeds.len()
        invariant
            i <= seeds.len(),
            views(seeds@) == all,
            all.len() == seeds.len(),
            one_row_each(db@),
            db@ == reconciled(before, all.take(i as int)),
        decreases seeds.len() - i,
    {
        assert(views(seeds@)[i as int] == seeds[i as int]@);
        realign(db, &seeds[i]);
        proof {
            let t = all.take(i + 1);
            assert(t.drop_last() =~= all.take(i as int));
            assert(t.last() == all[i as int]);
        }
        i += 1;
    }
    assert(all.take(i as int) =~= all);
}

/// What every start does: forgets what was known of the groups that the user
/// left alone, and writes down what is known of them now.
pub fn migrate(db: &mut GroupStore, now: &str)
    requires
        one_row_each(old(db)@),
    ensures
        final(db)@ == migrated(old(db)@, seeds_there_are(), now@),
        one_row_each(final(db)@),
{
    proof {
        crate::table::lemma_without_distinct(db@, built_in(), row_key());
    }
    let test = |r: &GroupRow| -> (b: bool)
        ensures b == built_in()(r@)
        { !r.is_user_edit };
    let _n: usize = delete_where(&mut db.rows, test, Ghost(built_in()));
    seed_defaults(db, now);
    reconcile_seed_drift(db);
}

/// A row as it is shown.
pub open spec fn entry() -> spec_fn(GroupRowView) -> GroupSourceEntryView {
    |r: GroupRowView|
        GroupSourceEntryView {
            group_name: r.group_name,
            source: source_named(lowered(r.source)),
            confidence: r.confidence,
            is_user_edit: r.is_user_edit,
            notes: r.notes,
            web_kind: web_kind_named(lowered(r.web_kind)),
        }
}

fn row_to_entry(r: &GroupRow) -> (e: GroupSourceEntry)
    ensures
        e@ == entry()(r@),
{
    GroupSourceEntry {
        group_name: r.group_name.clone(),
        source: Source::from_str(&r.source),
        confidence: r.confidence,
        is_user_edit: r.is_user_edit,
        notes: r.notes.clone(),
        web_kind: WebKind::from_str(&r.web_kind),
    }
}

/// What is known of a group.
pub open spec fn entry_of(rows: Seq<GroupRowView>, name: Seq<char>) -> Option<GroupSourceEntryView> {
    match first_where(rows, named(name)) {
        Some(r) => Some(entry()(r)),
        None => None,
    }
}

/// What is known of a group, in whatever case it is written.
pub fn get(db: &GroupStore, group_name: &str) -> (r: Option<GroupSourceEntry>)
    ensures
        optional_view(r) == entry_of(db@, group_name@),
{
    let ghost here = named(group_name@);
    let test = |r: &GroupRow| -> (b: bool)
        ensures b == here(r@)
        { equal_nocase(&r.group_name, group_name) };
    match find_first(&db.rows, test, Ghost(here)) {
        Some(r) => Some(row_to_entry(&r)),
        None => None,
    }
}

/// What is known of all groups, by name.
pub fn list_all(db: &GroupStore) -> (out: Vec<GroupSourceEntry>)
    ensures
        views(out@) == ordered(db@, by_name()).map_values(entry()),
{
    let before = |a: &GroupRow, b: &GroupRow| -> (r: bool)
        ensures r == by_name()(a@, b@)
        { at_most_nocase(&a.group_name, &b.group_name) };
    let rows = order_by(dup_all(&db.rows), before, Ghost(by_name()));
    let make = |r: &GroupRow| -> (e: GroupSourceEntry)
        ensures e@ == entry()(r@)
        { row_to_entry(r) };
    project(&rows, make, Ghost(entry()), Ghost(|r: GroupRowView| true))
}

/// A confidence kept between 0 and 1, over the bits of single-precision
/// numbers: what is below 0 becomes 0, what is above 1 becomes 1.
pub open spec fn clamped(bits: u32) -> u32 {
    if not_a_number(bits) {
        bits
    } else if bits >= 0x8000_0000 && magnitude(bits) > 0 {
        0
    } else if bits < 0x8000_0000 && bits > 0x3f80_0000 {
        0x3f80_0000
    } else {
        bits
    }
}

fn clamp(bits: u32) -> (r: u32)
    ensures
        r == clamped(bits),
{
    let size: u32 = bits % 0x8000_0000;
    if size > 0x7f80_0000 {
        bits
    } else if bits >= 0x8000_0000 && size > 0 {
        0
    } else if bits < 0x8000_0000 && bits > 0x3f80_0000 {
        0x3f80_0000
    } else {
        bits
    }
}

pub open spec fn user_row(
    name: Seq<char>,
    source: Source,
    confidence: u32,
    notes: Seq<char>,
    now: Seq<char>,
) -> GroupRowView {
    GroupRowView {
        group_name: name,
        source: source.name(),
        confidence: clamped(confidence),
        is_user_edit: true,
        notes,
        web_kind: Seq::empty(),
        updated_at: now,
    }
}

pub open spec fn user_edited(
    source: Source,
    confidence: u32,
    notes: Seq<char>,
    now: Seq<char>,
) -> spec_fn(GroupRowView) -> GroupRowView {
    |r: GroupRowView|
        GroupRowView {
            group_name: r.group_name,
            web_kind: r.web_kind,
            ..user_row(r.group_name, source, confidence, notes, now)
        }
}

/// The rows with what the user says of a group.
pub open spec fn with_user_edit(
    rows: Seq<GroupRowView>,
    name: Seq<char>,
    source: Source,
    confidence: u32,
    notes: Seq<char>,
    now: Seq<char>,
) -> Seq<GroupRowView> {
    upserted(
        rows,
        named(name),
        user_edited(source, confidence, notes, now),
        user_row(name, source, confidence, notes, now),
    )
}

/// Writes down what the user says of a group; it stays over every start. The
/// confidence is kept between 0 and 1; one that is no number is refused.
pub fn upsert_user_edit(
    db: &mut GroupStore,
    group_name: &str,
    source: Source,
    confidence: u32,
    notes: &str,
    now: &str,
) -> (r: Result<(), StoreError>)
    requires
        one_row_each(old(db)@),
    ensures
        r is Err <==> not_a_number(confidence),
        r matches Err(e) ==> e == StoreError::MissingValue && final(db)@ == old(db)@,
        r is Ok ==> final(db)@ == with_user_edit(
            old(db)@,
            group_name@,
            source,
            confidence,
            notes@,
            now@,
        ),
        one_row_each(final(db)@),
{
    let size: u32 = confidence % 0x8000_0000;
    if size > 0x7f80_0000 {
        return Err(StoreError::MissingValue);
    }
    let kept: u32 = clamp(confidence);
    let ghost here = named(group_name@);
    let ghost change = user_edited(source, confidence, notes@, now@);
    let fresh = GroupRow {
        group_name: own(group_name),
        source: own(source.as_str()),
        confidence: kept,
        is_user_edit: true,
        notes: own(notes),
        web_kind: String::new(),
        updated_at: own(now),
    };
    proof {
        crate::table::lemma_upserted_distinct(db@, row_key(), here, change, fresh@);
    }
    let test = |r: &GroupRow| -> (b: bool)
        ensures b == here(r@)
        { equal_nocase(&r.group_name, group_name) };
    let make = |r: GroupRow| -> (o: GroupRow)
        ensures o@ == change(r@)
        {
            GroupRow {
                source: own(source.as_str()),
                confidence: kept,
                is_user_edit: true,
                notes: own(notes),
                updated_at: own(now),
                ..r
            }
        };
    upsert(&mut db.rows, test, make, fresh, Ghost(here), Ghost(change));
    Ok(())
}

/// Forgets what is known of a group.
pub fn delete(db: &mut GroupStore, group_name: &str)
    requires
        one_row_each(old(db)@),
    ensures
        final(db)@ == without(old(db)@, named(group_name@)),
        one_row_each(final(db)@),
        forall|r: GroupRowView| #[trigger]
            final(db)@.contains(r) <==> old(db)@.contains(r) && lowered(r.group_name) != lowered(
                group_name@,
            ),
{
    proof {
        crate::table::lemma_without_contains(db@, named(group_name@));
    }
    let ghost here = named(group_name@);
    proof {
        crate::table::lemma_without_distinct(db@, here, row_key());
    }
    let test = |r: &GroupRow| -> (b: bool)
        ensures b == here(r@)
        { equal_nocase(&r.group_name, group_name) };
    let _n: usize = delete_where(&mut db.rows, test, Ghost(here));
}

/// Whether a tag says what the user thinks of a group.
pub open spec fn telling() -> spec_fn(TagRowView) -> bool {
    |t: TagRowView| t.manual_override && t.release_group.len() > 0 && t.source.len() > 0
}

/// Whether two tags say the same of the same group.
pub open spec fn agree() -> spec_fn(TagRowView, TagRowView) -> bool {
    |a: TagRowView, b: TagRowView|
        same_nocase(a.release_group, b.release_group) && a.source == b.source
}

pub open spec fn agrees_with(t: TagRowView) -> spec_fn(TagRowView) -> bool {
    |o: TagRowView| agree()(t, o)
}

/// How often the tags say what `t` says, and what is known of its group.
pub open spec fn tallied(tags: Seq<TagRowView>, rows: Seq<GroupRowView>) -> spec_fn(
    TagRowView,
) -> TallyView {
    |t: TagRowView|
        TallyView {
            group_name: t.release_group,
            source: t.source,
            count: tags.filter(agrees_with(t)).len() as u64,
            existing_source: match first_where(rows, named(t.release_group)) {
                Some(r) => Some(r.source),
                None => None,
            },
        }
}

pub open spec fn often(min_count: i64) -> spec_fn(TallyView) -> bool {
    |t: TallyView| t.count as int >= min_count as int
}

pub open spec fn most_first() -> spec_fn(TallyView, TallyView) -> bool {
    |a: TallyView, b: TallyView|
        a.count > b.count || (a.count == b.count && text_le(
            lowered(a.group_name),
            lowered(b.group_name),
        ))
}

/// Whether a tally says something that is not known.
pub open spec fn news() -> spec_fn(TallyView) -> bool {
    |t: TallyView|
        {
            let source = source_named(lowered(t.source));
            source != Source::Unknown && (t.existing_source matches Some(s) ==> source_named(
                lowered(s),
            ) != source)
        }
}

pub open spec fn suggestion() -> spec_fn(TallyView) -> GroupSuggestionView {
    |t: TallyView|
        GroupSuggestionView {
            group_name: t.group_name,
            source: source_named(lowered(t.source)),
            episode_count: t.count,
            existing_source: match t.existing_source {
                Some(s) => Some(source_named(lowered(s))),
                None => None,
            },
        }
}

/// The tallies of the tags, the most supported first.
pub open spec fn tallies(
    rows: Seq<GroupRowView>,
    tags: Seq<TagRowView>,
    min_count: i64,
) -> Seq<TallyView> {
    let told = tags.filter(telling());
    ordered(
        first_of_each(told, agree()).map_values(tallied(told, rows)).filter(often(min_count)),
        most_first(),
    )
}

/// What the user's own corrections suggest of groups.
pub open spec fn suggestions(
    rows: Seq<GroupRowView>,
    tags: Seq<TagRowView>,
    min_count: i64,
) -> Seq<GroupSuggestionView> {
    tallies(rows, tags, min_count).filter(news()).map_values(suggestion())
}

fn tally(told: &Vec<TagRow>, db: &GroupStore, t: &TagRow) -> (o: Tally)
    ensures
        o@ == tallied(views(told@), db@)(t@),
{
    let ghost with_t = agrees_with(t@);
    let test = |x: &TagRow| -> (b: bool)
        ensures b == with_t(x@)
        { equal_nocase(&t.release_group, &x.release_group) && same(&t.source, &x.source) };
    let count: usize = count_where(told, test, Ghost(with_t));
    let name = &t.release_group;
    let ghost here = named(name@);
    let by = |r: &GroupRow| -> (b: bool)
        ensures b == here(r@)
        { equal_nocase(&r.group_name, name) };
    let existing_source = match find_first(&db.rows, by, Ghost(here)) {
        Some(r) => Some(r.source),
        None => None,
    };
    Tally { group_name: name.clone(), source: t.source.clone(), count: count as u64, existing_source }
}

/// What the user's own corrections suggest of groups: a source that at least
/// `min_count` of them give, and that is not what is known. The most supported
/// come first.
pub fn compute_suggestions(db: &GroupStore, tags: &TagStore, min_count: i64) -> (out: Vec<
    GroupSuggestion,
>)
    ensures
        views(out@) == suggestions(db@, tags@.tags, min_count),
{
    let says = |t: &TagRow| -> (b: bool)
        ensures b == telling()(t@)
        {
            t.manual_override && !t.release_group.as_str().is_empty()
                && !t.source.as_str().is_empty()
        };
    let told = select(&tags.tags, says, Ghost(telling()));
    let alike = |a: &TagRow, b: &TagRow| -> (r: bool)
        ensures r == agree()(a@, b@)
        { equal_nocase(&a.release_group, &b.release_group) && same(&a.source, &b.source) };
    let heads = keep_first_of_each(&told, alike, Ghost(agree()));
    let ghost counted = tallied(views(told@), db@);
    let count = |t: &TagRow| -> (o: Tally)
        ensures o@ == counted(t@)
        { tally(&told, db, t) };
    let all = project(&heads, count, Ghost(counted), Ghost(|t: TagRowView| true));
    let enough = |t: &Tally| -> (b: bool)
        ensures b == often(min_count)(t@)
        { min_count <= 0 || t.count >= min_count as u64 };
    let kept = select(&all, enough, Ghost(often(min_count)));
    let before = |a: &Tally, b: &Tally| -> (r: bool)
        ensures r == most_first()(a@, b@)
        {
            a.count > b.count || (a.count == b.count && at_most_nocase(
                &a.group_name,
                &b.group_name,
            ))
        };
    let sorted = order_by(kept, before, Ghost(most_first()));
    let unknown_so_far = |t: &Tally| -> (b: bool)
        ensures b == news()(t@)
        {
            let source = Source::from_str(&t.source);
            let other: bool = match &t.existing_source {
                Some(s) => Source::from_str(s) != source,
                None => true,
            };
            source != Source::Unknown && other
        };
    let new_ones = select(&sorted, unknown_so_far, Ghost(news()));
    let make = |t: &Tally| -> (o: GroupSuggestion)
        ensures o@ == suggestion()(t@)
        {
            let existing_source: Option<Source> = match &t.existing_source {
                Some(s) => Some(Source::from_str(s)),
                None => None,
            };
            GroupSuggestion {
                group_name: t.group_name.clone(),
                source: Source::from_str(&t.source),
                episode_count: t.count,
                existing_source,
            }
        };
    project(&new_ones, make, Ghost(suggestion()), Ghost(|t: TallyView| true))
}

impl GroupStore {
    /// A store without groups.
    pub fn new() -> (db: GroupStore)
        ensures
            db@ == Seq::<GroupRowView>::empty(),
            one_row_each(db@),
    {
        let db = GroupStore { rows: Vec::new() };
        assert(db@ =~= Seq::<GroupRowView>::empty());
        db
    }

    /// Whether the store is as the rules leave it.
    pub fn check(&self) -> (r: bool)
        ensures
            r == one_row_each(self@),
    {
        let ghost names = |a: GroupRowView, b: GroupRowView| row_key()(a) != row_key()(b);
        let other = |a: &GroupRow, b: &GroupRow| -> (r: bool)
            ensures r == names(a@, b@)
            { !equal_nocase(&a.group_name, &b.group_name) };
        let r: bool = every_pair(&self.rows, other, Ghost(names));
        assert(r == distinct(self@, row_key()));
        r
    }
}

/// The case in which a group is written makes no difference.
pub proof fn case_makes_no_difference(rows: Seq<GroupRowView>, a: Seq<char>, b: Seq<char>)
    requires
        same_nocase(a, b),
    ensures
        entry_of(rows, a) == entry_of(rows, b),
{
    assert(named(a) =~= named(b));
}

/// What the user says of a group is what is known of it.
pub proof fn what_the_user_says_counts(
    rows: Seq<GroupRowView>,
    name: Seq<char>,
    source: Source,
    confidence: u32,
    notes: Seq<char>,
    now: Seq<char>,
)
    ensures
        ({
            let e = entry_of(with_user_edit(rows, name, source, confidence, notes, now), name);
            &&& e is Some
            &&& (e->0).source == source
            &&& (e->0).confidence == clamped(confidence)
            &&& (e->0).is_user_edit
            &&& (e->0).notes == notes
        }),
{
    a_source_is_read_from_its_name(source);
    crate::table::lemma_first_where_upserted(
        rows,
        named(name),
        user_edited(source, confidence, notes, now),
        user_row(name, source, confidence, notes, now),
    );
}

/// A confidence that is kept lies between 0 and 1.
pub proof fn a_kept_confidence_is_in_range(bits: u32)
    requires
        !not_a_number(bits),
    ensures
        clamped(bits) <= 0x3f80_0000 || clamped(bits) == 0x8000_0000,
        clamped(clamped(bits)) == clamped(bits),
{
}

proof fn lemma_seeding_keeps(rows: Seq<GroupRowView>, seeds: Seq<SeedView>, now: Seq<char>)
    ensures
        seeded(rows, seeds, now).len() >= rows.len(),
        seeded(rows, seeds, now).take(rows.len() as int) == rows,
        forall|i: int|
            rows.len() <= i < seeded(rows, seeds, now).len() ==> !(#[trigger] seeded(
                rows,
                seeds,
                now,
            )[i]).is_user_edit,
    decreases seeds.len(),
{
    if seeds.len() == 0 {
        assert(rows.take(rows.len() as int) =~= rows);
    } else {
        lemma_seeding_keeps(rows, seeds.drop_last(), now);
        let before = seeded(rows, seeds.drop_last(), now);
        let after = seeded(rows, seeds, now);
        assert(after.take(rows.len() as int) =~= before.take(rows.len() as int));
        assert forall|i: int| rows.len() <= i < after.len() implies !(
        #[trigger] after[i]).is_user_edit by {
            if i < before.len() {
                assert(after[i] == before[i]);
            }
        }
    }
}

proof fn lemma_reconciling_keeps(rows: Seq<GroupRowView>, seeds: Seq<SeedView>)
    ensures
        reconciled(rows, seeds).len() == rows.len(),
        forall|i: int|
            0 <= i < rows.len() ==> (#[trigger] reconciled(rows, seeds)[i]).is_user_edit
                == rows[i].is_user_edit && reconciled(rows, seeds)[i].group_name
                == rows[i].group_name && (rows[i].is_user_edit ==> reconciled(rows, seeds)[i]
                == rows[i]),
    decreases seeds.len(),
{
    if seeds.len() > 0 {
        lemma_reconciling_keeps(rows, seeds.drop_last());
    }
}

proof fn lemma_user_rows(rows: Seq<GroupRowView>, n: int)
    requires
        0 <= n <= rows.len(),
        forall|i: int| 0 <= i < n ==> (#[trigger] rows[i]).is_user_edit,
        forall|i: int| n <= i < rows.len() ==> !(#[trigger] rows[i]).is_user_edit,
    ensures
        without(rows, built_in()) == rows.take(n),
    decreases rows.len(),
{
    reveal(Seq::filter);
    let kept = |r: GroupRowView| !built_in()(r);
    if rows.len() == 0 {
        assert(rows.take(n) =~= rows.filter(kept));
    } else if n == rows.len() {
        crate::table::lemma_filter_all(rows, kept);
        assert(rows.take(n) =~= rows);
    } else {
        let rest = rows.drop_last();
        assert(!kept(rows.last()));
        assert forall|i: int| n <= i < rest.len() implies !(#[trigger] rest[i]).is_user_edit by {
            assert(rest[i] == rows[i]);
        }
        lemma_user_rows(rest, n);
        assert(rest.take(n) =~= rows.take(n));
    }
}

proof fn lemma_start_keeps_user_rows(rows: Seq<GroupRowView>, seeds: Seq<SeedView>, now: Seq<char>)
    ensures
        ({
            let after = migrated(rows, seeds, now);
            let theirs = without(rows, built_in());
            &&& after.len() >= theirs.len()
            &&& after.take(theirs.len() as int) == theirs
            &&& forall|i: int| theirs.len() <= i < after.len() ==> !(#[trigger] after[i]).is_user_edit
            &&& without(after, built_in()) == theirs
        }),
{
    let theirs = without(rows, built_in());
    let planted_rows = seeded(theirs, seeds, now);
    let after = migrated(rows, seeds, now);
    crate::table::lemma_without_members(rows, built_in());
    lemma_seeding_keeps(theirs, seeds, now);
    lemma_reconciling_keeps(planted_rows, seeds);
    let n = theirs.len() as int;
    assert forall|i: int| 0 <= i < n implies after[i] == theirs[i] && theirs[i].is_user_edit by {
        assert(!built_in()(theirs[i]));
        assert(planted_rows.take(n)[i] == planted_rows[i]);
    }
    assert(after.take(n) =~= theirs);
    assert forall|i: int| n <= i < after.len() implies !(#[trigger] after[i]).is_user_edit by {
        assert(!planted_rows[i].is_user_edit);
    }
    assert forall|i: int| 0 <= i < n implies (#[trigger] after[i]).is_user_edit by {
        assert(after[i] == theirs[i]);
    }
    lemma_user_rows(after, n);
}

/// What the user says of a group survives every start.
pub proof fn a_start_keeps_what_the_user_said(
    rows: Seq<GroupRowView>,
    seeds: Seq<SeedView>,
    now: Seq<char>,
    name: Seq<char>,
)
    requires
        one_row_each(rows),
        first_where(rows, named(name)) is Some,
        (first_where(rows, named(name))->0).is_user_edit,
    ensures
        first_where(migrated(rows, seeds, now), named(name)) == first_where(rows, named(name)),
{
    let theirs = without(rows, built_in());
    let after = migrated(rows, seeds, now);
    let i = crate::table::lemma_first_index(rows, named(name));
    assert forall|j: int| 0 <= j < rows.len() && built_in()(#[trigger] rows[j]) implies !named(
        name,
    )(rows[j]) by {
        if j < i {
            assert(row_key()(rows[j]) != row_key()(rows[i]));
        } else if j > i {
            assert(row_key()(rows[i]) != row_key()(rows[j]));
        }
    }
    crate::table::lemma_first_where_without(rows, built_in(), named(name));
    lemma_start_keeps_user_rows(rows, seeds, now);
    let k = crate::table::lemma_first_index(theirs, named(name));
    let n = theirs.len() as int;
    assert forall|j: int| 0 <= j < n implies #[trigger] after[j] == theirs[j] by {
        assert(after.take(n)[j] == after[j]);
    }
    assert forall|j: int| 0 <= j < k implies !named(name)(#[trigger] after[j]) by {
        assert(after[j] == theirs[j]);
    }
    assert(after[k] == theirs[k]);
    crate::table::lemma_first_where(after, named(name), k);
}

/// A second start changes nothing.
pub proof fn starting_again_changes_nothing(
    rows: Seq<GroupRowView>,
    seeds: Seq<SeedView>,
    now: Seq<char>,
)
    ensures
        migrated(migrated(rows, seeds, now), seeds, now) == migrated(rows, seeds, now),
{
    lemma_start_keeps_user_rows(rows, seeds, now);
}

/// Every group that is known from the start is known after a start.
pub proof fn every_seed_is_known(
    rows: Seq<GroupRowView>,
    seeds: Seq<SeedView>,
    now: Seq<char>,
    i: int,
)
    requires
        0 <= i < seeds.len(),
    ensures
        any_where(migrated(rows, seeds, now), named(seeds[i].group_name)),
{
    let theirs = without(rows, built_in());
    lemma_seed_is_there(theirs, seeds, now, i);
    let planted_rows = seeded(theirs, seeds, now);
    let here = named(seeds[i].group_name);
    let k = choose|k: int| 0 <= k < planted_rows.len() && here(#[trigger] planted_rows[k]);
    lemma_reconciling_keeps(planted_rows, seeds);
    assert(here(reconciled(planted_rows, seeds)[k]));
}

proof fn lemma_seed_is_there(
    rows: Seq<GroupRowView>,
    seeds: Seq<SeedView>,
    now: Seq<char>,
    i: int,
)
    requires
        0 <= i < seeds.len(),
    ensures
        any_where(seeded(rows, seeds, now), named(seeds[i].group_name)),
    decreases seeds.len(),
{
    let before = seeded(rows, seeds.drop_last(), now);
    let after = seeded(rows, seeds, now);
    let here = named(seeds[i].group_name);
    if i < seeds.len() - 1 {
        lemma_seed_is_there(rows, seeds.drop_last(), now, i);
        let k = choose|k: int| 0 <= k < before.len() && here(#[trigger] before[k]);
        assert(after[k] == before[k]);
        assert(here(after[k]));
    } else if !any_where(before, here) {
        assert(here(after[before.len() as int]));
    }
}

/// A suggestion is backed by enough corrections, names a known source, and is
/// not what is known already; the most supported come first.
pub proof fn suggestions_are_news(
    rows: Seq<GroupRowView>,
    tags: Seq<TagRowView>,
    min_count: i64,
    i: int,
)
    requires
        0 <= i < suggestions(rows, tags, min_count).len(),
    ensures
        ({
            let s = suggestions(rows, tags, min_count)[i];
            &&& s.episode_count as int >= min_count as int
            &&& s.source != Source::Unknown
            &&& s.existing_source != Some(s.source)
        }),
{
    let told = tags.filter(telling());
    let counted = first_of_each(told, agree()).map_values(tallied(told, rows));
    let kept = counted.filter(often(min_count));
    let sorted = tallies(rows, tags, min_count);
    let found = sorted.filter(news());
    crate::table::lemma_filter_members(sorted, news());
    assert(sorted.contains(found[i]) && news()(found[i]));
    let k = choose|k: int| 0 <= k < sorted.len() && sorted[k] == found[i];
    crate::table::lemma_ordered_members(kept, most_first());
    assert(kept.contains(sorted[k]));
    let j = choose|j: int| 0 <= j < kept.len() && kept[j] == sorted[k];
    crate::table::lemma_filter_members(counted, often(min_count));
    assert(often(min_count)(kept[j]));
}

/// A confidence that is kept is the one given, brought into the range from
/// nothing to full: below nothing it is nothing, above full it is full.
pub proof fn a_confidence_is_brought_into_range(bits: u32)
    ensures
        not_a_number(bits) ==> clamped(bits) == bits,
        bits <= 0x3f80_0000 ==> clamped(bits) == bits,
        0x3f80_0000 < bits < 0x8000_0000 && !not_a_number(bits) ==> clamped(bits) == 0x3f80_0000,
        bits > 0x8000_0000 && !not_a_number(bits) ==> clamped(bits) == 0,
        bits == 0x8000_0000 ==> clamped(bits) == bits,
{
}

/// What the user says of a group stands in its row, which keeps its name and
/// its kind of stream; a group that is new gets a row. The rows of other
/// groups stay.
pub proof fn a_user_edit_changes_its_own_group(
    rows: Seq<GroupRowView>,
    name: Seq<char>,
    source: Source,
    confidence: u32,
    notes: Seq<char>,
    now: Seq<char>,
    i: int,
)
    requires
        0 <= i < rows.len(),
    ensures
        ({
            let after = with_user_edit(rows, name, source, confidence, notes, now);
            let there = exists|k: int|
                0 <= k < rows.len() && lowered((#[trigger] rows[k]).group_name) == lowered(name);
            &&& lowered(rows[i].group_name) != lowered(name) ==> after[i] == rows[i]
            &&& lowered(rows[i].group_name) == lowered(name) ==> {
                &&& after[i].group_name == rows[i].group_name && after[i].web_kind
                    == rows[i].web_kind
                &&& after[i].source == source.name() && after[i].notes == notes
                    && after[i].is_user_edit && after[i].updated_at == now
                &&& confidence <= 0x3f80_0000 ==> after[i].confidence == confidence
            }
            &&& there ==> after.len() == rows.len()
            &&& !there ==> after.len() == rows.len() + 1 && ({
                let r = after.last();
                &&& r.group_name == name && r.source == source.name() && r.notes == notes
                    && r.is_user_edit && r.updated_at == now && r.web_kind.len() == 0
                &&& confidence <= 0x3f80_0000 ==> r.confidence == confidence
            })
        }),
{
    let here = named(name);
    assert(any_where(rows, here) <==> exists|k: int|
        0 <= k < rows.len() && lowered((#[trigger] rows[k]).group_name) == lowered(name)) by {
        if any_where(rows, here) {
            let k = choose|k: int| 0 <= k < rows.len() && here(#[trigger] rows[k]);
            assert(lowered(rows[k].group_name) == lowered(name));
        }
        if exists|k: int|
            0 <= k < rows.len() && lowered((#[trigger] rows[k]).group_name) == lowered(name) {
            let k = choose|k: int|
                0 <= k < rows.len() && lowered((#[trigger] rows[k]).group_name) == lowered(name);
            assert(here(rows[k]));
        }
    }
}

/// A group is read with the values of its row.
pub proof fn a_group_is_read_as_it_is_stored(rows: Seq<GroupRowView>, name: Seq<char>)
    ensures
        match entry_of(rows, name) {
            Some(e) => exists|i: int|
                0 <= i < rows.len() && lowered((#[trigger] rows[i]).group_name) == lowered(name)
                    && e.group_name == rows[i].group_name && e.source == source_named(
                    lowered(rows[i].source),
                ) && e.confidence == rows[i].confidence && e.is_user_edit == rows[i].is_user_edit
                    && e.notes == rows[i].notes && e.web_kind == web_kind_named(
                    lowered(rows[i].web_kind),
                ),
            None => forall|i: int|
                0 <= i < rows.len() ==> lowered((#[trigger] rows[i]).group_name) != lowered(name),
        },
{
    let here = named(name);
    crate::table::lemma_first_where_any(rows, here);
    if first_where(rows, here) is Some {
        let i = crate::table::lemma_first_index(rows, here);
        assert(lowered(rows[i].group_name) == lowered(name));
    } else {
        assert forall|i: int| 0 <= i < rows.len() implies lowered(
            (#[trigger] rows[i]).group_name,
        ) != lowered(name) by {
            assert(!here(rows[i]));
        }
    }
}

proof fn lemma_reconciled_row(rows: Seq<GroupRowView>, seeds: Seq<SeedView>, i: int, k: int)
    requires
        0 <= i < rows.len(),
        !rows[i].is_user_edit,
        0 <= k < seeds.len(),
        lowered(rows[i].group_name) == lowered(seeds[k].group_name),
        forall|l: int|
            k < l < seeds.len() ==> lowered((#[trigger] seeds[l]).group_name) != lowered(
                seeds[k].group_name,
            ),
    ensures
        reconciled(rows, seeds)[i].source == seeds[k].source.name(),
        reconciled(rows, seeds)[i].confidence == seeds[k].confidence,
        reconciled(rows, seeds)[i].notes == seeds[k].notes,
    decreases seeds.len(),
{
    let rest = seeds.drop_last();
    lemma_reconciling_keeps(rows, rest);
    if k < rest.len() {
        assert forall|l: int| k < l < rest.len() implies lowered((#[trigger] rest[l]).group_name)
            != lowered(rest[k].group_name) by {
            assert(rest[l] == seeds[l]);
        }
        lemma_reconciled_row(rows, rest, i, k);
        assert(seeds[seeds.len() - 1] == seeds.last());
    }
}

/// After a start a group of the built-in list that the user said nothing of
/// has the source, the confidence and the note of the list: of the last entry
/// under its name.
pub proof fn a_start_brings_the_built_in_list(
    rows: Seq<GroupRowView>,
    seeds: Seq<SeedView>,
    now: Seq<char>,
    k: int,
    i: int,
)
    requires
        0 <= k < seeds.len(),
        forall|l: int|
            k < l < seeds.len() ==> lowered((#[trigger] seeds[l]).group_name) != lowered(
                seeds[k].group_name,
            ),
        0 <= i < migrated(rows, seeds, now).len(),
        lowered(migrated(rows, seeds, now)[i].group_name) == lowered(seeds[k].group_name),
        !migrated(rows, seeds, now)[i].is_user_edit,
    ensures
        migrated(rows, seeds, now)[i].source == seeds[k].source.name(),
        migrated(rows, seeds, now)[i].confidence == seeds[k].confidence,
        migrated(rows, seeds, now)[i].notes == seeds[k].notes,
{
    let mid = seeded(without(rows, built_in()), seeds, now);
    lemma_reconciling_keeps(mid, seeds);
    lemma_reconciled_row(mid, seeds, i, k);
}

proof fn lemma_seeded_row(rows: Seq<GroupRowView>, seeds: Seq<SeedView>, now: Seq<char>, i: int)
    requires
        rows.len() <= i < seeded(rows, seeds, now).len(),
    ensures
        exists|k: int|
            0 <= k < seeds.len() && (#[trigger] seeds[k]).group_name == seeded(
                rows,
                seeds,
                now,
            )[i].group_name,
        seeded(rows, seeds, now)[i].updated_at == now,
        seeded(rows, seeds, now)[i].web_kind.len() == 0,
    decreases seeds.len(),
{
    if seeds.len() > 0 {
        let rest = seeds.drop_last();
        let had = seeded(rows, rest, now);
        if i < had.len() {
            lemma_seeded_row(rows, rest, now, i);
            let k = choose|k: int|
                0 <= k < rest.len() && (#[trigger] rest[k]).group_name == had[i].group_name;
            assert(seeds[k] == rest[k]);
        } else {
            assert(seeds[seeds.len() - 1] == seeds.last());
        }
    }
}

/// After a start every row that the user did not write is of a group of the
/// built-in list.
pub proof fn a_start_brings_nothing_else(
    rows: Seq<GroupRowView>,
    seeds: Seq<SeedView>,
    now: Seq<char>,
    i: int,
)
    requires
        0 <= i < migrated(rows, seeds, now).len(),
        !migrated(rows, seeds, now)[i].is_user_edit,
    ensures
        exists|k: int|
            0 <= k < seeds.len() && (#[trigger] seeds[k]).group_name == migrated(
                rows,
                seeds,
                now,
            )[i].group_name,
{
    let theirs = without(rows, built_in());
    let mid = seeded(theirs, seeds, now);
    lemma_reconciling_keeps(mid, seeds);
    lemma_seeding_keeps(theirs, seeds, now);
    crate::table::lemma_without_members(rows, built_in());
    if i < theirs.len() {
        assert(mid.take(theirs.len() as int)[i] == theirs[i]);
        assert(!built_in()(theirs[i]));
    } else {
        lemma_seeded_row(theirs, seeds, now, i);
    }
}

/// The list of groups holds each of them once, by name without regard to case.
pub proof fn the_groups_are_listed_by_name(rows: Seq<GroupRowView>)
    ensures
        ({
            let list = ordered(rows, by_name()).map_values(entry());
            &&& list.len() == rows.len()
            &&& forall|j: int, k: int|
                0 <= j < k < list.len() ==> text_le(
                    lowered((#[trigger] list[j]).group_name),
                    lowered((#[trigger] list[k]).group_name),
                )
            &&& forall|i: int|
                0 <= i < rows.len() ==> list.contains(
                    (GroupSourceEntryView {
                        group_name: (#[trigger] rows[i]).group_name,
                        source: source_named(lowered(rows[i].source)),
                        confidence: rows[i].confidence,
                        is_user_edit: rows[i].is_user_edit,
                        notes: rows[i].notes,
                        web_kind: web_kind_named(lowered(rows[i].web_kind)),
                    }),
                )
        }),
{
    assert(crate::table::total_preorder(by_name())) by {
        assert forall|a: GroupRowView, b: GroupRowView| #[trigger] by_name()(a, b) || by_name()(
            b,
            a,
        ) by {
            crate::text::text_order_is_a_total_order(
                lowered(a.group_name),
                lowered(b.group_name),
                lowered(b.group_name),
            );
        }
        assert forall|a: GroupRowView, b: GroupRowView, c: GroupRowView| #[trigger]
            by_name()(a, b) && #[trigger] by_name()(b, c) implies by_name()(a, c) by {
            crate::text::text_order_is_a_total_order(
                lowered(a.group_name),
                lowered(b.group_name),
                lowered(c.group_name),
            );
        }
    }
    let o = ordered(rows, by_name());
    let list = o.map_values(entry());
    crate::table::ordered_is_a_sorted_rearrangement(rows, by_name());
    crate::table::lemma_ordered_holds_all(rows, by_name());
    assert forall|j: int, k: int| 0 <= j < k < list.len() implies text_le(
        lowered((#[trigger] list[j]).group_name),
        lowered((#[trigger] list[k]).group_name),
    ) by {
        assert(by_name()(o[j], o[k]));
    }
    assert forall|i: int| 0 <= i < rows.len() implies list.contains(
        (GroupSourceEntryView {
            group_name: (#[trigger] rows[i]).group_name,
            source: source_named(lowered(rows[i].source)),
            confidence: rows[i].confidence,
            is_user_edit: rows[i].is_user_edit,
            notes: rows[i].notes,
            web_kind: web_kind_named(lowered(rows[i].web_kind)),
        }),
    ) by {
        assert(o.contains(rows[i]));
        let k = choose|k: int| 0 <= k < o.len() && o[k] == rows[i];
        assert(list[k] == entry()(rows[i]));
    }
}

/// A suggestion comes from an episode whose source the user pinned. It names
/// that episode's group and source, and counts the pinned episodes of the same
/// group and source.
pub proof fn a_suggestion_counts_what_the_user_pinned(
    rows: Seq<GroupRowView>,
    tags: Seq<TagRowView>,
    min_count: i64,
    i: int,
)
    requires
        0 <= i < suggestions(rows, tags, min_count).len(),
        tags.len() <= u64::MAX,
    ensures
        ({
            let s = suggestions(rows, tags, min_count)[i];
            exists|t: TagRowView| #[trigger]
                tags.contains(t) && t.manual_override && t.release_group.len() > 0
                    && t.source.len() > 0 && s.group_name == t.release_group && s.source
                    == source_named(lowered(t.source)) && s.episode_count == tags.filter(
                    |o: TagRowView|
                        o.manual_override && o.release_group.len() > 0 && o.source.len() > 0
                            && lowered(o.release_group) == lowered(t.release_group) && o.source
                            == t.source,
                ).len()
        }),
{
    let told = tags.filter(telling());
    let each = first_of_each(told, agree());
    let counted = each.map_values(tallied(told, rows));
    let kept = counted.filter(often(min_count));
    let sorted = tallies(rows, tags, min_count);
    let found = sorted.filter(news());
    crate::table::lemma_filter_members(sorted, news());
    assert(sorted.contains(found[i]) && news()(found[i]));
    let k = choose|k: int| 0 <= k < sorted.len() && sorted[k] == found[i];
    crate::table::lemma_ordered_members(kept, most_first());
    assert(kept.contains(sorted[k]));
    let j = choose|j: int| 0 <= j < kept.len() && kept[j] == sorted[k];
    crate::table::lemma_filter_members(counted, often(min_count));
    assert(counted.contains(kept[j]));
    let m = choose|m: int| 0 <= m < counted.len() && counted[m] == kept[j];
    crate::table::lemma_first_of_each_members(told, agree());
    let t = each[m];
    assert(told.contains(t));
    crate::table::lemma_filter_members(tags, telling());
    let n = choose|n: int| 0 <= n < told.len() && told[n] == t;
    assert(tags.contains(told[n]) && telling()(told[n]));
    let same = |o: TagRowView|
        o.manual_override && o.release_group.len() > 0 && o.source.len() > 0 && lowered(
            o.release_group,
        ) == lowered(t.release_group) && o.source == t.source;
    lemma_filtered_twice(tags, telling(), agrees_with(t), same);
    lemma_filter_is_no_longer(tags, same);
    assert(found[i] == tallied(told, rows)(t));
    assert(tags.contains(t));
}

proof fn lemma_filter_is_no_longer(s: Seq<TagRowView>, a: spec_fn(TagRowView) -> bool)
    ensures
        s.filter(a).len() <= s.len(),
    decreases s.len(),
{
    reveal(Seq::filter);
    if s.len() > 0 {
        lemma_filter_is_no_longer(s.drop_last(), a);
    }
}

proof fn lemma_filtered_twice(
    s: Seq<TagRowView>,
    a: spec_fn(TagRowView) -> bool,
    b: spec_fn(TagRowView) -> bool,
    both: spec_fn(TagRowView) -> bool,
)
    requires
        forall|v: TagRowView| #[trigger] both(v) <==> a(v) && b(v),
    ensures
        s.filter(a).filter(b) == s.filter(both),
    decreases s.len(),
{
    reveal(Seq::filter);
    if s.len() == 0 {
        assert(s.filter(a) =~= s);
        assert(s.filter(a).filter(b) =~= s.filter(both));
    } else {
        let rest = s.drop_last();
        let x = s.last();
        lemma_filtered_twice(rest, a, b, both);
        if a(x) {
            assert(s.filter(a) == rest.filter(a).push(x));
            assert(rest.filter(a).push(x).drop_last() =~= rest.filter(a));
        }
        assert(both(x) <==> a(x) && b(x));
    }
}

/// What the user pinned often enough is suggested, unless the source says
/// nothing or the group is already known to work from it.
pub proof fn what_the_user_pins_often_is_suggested(
    rows: Seq<GroupRowView>,
    tags: Seq<TagRowView>,
    min_count: i64,
    i: int,
)
    requires
        0 <= i < tags.len() <= u64::MAX,
        tags[i].manual_override,
        tags[i].release_group.len() > 0,
        tags[i].source.len() > 0,
        tags.filter(
            |o: TagRowView|
                o.manual_override && o.release_group.len() > 0 && o.source.len() > 0 && lowered(
                    o.release_group,
                ) == lowered(tags[i].release_group) && o.source == tags[i].source,
        ).len() >= min_count,
        source_named(lowered(tags[i].source)) != Source::Unknown,
        forall|k: int|
            0 <= k < rows.len() && lowered((#[trigger] rows[k]).group_name) == lowered(
                tags[i].release_group,
            ) ==> source_named(lowered(rows[k].source)) != source_named(lowered(tags[i].source)),
    ensures
        exists|k: int|
            0 <= k < suggestions(rows, tags, min_count).len() && ({
                let s = #[trigger] suggestions(rows, tags, min_count)[k];
                lowered(s.group_name) == lowered(tags[i].release_group) && s.source
                    == source_named(lowered(tags[i].source))
            }),
{
    let told = tags.filter(telling());
    let each = first_of_each(told, agree());
    let counted = each.map_values(tallied(told, rows));
    let kept = counted.filter(often(min_count));
    let sorted = tallies(rows, tags, min_count);
    let found = sorted.filter(news());
    tags.lemma_filter_contains(telling(), i);
    let n = choose|n: int| 0 <= n < told.len() && told[n] == tags[i];
    let p = lemma_first_alike(told, n);
    crate::table::the_first_of_each_is_kept(told, agree(), p);
    let m = choose|m: int| 0 <= m < each.len() && each[m] == told[p];
    let t = each[m];
    let same = |o: TagRowView|
        o.manual_override && o.release_group.len() > 0 && o.source.len() > 0 && lowered(
            o.release_group,
        ) == lowered(tags[i].release_group) && o.source == tags[i].source;
    lemma_filtered_twice(tags, telling(), agrees_with(t), same);
    lemma_filter_is_no_longer(tags, same);
    let y = counted[m];
    assert(y == tallied(told, rows)(t));
    assert(often(min_count)(counted[m]));
    counted.lemma_filter_contains(often(min_count), m);
    let j = choose|j: int| 0 <= j < kept.len() && kept[j] == y;
    lemma_most_first_total();
    crate::table::lemma_ordered_holds_all(kept, most_first());
    assert(sorted.contains(kept[j]));
    let q = choose|q: int| 0 <= q < sorted.len() && sorted[q] == y;
    let here = named(t.release_group);
    crate::table::lemma_first_where_any(rows, here);
    if first_where(rows, here) is Some {
        let z = crate::table::lemma_first_index(rows, here);
        assert(lowered(rows[z].group_name) == lowered(tags[i].release_group));
    }
    assert(news()(sorted[q]));
    sorted.lemma_filter_contains(news(), q);
    let w = choose|w: int| 0 <= w < found.len() && found[w] == y;
    assert(suggestions(rows, tags, min_count)[w] == suggestion()(y));
}

proof fn lemma_first_alike(told: Seq<TagRowView>, n: int) -> (p: int)
    requires
        0 <= n < told.len(),
    ensures
        0 <= p <= n,
        agree()(told[p], told[n]),
        forall|k: int| 0 <= k < p ==> !agree()(#[trigger] told[k], told[p]),
    decreases n,
{
    if exists|k: int| 0 <= k < n && agree()(#[trigger] told[k], told[n]) {
        let k = choose|k: int| 0 <= k < n && agree()(#[trigger] told[k], told[n]);
        lemma_first_alike(told, k)
    } else {
        n
    }
}

proof fn lemma_most_first_total()
    ensures
        crate::table::total_preorder(most_first()),
{
    assert forall|a: TallyView, b: TallyView| #[trigger] most_first()(a, b) || most_first()(
        b,
        a,
    ) by {
        crate::text::text_order_is_a_total_order(
            lowered(a.group_name),
            lowered(b.group_name),
            lowered(b.group_name),
        );
    }
    assert forall|a: TallyView, b: TallyView, c: TallyView| #[trigger]
        most_first()(a, b) && #[trigger] most_first()(b, c) implies most_first()(a, c) by {
        crate::text::text_order_is_a_total_order(
            lowered(a.group_name),
            lowered(b.group_name),
            lowered(c.group_name),
        );
    }
}

/// The suggestion with the most episodes comes first, and of those with as many
/// the one whose group comes first by name.
pub proof fn suggestions_come_with_the_most_episodes_first(
    rows: Seq<GroupRowView>,
    tags: Seq<TagRowView>,
    min_count: i64,
    j: int,
    k: int,
)
    requires
        0 <= j < k < suggestions(rows, tags, min_count).len(),
    ensures
        suggestions(rows, tags, min_count)[j].episode_count >= suggestions(
            rows,
            tags,
            min_count,
        )[k].episode_count,
        suggestions(rows, tags, min_count)[j].episode_count == suggestions(
            rows,
            tags,
            min_count,
        )[k].episode_count ==> text_le(
            lowered(suggestions(rows, tags, min_count)[j].group_name),
            lowered(suggestions(rows, tags, min_count)[k].group_name),
        ),
{
    let told = tags.filter(telling());
    let kept = first_of_each(told, agree()).map_values(tallied(told, rows)).filter(
        often(min_count),
    );
    let sorted = tallies(rows, tags, min_count);
    lemma_most_first_total();
    crate::table::ordered_is_a_sorted_rearrangement(kept, most_first());
    crate::table::ordering_and_choosing_commute(kept, news(), most_first());
    crate::table::ordered_is_a_sorted_rearrangement(kept.filter(news()), most_first());
    let found = sorted.filter(news());
    assert(most_first()(found[j], found[k]));
}

/// Whether an entry of the built-in list says of a group what its note says: a
/// note on streams goes with a stream, every other note with discs, and only
/// a group that mixes both is not sure.
pub open spec fn keeps_to_its_note(s: SeedView) -> bool {
    let streams = s.notes == "TRaSH WEB tier 01"@ || s.notes == "TRaSH WEB tier 02"@ || s.notes
        == "TRaSH WEB tier 03"@ || s.notes == "TRaSH WEB tier 04"@ || s.notes
        == "TRaSH WEB tier 05"@ || s.notes == "TRaSH WEB tier 06"@;
    let discs = s.notes == "TRaSH BD tier 01"@ || s.notes == "TRaSH BD tier 02"@ || s.notes
        == "TRaSH BD tier 03"@ || s.notes == "TRaSH BD tier 04"@ || s.notes
        == "TRaSH BD tier 05"@ || s.notes == "TRaSH BD tier 06"@ || s.notes
        == "TRaSH BD tier 07"@ || s.notes == "TRaSH BD tier 08"@ || s.notes
        == "TRaSH anime raws"@ || s.notes == "legacy BD encoder"@ || s.notes
        == "legacy BD encode specialist"@;
    let mixed = s.notes == "TRaSH BD tier 08 (mixed BD/WEB — low confidence)"@;
    &&& streams || discs || mixed
    &&& streams ==> s.source == Source::Web && s.confidence == 0x3f73_3333
    &&& discs && !streams ==> s.source == Source::BluRay && s.confidence == 0x3f73_3333
    &&& mixed && !streams && !discs ==> s.source == Source::BluRay && s.confidence == 0x3f19_999a
}

proof fn lemma_tier_keeps(
    had: Seq<SeedView>,
    names: Seq<char>,
    source: Source,
    confidence: u32,
    notes: Seq<char>,
)
    requires
        forall|i: int| 0 <= i < had.len() ==> keeps_to_its_note(#[trigger] had[i]),
        keeps_to_its_note((SeedView { group_name: names, source, confidence, notes })),
    ensures
        forall|i: int|
            0 <= i < (had + tier(names, source, confidence, notes)).len() ==> keeps_to_its_note(
                #[trigger] (had + tier(names, source, confidence, notes))[i],
            ),
{
    let more = tier(names, source, confidence, notes);
    assert forall|i: int| 0 <= i < (had + more).len() implies keeps_to_its_note(
        #[trigger] (had + more)[i],
    ) by {
        if i < had.len() {
            assert((had + more)[i] == had[i]);
        } else {
            let s = (had + more)[i];
            assert(s == more[i - had.len()]);
            assert(s.source == source && s.confidence == confidence && s.notes == notes);
        }
    }
}

/// Every entry of the built-in list says of its group what its note says.
pub proof fn the_built_in_list_keeps_to_its_notes(i: int)
    requires
        0 <= i < seeds_there_are().len(),
    ensures
        keeps_to_its_note(seeds_there_are()[i]),
{
    reveal_strlit("TRaSH BD tier 01");
    reveal_strlit("TRaSH BD tier 02");
    reveal_strlit("TRaSH BD tier 03");
    reveal_strlit("TRaSH BD tier 04");
    reveal_strlit("TRaSH BD tier 05");
    reveal_strlit("TRaSH BD tier 06");
    reveal_strlit("TRaSH BD tier 07");
    reveal_strlit("TRaSH BD tier 08 (mixed BD/WEB — low confidence)");
    reveal_strlit("TRaSH BD tier 08");
    reveal_strlit("TRaSH WEB tier 01");
    reveal_strlit("TRaSH WEB tier 02");
    reveal_strlit("TRaSH WEB tier 03");
    reveal_strlit("TRaSH WEB tier 04");
    reveal_strlit("TRaSH WEB tier 05");
    reveal_strlit("TRaSH WEB tier 06");
    reveal_strlit("TRaSH anime raws");
    reveal_strlit("legacy BD encode specialist");
    reveal_strlit("legacy BD encoder");
    assert("TRaSH BD tier 01"@.len() == 16);
    assert("TRaSH BD tier 02"@.len() == 16);
    assert("TRaSH BD tier 03"@.len() == 16);
    assert("TRaSH BD tier 04"@.len() == 16);
    assert("TRaSH BD tier 05"@.len() == 16);
    assert("TRaSH BD tier 06"@.len() == 16);
    assert("TRaSH BD tier 07"@.len() == 16);
    assert("TRaSH BD tier 08 (mixed BD/WEB — low confidence)"@.len() == 48);
    assert("TRaSH BD tier 08"@.len() == 16);
    assert("TRaSH WEB tier 01"@.len() == 17);
    assert("TRaSH WEB tier 02"@.len() == 17);
    assert("TRaSH WEB tier 03"@.len() == 17);
    assert("TRaSH WEB tier 04"@.len() == 17);
    assert("TRaSH WEB tier 05"@.len() == 17);
    assert("TRaSH WEB tier 06"@.len() == 17);
    assert("TRaSH anime raws"@.len() == 16);
    assert("legacy BD encode specialist"@.len() == 27);
    assert("legacy BD encoder"@.len() == 17);
    assert("legacy BD encoder"@[0] != "TRaSH WEB tier 01"@[0]);
    let s0 = Seq::<SeedView>::empty();
    lemma_tier_keeps(s0, LEGACY_SPECIALIST@, Source::BluRay, SURE, "legacy BD encode specialist"@);
    let s1 = s0 + tier(LEGACY_SPECIALIST@, Source::BluRay, SURE, "legacy BD encode specialist"@);
    lemma_tier_keeps(s1, LEGACY_ENCODER@, Source::BluRay, SURE, "legacy BD encoder"@);
    let s2 = s1 + tier(LEGACY_ENCODER@, Source::BluRay, SURE, "legacy BD encoder"@);
    lemma_tier_keeps(s2, BD_TIER_01@, Source::BluRay, SURE, "TRaSH BD tier 01"@);
    let s3 = s2 + tier(BD_TIER_01@, Source::BluRay, SURE, "TRaSH BD tier 01"@);
    lemma_tier_keeps(s3, BD_TIER_02@, Source::BluRay, SURE, "TRaSH BD tier 02"@);
    let s4 = s3 + tier(BD_TIER_02@, Source::BluRay, SURE, "TRaSH BD tier 02"@);
    lemma_tier_keeps(s4, BD_TIER_03@, Source::BluRay, SURE, "TRaSH BD tier 03"@);
    let s5 = s4 + tier(BD_TIER_03@, Source::BluRay, SURE, "TRaSH BD tier 03"@);
    lemma_tier_keeps(s5, BD_TIER_04@, Source::BluRay, SURE, "TRaSH BD tier 04"@);
    let s6 = s5 + tier(BD_TIER_04@, Source::BluRay, SURE, "TRaSH BD tier 04"@);
    lemma_tier_keeps(s6, BD_TIER_05@, Source::BluRay, SURE, "TRaSH BD tier 05"@);
    let s7 = s6 + tier(BD_TIER_05@, Source::BluRay, SURE, "TRaSH BD tier 05"@);
    lemma_tier_keeps(s7, BD_TIER_06@, Source::BluRay, SURE, "TRaSH BD tier 06"@);
    let s8 = s7 + tier(BD_TIER_06@, Source::BluRay, SURE, "TRaSH BD tier 06"@);
    lemma_tier_keeps(s8, BD_TIER_07@, Source::BluRay, SURE, "TRaSH BD tier 07"@);
    let s9 = s8 + tier(BD_TIER_07@, Source::BluRay, SURE, "TRaSH BD tier 07"@);
    lemma_tier_keeps(s9, BD_TIER_08_A@, Source::BluRay, SURE, "TRaSH BD tier 08"@);
    let s10 = s9 + tier(BD_TIER_08_A@, Source::BluRay, SURE, "TRaSH BD tier 08"@);
    lemma_tier_keeps(s10, BD_TIER_08_MIXED@, Source::BluRay, UNSURE, "TRaSH BD tier 08 (mixed BD/WEB — low confidence)"@);
    let s11 = s10 + tier(BD_TIER_08_MIXED@, Source::BluRay, UNSURE, "TRaSH BD tier 08 (mixed BD/WEB — low confidence)"@);
    lemma_tier_keeps(s11, BD_TIER_08_B@, Source::BluRay, SURE, "TRaSH BD tier 08"@);
    let s12 = s11 + tier(BD_TIER_08_B@, Source::BluRay, SURE, "TRaSH BD tier 08"@);
    lemma_tier_keeps(s12, RAWS@, Source::BluRay, SURE, "TRaSH anime raws"@);
    let s13 = s12 + tier(RAWS@, Source::BluRay, SURE, "TRaSH anime raws"@);
    lemma_tier_keeps(s13, WEB_TIER_01@, Source::Web, SURE, "TRaSH WEB tier 01"@);
    let s14 = s13 + tier(WEB_TIER_01@, Source::Web, SURE, "TRaSH WEB tier 01"@);
    lemma_tier_keeps(s14, WEB_TIER_02@, Source::Web, SURE, "TRaSH WEB tier 02"@);
    let s15 = s14 + tier(WEB_TIER_02@, Source::Web, SURE, "TRaSH WEB tier 02"@);
    lemma_tier_keeps(s15, WEB_TIER_03@, Source::Web, SURE, "TRaSH WEB tier 03"@);
    let s16 = s15 + tier(WEB_TIER_03@, Source::Web, SURE, "TRaSH WEB tier 03"@);
    lemma_tier_keeps(s16, WEB_TIER_04@, Source::Web, SURE, "TRaSH WEB tier 04"@);
    let s17 = s16 + tier(WEB_TIER_04@, Source::Web, SURE, "TRaSH WEB tier 04"@);
    lemma_tier_keeps(s17, WEB_TIER_05@, Source::Web, SURE, "TRaSH WEB tier 05"@);
    let s18 = s17 + tier(WEB_TIER_05@, Source::Web, SURE, "TRaSH WEB tier 05"@);
    lemma_tier_keeps(s18, WEB_TIER_06@, Source::Web, SURE, "TRaSH WEB tier 06"@);
    let s19 = s18 + tier(WEB_TIER_06@, Source::Web, SURE, "TRaSH WEB tier 06"@);
    assert(seeds_there_are() == s19);
}

} // verus!
