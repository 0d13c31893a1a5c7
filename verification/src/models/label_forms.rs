//! The labels of the history: which forms there have been, and that each
//! reaches its present form in one go.
use crate::models::episode_tags::{
    is_bluray, no_resolution, only_spaces, quality_label, source_label,
};
use crate::models::migrations::{
    a_label_in_its_present_form_stays, label_rewrites, lemma_replaced_unchanged, occurs, rewritten,
};
use crate::source::{Resolution, Source, WebKind};
use crate::text::{lowered, replaced, stands_at, starts_with, uppered};
use vstd::prelude::*;

verus! {

/// Whether three characters in a row end what marks an earlier form.
pub open spec fn marks_earlier(a: char, b: char, c: char) -> bool {
    ||| c == ' ' && (a == 'M' && b == 'V' || a == 'u' && b == 'x' || a == 'a' && b == 'y' || a == 'D'
        && b == 'L' || a == 'i' && b == 'p' || a == 'e' && b == 'b' || a == 'T' && b == 'V' || a
        == 'V' && b == 'D')
    ||| c == '-' && (a == 'A' && b == 'W' || a == 'u' && b == 'x' || a == 'I' && b == 'P' || a == 'D'
        && b == 'L')
}

pub open spec fn marked_at(s: Seq<char>, p: int) -> bool {
    marks_earlier(s[p], s[p + 1], s[p + 2])
}

/// Whether nothing in a label marks an earlier form.
pub open spec fn unmarked(s: Seq<char>) -> bool {
    forall|p: int| 0 <= p && p + 2 < s.len() ==> !#[trigger] marked_at(s, p)
}

/// Whether a label is one that is made now.
pub open spec fn made_label(s: Seq<char>) -> bool {
    exists|
        source: Source,
        resolution: Resolution,
        kind: WebKind,
        is_remux: bool,
        is_bdmv: bool,
    | s == #[trigger] made(source, resolution, kind, is_remux, is_bdmv)
}

pub open spec fn made(
    source: Source,
    resolution: Resolution,
    kind: WebKind,
    is_remux: bool,
    is_bdmv: bool,
) -> Seq<char> {
    quality_label(source.name(), resolution.name(), kind.name(), is_remux, is_bdmv)
}

/// An earlier form of a label with a resolution: the source before it, or the
/// joined form in which source and resolution stand the other way round.
pub open spec fn earlier(k: int, resolution: Resolution) -> Seq<char> {
    if k < 9 || k == 19 {
        label_rewrites()[k].0 + resolution.name()
    } else {
        label_rewrites()[k].0
    }
}

/// An earlier form of a label without a resolution: the source alone.
pub open spec fn earlier_bare(k: int) -> Seq<char> {
    label_rewrites()[k].0.drop_last()
}

/// Whether a label is one that earlier versions made.
pub open spec fn earlier_label(s: Seq<char>) -> bool {
    ||| exists|k: int, r: Resolution|
        0 <= k < label_rewrites().len() && r != Resolution::Unknown && s == #[trigger] earlier(k, r)
    ||| exists|k: int| 0 <= k < 9 && s == #[trigger] earlier_bare(k)
}

/// Whether a label is one that this or an earlier version made, or none.
pub open spec fn ordinary(s: Seq<char>) -> bool {
    s.len() == 0 || made_label(s) || earlier_label(s)
}

proof fn lemma_no_char(s: Seq<char>, part: Seq<char>, j: int)
    requires
        0 <= j < part.len(),
        forall|p: int| 0 <= p < s.len() ==> #[trigger] s[p] != part[j],
    ensures
        !occurs(s, part),
{
    assert forall|at: int| 0 <= at <= s.len() implies !#[trigger] stands_at(s, part, at) by {
        if stands_at(s, part, at) {
            assert(s.subrange(at, at + part.len())[j] == s[at + j]);
        }
    }
}

proof fn lemma_longer(s: Seq<char>, part: Seq<char>)
    requires
        part.len() > s.len(),
    ensures
        !occurs(s, part),
{
    assert forall|at: int| 0 <= at <= s.len() implies !#[trigger] stands_at(s, part, at) by {
    }
}

/// A part that ends in a space stands in `head + rest` only at the end of
/// `head`, where that is the only space.
proof fn lemma_other_end(head: Seq<char>, rest: Seq<char>, part: Seq<char>)
    requires
        part.len() > 0,
        part.last() == ' ',
        forall|p: int| 0 <= p < head.len() - 1 ==> #[trigger] head[p] != ' ',
        forall|p: int| 0 <= p < rest.len() ==> #[trigger] rest[p] != ' ',
        part.len() > head.len() || part != head.skip(head.len() - part.len()),
    ensures
        !occurs(head + rest, part),
{
    let s = head + rest;
    assert forall|at: int| 0 <= at <= s.len() implies !#[trigger] stands_at(s, part, at) by {
        if stands_at(s, part, at) {
            let end = at + part.len() - 1;
            assert(s.subrange(at, at + part.len())[part.len() - 1] == s[end]);
            if end >= head.len() {
                assert(s[end] == rest[end - head.len()]);
            } else {
                assert(s[end] == head[end]);
                assert(end == head.len() - 1);
                assert(head.skip(head.len() - part.len()) =~= s.subrange(at, at + part.len()));
            }
        }
    }
}

proof fn lemma_marked_part(s: Seq<char>, part: Seq<char>, o: int)
    requires
        unmarked(s),
        0 <= o,
        o + 2 < part.len(),
        marked_at(part, o),
    ensures
        !occurs(s, part),
{
    assert forall|at: int| 0 <= at <= s.len() implies !#[trigger] stands_at(s, part, at) by {
        if stands_at(s, part, at) {
            let here = s.subrange(at, at + part.len());
            assert(here[o] == s[at + o] && here[o + 1] == s[at + o + 1] && here[o + 2] == s[at + o
                + 2]);
            assert(marked_at(s, at + o));
        }
    }
}

/// Nothing of an earlier form stands in a label that nothing marks as one.
pub proof fn an_unmarked_label_has_no_earlier_part(s: Seq<char>)
    requires
        unmarked(s),
    ensures
        forall|k: int|
            0 <= k < label_rewrites().len() ==> !occurs(s, (#[trigger] label_rewrites()[k]).0),
{
    let rules = label_rewrites();
    assert forall|k: int| 0 <= k < rules.len() implies !occurs(s, (#[trigger] rules[k]).0) by {
        if k == 0 {
            reveal_strlit("BluRay BDMV ");
            lemma_marked_part(s, "BluRay BDMV "@, 9);
        } else if k == 1 {
            reveal_strlit("BluRay Remux ");
            lemma_marked_part(s, "BluRay Remux "@, 10);
        } else if k == 2 {
            reveal_strlit("BluRay ");
            lemma_marked_part(s, "BluRay "@, 4);
        } else if k == 3 {
            reveal_strlit("WEB-DL ");
            lemma_marked_part(s, "WEB-DL "@, 4);
        } else if k == 4 {
            reveal_strlit("WEBRip ");
            lemma_marked_part(s, "WEBRip "@, 4);
        } else if k == 5 {
            reveal_strlit("Web ");
            lemma_marked_part(s, "Web "@, 1);
        } else if k == 6 {
            reveal_strlit("HDTV ");
            lemma_marked_part(s, "HDTV "@, 2);
        } else if k == 7 {
            reveal_strlit("DVD ");
            lemma_marked_part(s, "DVD "@, 1);
        } else if k == 8 {
            reveal_strlit("TV ");
            lemma_marked_part(s, "TV "@, 0);
        } else if k == 9 {
            reveal_strlit("BD-RAW-480p");
            lemma_marked_part(s, "BD-RAW-480p"@, 4);
        } else if k == 10 {
            reveal_strlit("BD-RAW-576p");
            lemma_marked_part(s, "BD-RAW-576p"@, 4);
        } else if k == 11 {
            reveal_strlit("BD-RAW-720p");
            lemma_marked_part(s, "BD-RAW-720p"@, 4);
        } else if k == 12 {
            reveal_strlit("BD-RAW-1080p");
            lemma_marked_part(s, "BD-RAW-1080p"@, 4);
        } else if k == 13 {
            reveal_strlit("BD-RAW-2160p");
            lemma_marked_part(s, "BD-RAW-2160p"@, 4);
        } else if k == 14 {
            reveal_strlit("BD-Remux-480p");
            lemma_marked_part(s, "BD-Remux-480p"@, 6);
        } else if k == 15 {
            reveal_strlit("BD-Remux-576p");
            lemma_marked_part(s, "BD-Remux-576p"@, 6);
        } else if k == 16 {
            reveal_strlit("BD-Remux-720p");
            lemma_marked_part(s, "BD-Remux-720p"@, 6);
        } else if k == 17 {
            reveal_strlit("BD-Remux-1080p");
            lemma_marked_part(s, "BD-Remux-1080p"@, 6);
        } else if k == 18 {
            reveal_strlit("BD-Remux-2160p");
            lemma_marked_part(s, "BD-Remux-2160p"@, 6);
        } else if k == 19 {
            reveal_strlit("WEBRIP-");
            lemma_marked_part(s, "WEBRIP-"@, 4);
        } else if k == 20 {
            reveal_strlit("WEBDL-480p");
            lemma_marked_part(s, "WEBDL-480p"@, 3);
        } else if k == 21 {
            reveal_strlit("WEBDL-576p");
            lemma_marked_part(s, "WEBDL-576p"@, 3);
        } else if k == 22 {
            reveal_strlit("WEBDL-720p");
            lemma_marked_part(s, "WEBDL-720p"@, 3);
        } else if k == 23 {
            reveal_strlit("WEBDL-1080p");
            lemma_marked_part(s, "WEBDL-1080p"@, 3);
        } else if k == 24 {
            reveal_strlit("WEBDL-2160p");
            lemma_marked_part(s, "WEBDL-2160p"@, 3);
        }
    }
}

/// Without a space or a dash behind the second character nothing is marked.
proof fn lemma_quiet(s: Seq<char>)
    requires
        forall|p: int| 2 <= p < s.len() ==> #[trigger] s[p] != ' ' && s[p] != '-',
    ensures
        unmarked(s),
{
    assert forall|p: int| 0 <= p && p + 2 < s.len() implies !#[trigger] marked_at(s, p) by {
        assert(s[p + 2] != ' ');
    }
}

proof fn lemma_unmarked_add(a: Seq<char>, b: Seq<char>)
    requires
        unmarked(a),
        unmarked(b),
        a.len() >= 2,
        b.len() >= 2,
        !marks_earlier(a[a.len() - 2], a[a.len() - 1], b[0]),
        !marks_earlier(a[a.len() - 1], b[0], b[1]),
    ensures
        unmarked(a + b),
{
    let s = a + b;
    assert forall|p: int| 0 <= p && p + 2 < s.len() implies !#[trigger] marked_at(s, p) by {
        if p + 2 < a.len() {
            assert(!marked_at(a, p));
        } else if p >= a.len() {
            assert(!marked_at(b, p - a.len()));
        }
    }
}

/// The resolution as it stands behind the source.
spec fn behind(r: Resolution) -> Seq<char> {
    if r == Resolution::Unknown {
        Seq::empty()
    } else {
        "-"@ + r.name()
    }
}

proof fn lemma_resolution(r: Resolution)
    ensures
        r.name().len() >= 4,
        forall|p: int| 0 <= p < r.name().len() ==> #[trigger] r.name()[p] != ' ' && r.name()[p] != '-',
        r != Resolution::Unknown ==> behind(r).len() >= 5 && behind(r)[0] == '-' && behind(r)[1]
            != ' ' && behind(r)[1] != '-' && behind(r).last() == 'p' && behind(r)[behind(r).len() - 2]
            != 'i',
        unmarked(r.name()),
        unmarked(behind(r)),
{
    reveal_strlit("-");
    reveal_strlit("480p");
    reveal_strlit("576p");
    reveal_strlit("720p");
    reveal_strlit("1080p");
    reveal_strlit("2160p");
    reveal_strlit("Unknown");
    lemma_quiet(r.name());
    if r != Resolution::Unknown {
        let b = behind(r);
        assert(b[1] == r.name()[0]);
        assert(b.last() == r.name().last());
        assert forall|p: int| 2 <= p < b.len() implies #[trigger] b[p] != ' ' && b[p] != '-' by {
            assert(b[p] == r.name()[p - 1]);
        }
        lemma_quiet(b);
    }
}

/// A source and a resolution behind it make an unmarked label.
proof fn lemma_headed(head: Seq<char>, r: Resolution)
    requires
        head.len() >= 2,
        unmarked(head),
        !marks_earlier(head[head.len() - 2], head[head.len() - 1], '-'),
    ensures
        unmarked(head + behind(r)),
{
    lemma_resolution(r);
    if r == Resolution::Unknown {
        assert(head + behind(r) =~= head);
    } else {
        lemma_unmarked_add(head, behind(r));
    }
}

proof fn lemma_disc(r: Resolution, end: Seq<char>)
    requires
        end == ""@ || end == " RAW"@ || end == " Remux"@,
    ensures
        unmarked("BD"@ + behind(r) + end),
{
    reveal_strlit("BD");
    reveal_strlit("");
    reveal_strlit(" RAW");
    reveal_strlit(" Remux");
    lemma_quiet("BD"@);
    lemma_headed("BD"@, r);
    lemma_resolution(r);
    let head = "BD"@ + behind(r);
    if end == ""@ {
        assert(head + end =~= head);
    } else {
        lemma_quiet(end);
        if r == Resolution::Unknown {
            assert(head =~= "BD"@);
        } else {
            assert(head.last() == behind(r).last());
            assert(head[head.len() - 2] == behind(r)[behind(r).len() - 2]);
        }
        lemma_unmarked_add(head, end);
    }
}

/// A label that is made now is unmarked.
pub proof fn a_made_label_is_unmarked(
    source: Source,
    resolution: Resolution,
    kind: WebKind,
    is_remux: bool,
    is_bdmv: bool,
)
    ensures
        unmarked(made(source, resolution, kind, is_remux, is_bdmv)),
{
    reveal_strlit("BluRay");
    reveal_strlit("Web");
    reveal_strlit("DVD");
    reveal_strlit("HDTV");
    reveal_strlit("TV");
    reveal_strlit("Unknown");
    reveal_strlit("bluray");
    reveal_strlit("blu-ray");
    reveal_strlit("bd");
    reveal_strlit("web");
    reveal_strlit("unknown");
    reveal_strlit("");
    reveal_strlit("BD");
    reveal_strlit("WEB");
    reveal_strlit("WEBRip");
    reveal_strlit("webrip");
    reveal_strlit("web-rip");
    reveal_strlit("web.rip");
    reveal_strlit("WEB-DL");
    reveal_strlit("480p");
    reveal_strlit("576p");
    reveal_strlit("720p");
    reveal_strlit("1080p");
    reveal_strlit("2160p");
    let s = source.name();
    let low = lowered(s);
    let label = made(source, resolution, kind, is_remux, is_bdmv);
    lemma_resolution(resolution);
    assert(s.len() > 0 && s[0] != ' ');
    assert(!only_spaces(s));
    assert(no_resolution(resolution.name()) == (resolution == Resolution::Unknown)) by {
        assert(resolution.name().len() > 0);
        if resolution != Resolution::Unknown {
            assert(resolution.name().len() < 7);
        }
    }
    assert(low.len() == s.len());
    match source {
        Source::Unknown => {
            assert(low =~= "unknown"@);
            if resolution == Resolution::Unknown {
                lemma_quiet("Unknown"@);
            }
        },
        Source::BluRay => {
            assert(low =~= "bluray"@);
            let end = if is_bdmv {
                " RAW"@
            } else if is_remux {
                " Remux"@
            } else {
                ""@
            };
            lemma_disc(resolution, end);
            assert(label =~= "BD"@ + behind(resolution) + end);
        },
        Source::Web => {
            assert(low =~= "web"@);
            let head = source_label(s, kind.name());
            lemma_quiet("WEB"@);
            lemma_quiet("WEBRip"@);
            lemma_headed(head, resolution);
            assert(!is_bluray(s));
            assert(label =~= head + behind(resolution));
        },
        _ => {
            assert(low[0] == 'd' || low[0] == 'h' || low[0] == 't');
            assert(!is_bluray(s) && low != "web"@ && low != "unknown"@);
            assert(uppered(s) =~= s);
            lemma_quiet(s);
            lemma_headed(s, resolution);
            assert(label =~= s + behind(resolution));
        },
    }
}

/// Rules whose part does not stand in a label leave it as it is.
proof fn lemma_rules_pass(label: Seq<char>, i: int, j: int)
    requires
        0 <= i <= j <= label_rewrites().len(),
        forall|m: int| i <= m < j ==> !occurs(label, (#[trigger] label_rewrites()[m]).0),
    ensures
        rewritten(label, label_rewrites().skip(i)) == rewritten(label, label_rewrites().skip(j)),
    decreases j - i,
{
    let rules = label_rewrites();
    if i < j {
        let left = rules.skip(i);
        assert(left[0] == rules[i]);
        assert(left.drop_first() =~= rules.skip(i + 1));
        lemma_replaced_unchanged(label, rules[i].0, rules[i].1);
        lemma_rules_pass(label, i + 1, j);
    }
}

/// A rule whose part starts a label, and stands nowhere behind that, puts the
/// new part in its place.
proof fn lemma_rule_fires(part: Seq<char>, rest: Seq<char>, m: int)
    requires
        0 <= m < label_rewrites().len(),
        label_rewrites()[m].0 == part,
        part.len() > 0,
        !occurs(rest, part),
    ensures
        rewritten(part + rest, label_rewrites().skip(m)) == rewritten(
            label_rewrites()[m].1 + rest,
            label_rewrites().skip(m + 1),
        ),
{
    let rules = label_rewrites();
    let label = part + rest;
    let left = rules.skip(m);
    assert(left[0] == rules[m]);
    assert(left.drop_first() =~= rules.skip(m + 1));
    assert(label.subrange(0, part.len() as int) =~= part);
    assert(starts_with(label, part));
    assert(label.skip(part.len() as int) =~= rest);
    lemma_replaced_unchanged(rest, part, rules[m].1);
    assert(replaced(label, part, rules[m].1) == rules[m].1 + rest);
}

/// An unmarked label is left as it is by all rules that follow.
proof fn lemma_done(label: Seq<char>, m: int)
    requires
        0 <= m <= label_rewrites().len(),
        unmarked(label),
    ensures
        rewritten(label, label_rewrites().skip(m)) == label,
{
    let left = label_rewrites().skip(m);
    an_unmarked_label_has_no_earlier_part(label);
    assert forall|i: int| 0 <= i < left.len() implies !occurs(label, (#[trigger] left[i]).0) by {
        assert(left[i] == label_rewrites()[m + i]);
    }
    a_label_in_its_present_form_stays(label, left);
}

/// The parts with which an earlier source ends stand in no label without a
/// space.
proof fn lemma_no_space(label: Seq<char>)
    requires
        forall|p: int| 0 <= p < label.len() ==> #[trigger] label[p] != ' ',
    ensures
        forall|m: int| 0 <= m < 9 ==> !occurs(label, (#[trigger] label_rewrites()[m]).0),
{
    let rules = label_rewrites();
    assert forall|m: int| 0 <= m < 9 implies !occurs(label, (#[trigger] rules[m]).0) by {
        if m == 0 {
            reveal_strlit("BluRay BDMV ");
            lemma_no_char(label, "BluRay BDMV "@, 11);
        } else if m == 1 {
            reveal_strlit("BluRay Remux ");
            lemma_no_char(label, "BluRay Remux "@, 12);
        } else if m == 2 {
            reveal_strlit("BluRay ");
            lemma_no_char(label, "BluRay "@, 6);
        } else if m == 3 {
            reveal_strlit("WEB-DL ");
            lemma_no_char(label, "WEB-DL "@, 6);
        } else if m == 4 {
            reveal_strlit("WEBRip ");
            lemma_no_char(label, "WEBRip "@, 6);
        } else if m == 5 {
            reveal_strlit("Web ");
            lemma_no_char(label, "Web "@, 3);
        } else if m == 6 {
            reveal_strlit("HDTV ");
            lemma_no_char(label, "HDTV "@, 4);
        } else if m == 7 {
            reveal_strlit("DVD ");
            lemma_no_char(label, "DVD "@, 3);
        } else if m == 8 {
            reveal_strlit("TV ");
            lemma_no_char(label, "TV "@, 2);
        }
    }
}

/// Where a resolution stands among the rules.
spec fn place(r: Resolution) -> int {
    match r {
        Resolution::P480 => 0,
        Resolution::P576 => 1,
        Resolution::P720 => 2,
        Resolution::P1080 => 3,
        _ => 4,
    }
}

/// The joined form of a raw disc is turned round.
proof fn lemma_raw(r: Resolution)
    requires
        r != Resolution::Unknown,
    ensures
        label_rewrites()[9 + place(r)].0 == "BD-RAW-"@ + r.name(),
        rewritten("BD-RAW-"@ + r.name(), label_rewrites().skip(9)) == "BD"@ + behind(r) + " RAW"@,
{
    let rules = label_rewrites();
    let label = "BD-RAW-"@ + r.name();
    reveal_strlit("BD-RAW-");
    reveal_strlit("480p");
    reveal_strlit("576p");
    reveal_strlit("720p");
    reveal_strlit("1080p");
    reveal_strlit("2160p");
    reveal_strlit("BD-RAW-480p");
    reveal_strlit("BD-RAW-576p");
    reveal_strlit("BD-RAW-720p");
    reveal_strlit("BD-RAW-1080p");
    reveal_strlit("BD-RAW-2160p");
    reveal_strlit("BD-480p RAW");
    reveal_strlit("BD-576p RAW");
    reveal_strlit("BD-720p RAW");
    reveal_strlit("BD-1080p RAW");
    reveal_strlit("BD-2160p RAW");
    reveal_strlit("BD");
    reveal_strlit("-");
    reveal_strlit(" RAW");
    reveal_strlit(" Remux");
    reveal_strlit("WEB");
    if r == Resolution::P480 {
        assert(label =~= "BD-RAW-480p"@);
        lemma_rules_pass(label, 9, 9);
        lemma_rule_fires("BD-RAW-480p"@, Seq::empty(), 9);
        assert("BD-RAW-480p"@ + Seq::<char>::empty() =~= label);
        let now = "BD-480p RAW"@ + Seq::<char>::empty();
        assert(now =~= "BD"@ + behind(r) + " RAW"@);
        lemma_disc(r, " RAW"@);
        lemma_done(now, 10);
    }
    if r == Resolution::P576 {
        assert(label =~= "BD-RAW-576p"@);
        lemma_no_char(label, "BD-RAW-480p"@, 7);
        assert forall|m: int| 9 <= m < 10 implies !occurs(label, (#[trigger] rules[m]).0) by {
            assert(rules[m].0 == "BD-RAW-480p"@);
        }
        lemma_rules_pass(label, 9, 10);
        lemma_rule_fires("BD-RAW-576p"@, Seq::empty(), 10);
        assert("BD-RAW-576p"@ + Seq::<char>::empty() =~= label);
        let now = "BD-576p RAW"@ + Seq::<char>::empty();
        assert(now =~= "BD"@ + behind(r) + " RAW"@);
        lemma_disc(r, " RAW"@);
        lemma_done(now, 11);
    }
    if r == Resolution::P720 {
        assert(label =~= "BD-RAW-720p"@);
        lemma_no_char(label, "BD-RAW-480p"@, 7);
        lemma_no_char(label, "BD-RAW-576p"@, 7);
        assert forall|m: int| 9 <= m < 11 implies !occurs(label, (#[trigger] rules[m]).0) by {
            assert(rules[m].0 == "BD-RAW-480p"@ || rules[m].0 == "BD-RAW-576p"@);
        }
        lemma_rules_pass(label, 9, 11);
        lemma_rule_fires("BD-RAW-720p"@, Seq::empty(), 11);
        assert("BD-RAW-720p"@ + Seq::<char>::empty() =~= label);
        let now = "BD-720p RAW"@ + Seq::<char>::empty();
        assert(now =~= "BD"@ + behind(r) + " RAW"@);
        lemma_disc(r, " RAW"@);
        lemma_done(now, 12);
    }
    if r == Resolution::P1080 {
        assert(label =~= "BD-RAW-1080p"@);
        lemma_no_char(label, "BD-RAW-480p"@, 7);
        lemma_no_char(label, "BD-RAW-576p"@, 7);
        lemma_no_char(label, "BD-RAW-720p"@, 7);
        assert forall|m: int| 9 <= m < 12 implies !occurs(label, (#[trigger] rules[m]).0) by {
            assert(rules[m].0 == "BD-RAW-480p"@ || rules[m].0 == "BD-RAW-576p"@
                || rules[m].0 == "BD-RAW-720p"@);
        }
        lemma_rules_pass(label, 9, 12);
        lemma_rule_fires("BD-RAW-1080p"@, Seq::empty(), 12);
        assert("BD-RAW-1080p"@ + Seq::<char>::empty() =~= label);
        let now = "BD-1080p RAW"@ + Seq::<char>::empty();
        assert(now =~= "BD"@ + behind(r) + " RAW"@);
        lemma_disc(r, " RAW"@);
        lemma_done(now, 13);
    }
    if r == Resolution::P2160 {
        assert(label =~= "BD-RAW-2160p"@);
        lemma_no_char(label, "BD-RAW-480p"@, 7);
        lemma_no_char(label, "BD-RAW-576p"@, 7);
        lemma_no_char(label, "BD-RAW-720p"@, 7);
        lemma_no_char(label, "BD-RAW-1080p"@, 9);
        assert forall|m: int| 9 <= m < 13 implies !occurs(label, (#[trigger] rules[m]).0) by {
            assert(rules[m].0 == "BD-RAW-480p"@ || rules[m].0 == "BD-RAW-576p"@
                || rules[m].0 == "BD-RAW-720p"@ || rules[m].0 == "BD-RAW-1080p"@);
        }
        lemma_rules_pass(label, 9, 13);
        lemma_rule_fires("BD-RAW-2160p"@, Seq::empty(), 13);
        assert("BD-RAW-2160p"@ + Seq::<char>::empty() =~= label);
        let now = "BD-2160p RAW"@ + Seq::<char>::empty();
        assert(now =~= "BD"@ + behind(r) + " RAW"@);
        lemma_disc(r, " RAW"@);
        lemma_done(now, 14);
    }
}

/// The joined form of a remux is turned round.
proof fn lemma_remux(r: Resolution)
    requires
        r != Resolution::Unknown,
    ensures
        label_rewrites()[14 + place(r)].0 == "BD-Remux-"@ + r.name(),
        rewritten("BD-Remux-"@ + r.name(), label_rewrites().skip(14)) == "BD"@ + behind(r) + " Remux"@,
{
    let rules = label_rewrites();
    let label = "BD-Remux-"@ + r.name();
    reveal_strlit("BD-Remux-");
    reveal_strlit("480p");
    reveal_strlit("576p");
    reveal_strlit("720p");
    reveal_strlit("1080p");
    reveal_strlit("2160p");
    reveal_strlit("BD-Remux-480p");
    reveal_strlit("BD-Remux-576p");
    reveal_strlit("BD-Remux-720p");
    reveal_strlit("BD-Remux-1080p");
    reveal_strlit("BD-Remux-2160p");
    reveal_strlit("BD-480p Remux");
    reveal_strlit("BD-576p Remux");
    reveal_strlit("BD-720p Remux");
    reveal_strlit("BD-1080p Remux");
    reveal_strlit("BD-2160p Remux");
    reveal_strlit("BD");
    reveal_strlit("-");
    reveal_strlit(" RAW");
    reveal_strlit(" Remux");
    reveal_strlit("WEB");
    if r == Resolution::P480 {
        assert(label =~= "BD-Remux-480p"@);
        lemma_rules_pass(label, 14, 14);
        lemma_rule_fires("BD-Remux-480p"@, Seq::empty(), 14);
        assert("BD-Remux-480p"@ + Seq::<char>::empty() =~= label);
        let now = "BD-480p Remux"@ + Seq::<char>::empty();
        assert(now =~= "BD"@ + behind(r) + " Remux"@);
        lemma_disc(r, " Remux"@);
        lemma_done(now, 15);
    }
    if r == Resolution::P576 {
        assert(label =~= "BD-Remux-576p"@);
        lemma_no_char(label, "BD-Remux-480p"@, 9);
        assert forall|m: int| 14 <= m < 15 implies !occurs(label, (#[trigger] rules[m]).0) by {
            assert(rules[m].0 == "BD-Remux-480p"@);
        }
        lemma_rules_pass(label, 14, 15);
        lemma_rule_fires("BD-Remux-576p"@, Seq::empty(), 15);
        assert("BD-Remux-576p"@ + Seq::<char>::empty() =~= label);
        let now = "BD-576p Remux"@ + Seq::<char>::empty();
        assert(now =~= "BD"@ + behind(r) + " Remux"@);
        lemma_disc(r, " Remux"@);
        lemma_done(now, 16);
    }
    if r == Resolution::P720 {
        assert(label =~= "BD-Remux-720p"@);
        lemma_no_char(label, "BD-Remux-480p"@, 9);
        lemma_no_char(label, "BD-Remux-576p"@, 9);
        assert forall|m: int| 14 <= m < 16 implies !occurs(label, (#[trigger] rules[m]).0) by {
            assert(rules[m].0 == "BD-Remux-480p"@ || rules[m].0 == "BD-Remux-576p"@);
        }
        lemma_rules_pass(label, 14, 16);
        lemma_rule_fires("BD-Remux-720p"@, Seq::empty(), 16);
        assert("BD-Remux-720p"@ + Seq::<char>::empty() =~= label);
        let now = "BD-720p Remux"@ + Seq::<char>::empty();
        assert(now =~= "BD"@ + behind(r) + " Remux"@);
        lemma_disc(r, " Remux"@);
        lemma_done(now, 17);
    }
    if r == Resolution::P1080 {
        assert(label =~= "BD-Remux-1080p"@);
        lemma_no_char(label, "BD-Remux-480p"@, 9);
        lemma_no_char(label, "BD-Remux-576p"@, 9);
        lemma_no_char(label, "BD-Remux-720p"@, 9);
        assert forall|m: int| 14 <= m < 17 implies !occurs(label, (#[trigger] rules[m]).0) by {
            assert(rules[m].0 == "BD-Remux-480p"@ || rules[m].0 == "BD-Remux-576p"@
                || rules[m].0 == "BD-Remux-720p"@);
        }
        lemma_rules_pass(label, 14, 17);
        lemma_rule_fires("BD-Remux-1080p"@, Seq::empty(), 17);
        assert("BD-Remux-1080p"@ + Seq::<char>::empty() =~= label);
        let now = "BD-1080p Remux"@ + Seq::<char>::empty();
        assert(now =~= "BD"@ + behind(r) + " Remux"@);
        lemma_disc(r, " Remux"@);
        lemma_done(now, 18);
    }
    if r == Resolution::P2160 {
        assert(label =~= "BD-Remux-2160p"@);
        lemma_no_char(label, "BD-Remux-480p"@, 9);
        lemma_no_char(label, "BD-Remux-576p"@, 9);
        lemma_no_char(label, "BD-Remux-720p"@, 9);
        lemma_no_char(label, "BD-Remux-1080p"@, 11);
        assert forall|m: int| 14 <= m < 18 implies !occurs(label, (#[trigger] rules[m]).0) by {
            assert(rules[m].0 == "BD-Remux-480p"@ || rules[m].0 == "BD-Remux-576p"@
                || rules[m].0 == "BD-Remux-720p"@ || rules[m].0 == "BD-Remux-1080p"@);
        }
        lemma_rules_pass(label, 14, 18);
        lemma_rule_fires("BD-Remux-2160p"@, Seq::empty(), 18);
        assert("BD-Remux-2160p"@ + Seq::<char>::empty() =~= label);
        let now = "BD-2160p Remux"@ + Seq::<char>::empty();
        assert(now =~= "BD"@ + behind(r) + " Remux"@);
        lemma_disc(r, " Remux"@);
        lemma_done(now, 19);
    }
}

/// The joined form of a download from a stream loses its kind.
proof fn lemma_webdl(r: Resolution)
    requires
        r != Resolution::Unknown,
    ensures
        label_rewrites()[20 + place(r)].0 == "WEBDL-"@ + r.name(),
        rewritten("WEBDL-"@ + r.name(), label_rewrites().skip(20)) == "WEB"@ + behind(r),
{
    let rules = label_rewrites();
    let label = "WEBDL-"@ + r.name();
    reveal_strlit("WEBDL-");
    reveal_strlit("480p");
    reveal_strlit("576p");
    reveal_strlit("720p");
    reveal_strlit("1080p");
    reveal_strlit("2160p");
    reveal_strlit("WEBDL-480p");
    reveal_strlit("WEBDL-576p");
    reveal_strlit("WEBDL-720p");
    reveal_strlit("WEBDL-1080p");
    reveal_strlit("WEBDL-2160p");
    reveal_strlit("WEB-480p");
    reveal_strlit("WEB-576p");
    reveal_strlit("WEB-720p");
    reveal_strlit("WEB-1080p");
    reveal_strlit("WEB-2160p");
    reveal_strlit("BD");
    reveal_strlit("-");
    reveal_strlit(" RAW");
    reveal_strlit(" Remux");
    reveal_strlit("WEB");
    if r == Resolution::P480 {
        assert(label =~= "WEBDL-480p"@);
        lemma_rules_pass(label, 20, 20);
        lemma_rule_fires("WEBDL-480p"@, Seq::empty(), 20);
        assert("WEBDL-480p"@ + Seq::<char>::empty() =~= label);
        let now = "WEB-480p"@ + Seq::<char>::empty();
        assert(now =~= "WEB"@ + behind(r));
        lemma_quiet("WEB"@);
        lemma_headed("WEB"@, r);
        lemma_done(now, 21);
    }
    if r == Resolution::P576 {
        assert(label =~= "WEBDL-576p"@);
        lemma_no_char(label, "WEBDL-480p"@, 6);
        assert forall|m: int| 20 <= m < 21 implies !occurs(label, (#[trigger] rules[m]).0) by {
            assert(rules[m].0 == "WEBDL-480p"@);
        }
        lemma_rules_pass(label, 20, 21);
        lemma_rule_fires("WEBDL-576p"@, Seq::empty(), 21);
        assert("WEBDL-576p"@ + Seq::<char>::empty() =~= label);
        let now = "WEB-576p"@ + Seq::<char>::empty();
        assert(now =~= "WEB"@ + behind(r));
        lemma_quiet("WEB"@);
        lemma_headed("WEB"@, r);
        lemma_done(now, 22);
    }
    if r == Resolution::P720 {
        assert(label =~= "WEBDL-720p"@);
        lemma_no_char(label, "WEBDL-480p"@, 6);
        lemma_no_char(label, "WEBDL-576p"@, 6);
        assert forall|m: int| 20 <= m < 22 implies !occurs(label, (#[trigger] rules[m]).0) by {
            assert(rules[m].0 == "WEBDL-480p"@ || rules[m].0 == "WEBDL-576p"@);
        }
        lemma_rules_pass(label, 20, 22);
        lemma_rule_fires("WEBDL-720p"@, Seq::empty(), 22);
        assert("WEBDL-720p"@ + Seq::<char>::empty() =~= label);
        let now = "WEB-720p"@ + Seq::<char>::empty();
        assert(now =~= "WEB"@ + behind(r));
        lemma_quiet("WEB"@);
        lemma_headed("WEB"@, r);
        lemma_done(now, 23);
    }
    if r == Resolution::P1080 {
        assert(label =~= "WEBDL-1080p"@);
        lemma_no_char(label, "WEBDL-480p"@, 6);
        lemma_no_char(label, "WEBDL-576p"@, 6);
        lemma_no_char(label, "WEBDL-720p"@, 6);
        assert forall|m: int| 20 <= m < 23 implies !occurs(label, (#[trigger] rules[m]).0) by {
            assert(rules[m].0 == "WEBDL-480p"@ || rules[m].0 == "WEBDL-576p"@
                || rules[m].0 == "WEBDL-720p"@);
        }
        lemma_rules_pass(label, 20, 23);
        lemma_rule_fires("WEBDL-1080p"@, Seq::empty(), 23);
        assert("WEBDL-1080p"@ + Seq::<char>::empty() =~= label);
        let now = "WEB-1080p"@ + Seq::<char>::empty();
        assert(now =~= "WEB"@ + behind(r));
        lemma_quiet("WEB"@);
        lemma_headed("WEB"@, r);
        lemma_done(now, 24);
    }
    if r == Resolution::P2160 {
        assert(label =~= "WEBDL-2160p"@);
        lemma_no_char(label, "WEBDL-480p"@, 6);
        lemma_no_char(label, "WEBDL-576p"@, 6);
        lemma_no_char(label, "WEBDL-720p"@, 6);
        lemma_no_char(label, "WEBDL-1080p"@, 8);
        assert forall|m: int| 20 <= m < 24 implies !occurs(label, (#[trigger] rules[m]).0) by {
            assert(rules[m].0 == "WEBDL-480p"@ || rules[m].0 == "WEBDL-576p"@
                || rules[m].0 == "WEBDL-720p"@ || rules[m].0 == "WEBDL-1080p"@);
        }
        lemma_rules_pass(label, 20, 24);
        lemma_rule_fires("WEBDL-2160p"@, Seq::empty(), 24);
        assert("WEBDL-2160p"@ + Seq::<char>::empty() =~= label);
        let now = "WEB-2160p"@ + Seq::<char>::empty();
        assert(now =~= "WEB"@ + behind(r));
        lemma_quiet("WEB"@);
        lemma_headed("WEB"@, r);
        lemma_done(now, 25);
    }
}

/// A source before the resolution is joined to it.
proof fn lemma_joined(k: int, r: Resolution)
    requires
        2 <= k < 9,
        r != Resolution::Unknown,
    ensures
        unmarked(rewritten(earlier(k, r), label_rewrites())),
        k == 2 ==> rewritten(earlier(k, r), label_rewrites()) == "BD-"@ + r.name(),
        k == 3 ==> rewritten(earlier(k, r), label_rewrites()) == "WEB-"@ + r.name(),
        k == 4 ==> rewritten(earlier(k, r), label_rewrites()) == "WEBRip-"@ + r.name(),
        k == 5 ==> rewritten(earlier(k, r), label_rewrites()) == "WEB-"@ + r.name(),
        k == 6 ==> rewritten(earlier(k, r), label_rewrites()) == "HDTV-"@ + r.name(),
        k == 7 ==> rewritten(earlier(k, r), label_rewrites()) == "DVD-"@ + r.name(),
        k == 8 ==> rewritten(earlier(k, r), label_rewrites()) == "TV-"@ + r.name(),
{
    let rules = label_rewrites();
    let rest = r.name();
    assert(rules.skip(0) =~= rules);
    lemma_resolution(r);
    reveal_strlit("BluRay BDMV ");
    reveal_strlit("BluRay Remux ");
    reveal_strlit("BluRay ");
    reveal_strlit("WEB-DL ");
    reveal_strlit("WEBRip ");
    reveal_strlit("Web ");
    reveal_strlit("HDTV ");
    reveal_strlit("DVD ");
    reveal_strlit("TV ");
    reveal_strlit("BD-");
    reveal_strlit("WEB-");
    reveal_strlit("WEBRip-");
    reveal_strlit("HDTV-");
    reveal_strlit("DVD-");
    reveal_strlit("TV-");
    reveal_strlit("BD");
    reveal_strlit("WEB");
    reveal_strlit("WEBRip");
    reveal_strlit("HDTV");
    reveal_strlit("DVD");
    reveal_strlit("TV");
    reveal_strlit("-");
    if k == 2 {
        let head = "BluRay "@;
        lemma_other_end(head, rest, "BluRay BDMV "@);
        lemma_other_end(head, rest, "BluRay Remux "@);
        assert forall|m: int| 0 <= m < 2 implies !occurs(head + rest, (#[trigger] rules[m]).0) by {
            assert(rules[m].0 == "BluRay BDMV "@ || rules[m].0 == "BluRay Remux "@);
        }
        lemma_rules_pass(head + rest, 0, 2);
        lemma_no_char(rest, head, 6);
        lemma_rule_fires(head, rest, 2);
        let now = "BD-"@ + rest;
        assert(now =~= "BD"@ + behind(r));
        lemma_quiet("BD"@);
        lemma_headed("BD"@, r);
        lemma_done(now, 3);
    } else if k == 3 {
        let head = "WEB-DL "@;
        lemma_other_end(head, rest, "BluRay BDMV "@);
        lemma_other_end(head, rest, "BluRay Remux "@);
        assert("BluRay "@[0] != head.skip(0)[0]);
        lemma_other_end(head, rest, "BluRay "@);
        assert forall|m: int| 0 <= m < 3 implies !occurs(head + rest, (#[trigger] rules[m]).0) by {
            assert(rules[m].0 == "BluRay BDMV "@ || rules[m].0 == "BluRay Remux "@
                || rules[m].0 == "BluRay "@);
        }
        lemma_rules_pass(head + rest, 0, 3);
        lemma_no_char(rest, head, 6);
        lemma_rule_fires(head, rest, 3);
        let now = "WEB-"@ + rest;
        assert(now =~= "WEB"@ + behind(r));
        lemma_quiet("WEB"@);
        lemma_headed("WEB"@, r);
        lemma_done(now, 4);
    } else if k == 4 {
        let head = "WEBRip "@;
        lemma_other_end(head, rest, "BluRay BDMV "@);
        lemma_other_end(head, rest, "BluRay Remux "@);
        assert("BluRay "@[0] != head.skip(0)[0]);
        lemma_other_end(head, rest, "BluRay "@);
        assert("WEB-DL "@[3] != head.skip(0)[3]);
        lemma_other_end(head, rest, "WEB-DL "@);
        assert forall|m: int| 0 <= m < 4 implies !occurs(head + rest, (#[trigger] rules[m]).0) by {
            assert(rules[m].0 == "BluRay BDMV "@ || rules[m].0 == "BluRay Remux "@
                || rules[m].0 == "BluRay "@ || rules[m].0 == "WEB-DL "@);
        }
        lemma_rules_pass(head + rest, 0, 4);
        lemma_no_char(rest, head, 6);
        lemma_rule_fires(head, rest, 4);
        let now = "WEBRip-"@ + rest;
        assert(now =~= "WEBRip"@ + behind(r));
        lemma_quiet("WEBRip"@);
        lemma_headed("WEBRip"@, r);
        lemma_done(now, 5);
    } else if k == 5 {
        let head = "Web "@;
        lemma_other_end(head, rest, "BluRay BDMV "@);
        lemma_other_end(head, rest, "BluRay Remux "@);
        lemma_other_end(head, rest, "BluRay "@);
        lemma_other_end(head, rest, "WEB-DL "@);
        lemma_other_end(head, rest, "WEBRip "@);
        assert forall|m: int| 0 <= m < 5 implies !occurs(head + rest, (#[trigger] rules[m]).0) by {
            assert(rules[m].0 == "BluRay BDMV "@ || rules[m].0 == "BluRay Remux "@
                || rules[m].0 == "BluRay "@ || rules[m].0 == "WEB-DL "@
                || rules[m].0 == "WEBRip "@);
        }
        lemma_rules_pass(head + rest, 0, 5);
        lemma_no_char(rest, head, 3);
        lemma_rule_fires(head, rest, 5);
        let now = "WEB-"@ + rest;
        assert(now =~= "WEB"@ + behind(r));
        lemma_quiet("WEB"@);
        lemma_headed("WEB"@, r);
        lemma_done(now, 6);
    } else if k == 6 {
        let head = "HDTV "@;
        lemma_other_end(head, rest, "BluRay BDMV "@);
        lemma_other_end(head, rest, "BluRay Remux "@);
        lemma_other_end(head, rest, "BluRay "@);
        lemma_other_end(head, rest, "WEB-DL "@);
        lemma_other_end(head, rest, "WEBRip "@);
        assert("Web "@[0] != head.skip(1)[0]);
        lemma_other_end(head, rest, "Web "@);
        assert forall|m: int| 0 <= m < 6 implies !occurs(head + rest, (#[trigger] rules[m]).0) by {
            assert(rules[m].0 == "BluRay BDMV "@ || rules[m].0 == "BluRay Remux "@
                || rules[m].0 == "BluRay "@ || rules[m].0 == "WEB-DL "@
                || rules[m].0 == "WEBRip "@ || rules[m].0 == "Web "@);
        }
        lemma_rules_pass(head + rest, 0, 6);
        lemma_no_char(rest, head, 4);
        lemma_rule_fires(head, rest, 6);
        let now = "HDTV-"@ + rest;
        assert(now =~= "HDTV"@ + behind(r));
        lemma_quiet("HDTV"@);
        lemma_headed("HDTV"@, r);
        lemma_done(now, 7);
    } else if k == 7 {
        let head = "DVD "@;
        lemma_other_end(head, rest, "BluRay BDMV "@);
        lemma_other_end(head, rest, "BluRay Remux "@);
        lemma_other_end(head, rest, "BluRay "@);
        lemma_other_end(head, rest, "WEB-DL "@);
        lemma_other_end(head, rest, "WEBRip "@);
        assert("Web "@[0] != head.skip(0)[0]);
        lemma_other_end(head, rest, "Web "@);
        lemma_other_end(head, rest, "HDTV "@);
        assert forall|m: int| 0 <= m < 7 implies !occurs(head + rest, (#[trigger] rules[m]).0) by {
            assert(rules[m].0 == "BluRay BDMV "@ || rules[m].0 == "BluRay Remux "@
                || rules[m].0 == "BluRay "@ || rules[m].0 == "WEB-DL "@
                || rules[m].0 == "WEBRip "@ || rules[m].0 == "Web "@ || rules[m].0 == "HDTV "@);
        }
        lemma_rules_pass(head + rest, 0, 7);
        lemma_no_char(rest, head, 3);
        lemma_rule_fires(head, rest, 7);
        let now = "DVD-"@ + rest;
        assert(now =~= "DVD"@ + behind(r));
        lemma_quiet("DVD"@);
        lemma_headed("DVD"@, r);
        lemma_done(now, 8);
    } else if k == 8 {
        let head = "TV "@;
        lemma_other_end(head, rest, "BluRay BDMV "@);
        lemma_other_end(head, rest, "BluRay Remux "@);
        lemma_other_end(head, rest, "BluRay "@);
        lemma_other_end(head, rest, "WEB-DL "@);
        lemma_other_end(head, rest, "WEBRip "@);
        lemma_other_end(head, rest, "Web "@);
        lemma_other_end(head, rest, "HDTV "@);
        lemma_other_end(head, rest, "DVD "@);
        assert forall|m: int| 0 <= m < 8 implies !occurs(head + rest, (#[trigger] rules[m]).0) by {
            assert(rules[m].0 == "BluRay BDMV "@ || rules[m].0 == "BluRay Remux "@
                || rules[m].0 == "BluRay "@ || rules[m].0 == "WEB-DL "@
                || rules[m].0 == "WEBRip "@ || rules[m].0 == "Web "@ || rules[m].0 == "HDTV "@
                || rules[m].0 == "DVD "@);
        }
        lemma_rules_pass(head + rest, 0, 8);
        lemma_no_char(rest, head, 2);
        lemma_rule_fires(head, rest, 8);
        let now = "TV-"@ + rest;
        assert(now =~= "TV"@ + behind(r));
        lemma_quiet("TV"@);
        lemma_headed("TV"@, r);
        lemma_done(now, 9);
    }
}

/// A raw disc or a remux before the resolution is joined and turned round.
proof fn lemma_disc_joined(k: int, r: Resolution)
    requires
        0 <= k < 2,
        r != Resolution::Unknown,
    ensures
        unmarked(rewritten(earlier(k, r), label_rewrites())),
        k == 0 ==> rewritten(earlier(k, r), label_rewrites()) == "BD"@ + behind(r) + " RAW"@,
        k == 1 ==> rewritten(earlier(k, r), label_rewrites()) == "BD"@ + behind(r) + " Remux"@,
{
    let rules = label_rewrites();
    let rest = r.name();
    assert(rules.skip(0) =~= rules);
    lemma_resolution(r);
    reveal_strlit("BluRay BDMV ");
    reveal_strlit("BluRay Remux ");
    reveal_strlit("BD-RAW-");
    reveal_strlit("BD-Remux-");
    reveal_strlit("BD-RAW-480p");
    reveal_strlit("BD-RAW-576p");
    reveal_strlit("BD-RAW-720p");
    reveal_strlit("BD-RAW-1080p");
    reveal_strlit("BD-RAW-2160p");
    if k == 0 {
        lemma_no_char(rest, "BluRay BDMV "@, 11);
        lemma_rule_fires("BluRay BDMV "@, rest, 0);
        let now = "BD-RAW-"@ + rest;
        lemma_no_space(now);
        lemma_rules_pass(now, 1, 9);
        lemma_raw(r);
        lemma_disc(r, " RAW"@);
    } else {
        lemma_no_char(rest, "BluRay Remux "@, 12);
        let label = "BluRay Remux "@ + rest;
        reveal_strlit("480p");
        reveal_strlit("576p");
        reveal_strlit("720p");
        reveal_strlit("1080p");
        reveal_strlit("2160p");
        lemma_no_char(label, "BluRay BDMV "@, 8);
        lemma_rules_pass(label, 0, 1);
        lemma_rule_fires("BluRay Remux "@, rest, 1);
        let now = "BD-Remux-"@ + rest;
        lemma_no_space(now);
        lemma_rules_pass(now, 2, 9);
        lemma_no_raw(now);
        lemma_rules_pass(now, 9, 14);
        lemma_remux(r);
        lemma_disc(r, " Remux"@);
    }
}

/// A label without an `A` is no joined form of a raw disc.
proof fn lemma_no_raw(label: Seq<char>)
    requires
        forall|p: int| 0 <= p < label.len() ==> #[trigger] label[p] != 'A',
    ensures
        forall|m: int| 9 <= m < 14 ==> !occurs(label, (#[trigger] label_rewrites()[m]).0),
{
    let rules = label_rewrites();
    assert forall|m: int| 9 <= m < 14 implies !occurs(label, (#[trigger] rules[m]).0) by {
        if m == 9 {
            reveal_strlit("BD-RAW-480p");
            lemma_no_char(label, "BD-RAW-480p"@, 4);
        } else if m == 10 {
            reveal_strlit("BD-RAW-576p");
            lemma_no_char(label, "BD-RAW-576p"@, 4);
        } else if m == 11 {
            reveal_strlit("BD-RAW-720p");
            lemma_no_char(label, "BD-RAW-720p"@, 4);
        } else if m == 12 {
            reveal_strlit("BD-RAW-1080p");
            lemma_no_char(label, "BD-RAW-1080p"@, 4);
        } else if m == 13 {
            reveal_strlit("BD-RAW-2160p");
            lemma_no_char(label, "BD-RAW-2160p"@, 4);
        }
    }
}

/// A label without an `m` is no joined form of a remux.
proof fn lemma_no_remux(label: Seq<char>)
    requires
        forall|p: int| 0 <= p < label.len() ==> #[trigger] label[p] != 'm',
    ensures
        forall|m: int| 14 <= m < 19 ==> !occurs(label, (#[trigger] label_rewrites()[m]).0),
{
    let rules = label_rewrites();
    assert forall|m: int| 14 <= m < 19 implies !occurs(label, (#[trigger] rules[m]).0) by {
        if m == 14 {
            reveal_strlit("BD-Remux-480p");
            lemma_no_char(label, "BD-Remux-480p"@, 5);
        } else if m == 15 {
            reveal_strlit("BD-Remux-576p");
            lemma_no_char(label, "BD-Remux-576p"@, 5);
        } else if m == 16 {
            reveal_strlit("BD-Remux-720p");
            lemma_no_char(label, "BD-Remux-720p"@, 5);
        } else if m == 17 {
            reveal_strlit("BD-Remux-1080p");
            lemma_no_char(label, "BD-Remux-1080p"@, 5);
        } else if m == 18 {
            reveal_strlit("BD-Remux-2160p");
            lemma_no_char(label, "BD-Remux-2160p"@, 5);
        }
    }
}

/// The joined forms reach their present form.
proof fn lemma_joined_forms(k: int, r: Resolution)
    requires
        9 <= k < 25,
        r != Resolution::Unknown,
    ensures
        unmarked(rewritten(earlier(k, r), label_rewrites())),
        k == 19 ==> rewritten(earlier(k, r), label_rewrites()) == "WEBRip-"@ + r.name(),
        k == 9 + place(r) ==> earlier(k, r) == "BD-RAW-"@ + r.name() && rewritten(
            earlier(k, r),
            label_rewrites(),
        ) == "BD"@ + behind(r) + " RAW"@,
        k == 14 + place(r) ==> earlier(k, r) == "BD-Remux-"@ + r.name() && rewritten(
            earlier(k, r),
            label_rewrites(),
        ) == "BD"@ + behind(r) + " Remux"@,
        k == 20 + place(r) ==> earlier(k, r) == "WEBDL-"@ + r.name() && rewritten(
            earlier(k, r),
            label_rewrites(),
        ) == "WEB"@ + behind(r),
{
    let rules = label_rewrites();
    assert(rules.skip(0) =~= rules);
    reveal_strlit("BD-RAW-");
    reveal_strlit("BD-Remux-");
    reveal_strlit("WEBDL-");
    reveal_strlit("WEBRIP-");
    reveal_strlit("WEBRip-");
    reveal_strlit("WEBRip");
    reveal_strlit("-");
    reveal_strlit("480p");
    reveal_strlit("576p");
    reveal_strlit("720p");
    reveal_strlit("1080p");
    reveal_strlit("2160p");
    let at: int = if k < 14 {
        k - 9
    } else if k < 19 {
        k - 14
    } else if k == 19 {
        0
    } else {
        k - 20
    };
    let q = if at == 0 {
        Resolution::P480
    } else if at == 1 {
        Resolution::P576
    } else if at == 2 {
        Resolution::P720
    } else if at == 3 {
        Resolution::P1080
    } else {
        Resolution::P2160
    };
    assert(place(q) == at);
    if k < 19 || k > 19 {
        assert(place(r) == at ==> q == r);
    }
    lemma_resolution(q);
    lemma_resolution(r);
    if k < 14 {
        let label = "BD-RAW-"@ + q.name();
        lemma_raw(q);
        lemma_no_space(label);
        lemma_rules_pass(label, 0, 9);
        lemma_disc(q, " RAW"@);
    } else if k < 19 {
        let label = "BD-Remux-"@ + q.name();
        lemma_remux(q);
        lemma_no_space(label);
        lemma_rules_pass(label, 0, 9);
        lemma_no_raw(label);
        lemma_rules_pass(label, 9, 14);
        lemma_disc(q, " Remux"@);
    } else if k == 19 {
        let rest = r.name();
        let label = "WEBRIP-"@ + rest;
        lemma_no_space(label);
        lemma_rules_pass(label, 0, 9);
        lemma_no_raw(label);
        lemma_rules_pass(label, 9, 14);
        lemma_no_remux(label);
        lemma_rules_pass(label, 14, 19);
        lemma_no_char(rest, "WEBRIP-"@, 0);
        lemma_rule_fires("WEBRIP-"@, rest, 19);
        let now = "WEBRip-"@ + rest;
        assert(now =~= "WEBRip"@ + behind(r));
        lemma_quiet("WEBRip"@);
        lemma_headed("WEBRip"@, r);
        lemma_done(now, 20);
    } else {
        let label = "WEBDL-"@ + q.name();
        lemma_webdl(q);
        lemma_no_space(label);
        lemma_rules_pass(label, 0, 9);
        lemma_no_raw(label);
        lemma_rules_pass(label, 9, 14);
        lemma_no_remux(label);
        lemma_rules_pass(label, 14, 19);
        lemma_no_char(label, "WEBRIP-"@, 3);
        lemma_rules_pass(label, 19, 20);
        reveal_strlit("WEB");
        lemma_quiet("WEB"@);
        lemma_headed("WEB"@, q);
    }
}

/// A source alone reaches its present form.
proof fn lemma_bare(k: int)
    requires
        0 <= k < 9,
    ensures
        unmarked(rewritten(earlier_bare(k), label_rewrites())),
{
    let rules = label_rewrites();
    let label = earlier_bare(k);
    assert(rules.skip(0) =~= rules);
    reveal_strlit("BluRay BDMV ");
    reveal_strlit("BluRay Remux ");
    reveal_strlit("BluRay ");
    reveal_strlit("WEB-DL ");
    reveal_strlit("WEBRip ");
    reveal_strlit("Web ");
    reveal_strlit("HDTV ");
    reveal_strlit("DVD ");
    reveal_strlit("TV ");
    reveal_strlit("BD-");
    reveal_strlit("BDMV");
    reveal_strlit("Remux");
    if k < 2 {
        let head = "BluRay "@;
        let rest = if k == 0 {
            "BDMV"@
        } else {
            "Remux"@
        };
        assert(label =~= head + rest);
        if k == 0 {
            lemma_longer(label, "BluRay BDMV "@);
        } else {
            lemma_no_char(label, "BluRay BDMV "@, 8);
        }
        lemma_longer(label, "BluRay Remux "@);
        assert forall|m: int| 0 <= m < 2 implies !occurs(label, (#[trigger] rules[m]).0) by {
            assert(rules[m].0 == "BluRay BDMV "@ || rules[m].0 == "BluRay Remux "@);
        }
        lemma_rules_pass(label, 0, 2);
        lemma_no_char(rest, head, 6);
        lemma_rule_fires(head, rest, 2);
        let now = "BD-"@ + rest;
        assert forall|p: int| 0 <= p && p + 2 < now.len() implies !#[trigger] marked_at(now, p) by {
            if p > 0 {
                assert(now[p + 2] == rest[p - 1]);
            }
        }
        lemma_done(now, 3);
    } else {
        assert forall|p: int| 0 <= p && p + 2 < label.len() implies !#[trigger] marked_at(
            label,
            p,
        ) by {
            assert(label[p + 2] != ' ');
            if label[p + 2] == '-' {
                assert(k == 3 && p == 1);
            }
        }
        lemma_done(label, 0);
    }
}

/// Every label that an earlier version made becomes the one that is made now
/// for the same source and resolution.
pub proof fn an_earlier_label_becomes_the_present_one(r: Resolution)
    requires
        r != Resolution::Unknown,
    ensures
        ({
            let rules = label_rewrites();
            let res = r.name();
            &&& rewritten("BluRay BDMV "@ + res, rules) == "BD-"@ + res + " RAW"@
            &&& rewritten("BluRay Remux "@ + res, rules) == "BD-"@ + res + " Remux"@
            &&& rewritten("BluRay "@ + res, rules) == "BD-"@ + res
            &&& rewritten("WEB-DL "@ + res, rules) == "WEB-"@ + res
            &&& rewritten("WEBRip "@ + res, rules) == "WEBRip-"@ + res
            &&& rewritten("Web "@ + res, rules) == "WEB-"@ + res
            &&& rewritten("HDTV "@ + res, rules) == "HDTV-"@ + res
            &&& rewritten("DVD "@ + res, rules) == "DVD-"@ + res
            &&& rewritten("TV "@ + res, rules) == "TV-"@ + res
            &&& rewritten("BD-RAW-"@ + res, rules) == "BD-"@ + res + " RAW"@
            &&& rewritten("BD-Remux-"@ + res, rules) == "BD-"@ + res + " Remux"@
            &&& rewritten("WEBRIP-"@ + res, rules) == "WEBRip-"@ + res
            &&& rewritten("WEBDL-"@ + res, rules) == "WEB-"@ + res
        }),
{
    reveal_strlit("BD");
    reveal_strlit("BD-");
    reveal_strlit("WEB");
    reveal_strlit("WEB-");
    reveal_strlit("-");
    lemma_disc_joined(0, r);
    lemma_disc_joined(1, r);
    lemma_joined(2, r);
    lemma_joined(3, r);
    lemma_joined(4, r);
    lemma_joined(5, r);
    lemma_joined(6, r);
    lemma_joined(7, r);
    lemma_joined(8, r);
    lemma_joined_forms(9 + place(r), r);
    lemma_joined_forms(14 + place(r), r);
    lemma_joined_forms(19, r);
    lemma_joined_forms(20 + place(r), r);
    assert("BD"@ + behind(r) =~= "BD-"@ + r.name());
    assert("WEB"@ + behind(r) =~= "WEB-"@ + r.name());
}

/// A label that is made now stays as it is at a start.
pub proof fn a_made_label_stays(
    source: Source,
    resolution: Resolution,
    kind: WebKind,
    is_remux: bool,
    is_bdmv: bool,
)
    ensures
        rewritten(
            quality_label(source.name(), resolution.name(), kind.name(), is_remux, is_bdmv),
            label_rewrites(),
        ) == quality_label(source.name(), resolution.name(), kind.name(), is_remux, is_bdmv),
{
    a_made_label_is_unmarked(source, resolution, kind, is_remux, is_bdmv);
    assert(label_rewrites().skip(0) =~= label_rewrites());
    lemma_done(made(source, resolution, kind, is_remux, is_bdmv), 0);
}

/// What a label says: the source, a dash and the resolution, and behind that
/// what kind of disc it is. Without a resolution the source stands alone, and
/// without a source the resolution does.
pub proof fn a_label_says_what_is_known(
    source: Source,
    resolution: Resolution,
    kind: WebKind,
    is_remux: bool,
    is_bdmv: bool,
)
    ensures
        ({
            let label = quality_label(
                source.name(),
                resolution.name(),
                kind.name(),
                is_remux,
                is_bdmv,
            );
            let with = if resolution == Resolution::Unknown {
                Seq::<char>::empty()
            } else {
                "-"@ + resolution.name()
            };
            &&& source == Source::BluRay && is_bdmv ==> label == "BD"@ + with + " RAW"@
            &&& source == Source::BluRay && !is_bdmv && is_remux ==> label == "BD"@ + with + " Remux"@
            &&& source == Source::BluRay && !is_bdmv && !is_remux ==> label == "BD"@ + with
            &&& source == Source::Web && kind == WebKind::WebRip ==> label == "WEBRip"@ + with
            &&& source == Source::Web && kind != WebKind::WebRip ==> label == "WEB"@ + with
            &&& source == Source::Dvd ==> label == "DVD"@ + with
            &&& source == Source::Hdtv ==> label == "HDTV"@ + with
            &&& source == Source::Tv ==> label == "TV"@ + with
            &&& source == Source::Unknown && resolution == Resolution::Unknown ==> label
                == "Unknown"@
            &&& source == Source::Unknown && resolution != Resolution::Unknown ==> label
                == resolution.name()
        }),
{
    reveal_strlit("BluRay");
    reveal_strlit("Web");
    reveal_strlit("DVD");
    reveal_strlit("HDTV");
    reveal_strlit("TV");
    reveal_strlit("Unknown");
    reveal_strlit("bluray");
    reveal_strlit("blu-ray");
    reveal_strlit("bd");
    reveal_strlit("web");
    reveal_strlit("unknown");
    reveal_strlit("");
    reveal_strlit("BD");
    reveal_strlit("WEB");
    reveal_strlit("WEBRip");
    reveal_strlit("webrip");
    reveal_strlit("web-rip");
    reveal_strlit("web.rip");
    reveal_strlit("WEB-DL");
    reveal_strlit("480p");
    reveal_strlit("576p");
    reveal_strlit("720p");
    reveal_strlit("1080p");
    reveal_strlit("2160p");
    reveal_strlit("-");
    reveal_strlit("web-dl");
    reveal_strlit("HDTV");
    reveal_strlit(" RAW");
    reveal_strlit(" Remux");
    let s = source.name();
    let low = lowered(s);
    let label = made(source, resolution, kind, is_remux, is_bdmv);
    lemma_resolution(resolution);
    assert(s.len() > 0 && s[0] != ' ');
    assert(!only_spaces(s));
    assert(no_resolution(resolution.name()) == (resolution == Resolution::Unknown)) by {
        assert(resolution.name().len() > 0);
        if resolution != Resolution::Unknown {
            assert(resolution.name().len() < 7);
        }
    }
    assert(low.len() == s.len());
    match source {
        Source::Unknown => {
            assert(low =~= "unknown"@);
        },
        Source::BluRay => {
            assert(low =~= "bluray"@);
            let end = if is_bdmv {
                " RAW"@
            } else if is_remux {
                " Remux"@
            } else {
                ""@
            };
            assert(label =~= "BD"@ + behind(resolution) + end);
        },
        Source::Web => {
            assert(low =~= "web"@);
            let head = source_label(s, kind.name());
            assert(!is_bluray(s));
            assert(lowered(kind.name()) =~= (match kind {
                WebKind::WebRip => "webrip"@,
                WebKind::WebDl => "web-dl"@,
                WebKind::Unspecified => ""@,
            }));
            assert("web-dl"@[4] == 'd' && "webrip"@[4] == 'i');
            assert(label =~= head + behind(resolution));
        },
        _ => {
            assert(low[0] == 'd' || low[0] == 'h' || low[0] == 't');
            assert(!is_bluray(s) && low != "web"@ && low != "unknown"@);
            assert(uppered(s) =~= s);
            assert(label =~= s + behind(resolution));
        },
    }
}

/// A label that this or an earlier version made is in its present form once it
/// was rewritten: rewriting it again changes nothing.
pub proof fn an_ordinary_label_settles(label: Seq<char>)
    requires
        ordinary(label),
    ensures
        unmarked(rewritten(label, label_rewrites())),
        rewritten(rewritten(label, label_rewrites()), label_rewrites()) == rewritten(
            label,
            label_rewrites(),
        ),
{
    let rules = label_rewrites();
    assert(rules.skip(0) =~= rules);
    if label.len() == 0 {
        lemma_done(label, 0);
    } else if made_label(label) {
        let (source, resolution, kind, is_remux, is_bdmv) = choose|
            source: Source,
            resolution: Resolution,
            kind: WebKind,
            is_remux: bool,
            is_bdmv: bool,
        | label == #[trigger] made(source, resolution, kind, is_remux, is_bdmv);
        a_made_label_is_unmarked(source, resolution, kind, is_remux, is_bdmv);
        lemma_done(label, 0);
    } else if exists|k: int| 0 <= k < 9 && label == #[trigger] earlier_bare(k) {
        let k = choose|k: int| 0 <= k < 9 && label == #[trigger] earlier_bare(k);
        lemma_bare(k);
    } else {
        let (k, r) = choose|k: int, r: Resolution|
            0 <= k < rules.len() && r != Resolution::Unknown && label == #[trigger] earlier(k, r);
        if k < 2 {
            lemma_disc_joined(k, r);
        } else if k < 9 {
            lemma_joined(k, r);
        } else {
            lemma_joined_forms(k, r);
        }
    }
    lemma_done(rewritten(label, rules), 0);
}

} // verus!
