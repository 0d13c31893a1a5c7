//! Text as sequences of characters: comparing, trimming, folding case,
//! matching patterns, replacing, and writing numbers.
use vstd::prelude::*;

verus! {

/// `String::push` appends the given character to the end of the string.
pub assume_specification[ String::push ](s: &mut String, c: char)
    ensures
        final(s)@ == old(s)@.push(c),
;

/// The characters of `s`.
pub(crate) fn chars_of(s: &str) -> (out: Vec<char>)
    ensures
        out@ == s@,
{
    let mut out: Vec<char> = Vec::new();
    for c in it: s.chars()
        invariant
            it.seq() == s@,
            out@ == s@.take(it.index() as int),
    {
        out.push(c);
        proof {
            assert(out@ =~= s@.take(it.index() + 1));
        }
    }
    assert(out@ =~= s@);
    out
}

/// The string that `chars` spells.
pub(crate) fn of_chars(chars: &Vec<char>) -> (out: String)
    ensures
        out@ == chars@,
{
    let mut out: String = String::new();
    let mut i: usize = 0;
    while i < chars.len()
        invariant
            i <= chars.len(),
            out@ == chars@.take(i as int),
        decreases chars.len() - i,
    {
        out.push(chars[i]);
        assert(out@ =~= chars@.take(i + 1));
        i += 1;
    }
    assert(out@ =~= chars@);
    out
}

/// A copy of `s`.
pub(crate) fn own(s: &str) -> (out: String)
    ensures
        out@ == s@,
{
    s.to_string()
}

/// Whether the two texts are the same.
pub(crate) fn same(a: &str, b: &str) -> (r: bool)
    ensures
        r == (a@ == b@),
{
    let x = chars_of(a);
    let y = chars_of(b);
    if x.len() != y.len() {
        return false;
    }
    let mut i: usize = 0;
    while i < x.len()
        invariant
            i <= x.len(),
            x.len() == y.len(),
            x@ == a@,
            y@ == b@,
            x@.take(i as int) == y@.take(i as int),
        decreases x.len() - i,
    {
        if x[i] != y[i] {
            assert(a@[i as int] != b@[i as int]);
            return false;
        }
        assert(x@.take(i + 1) =~= x@.take(i as int).push(x@[i as int]));
        assert(y@.take(i + 1) =~= y@.take(i as int).push(y@[i as int]));
        i += 1;
    }
    assert(x@.take(i as int) =~= x@);
    assert(y@.take(i as int) =~= y@);
    true
}

/// Whether two optional texts are the same.
pub open spec fn optional_text(o: Option<String>) -> Option<Seq<char>> {
    match o {
        Some(s) => Some(s@),
        None => None,
    }
}

pub(crate) fn dup_optional(o: &Option<String>) -> (out: Option<String>)
    ensures
        optional_text(out) == optional_text(*o),
{
    match o {
        Some(s) => Some(s.clone()),
        None => None,
    }
}

/// The letters `A` to `Z` in lower case; every other character as it is.
pub open spec fn lower(c: char) -> char {
    if 'A' <= c <= 'Z' {
        (c as int + 32) as char
    } else {
        c
    }
}

/// The letters `a` to `z` in upper case; every other character as it is.
pub open spec fn upper(c: char) -> char {
    if 'a' <= c <= 'z' {
        (c as int - 32) as char
    } else {
        c
    }
}

pub open spec fn lowered(s: Seq<char>) -> Seq<char> {
    s.map_values(|c: char| lower(c))
}

pub open spec fn uppered(s: Seq<char>) -> Seq<char> {
    s.map_values(|c: char| upper(c))
}

/// Whether two texts differ at most in the case of ASCII letters.
pub open spec fn same_nocase(a: Seq<char>, b: Seq<char>) -> bool {
    lowered(a) == lowered(b)
}

pub(crate) fn to_lower(c: char) -> (r: char)
    ensures
        r == lower(c),
{
    if 'A' <= c && c <= 'Z' {
        (c as u8 + 32) as char
    } else {
        c
    }
}

pub(crate) fn to_upper(c: char) -> (r: char)
    ensures
        r == upper(c),
{
    if 'a' <= c && c <= 'z' {
        (c as u8 - 32) as char
    } else {
        c
    }
}

pub(crate) fn lower_chars(s: &str) -> (out: Vec<char>)
    ensures
        out@ == lowered(s@),
{
    let chars = chars_of(s);
    let mut out: Vec<char> = Vec::new();
    let mut i: usize = 0;
    while i < chars.len()
        invariant
            i <= chars.len(),
            out@ == lowered(chars@).take(i as int),
        decreases chars.len() - i,
    {
        out.push(to_lower(chars[i]));
        assert(out@ =~= lowered(chars@).take(i + 1));
        i += 1;
    }
    assert(out@ =~= lowered(chars@));
    out
}

pub(crate) fn to_lower_text(s: &str) -> (out: String)
    ensures
        out@ == lowered(s@),
{
    of_chars(&lower_chars(s))
}

pub(crate) fn to_upper_text(s: &str) -> (out: String)
    ensures
        out@ == uppered(s@),
{
    let chars = chars_of(s);
    let mut out: String = String::new();
    let mut i: usize = 0;
    while i < chars.len()
        invariant
            i <= chars.len(),
            out@ == uppered(chars@).take(i as int),
        decreases chars.len() - i,
    {
        out.push(to_upper(chars[i]));
        assert(out@ =~= uppered(chars@).take(i + 1));
        i += 1;
    }
    assert(out@ =~= uppered(chars@));
    out
}

pub(crate) fn equal_nocase(a: &str, b: &str) -> (r: bool)
    ensures
        r == same_nocase(a@, b@),
{
    let x = of_chars(&lower_chars(a));
    let y = of_chars(&lower_chars(b));
    x == y
}

/// Whether `a` comes before `b`, or equals it, character by character.
pub open spec fn text_le(a: Seq<char>, b: Seq<char>) -> bool
    decreases a.len(),
{
    if a.len() == 0 {
        true
    } else if b.len() == 0 {
        false
    } else if a[0] != b[0] {
        a[0] < b[0]
    } else {
        text_le(a.drop_first(), b.drop_first())
    }
}

/// Whether `a` comes strictly before `b`.
pub open spec fn text_lt(a: Seq<char>, b: Seq<char>) -> bool {
    !text_le(b, a)
}

pub(crate) fn chars_le(a: &Vec<char>, b: &Vec<char>) -> (r: bool)
    ensures
        r == text_le(a@, b@),
{
    let mut i: usize = 0;
    assert(a@.skip(0) =~= a@);
    assert(b@.skip(0) =~= b@);
    while i < a.len() && i < b.len() && a[i] == b[i]
        invariant
            i <= a.len(),
            i <= b.len(),
            text_le(a@, b@) == text_le(a@.skip(i as int), b@.skip(i as int)),
        decreases a.len() - i,
    {
        proof {
            assert(a@.skip(i as int).drop_first() =~= a@.skip(i + 1));
            assert(b@.skip(i as int).drop_first() =~= b@.skip(i + 1));
        }
        i += 1;
    }
    if i == a.len() {
        true
    } else if i == b.len() {
        false
    } else {
        a[i] < b[i]
    }
}

/// `text_le` on strings.
pub(crate) fn at_most(a: &str, b: &str) -> (r: bool)
    ensures
        r == text_le(a@, b@),
{
    chars_le(&chars_of(a), &chars_of(b))
}

/// `text_le` on strings with the case of ASCII letters folded.
pub(crate) fn at_most_nocase(a: &str, b: &str) -> (r: bool)
    ensures
        r == text_le(lowered(a@), lowered(b@)),
{
    chars_le(&lower_chars(a), &lower_chars(b))
}

/// The order of texts is total and carries over.
pub proof fn text_order_is_a_total_order(a: Seq<char>, b: Seq<char>, c: Seq<char>)
    ensures
        text_le(a, b) || text_le(b, a),
        text_le(a, b) && text_le(b, c) ==> text_le(a, c),
        text_le(a, b) && text_le(b, a) ==> a == b,
    decreases a.len(),
{
    if a.len() > 0 && b.len() > 0 {
        if c.len() > 0 {
            text_order_is_a_total_order(a.drop_first(), b.drop_first(), c.drop_first());
        } else {
            text_order_is_a_total_order(a.drop_first(), b.drop_first(), c);
        }
        if text_le(a, b) && text_le(b, a) {
            assert(a =~= seq![a[0]] + a.drop_first());
            assert(b =~= seq![b[0]] + b.drop_first());
        }
    } else if text_le(a, b) && text_le(b, a) {
        assert(a =~= b);
    }
}

/// The characters with the Unicode property `White_Space`.
pub open spec fn white_space(c: char) -> bool {
    ||| 0x9 <= c as int <= 0xd
    ||| c as int == 0x20
    ||| c as int == 0x85
    ||| c as int == 0xa0
    ||| c as int == 0x1680
    ||| 0x2000 <= c as int <= 0x200a
    ||| c as int == 0x2028
    ||| c as int == 0x2029
    ||| c as int == 0x202f
    ||| c as int == 0x205f
    ||| c as int == 0x3000
}

pub fn is_white_space(c: char) -> (r: bool)
    ensures
        r == white_space(c),
{
    let n: u32 = c as u32;
    (0x9 <= n && n <= 0xd) || n == 0x20 || n == 0x85 || n == 0xa0 || n == 0x1680 || (0x2000 <= n
        && n <= 0x200a) || n == 0x2028 || n == 0x2029 || n == 0x202f || n == 0x205f || n == 0x3000
}

pub open spec fn trimmed_start(s: Seq<char>) -> Seq<char>
    decreases s.len(),
{
    if s.len() > 0 && white_space(s[0]) {
        trimmed_start(s.drop_first())
    } else {
        s
    }
}

pub open spec fn trimmed_end(s: Seq<char>) -> Seq<char>
    decreases s.len(),
{
    if s.len() > 0 && white_space(s.last()) {
        trimmed_end(s.drop_last())
    } else {
        s
    }
}

/// `s` without the white space at its start and its end.
pub open spec fn trimmed(s: Seq<char>) -> Seq<char> {
    trimmed_end(trimmed_start(s))
}

pub(crate) fn trim(s: &str) -> (out: String)
    ensures
        out@ == trimmed(s@),
{
    let n: usize = s.unicode_len();
    let chars = chars_of(s);
    let mut from: usize = 0;
    assert(s@.subrange(0, n as int) =~= s@);
    while from < n && is_white_space(chars[from])
        invariant
            from <= n,
            n == s@.len(),
            chars@ == s@,
            trimmed_start(s@) == trimmed_start(s@.subrange(from as int, n as int)),
        decreases n - from,
    {
        assert(s@.subrange(from as int, n as int).drop_first() =~= s@.subrange(
            from + 1,
            n as int,
        ));
        from += 1;
    }
    let ghost started = s@.subrange(from as int, n as int);
    assert(trimmed_start(s@) == started);
    let mut to: usize = n;
    while from < to && is_white_space(chars[to - 1])
        invariant
            from <= to <= n,
            n == s@.len(),
            chars@ == s@,
            trimmed_end(started) == trimmed_end(s@.subrange(from as int, to as int)),
        decreases to,
    {
        assert(s@.subrange(from as int, to as int).drop_last() =~= s@.subrange(
            from as int,
            to - 1,
        ));
        to -= 1;
    }
    own(s.substring_char(from, to))
}

/// `s` without the characters `c` at its end.
pub open spec fn trimmed_end_of(s: Seq<char>, c: char) -> Seq<char>
    decreases s.len(),
{
    if s.len() > 0 && s.last() == c {
        trimmed_end_of(s.drop_last(), c)
    } else {
        s
    }
}

pub(crate) fn trim_end_of(s: &str, c: char) -> (out: String)
    ensures
        out@ == trimmed_end_of(s@, c),
{
    let mut chars = chars_of(s);
    while chars.len() > 0 && chars[chars.len() - 1] == c
        invariant
            trimmed_end_of(s@, c) == trimmed_end_of(chars@, c),
        decreases chars.len(),
    {
        let ghost had = chars@;
        let _last = chars.pop();
        assert(chars@ =~= had.drop_last());
    }
    of_chars(&chars)
}

/// Trimming twice trims no more than trimming once.
pub proof fn trimming_again_changes_nothing(s: Seq<char>)
    ensures
        trimmed(trimmed(s)) == trimmed(s),
{
    lemma_trimmed_start_head(s);
    let t = trimmed_start(s);
    lemma_trimmed_end_tail(t);
    lemma_trimmed_end_keeps_head(t);
}

proof fn lemma_trimmed_start_head(s: Seq<char>)
    ensures
        trimmed_start(s).len() > 0 ==> !white_space(trimmed_start(s)[0]),
    decreases s.len(),
{
    if s.len() > 0 && white_space(s[0]) {
        lemma_trimmed_start_head(s.drop_first());
    }
}

proof fn lemma_trimmed_end_tail(s: Seq<char>)
    ensures
        trimmed_end(s).len() > 0 ==> !white_space(trimmed_end(s).last()),
    decreases s.len(),
{
    if s.len() > 0 && white_space(s.last()) {
        lemma_trimmed_end_tail(s.drop_last());
    }
}

proof fn lemma_trimmed_end_keeps_head(s: Seq<char>)
    ensures
        trimmed_end(s).len() > 0 ==> trimmed_end(s)[0] == s[0],
    decreases s.len(),
{
    if s.len() > 0 && white_space(s.last()) {
        lemma_trimmed_end_keeps_head(s.drop_last());
    }
}

/// Whether `text` matches `pattern`, where `%` stands for any characters,
/// `_` for any one, and every other character for itself in either case.
pub open spec fn like(pattern: Seq<char>, text: Seq<char>) -> bool
    decreases pattern.len() + text.len(),
{
    if pattern.len() == 0 {
        text.len() == 0
    } else if pattern[0] == '%' {
        like(pattern.drop_first(), text) || (text.len() > 0 && like(pattern, text.drop_first()))
    } else {
        text.len() > 0 && (pattern[0] == '_' || lower(pattern[0]) == lower(text[0])) && like(
            pattern.drop_first(),
            text.drop_first(),
        )
    }
}

/// A pattern without `%` is matched character by character.
pub proof fn a_plain_pattern_is_matched_in_full(pattern: Seq<char>, text: Seq<char>)
    requires
        forall|i: int| 0 <= i < pattern.len() ==> #[trigger] pattern[i] != '%',
    ensures
        like(pattern, text) <==> text.len() == pattern.len() && forall|i: int|
            0 <= i < pattern.len() ==> pattern[i] == '_' || lower(#[trigger] pattern[i]) == lower(
                text[i],
            ),
    decreases pattern.len(),
{
    if pattern.len() > 0 {
        let p = pattern.drop_first();
        assert(pattern[0] != '%');
        if text.len() > 0 {
            let t = text.drop_first();
            assert forall|i: int| 0 <= i < p.len() implies #[trigger] p[i] != '%' by {
                assert(pattern[i + 1] != '%');
            }
            a_plain_pattern_is_matched_in_full(p, t);
            if like(pattern, text) {
                assert forall|i: int| 0 <= i < pattern.len() implies pattern[i] == '_' || lower(
                    #[trigger] pattern[i],
                ) == lower(text[i]) by {
                    if i > 0 {
                        assert(p[i - 1] == pattern[i]);
                        assert(t[i - 1] == text[i]);
                    }
                }
            }
            if text.len() == pattern.len() && forall|i: int|
                0 <= i < pattern.len() ==> pattern[i] == '_' || lower(#[trigger] pattern[i])
                    == lower(text[i]) {
                assert forall|i: int| 0 <= i < p.len() implies p[i] == '_' || lower(#[trigger] p[i])
                    == lower(t[i]) by {
                    assert(pattern[i + 1] == p[i]);
                }
                assert(pattern[0] == '_' || lower(pattern[0]) == lower(text[0]));
            }
        }
    }
}

/// A pattern that begins with its only `%` is matched by the texts that end so.
pub proof fn a_percent_in_front_matches_what_ends_so(tail: Seq<char>, text: Seq<char>)
    requires
        forall|i: int| 0 <= i < tail.len() ==> #[trigger] tail[i] != '%',
    ensures
        like(seq!['%'] + tail, text) <==> text.len() >= tail.len() && forall|i: int|
            0 <= i < tail.len() ==> tail[i] == '_' || lower(#[trigger] tail[i]) == lower(
                text[text.len() - tail.len() + i],
            ),
    decreases text.len(),
{
    let pattern = seq!['%'] + tail;
    assert(pattern.drop_first() =~= tail);
    a_plain_pattern_is_matched_in_full(tail, text);
    if text.len() > 0 {
        let t = text.drop_first();
        a_percent_in_front_matches_what_ends_so(tail, t);
        if like(pattern, t) {
            assert forall|i: int| 0 <= i < tail.len() implies tail[i] == '_' || lower(
                #[trigger] tail[i],
            ) == lower(text[text.len() - tail.len() + i]) by {
                assert(t[t.len() - tail.len() + i] == text[text.len() - tail.len() + i]);
            }
        }
        if text.len() > tail.len() && forall|i: int|
            0 <= i < tail.len() ==> tail[i] == '_' || lower(#[trigger] tail[i]) == lower(
                text[text.len() - tail.len() + i],
            ) {
            assert forall|i: int| 0 <= i < tail.len() implies tail[i] == '_' || lower(
                #[trigger] tail[i],
            ) == lower(t[t.len() - tail.len() + i]) by {
                assert(t[t.len() - tail.len() + i] == text[text.len() - tail.len() + i]);
            }
        }
    }
}

/// A pattern that ends with its only `%` is matched by the texts that begin so.
pub proof fn a_percent_behind_matches_what_begins_so(head: Seq<char>, text: Seq<char>)
    requires
        forall|i: int| 0 <= i < head.len() ==> #[trigger] head[i] != '%',
    ensures
        like(head.push('%'), text) <==> text.len() >= head.len() && forall|i: int|
            0 <= i < head.len() ==> head[i] == '_' || lower(#[trigger] head[i]) == lower(text[i]),
    decreases head.len(),
{
    let pattern = head.push('%');
    if head.len() == 0 {
        lemma_percent_matches_all(text);
        assert(pattern =~= seq!['%']);
    } else {
        let h = head.drop_first();
        assert(head[0] != '%');
        assert(pattern.drop_first() =~= h.push('%'));
        if text.len() > 0 {
            let t = text.drop_first();
            assert forall|i: int| 0 <= i < h.len() implies #[trigger] h[i] != '%' by {
                assert(head[i + 1] != '%');
            }
            a_percent_behind_matches_what_begins_so(h, t);
            if like(pattern, text) {
                assert forall|i: int| 0 <= i < head.len() implies head[i] == '_' || lower(
                    #[trigger] head[i],
                ) == lower(text[i]) by {
                    if i > 0 {
                        assert(h[i - 1] == head[i]);
                        assert(t[i - 1] == text[i]);
                    }
                }
            }
            if text.len() >= head.len() && forall|i: int|
                0 <= i < head.len() ==> head[i] == '_' || lower(#[trigger] head[i]) == lower(
                    text[i],
                ) {
                assert forall|i: int| 0 <= i < h.len() implies h[i] == '_' || lower(#[trigger] h[i])
                    == lower(t[i]) by {
                    assert(head[i + 1] == h[i]);
                }
                assert(head[0] == '_' || lower(head[0]) == lower(text[0]));
            }
        }
    }
}

proof fn lemma_percent_matches_all(text: Seq<char>)
    ensures
        like(seq!['%'], text),
    decreases text.len(),
{
    let pattern = seq!['%'];
    let rest = pattern.drop_first();
    assert(rest.len() == 0);
    assert(pattern[0] == '%');
    if text.len() > 0 {
        lemma_percent_matches_all(text.drop_first());
        assert(like(pattern, text));
    } else {
        assert(like(rest, text));
        assert(like(pattern, text));
    }
}

/// Whether `row[j]` says of every end of `text` from `j` on whether it
/// matches `pattern`.
spec fn like_row(row: Seq<bool>, pattern: Seq<char>, text: Seq<char>, from: int) -> bool {
    &&& row.len() == text.len() + 1
    &&& forall|j: int| from <= j <= text.len() ==> #[trigger] row[j] == like(pattern, text.skip(j))
}

fn falses(n: usize) -> (out: Vec<bool>)
    ensures
        out.len() == n,
        forall|k: int| 0 <= k < n ==> #[trigger] out[k] == false,
{
    let mut out: Vec<bool> = Vec::new();
    while out.len() < n
        invariant
            out.len() <= n,
            forall|k: int| 0 <= k < out.len() ==> #[trigger] out[k] == false,
        decreases n - out.len(),
    {
        out.push(false);
    }
    out
}

pub(crate) fn matches_like(pattern: &str, text: &str) -> (r: bool)
    ensures
        r == like(pattern@, text@),
{
    let p = chars_of(pattern);
    let t = chars_of(text);
    let m: usize = p.len();
    let n: usize = t.len();
    let mut row: Vec<bool> = falses(n);
    row.push(true);
    proof {
        assert(p@.skip(m as int) =~= Seq::<char>::empty());
        assert forall|k: int| 0 <= k <= n implies #[trigger] row@[k] == like(
            p@.skip(m as int),
            t@.skip(k),
        ) by {
            assert(t@.skip(k).len() == n - k);
        }
    }
    let mut i: usize = m;
    while i > 0
        invariant
            i <= m,
            m == p.len(),
            n == t.len(),
            like_row(row@, p@.skip(i as int), t@, 0),
        decreases i,
    {
        i -= 1;
        let c = p[i];
        let ghost next = row@;
        let ghost rest = p@.skip(i + 1);
        let ghost here = p@.skip(i as int);
        proof {
            assert(here.drop_first() =~= rest);
            assert(here[0] == c);
        }
        let mut fresh: Vec<bool> = falses(row.len());
        let mut j: usize = row.len();
        while j > 0
            invariant
                j <= n + 1,
                n == t.len(),
                fresh.len() == n + 1,
                row@ == next,
                like_row(next, rest, t@, 0),
                here.len() > 0,
                here[0] == c,
                here.drop_first() == rest,
                like_row(fresh@, here, t@, j as int),
            decreases j,
        {
            j -= 1;
            let ghost old_fresh = fresh@;
            let tail = j < n;
            let hit = if c == '%' {
                row[j] || (tail && fresh[j + 1])
            } else {
                tail && (c == '_' || to_lower(c) == to_lower(t[j])) && row[j + 1]
            };
            proof {
                assert(next[j as int] == like(rest, t@.skip(j as int)));
                if tail {
                    assert(t@.skip(j as int).drop_first() =~= t@.skip(j + 1));
                    assert(next[j + 1] == like(rest, t@.skip(j + 1)));
                    assert(old_fresh[j + 1] == like(here, t@.skip(j + 1)));
                }
                assert(hit == like(here, t@.skip(j as int)));
            }
            fresh.set(j, hit);
            assert(forall|x: int| j < x <= n ==> #[trigger] fresh@[x] == old_fresh[x]);
        }
        row = fresh;
    }
    assert(p@.skip(0) =~= p@);
    assert(t@.skip(0) =~= t@);
    assert(row@[0] == like(p@.skip(0), t@.skip(0)));
    row[0]
}

/// Whether `part` stands in `s` at `at`.
pub open spec fn stands_at(s: Seq<char>, part: Seq<char>, at: int) -> bool {
    at + part.len() <= s.len() && s.subrange(at, at + part.len()) == part
}

pub open spec fn starts_with(s: Seq<char>, part: Seq<char>) -> bool {
    stands_at(s, part, 0)
}

pub open spec fn ends_with(s: Seq<char>, part: Seq<char>) -> bool {
    s.len() >= part.len() && stands_at(s, part, s.len() - part.len())
}

fn chars_stand_at(s: &Vec<char>, part: &Vec<char>, at: usize) -> (r: bool)
    requires
        at <= s.len(),
    ensures
        r == stands_at(s@, part@, at as int),
{
    if s.len() - at < part.len() {
        return false;
    }
    let mut i: usize = 0;
    while i < part.len()
        invariant
            i <= part.len(),
            at + part.len() <= s.len(),
            forall|k: int| 0 <= k < i ==> s@[at + k] == #[trigger] part@[k],
        decreases part.len() - i,
    {
        if s[at + i] != part[i] {
            assert(s@.subrange(at as int, at + part.len())[i as int] != part@[i as int]);
            return false;
        }
        i += 1;
    }
    assert(s@.subrange(at as int, at + part.len()) =~= part@);
    true
}

pub(crate) fn begins(s: &str, part: &str) -> (r: bool)
    ensures
        r == starts_with(s@, part@),
{
    chars_stand_at(&chars_of(s), &chars_of(part), 0)
}

pub(crate) fn ends(s: &str, part: &str) -> (r: bool)
    ensures
        r == ends_with(s@, part@),
{
    let x = chars_of(s);
    let y = chars_of(part);
    if x.len() < y.len() {
        return false;
    }
    chars_stand_at(&x, &y, x.len() - y.len())
}

/// `s` with every `from` replaced by `to`, from left to right; `s` itself
/// when `from` is empty.
pub open spec fn replaced(s: Seq<char>, from: Seq<char>, to: Seq<char>) -> Seq<char>
    decreases s.len(),
{
    if s.len() == 0 || from.len() == 0 {
        s
    } else if starts_with(s, from) {
        to + replaced(s.skip(from.len() as int), from, to)
    } else {
        seq![s[0]] + replaced(s.drop_first(), from, to)
    }
}

pub(crate) fn replace_all(s: &str, from: &str, to: &str) -> (out: String)
    ensures
        out@ == replaced(s@, from@, to@),
{
    let chars = chars_of(s);
    let part = chars_of(from);
    let mut out: String = String::new();
    if part.len() == 0 {
        return own(s);
    }
    let mut i: usize = 0;
    assert(s@.skip(0) =~= s@);
    assert(out@ + replaced(s@.skip(0), from@, to@) =~= replaced(s@, from@, to@));
    while i < chars.len()
        invariant
            i <= chars.len(),
            chars@ == s@,
            part@ == from@,
            part.len() > 0,
            out@ + replaced(s@.skip(i as int), from@, to@) == replaced(s@, from@, to@),
        decreases chars.len() - i,
    {
        let ghost had = out@;
        let ghost rest = s@.skip(i as int);
        if chars_stand_at(&chars, &part, i) {
            proof {
                assert(rest.subrange(0, from@.len() as int) =~= s@.subrange(
                    i as int,
                    i + from@.len(),
                ));
                assert(rest.skip(from@.len() as int) =~= s@.skip(i + from@.len()));
                assert((had + to@) + replaced(s@.skip(i + from@.len()), from@, to@) =~= had + (to@
                    + replaced(s@.skip(i + from@.len()), from@, to@)));
            }
            out.append(to);
            i += part.len();
        } else {
            proof {
                if starts_with(rest, from@) {
                    assert(s@.subrange(i as int, i + from@.len()) =~= rest.subrange(
                        0,
                        from@.len() as int,
                    ));
                }
                assert(rest.drop_first() =~= s@.skip(i + 1));
                assert(had.push(rest[0]) + replaced(s@.skip(i + 1), from@, to@) =~= had + (
                seq![rest[0]] + replaced(s@.skip(i + 1), from@, to@)));
            }
            out.push(chars[i]);
            i += 1;
        }
    }
    assert(s@.skip(i as int) =~= Seq::<char>::empty());
    assert(out@ =~= out@ + replaced(s@.skip(i as int), from@, to@));
    out
}

/// The decimal digit for `n`.
pub open spec fn digit(n: int) -> char {
    (n + 48) as char
}

/// `n` in decimal digits, without leading zeros.
pub open spec fn natural(n: int) -> Seq<char>
    decreases n,
{
    if n < 10 {
        seq![digit(n)]
    } else {
        natural(n / 10).push(digit(n % 10))
    }
}

/// `n` in decimal, with a minus sign where it is negative.
pub open spec fn decimal(n: int) -> Seq<char> {
    if n < 0 {
        seq!['-'] + natural(-n)
    } else {
        natural(n)
    }
}

/// Appends `n` in decimal.
pub(crate) fn push_natural(out: &mut String, n: u64)
    ensures
        final(out)@ == old(out)@ + natural(n as int),
    decreases n,
{
    if n < 10 {
        out.push((n as u8 + 48) as char);
        assert(out@ =~= old(out)@ + natural(n as int));
    } else {
        push_natural(out, n / 10);
        out.push(((n % 10) as u8 + 48) as char);
        assert(out@ =~= old(out)@ + natural(n as int));
    }
}

/// Appends `n` in decimal.
pub(crate) fn push_decimal(out: &mut String, n: i64)
    ensures
        final(out)@ == old(out)@ + decimal(n as int),
{
    if n < 0 {
        out.push('-');
        let magnitude: u64 = (-(n + 1)) as u64 + 1;
        push_natural(out, magnitude);
        assert(out@ =~= old(out)@ + decimal(n as int));
    } else {
        push_natural(out, n as u64);
    }
}

/// The parts of a text between the characters `c`.
pub open spec fn split(s: Seq<char>, c: char) -> Seq<Seq<char>>
    decreases s.len(),
{
    if s.len() == 0 {
        seq![Seq::<char>::empty()]
    } else {
        let parts = split(s.drop_last(), c);
        if s.last() == c {
            parts.push(Seq::empty())
        } else {
            parts.drop_last().push(parts.last().push(s.last()))
        }
    }
}

/// `a` followed by `b`.
pub(crate) fn join2(a: &str, b: &str) -> (out: String)
    ensures
        out@ == a@ + b@,
{
    let mut out: String = own(a);
    out.append(b);
    out
}

/// Putting a text in lower case turns the letters `A` to `Z` into `a` to `z`,
/// upper case turns them back, and no other character changes.
pub proof fn case_turns_letters_alone(s: Seq<char>, i: int)
    requires
        0 <= i < s.len(),
    ensures
        lowered(s).len() == s.len(),
        uppered(s).len() == s.len(),
        65 <= s[i] as int <= 90 ==> lowered(s)[i] as int == s[i] as int + 32,
        !(65 <= s[i] as int <= 90) ==> lowered(s)[i] == s[i],
        97 <= s[i] as int <= 122 ==> uppered(s)[i] as int == s[i] as int - 32,
        !(97 <= s[i] as int <= 122) ==> uppered(s)[i] == s[i],
        same_nocase(uppered(s), s),
        same_nocase(lowered(s), s),
{
    assert(lowered(uppered(s)) =~= lowered(s));
    assert(lowered(lowered(s)) =~= lowered(s));
}

/// Of two texts the one that has the smaller character where they first differ
/// comes before the other, and a text comes before every longer one that
/// begins with it.
pub proof fn the_first_difference_decides(a: Seq<char>, b: Seq<char>, i: int)
    requires
        0 <= i <= a.len(),
        i <= b.len(),
        forall|k: int| 0 <= k < i ==> #[trigger] a[k] == b[k],
    ensures
        i < a.len() && i < b.len() && a[i] != b[i] ==> (text_le(a, b) <==> a[i] < b[i]),
        i == a.len() ==> text_le(a, b),
        i == a.len() && i < b.len() ==> !text_le(b, a) && text_lt(a, b),
        text_lt(a, b) <==> text_le(a, b) && a != b,
    decreases i,
{
    text_order_is_a_total_order(a, b, a);
    if a == b {
        text_order_is_a_total_order(a, a, a);
    }
    if i > 0 {
        assert forall|k: int| 0 <= k < i - 1 implies #[trigger] a.drop_first()[k]
            == b.drop_first()[k] by {
            assert(a[k + 1] == b[k + 1]);
        }
        assert(a[0] == b[0]);
        the_first_difference_decides(a.drop_first(), b.drop_first(), i - 1);
    }
}

proof fn lemma_trim_front(front: Seq<char>, s: Seq<char>)
    requires
        forall|i: int| 0 <= i < front.len() ==> white_space(#[trigger] front[i]),
        s.len() > 0 ==> !white_space(s[0]),
    ensures
        trimmed_start(front + s) == s,
    decreases front.len(),
{
    if front.len() == 0 {
        assert(front + s =~= s);
    } else {
        assert((front + s)[0] == front[0]);
        assert((front + s).drop_first() =~= front.drop_first() + s);
        lemma_trim_front(front.drop_first(), s);
    }
}

proof fn lemma_trim_back(s: Seq<char>, back: Seq<char>)
    requires
        forall|i: int| 0 <= i < back.len() ==> white_space(#[trigger] back[i]),
        s.len() > 0 ==> !white_space(s.last()),
    ensures
        trimmed_end(s + back) == s,
    decreases back.len(),
{
    if back.len() == 0 {
        assert(s + back =~= s);
    } else {
        assert((s + back).last() == back.last());
        assert((s + back).drop_last() =~= s + back.drop_last());
        lemma_trim_back(s, back.drop_last());
    }
}

/// Trimming takes off the white space in front of a text and behind it, and
/// nothing else.
pub proof fn trimming_takes_off_white_space(front: Seq<char>, s: Seq<char>, back: Seq<char>)
    requires
        forall|i: int| 0 <= i < front.len() ==> white_space(#[trigger] front[i]),
        forall|i: int| 0 <= i < back.len() ==> white_space(#[trigger] back[i]),
        s.len() > 0,
        !white_space(s[0]),
        !white_space(s.last()),
    ensures
        trimmed(front + s + back) == s,
        white_space(' '),
        white_space('\t'),
        white_space('\n'),
        white_space('\r'),
{
    assert(front + s + back =~= front + (s + back));
    lemma_trim_front(front, s + back);
    lemma_trim_back(s, back);
}

/// Taking a character off the end of a text takes all that stand there and
/// nothing else.
pub proof fn an_ending_is_taken_off(s: Seq<char>, c: char)
    ensures
        trimmed_end_of(s, c).len() > 0 ==> trimmed_end_of(s, c).last() != c,
        trimmed_end_of(s, c).len() <= s.len(),
        trimmed_end_of(s, c) == s.take(trimmed_end_of(s, c).len() as int),
        forall|i: int| trimmed_end_of(s, c).len() <= i < s.len() ==> #[trigger] s[i] == c,
    decreases s.len(),
{
    if s.len() > 0 && s.last() == c {
        let rest = s.drop_last();
        an_ending_is_taken_off(rest, c);
        let n = trimmed_end_of(rest, c).len() as int;
        assert(rest.take(n) =~= s.take(n));
        assert forall|i: int| n <= i < s.len() implies #[trigger] s[i] == c by {
            if i < rest.len() {
                assert(rest[i] == c);
            }
        }
    } else {
        assert(s.take(s.len() as int) =~= s);
    }
}

/// The number that decimal digits stand for.
pub open spec fn number_of(digits: Seq<char>) -> int
    decreases digits.len(),
{
    if digits.len() == 0 {
        0
    } else {
        10 * number_of(digits.drop_last()) + (digits.last() as int - 48)
    }
}

/// A number in decimal is digits that stand for it, without a leading zero.
pub proof fn a_number_is_written_in_its_digits(n: int)
    requires
        n >= 0,
    ensures
        number_of(natural(n)) == n,
        natural(n).len() > 0,
        forall|i: int|
            0 <= i < natural(n).len() ==> 48 <= (#[trigger] natural(n)[i]) as int <= 57,
        n > 0 ==> natural(n)[0] as int > 48,
        decimal(n) == natural(n),
        n > 0 ==> decimal(-n) == seq!['-'] + natural(n),
    decreases n,
{
    let s = natural(n);
    if n < 10 {
        assert(s.drop_last() =~= Seq::<char>::empty());
        reveal_with_fuel(number_of, 2);
    } else {
        a_number_is_written_in_its_digits(n / 10);
        assert(s.drop_last() =~= natural(n / 10));
        assert(s.last() == digit(n % 10));
    }
}

/// Replacing one character by another changes that character wherever it
/// stands, and nothing else.
pub proof fn one_character_is_replaced_wherever_it_stands(s: Seq<char>, from: char, to: char)
    ensures
        replaced(s, seq![from], seq![to]).len() == s.len(),
        forall|i: int|
            0 <= i < s.len() ==> #[trigger] replaced(s, seq![from], seq![to])[i] == (if s[i]
                == from {
                to
            } else {
                s[i]
            }),
    decreases s.len(),
{
    if s.len() > 0 {
        let rest = s.drop_first();
        one_character_is_replaced_wherever_it_stands(rest, from, to);
        assert(s.skip(1) =~= rest);
        assert(s.subrange(0, 1) =~= seq![s[0]]);
        assert(seq![s[0]][0] == s[0] && seq![from][0] == from);
        assert(starts_with(s, seq![from]) <==> s[0] == from);
        assert forall|i: int| 0 <= i < s.len() implies #[trigger] replaced(
            s,
            seq![from],
            seq![to],
        )[i] == (if s[i] == from {
            to
        } else {
            s[i]
        }) by {
            if i > 0 {
                assert(rest[i - 1] == s[i]);
            }
        }
    }
}

/// Texts put one behind the other with `c` between them.
pub open spec fn put_together(parts: Seq<Seq<char>>, c: char) -> Seq<char>
    decreases parts.len(),
{
    if parts.len() == 0 {
        Seq::empty()
    } else if parts.len() == 1 {
        parts[0]
    } else {
        put_together(parts.drop_last(), c) + seq![c] + parts.last()
    }
}

/// The parts of a text that is split, put together again, are the text, and
/// none of them holds the character it is split at.
pub proof fn the_parts_make_up_the_text(s: Seq<char>, c: char)
    ensures
        split(s, c).len() > 0,
        put_together(split(s, c), c) == s,
        forall|k: int, i: int|
            0 <= k < split(s, c).len() && 0 <= i < split(s, c)[k].len() ==> #[trigger] split(
                s,
                c,
            )[k][i] != c,
    decreases s.len(),
{
    let all = split(s, c);
    if s.len() > 0 {
        let rest = s.drop_last();
        let parts = split(rest, c);
        the_parts_make_up_the_text(rest, c);
        if s.last() == c {
            assert(all.drop_last() =~= parts);
            assert(put_together(all, c) =~= put_together(parts, c) + seq![c]);
            assert(s =~= rest + seq![c]);
        } else {
            assert(all.last() == parts.last().push(s.last()));
            assert(all.drop_last() =~= parts.drop_last());
            if parts.len() == 1 {
                assert(put_together(all, c) =~= put_together(parts, c).push(s.last()));
            } else {
                assert(put_together(all, c) =~= put_together(parts, c).push(s.last()));
            }
            assert(s =~= rest.push(s.last()));
            assert forall|k: int, i: int|
                0 <= k < all.len() && 0 <= i < all[k].len() implies #[trigger] all[k][i] != c by {
                if k < all.len() - 1 {
                    assert(all[k] == parts[k]);
                } else if i < parts.last().len() {
                    assert(all[k][i] == parts[k][i]);
                }
            }
        }
    } else {
        assert(put_together(all, c) =~= s);
    }
}

/// A text begins with its front and ends in its back, and with nothing else of
/// the same length.
pub proof fn a_text_has_its_front_and_its_back(front: Seq<char>, back: Seq<char>, part: Seq<char>)
    ensures
        starts_with(front + back, front),
        ends_with(front + back, back),
        part.len() == front.len() && part != front ==> !starts_with(front + back, part),
        part.len() == back.len() && part != back ==> !ends_with(front + back, part),
        part.len() > front.len() + back.len() ==> !starts_with(front + back, part) && !ends_with(
            front + back,
            part,
        ),
{
    let s = front + back;
    assert(s.subrange(0, front.len() as int) =~= front);
    assert(s.subrange(s.len() - back.len(), s.len() as int) =~= back);
}

} // verus!
