//! Lists of numbers and of texts as JSON, the form in which they are stored.
use crate::number::{real_equals, real_is};
use crate::text::{chars_of, decimal, own, same, split};
use vstd::prelude::*;

verus! {

/// The parts with a comma between each and the next.
pub open spec fn joined(parts: Seq<Seq<char>>) -> Seq<char>
    decreases parts.len(),
{
    if parts.len() == 0 {
        Seq::empty()
    } else if parts.len() == 1 {
        parts[0]
    } else {
        joined(parts.drop_last()) + seq![','] + parts.last()
    }
}

/// The parts in square brackets.
pub open spec fn bracketed(parts: Seq<Seq<char>>) -> Seq<char> {
    seq!['['] + joined(parts) + seq![']']
}

/// A list of numbers in JSON.
pub open spec fn json_of_i32s(values: Seq<i32>) -> Seq<char> {
    bracketed(values.map_values(|n: i32| decimal(n as int)))
}

/// A list of numbers in JSON.
pub open spec fn json_of_i64s(values: Seq<i64>) -> Seq<char> {
    bracketed(values.map_values(|n: i64| decimal(n as int)))
}

/// The hexadecimal digit for `n`, in lower case.
pub open spec fn hex_digit(n: int) -> char {
    if n < 10 {
        (n + 48) as char
    } else {
        (n + 87) as char
    }
}

/// How a character stands inside a JSON string.
pub open spec fn escaped(c: char) -> Seq<char> {
    if c == '"' || c == '\\' {
        seq!['\\', c]
    } else if c as int == 0x8 {
        seq!['\\', 'b']
    } else if c as int == 0x9 {
        seq!['\\', 't']
    } else if c as int == 0xa {
        seq!['\\', 'n']
    } else if c as int == 0xc {
        seq!['\\', 'f']
    } else if c as int == 0xd {
        seq!['\\', 'r']
    } else if (c as int) < 0x20 {
        seq!['\\', 'u', '0', '0', hex_digit(c as int / 16), hex_digit(c as int % 16)]
    } else {
        seq![c]
    }
}

/// A text as a JSON string.
pub open spec fn quoted(s: Seq<char>) -> Seq<char> {
    seq!['"'] + s.map_values(|c: char| escaped(c)).flatten() + seq!['"']
}

/// A list of texts in JSON.
pub open spec fn json_of_texts(values: Seq<Seq<char>>) -> Seq<char> {
    bracketed(values.map_values(|s: Seq<char>| quoted(s)))
}

/// What `serde_json::from_str` makes of a text that should be a list of
/// `i32`; nothing when it refuses the text.
pub uninterp spec fn i32s_of_json(text: Seq<char>) -> Option<Seq<i32>>;

/// What `serde_json::from_str` makes of a text that should be a list of
/// `i64`; nothing when it refuses the text.
pub uninterp spec fn i64s_of_json(text: Seq<char>) -> Option<Seq<i64>>;

/// What `serde_json::from_str` makes of a text that should be a list of
/// strings; nothing when it refuses the text.
pub uninterp spec fn texts_of_json(text: Seq<char>) -> Option<Seq<Seq<char>>>;

/// A value in JSON, as far as it can equal a whole number.
#[derive(Debug, Clone, Copy, PartialEq, Eq, Structural)]
pub enum JsonCell {
    Null,
    Bool(bool),
    Whole(i64),
    /// The bits of a double-precision number.
    Real(u64),
    /// A text, a list or an object.
    Other,
}

/// What `serde_json::from_str` makes of a text that may be any JSON: the values
/// of a list or of an object, or the one value that the text is; nothing when
/// it refuses the text.
pub uninterp spec fn cells_of_json(text: Seq<char>) -> Option<Seq<JsonCell>>;

/// The cells of a list of numbers.
pub open spec fn whole_cells(values: Seq<i32>) -> Seq<JsonCell> {
    values.map_values(|n: i32| JsonCell::Whole(n as i64))
}

/// Whether reading the text gives back the list that was written.
pub open spec fn cells_read_back(text: Seq<char>) -> bool {
    forall|v: Seq<i32>| text == #[trigger] json_of_i32s(v) ==> cells_of_json(text) == Some(
        whole_cells(v),
    )
}

/// Whether a value in JSON equals a whole number, as SQL compares them: a truth
/// value counts as 1 or 0, and a text equals no number.
pub open spec fn cell_is(c: JsonCell, n: i32) -> bool {
    match c {
        JsonCell::Whole(v) => v == n,
        JsonCell::Bool(b) => n == (if b {
            1int
        } else {
            0int
        }),
        JsonCell::Real(bits) => real_is(bits, n),
        _ => false,
    }
}

/// Whether a number is among the values of a JSON text.
pub open spec fn json_has(text: Seq<char>, n: i32) -> bool {
    cells_of_json(text) matches Some(cells) && exists|i: int|
        0 <= i < cells.len() && cell_is(#[trigger] cells[i], n)
}

/// The texts of a list of strings.
pub open spec fn texts(values: Seq<String>) -> Seq<Seq<char>> {
    values.map_values(|s: String| s@)
}

/// A copy of a list of strings.
pub(crate) fn dup_texts(list: &Vec<String>) -> (out: Vec<String>)
    ensures
        texts(out@) == texts(list@),
{
    let mut out: Vec<String> = Vec::new();
    let mut i: usize = 0;
    while i < list.len()
        invariant
            i <= list.len(),
            texts(out@) == texts(list@).take(i as int),
        decreases list.len() - i,
    {
        let ghost had = out@;
        out.push(list[i].clone());
        assert(texts(out@) =~= texts(had).push(list@[i as int]@));
        assert(texts(list@).take(i + 1) =~= texts(list@).take(i as int).push(list@[i as int]@));
        i += 1;
    }
    assert(texts(list@).take(i as int) =~= texts(list@));
    out
}

/// The parts of a text between the characters `c`.
pub(crate) fn split_text(s: &str, c: char) -> (parts: Vec<String>)
    ensures
        texts(parts@) == split(s@, c),
{
    let chars = chars_of(s);
    let mut parts: Vec<String> = Vec::new();
    let mut part = String::new();
    let mut i: usize = 0;
    proof {
        assert(s@.take(0).len() == 0);
        assert(texts(parts@).push(part@) =~= split(s@.take(0), c));
    }
    while i < chars.len()
        invariant
            i <= chars.len(),
            chars@ == s@,
            texts(parts@).push(part@) == split(s@.take(i as int), c),
        decreases chars.len() - i,
    {
        let x = chars[i];
        let ghost had = parts@;
        let ghost was = part@;
        proof {
            let t = s@.take(i + 1);
            assert(t.drop_last() =~= s@.take(i as int));
            assert(t.last() == x);
            assert(texts(had).push(was).drop_last() =~= texts(had));
        }
        if x == c {
            parts.push(part);
            part = String::new();
            assert(texts(parts@) =~= texts(had).push(was));
        } else {
            part.push(x);
        }
        i += 1;
    }
    let ghost had = parts@;
    let ghost last = part@;
    parts.push(part);
    assert(texts(parts@) =~= texts(had).push(last));
    assert(s@.take(i as int) =~= s@);
    parts
}

/// Whether a text is in a list of strings.
pub(crate) fn has_text(list: &Vec<String>, s: &str) -> (r: bool)
    ensures
        r == texts(list@).contains(s@),
{
    let mut i: usize = 0;
    while i < list.len()
        invariant
            i <= list.len(),
            forall|k: int| 0 <= k < i ==> #[trigger] texts(list@)[k] != s@,
        decreases list.len() - i,
    {
        assert(texts(list@)[i as int] == list[i as int]@);
        if same(&list[i], s) {
            return true;
        }
        i += 1;
    }
    assert(texts(list@).len() == list.len());
    false
}

/// `serde_json::to_string` on a slice of `i32`: it never fails, and writes the
/// numbers in decimal, separated by commas, in square brackets.
#[verifier::external_body]
fn write_i32s(values: &[i32]) -> (text: Option<String>)
    ensures
        text is Some,
        text->0@ == json_of_i32s(values@),
{
    serde_json::to_string(values).ok()
}

/// `serde_json::to_string` on a slice of `i64`: it never fails, and writes the
/// numbers in decimal, separated by commas, in square brackets.
#[verifier::external_body]
fn write_i64s(values: &[i64]) -> (text: Option<String>)
    ensures
        text is Some,
        text->0@ == json_of_i64s(values@),
{
    serde_json::to_string(values).ok()
}

/// `serde_json::to_string` on a slice of strings: it never fails, and writes
/// each in double quotes, with quotes, backslashes and control characters
/// escaped, separated by commas, in square brackets.
#[verifier::external_body]
fn write_texts(values: &[String]) -> (text: Option<String>)
    ensures
        text is Some,
        text->0@ == json_of_texts(texts(values@)),
{
    serde_json::to_string(values).ok()
}

/// `serde_json::from_str` into a list of `i32`: what it returns depends on the
/// text alone, and of a list that `serde_json::to_string` wrote it gives that
/// list back.
#[verifier::external_body]
fn read_i32s(text: &str) -> (values: Option<Vec<i32>>)
    ensures
        values is Some <==> i32s_of_json(text@) is Some,
        values is Some ==> i32s_of_json(text@) == Some(values->0@),
        forall|v: Seq<i32>| text@ == #[trigger] json_of_i32s(v) ==> values is Some && values->0@ == v,
{
    serde_json::from_str(text).ok()
}

/// `serde_json::from_str` into a list of `i64`: what it returns depends on the
/// text alone, and of a list that `serde_json::to_string` wrote it gives that
/// list back.
#[verifier::external_body]
fn read_i64s(text: &str) -> (values: Option<Vec<i64>>)
    ensures
        values is Some <==> i64s_of_json(text@) is Some,
        values is Some ==> i64s_of_json(text@) == Some(values->0@),
        forall|v: Seq<i64>| text@ == #[trigger] json_of_i64s(v) ==> values is Some && values->0@ == v,
{
    serde_json::from_str(text).ok()
}

/// `serde_json::from_str` into a list of strings: what it returns depends on
/// the text alone, and of a list that `serde_json::to_string` wrote it gives
/// that list back.
#[verifier::external_body]
fn read_texts(text: &str) -> (values: Option<Vec<String>>)
    ensures
        values is Some <==> texts_of_json(text@) is Some,
        values is Some ==> texts_of_json(text@) == Some(texts(values->0@)),
        forall|v: Seq<Seq<char>>| text@ == #[trigger] json_of_texts(v) ==> values is Some && texts(
            values->0@,
        ) == v,
{
    serde_json::from_str(text).ok()
}

/// `serde_json::from_str` into a `serde_json::Value`, with the values of a list
/// or an object handed out one by one, and any other value alone. What it
/// returns depends on the text alone, and of a list of numbers that
/// `serde_json::to_string` wrote it gives those numbers back. Nothing is said of
/// texts that other readers of JSON take and this one does not: comments, commas
/// at the end, single quotes, nesting over a hundred levels deep, and numbers
/// that no double-precision number holds. Of a key that stands in an object
/// twice, the last value counts.
#[verifier::external_body]
fn read_cells(text: &str) -> (cells: Option<Vec<JsonCell>>)
    ensures
        cells is Some <==> cells_of_json(text@) is Some,
        cells is Some ==> cells_of_json(text@) == Some(cells->0@),
        forall|v: Seq<i32>| text@ == #[trigger] json_of_i32s(v) ==> cells is Some && cells->0@
            == whole_cells(v),
{
    let cell = |v: &serde_json::Value| match v {
        serde_json::Value::Null => JsonCell::Null,
        serde_json::Value::Bool(b) => JsonCell::Bool(*b),
        serde_json::Value::Number(n) => match n.as_i64() {
            Some(i) => JsonCell::Whole(i),
            None => JsonCell::Real(n.as_f64().map_or(0, |x| x.to_bits())),
        },
        _ => JsonCell::Other,
    };
    serde_json::from_str(text).ok().map(|v: serde_json::Value| match v {
        serde_json::Value::Array(items) => items.iter().map(cell).collect(),
        serde_json::Value::Object(items) => items.values().map(cell).collect(),
        other => vec![cell(&other)],
    })
}

/// The numbers a stored text stands for; none when it cannot be read.
pub open spec fn stored_i32s(text: Seq<char>) -> Seq<i32> {
    match i32s_of_json(text) {
        Some(v) => v,
        None => Seq::empty(),
    }
}

/// The numbers a stored text stands for; none when it cannot be read.
pub open spec fn stored_i64s(text: Seq<char>) -> Seq<i64> {
    match i64s_of_json(text) {
        Some(v) => v,
        None => Seq::empty(),
    }
}

/// The texts a stored text stands for; none when it cannot be read.
pub open spec fn stored_texts(text: Seq<char>) -> Seq<Seq<char>> {
    match texts_of_json(text) {
        Some(v) => v,
        None => Seq::empty(),
    }
}

/// Whether reading the text gives back the list that was written.
pub open spec fn i32s_read_back(text: Seq<char>) -> bool {
    forall|v: Seq<i32>| text == #[trigger] json_of_i32s(v) ==> stored_i32s(text) == v
}

/// Whether reading the text gives back the list that was written.
pub open spec fn i64s_read_back(text: Seq<char>) -> bool {
    forall|v: Seq<i64>| text == #[trigger] json_of_i64s(v) ==> stored_i64s(text) == v
}

/// Whether reading the text gives back the list that was written.
pub open spec fn texts_read_back(text: Seq<char>) -> bool {
    forall|v: Seq<Seq<char>>| text == #[trigger] json_of_texts(v) ==> stored_texts(text) == v
}

pub(crate) fn store_i32s(values: &[i32]) -> (text: String)
    ensures
        text@ == json_of_i32s(values@),
{
    match write_i32s(values) {
        Some(text) => text,
        None => own("[]"),
    }
}

pub(crate) fn store_i64s(values: &[i64]) -> (text: String)
    ensures
        text@ == json_of_i64s(values@),
{
    match write_i64s(values) {
        Some(text) => text,
        None => own("[]"),
    }
}

pub(crate) fn store_texts(values: &[String]) -> (text: String)
    ensures
        text@ == json_of_texts(texts(values@)),
{
    match write_texts(values) {
        Some(text) => text,
        None => own("[]"),
    }
}

pub(crate) fn load_i32s(text: &str) -> (values: Vec<i32>)
    ensures
        values@ == stored_i32s(text@),
        i32s_read_back(text@),
{
    match read_i32s(text) {
        Some(values) => values,
        None => Vec::new(),
    }
}

/// Whether a stored text is JSON.
pub(crate) fn is_json(text: &str) -> (r: bool)
    ensures
        r == (cells_of_json(text@) is Some),
        cells_read_back(text@),
{
    match read_cells(text) {
        Some(_) => true,
        None => false,
    }
}

fn cell_equals(c: JsonCell, n: i32) -> (r: bool)
    ensures
        r == cell_is(c, n),
{
    match c {
        JsonCell::Whole(v) => v == n as i64,
        JsonCell::Bool(b) => n == (if b {
            1i32
        } else {
            0i32
        }),
        JsonCell::Real(bits) => real_equals(bits, n),
        _ => false,
    }
}

/// Whether a number is among the values of a stored text.
pub(crate) fn holds_number(text: &str, n: i32) -> (r: bool)
    ensures
        r == json_has(text@, n),
{
    match read_cells(text) {
        Some(cells) => {
            let mut i: usize = 0;
            while i < cells.len()
                invariant
                    i <= cells.len(),
                    cells_of_json(text@) == Some(cells@),
                    forall|k: int| 0 <= k < i ==> !cell_is(#[trigger] cells@[k], n),
                decreases cells.len() - i,
            {
                if cell_equals(cells[i], n) {
                    proof {
                        let read = cells_of_json(text@)->0;
                        assert(0 <= i < read.len() && cell_is(read[i as int], n));
                        assert(json_has(text@, n));
                    }
                    return true;
                }
                i += 1;
            }
            false
        },
        None => false,
    }
}

/// A number is found in the list that it was written in.
pub proof fn a_written_number_is_found(values: Seq<i32>, n: i32)
    requires
        cells_read_back(json_of_i32s(values)),
    ensures
        json_has(json_of_i32s(values), n) <==> values.contains(n),
{
    let text = json_of_i32s(values);
    let cells = whole_cells(values);
    assert(cells_of_json(text) == Some(cells));
    if values.contains(n) {
        let k = choose|k: int| 0 <= k < values.len() && values[k] == n;
        assert(cell_is(cells[k], n));
    }
    if json_has(text, n) {
        let k = choose|k: int| 0 <= k < cells.len() && cell_is(#[trigger] cells[k], n);
        assert(cells[k] == JsonCell::Whole(values[k] as i64));
        assert(values[k] == n);
    }
}

pub(crate) fn load_i64s(text: &str) -> (values: Vec<i64>)
    ensures
        values@ == stored_i64s(text@),
        i64s_read_back(text@),
{
    match read_i64s(text) {
        Some(values) => values,
        None => Vec::new(),
    }
}

pub(crate) fn load_texts(text: &str) -> (values: Vec<String>)
    ensures
        texts(values@) == stored_texts(text@),
        texts_read_back(text@),
{
    match read_texts(text) {
        Some(values) => values,
        None => {
            let none: Vec<String> = Vec::new();
            assert(texts(none@) =~= Seq::<Seq<char>>::empty());
            none
        },
    }
}

} // verus!
