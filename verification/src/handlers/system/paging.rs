//! Cutting a list into pages.
use vstd::prelude::*;

verus! {

/// Cuts a list that was fetched with one row more than a page holds. Gives the
/// rows of the page and, where there are more, the id of its last row: the
/// next page holds rows with smaller ids.
pub fn truncate_to_page<T, F: Fn(&T) -> i64>(entries: Vec<T>, page_size: usize, id_of: F) -> (r: (
    Vec<T>,
    Option<i64>,
))
    requires
        forall|t: &T| #[trigger] call_requires(id_of, (t,)),
    ensures
        entries.len() <= page_size ==> r.0@ == entries@ && r.1 is None,
        entries.len() > page_size ==> r.0@ == entries@.take(page_size as int),
        entries.len() > page_size && page_size == 0 ==> r.1 is None,
        entries.len() > page_size && page_size > 0 ==> r.1 is Some && call_ensures(
            id_of,
            (&entries@[page_size - 1],),
            r.1->0,
        ),
        r.0.len() <= page_size,
        r.0@ == entries@.take(r.0.len() as int),
        r.1 is Some ==> r.0.len() == page_size && r.0.len() < entries.len(),
        r.0.len() < page_size ==> r.0@ == entries@,
{
    let mut kept = entries;
    if kept.len() > page_size {
        kept.truncate(page_size);
        if page_size > 0 {
            let older: i64 = id_of(&kept[page_size - 1]);
            (kept, Some(older))
        } else {
            (kept, None)
        }
    } else {
        (kept, None)
    }
}

} // verus!
