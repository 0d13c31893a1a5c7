//! Rows held in memory: selecting, counting, updating, deleting, ordering
//! and limiting them, stated over the views of the rows.
use vstd::prelude::*;

verus! {

/// A row that can be copied field by field.
pub trait Dup: View + Sized {
    fn dup(&self) -> (copy: Self)
        ensures
            copy@ == self@,
    ;
}

/// The views of a sequence of rows, in order.
pub open spec fn views<T: View>(s: Seq<T>) -> Seq<T::V> {
    s.map_values(|t: T| t@)
}

/// The rows with `change` applied where `chosen` holds.
pub open spec fn updated<V>(
    s: Seq<V>,
    chosen: spec_fn(V) -> bool,
    change: spec_fn(V) -> V,
) -> Seq<V> {
    s.map_values(
        |v: V|
            if chosen(v) {
                change(v)
            } else {
                v
            },
    )
}

/// The rows for which `chosen` does not hold, in order.
pub open spec fn without<V>(s: Seq<V>, chosen: spec_fn(V) -> bool) -> Seq<V> {
    s.filter(|v: V| !chosen(v))
}

/// `x` put behind every row that may stand before it, and before the rows
/// at the end of `s` that may not.
pub open spec fn placed<V>(s: Seq<V>, x: V, before: spec_fn(V, V) -> bool) -> Seq<V>
    decreases s.len(),
{
    if s.len() == 0 || before(s.last(), x) {
        s.push(x)
    } else {
        placed(s.drop_last(), x, before).push(s.last())
    }
}

/// The rows in the order that `before` gives; rows that may stand either way
/// round keep the order they had.
pub open spec fn ordered<V>(s: Seq<V>, before: spec_fn(V, V) -> bool) -> Seq<V>
    decreases s.len(),
{
    if s.len() == 0 {
        s
    } else {
        placed(ordered(s.drop_last(), before), s.last(), before)
    }
}

/// The first `n` rows; all of them when `n` is negative or too large.
pub open spec fn limited<V>(s: Seq<V>, n: int) -> Seq<V> {
    if 0 <= n < s.len() {
        s.take(n)
    } else {
        s
    }
}

/// The first row for which `chosen` holds.
pub open spec fn first_where<V>(s: Seq<V>, chosen: spec_fn(V) -> bool) -> Option<V>
    decreases s.len(),
{
    if s.len() == 0 {
        None
    } else if chosen(s[0]) {
        Some(s[0])
    } else {
        first_where(s.drop_first(), chosen)
    }
}

/// Whether `chosen` holds for some row.
pub open spec fn any_where<V>(s: Seq<V>, chosen: spec_fn(V) -> bool) -> bool {
    exists|i: int| 0 <= i < s.len() && chosen(#[trigger] s[i])
}

/// The first row of all, where there is one.
pub open spec fn head<V>(s: Seq<V>) -> Option<V> {
    if s.len() == 0 {
        None
    } else {
        Some(s[0])
    }
}

/// The rows without those that are `alike` an earlier one.
pub open spec fn first_of_each<V>(s: Seq<V>, alike: spec_fn(V, V) -> bool) -> Seq<V>
    decreases s.len(),
{
    if s.len() == 0 {
        s
    } else {
        let rest = first_of_each(s.drop_last(), alike);
        if any_where(s.drop_last(), |v: V| alike(v, s.last())) {
            rest
        } else {
            rest.push(s.last())
        }
    }
}

/// Whether `before` is a total preorder: any two rows may stand one way
/// round or the other, and the relation carries over.
pub open spec fn total_preorder<V>(before: spec_fn(V, V) -> bool) -> bool {
    &&& forall|a: V, b: V| #[trigger] before(a, b) || before(b, a)
    &&& forall|a: V, b: V, c: V| #[trigger]
        before(a, b) && #[trigger] before(b, c) ==> before(a, c)
}

/// Whether every row may stand before every later one.
pub open spec fn in_order<V>(s: Seq<V>, before: spec_fn(V, V) -> bool) -> bool {
    forall|i: int, j: int| 0 <= i < j < s.len() ==> before(#[trigger] s[i], #[trigger] s[j])
}

/// Whether `ok` holds for every two rows, the earlier one first.
pub open spec fn pairwise<V>(s: Seq<V>, ok: spec_fn(V, V) -> bool) -> bool {
    forall|i: int, j: int| 0 <= i < j < s.len() ==> ok(#[trigger] s[i], #[trigger] s[j])
}

/// Whether no two rows have the same key.
pub open spec fn distinct<V, K>(s: Seq<V>, key: spec_fn(V) -> K) -> bool {
    forall|i: int, j: int| 0 <= i < j < s.len() ==> key(#[trigger] s[i]) != key(#[trigger] s[j])
}

/// Rows are chosen exactly where there is any.
pub proof fn lemma_filter_any<V>(s: Seq<V>, chosen: spec_fn(V) -> bool)
    ensures
        s.filter(chosen).len() > 0 <==> any_where(s, chosen),
{
    lemma_filter_members(s, chosen);
    if s.filter(chosen).len() > 0 {
        let x = s.filter(chosen)[0];
        assert(s.contains(x) && chosen(x));
        let k = choose|k: int| 0 <= k < s.len() && s[k] == x;
        assert(chosen(s[k]));
    }
    if any_where(s, chosen) {
        let k = choose|k: int| 0 <= k < s.len() && chosen(#[trigger] s[k]);
        s.lemma_filter_contains(chosen, k);
    }
}

/// The rows with the chosen ones changed, or with a new one at the end where
/// none is chosen.
pub open spec fn upserted<V>(
    s: Seq<V>,
    chosen: spec_fn(V) -> bool,
    change: spec_fn(V) -> V,
    fresh: V,
) -> Seq<V> {
    if any_where(s, chosen) {
        updated(s, chosen, change)
    } else {
        s.push(fresh)
    }
}

/// One row for each key stays one row for each key.
pub proof fn lemma_upserted_distinct<V, K>(
    s: Seq<V>,
    key: spec_fn(V) -> K,
    chosen: spec_fn(V) -> bool,
    change: spec_fn(V) -> V,
    fresh: V,
)
    requires
        distinct(s, key),
        forall|v: V| key(#[trigger] change(v)) == key(v),
        forall|v: V| #[trigger] chosen(v) <==> key(v) == key(fresh),
    ensures
        distinct(upserted(s, chosen, change, fresh), key),
{
    if any_where(s, chosen) {
        lemma_distinct_updated(s, key, chosen, change);
    } else {
        assert forall|i: int| 0 <= i < s.len() implies key(#[trigger] s[i]) != key(fresh) by {
            assert(!chosen(s[i]));
        }
        lemma_distinct_push(s, key, fresh);
    }
}

/// The row that is first after a change, where the change keeps a row wanted
/// or not.
pub proof fn lemma_first_where_updated<V>(
    s: Seq<V>,
    chosen: spec_fn(V) -> bool,
    change: spec_fn(V) -> V,
    wanted: spec_fn(V) -> bool,
)
    requires
        forall|i: int|
            0 <= i < s.len() && chosen(#[trigger] s[i]) ==> wanted(change(s[i])) == wanted(s[i]),
    ensures
        first_where(updated(s, chosen, change), wanted) == (match first_where(s, wanted) {
            Some(v) => Some(
                if chosen(v) {
                    change(v)
                } else {
                    v
                },
            ),
            None => None,
        }),
{
    let after = updated(s, chosen, change);
    lemma_first_where_any(s, wanted);
    if first_where(s, wanted) is Some {
        let i = lemma_first_index(s, wanted);
        assert forall|j: int| 0 <= j < i implies !wanted(#[trigger] after[j]) by {
            assert(!wanted(s[j]));
        }
        assert(wanted(s[i]) && wanted(after[i]));
        lemma_first_where(after, wanted, i);
    } else {
        assert forall|j: int| 0 <= j < s.len() implies !wanted(#[trigger] after[j]) by {
            assert(!wanted(s[j]));
        }
        lemma_first_where(after, wanted, s.len() as int);
    }
}

/// Where the first row is.
pub proof fn lemma_first_index<V>(s: Seq<V>, wanted: spec_fn(V) -> bool) -> (i: int)
    requires
        first_where(s, wanted) is Some,
    ensures
        0 <= i < s.len(),
        wanted(s[i]),
        first_where(s, wanted) == Some(s[i]),
        forall|j: int| 0 <= j < i ==> !wanted(#[trigger] s[j]),
    decreases s.len(),
{
    if wanted(s[0]) {
        0
    } else {
        let k = lemma_first_index(s.drop_first(), wanted);
        assert forall|j: int| 0 <= j < k + 1 implies !wanted(#[trigger] s[j]) by {
            if j > 0 {
                assert(!wanted(s.drop_first()[j - 1]));
            }
        }
        k + 1
    }
}

/// The row that is first among those that are left, where no wanted one goes.
pub proof fn lemma_first_where_without<V>(
    s: Seq<V>,
    gone: spec_fn(V) -> bool,
    wanted: spec_fn(V) -> bool,
)
    requires
        forall|i: int| 0 <= i < s.len() && gone(#[trigger] s[i]) ==> !wanted(s[i]),
    ensures
        first_where(without(s, gone), wanted) == first_where(s, wanted),
    decreases s.len(),
{
    reveal(Seq::filter);
    let kept = |v: V| !gone(v);
    if s.len() == 0 {
        assert(s.filter(kept) =~= s);
    } else {
        let rest = s.drop_last();
        assert forall|i: int| 0 <= i < rest.len() && gone(#[trigger] rest[i]) implies !wanted(
            rest[i],
        ) by {
            assert(!wanted(s[i]));
        }
        lemma_first_where_without(rest, gone, wanted);
        assert(s =~= rest.push(s.last()));
        lemma_first_where_push(rest, s.last(), wanted);
        if kept(s.last()) {
            lemma_first_where_push(rest.filter(kept), s.last(), wanted);
        }
    }
}

/// No row is wanted any more once the wanted ones are gone.
pub proof fn lemma_first_where_gone<V>(
    s: Seq<V>,
    gone: spec_fn(V) -> bool,
    wanted: spec_fn(V) -> bool,
)
    requires
        forall|i: int| 0 <= i < s.len() && wanted(#[trigger] s[i]) ==> gone(s[i]),
    ensures
        first_where(without(s, gone), wanted) is None,
{
    lemma_without_members(s, gone);
    let after = without(s, gone);
    assert forall|i: int| 0 <= i < after.len() implies !wanted(#[trigger] after[i]) by {
        assert(s.contains(after[i]) && !gone(after[i]));
        let k = choose|k: int| 0 <= k < s.len() && s[k] == after[i];
        assert(wanted(s[k]) ==> gone(s[k]));
    }
    lemma_first_where(after, wanted, after.len() as int);
}

/// What is found under the key after a row was put in.
pub proof fn lemma_first_where_upserted<V>(
    s: Seq<V>,
    chosen: spec_fn(V) -> bool,
    change: spec_fn(V) -> V,
    fresh: V,
)
    requires
        chosen(fresh),
        forall|v: V| chosen(v) ==> chosen(#[trigger] change(v)),
    ensures
        first_where(upserted(s, chosen, change, fresh), chosen) == (match first_where(s, chosen) {
            Some(v) => Some(change(v)),
            None => Some(fresh),
        }),
{
    lemma_first_where_any(s, chosen);
    if any_where(s, chosen) {
        assert forall|i: int| 0 <= i < s.len() && chosen(#[trigger] s[i]) implies chosen(
            change(s[i]),
        ) == chosen(s[i]) by {
            let n = change(s[i]);
            assert(chosen(n));
        }
        lemma_first_where_updated(s, chosen, change, chosen);
    } else {
        lemma_first_where_push(s, fresh, chosen);
    }
}

/// A row stands among the ordered chosen ones exactly where it is chosen.
pub proof fn lemma_found<V>(
    s: Seq<V>,
    chosen: spec_fn(V) -> bool,
    before: spec_fn(V, V) -> bool,
    i: int,
)
    requires
        total_preorder(before),
        0 <= i < s.len(),
    ensures
        ordered(s.filter(chosen), before).contains(s[i]) <==> chosen(s[i]),
{
    broadcast use vstd::seq_lib::group_to_multiset_ensures;

    let f = s.filter(chosen);
    let o = ordered(f, before);
    ordered_is_a_sorted_rearrangement(f, before);
    if chosen(s[i]) {
        s.lemma_filter_contains(chosen, i);
        assert(f.to_multiset().count(s[i]) > 0);
        assert(o.to_multiset().count(s[i]) > 0);
    }
    if o.contains(s[i]) {
        lemma_ordered_members(f, before);
        let k = choose|k: int| 0 <= k < o.len() && o[k] == s[i];
        assert(f.contains(o[k]));
        lemma_filter_members(s, chosen);
        let m = choose|m: int| 0 <= m < f.len() && f[m] == o[k];
        assert(chosen(f[m]));
    }
}

/// What is left without the chosen rows is every other row.
pub proof fn lemma_without_contains<V>(s: Seq<V>, gone: spec_fn(V) -> bool)
    ensures
        forall|v: V| #[trigger] without(s, gone).contains(v) <==> s.contains(v) && !gone(v),
{
    lemma_without_members(s, gone);
    assert forall|v: V| #[trigger] without(s, gone).contains(v) implies s.contains(v) && !gone(v) by {
        let i = choose|i: int| 0 <= i < without(s, gone).len() && without(s, gone)[i] == v;
        assert(s.contains(without(s, gone)[i]));
    }
    assert forall|v: V| s.contains(v) && !gone(v) implies #[trigger] without(s, gone).contains(v) by {
        let i = choose|i: int| 0 <= i < s.len() && s[i] == v;
        assert(without(s, gone).contains(s[i]));
    }
}

/// Rows that are put in order are all still there.
pub proof fn lemma_ordered_holds_all<V>(s: Seq<V>, before: spec_fn(V, V) -> bool)
    requires
        total_preorder(before),
    ensures
        forall|i: int| 0 <= i < s.len() ==> ordered(s, before).contains(#[trigger] s[i]),
{
    broadcast use vstd::seq_lib::group_to_multiset_ensures;

    ordered_is_a_sorted_rearrangement(s, before);
    assert forall|i: int| 0 <= i < s.len() implies ordered(s, before).contains(#[trigger] s[i]) by {
        assert(s.contains(s[i]));
        assert(s.to_multiset().count(s[i]) > 0);
        assert(ordered(s, before).to_multiset().count(s[i]) > 0);
    }
}

/// A list of the chosen rows in order holds them all and no others.
pub proof fn lemma_listed<V>(s: Seq<V>, chosen: spec_fn(V) -> bool, before: spec_fn(V, V) -> bool)
    requires
        total_preorder(before),
    ensures
        ({
            let o = ordered(s.filter(chosen), before);
            &&& in_order(o, before)
            &&& o.len() == s.filter(chosen).len()
            &&& forall|k: int| 0 <= k < o.len() ==> chosen(#[trigger] o[k]) && s.contains(o[k])
            &&& forall|i: int| 0 <= i < s.len() && chosen(#[trigger] s[i]) ==> o.contains(s[i])
        }),
{
    let o = ordered(s.filter(chosen), before);
    lemma_page(s, chosen, before, -1);
    ordered_is_a_sorted_rearrangement(s.filter(chosen), before);
    assert(limited(o, -1) == o);
    assert forall|i: int| 0 <= i < s.len() && chosen(#[trigger] s[i]) implies o.contains(s[i]) by {
        lemma_found(s, chosen, before, i);
    }
}

/// The first of the chosen rows in order stands before every other chosen one.
pub proof fn lemma_head_of_list<V>(
    s: Seq<V>,
    chosen: spec_fn(V) -> bool,
    before: spec_fn(V, V) -> bool,
)
    requires
        total_preorder(before),
    ensures
        match head(ordered(s.filter(chosen), before)) {
            Some(g) => chosen(g) && s.contains(g) && forall|i: int|
                0 <= i < s.len() && chosen(#[trigger] s[i]) ==> before(g, s[i]),
            None => forall|i: int| 0 <= i < s.len() ==> !chosen(#[trigger] s[i]),
        },
{
    let o = ordered(s.filter(chosen), before);
    lemma_listed(s, chosen, before);
    assert forall|i: int| 0 <= i < s.len() && chosen(#[trigger] s[i]) implies o.len() > 0 && before(
        o[0],
        s[i],
    ) by {
        assert(o.contains(s[i]));
        let k = choose|k: int| 0 <= k < o.len() && o[k] == s[i];
        if k > 0 {
            assert(before(o[0], o[k]));
        } else {
            assert(before(o[0], o[0]) || before(o[0], o[0]));
        }
    }
}

/// A filter that no row passes keeps none.
pub proof fn lemma_filter_none<V>(s: Seq<V>, chosen: spec_fn(V) -> bool)
    requires
        forall|i: int| 0 <= i < s.len() ==> !chosen(#[trigger] s[i]),
    ensures
        s.filter(chosen) == Seq::<V>::empty(),
{
    lemma_filter_members(s, chosen);
    let f = s.filter(chosen);
    if f.len() > 0 {
        assert(s.contains(f[0]));
        assert(chosen(f[0]));
    }
    assert(f =~= Seq::<V>::empty());
}

/// Rows with distinct keys keep them when they are ordered.
pub proof fn lemma_ordered_distinct<V, K>(
    s: Seq<V>,
    key: spec_fn(V) -> K,
    before: spec_fn(V, V) -> bool,
)
    requires
        distinct(s, key),
    ensures
        distinct(ordered(s, before), key),
    decreases s.len(),
{
    if s.len() > 0 {
        let rest = s.drop_last();
        let x = s.last();
        assert(distinct(rest, key));
        lemma_ordered_distinct(rest, key, before);
        lemma_ordered_members(rest, before);
        let o = ordered(rest, before);
        assert forall|i: int| 0 <= i < o.len() implies key(#[trigger] o[i]) != key(x) by {
            assert(rest.contains(o[i]));
            let k = choose|k: int| 0 <= k < rest.len() && rest[k] == o[i];
            assert(key(s[k]) != key(s[s.len() - 1]));
        }
        lemma_placed_distinct(o, x, key, before);
    }
}

proof fn lemma_placed_distinct<V, K>(
    s: Seq<V>,
    x: V,
    key: spec_fn(V) -> K,
    before: spec_fn(V, V) -> bool,
)
    requires
        distinct(s, key),
        forall|i: int| 0 <= i < s.len() ==> key(#[trigger] s[i]) != key(x),
    ensures
        distinct(placed(s, x, before), key),
        forall|i: int|
            0 <= i < placed(s, x, before).len() ==> (#[trigger] placed(s, x, before)[i] == x
                || s.contains(placed(s, x, before)[i])),
    decreases s.len(),
{
    let p = placed(s, x, before);
    if s.len() == 0 || before(s.last(), x) {
        assert(p =~= s.push(x));
        assert forall|i: int| 0 <= i < p.len() implies (#[trigger] p[i] == x || s.contains(p[i])) by {
            if i < s.len() {
                assert(p[i] == s[i]);
            }
        }
    } else {
        let rest = s.drop_last();
        let l = s.last();
        assert(distinct(rest, key));
        lemma_placed_distinct(rest, x, key, before);
        let q = placed(rest, x, before);
        assert(p =~= q.push(l));
        assert(key(s[s.len() - 1]) != key(x));
        assert forall|i: int| 0 <= i < q.len() implies key(#[trigger] q[i]) != key(l) && (q[i] == x
            || s.contains(q[i])) by {
            if q[i] != x {
                assert(rest.contains(q[i]));
                let k = choose|k: int| 0 <= k < rest.len() && rest[k] == q[i];
                assert(key(s[k]) != key(s[s.len() - 1]));
                assert(s[k] == q[i]);
            }
        }
        assert(s[s.len() - 1] == l);
        assert forall|i: int| 0 <= i < p.len() implies (#[trigger] p[i] == x || s.contains(p[i])) by {
            if i < q.len() {
                assert(p[i] == q[i]);
            }
        }
    }
}

/// Ordering the chosen rows is choosing from the ordered ones.
pub proof fn ordering_and_choosing_commute<V>(
    s: Seq<V>,
    chosen: spec_fn(V) -> bool,
    before: spec_fn(V, V) -> bool,
)
    requires
        total_preorder(before),
    ensures
        ordered(s.filter(chosen), before) == ordered(s, before).filter(chosen),
    decreases s.len(),
{
    if s.len() == 0 {
        assert(s.filter(chosen) =~= s);
    } else {
        let rest = s.drop_last();
        let x = s.last();
        assert(s =~= rest.push(x));
        lemma_filter_pushed(rest, x, chosen);
        ordering_and_choosing_commute(rest, chosen, before);
        ordered_is_a_sorted_rearrangement(rest, before);
        lemma_placed_filtered(ordered(rest, before), x, chosen, before);
        if chosen(x) {
            assert(s.filter(chosen).drop_last() =~= rest.filter(chosen));
        }
    }
}

proof fn lemma_filter_pushed<V>(s: Seq<V>, x: V, chosen: spec_fn(V) -> bool)
    ensures
        s.push(x).filter(chosen) == (if chosen(x) {
            s.filter(chosen).push(x)
        } else {
            s.filter(chosen)
        }),
{
    reveal(Seq::filter);
    assert(s.push(x).drop_last() =~= s);
}

proof fn lemma_placed_filtered<V>(
    s: Seq<V>,
    x: V,
    chosen: spec_fn(V) -> bool,
    before: spec_fn(V, V) -> bool,
)
    requires
        total_preorder(before),
        in_order(s, before),
    ensures
        placed(s, x, before).filter(chosen) == (if chosen(x) {
            placed(s.filter(chosen), x, before)
        } else {
            s.filter(chosen)
        }),
    decreases s.len(),
{
    if s.len() == 0 {
        assert(s.filter(chosen) =~= s);
        assert(placed(s, x, before) =~= s.push(x));
        lemma_filter_pushed(s, x, chosen);
    } else {
        let rest = s.drop_last();
        let l = s.last();
        assert(s =~= rest.push(l));
        lemma_filter_pushed(rest, l, chosen);
        if before(l, x) {
            assert(placed(s, x, before) =~= s.push(x));
            lemma_filter_pushed(s, x, chosen);
            let f = s.filter(chosen);
            if f.len() > 0 {
                lemma_filter_members(s, chosen);
                assert(s.contains(f.last()));
                let k = choose|k: int| 0 <= k < s.len() && s[k] == f.last();
                if k < s.len() - 1 {
                    assert(before(s[k], s[s.len() - 1]));
                }
                assert(before(f.last(), x));
                assert(placed(f, x, before) =~= f.push(x));
            } else {
                assert(placed(f, x, before) =~= f.push(x));
            }
        } else {
            assert(in_order(rest, before));
            lemma_placed_filtered(rest, x, chosen, before);
            assert(placed(s, x, before) =~= placed(rest, x, before).push(l));
            lemma_filter_pushed(placed(rest, x, before), l, chosen);
            if chosen(l) {
                let f = s.filter(chosen);
                assert(f.drop_last() =~= rest.filter(chosen));
                assert(f.last() == l);
            }
        }
    }
}

/// A filter that lets a row go keeps fewer rows than one that lets no more
/// through and keeps that row.
pub proof fn lemma_filter_fewer<V>(
    s: Seq<V>,
    few: spec_fn(V) -> bool,
    many: spec_fn(V) -> bool,
    k: int,
)
    requires
        forall|v: V| #[trigger] few(v) ==> many(v),
        0 <= k < s.len(),
        many(s[k]),
        !few(s[k]),
    ensures
        s.filter(few).len() < s.filter(many).len(),
    decreases s.len(),
{
    let rest = s.drop_last();
    assert(s =~= rest.push(s.last()));
    lemma_filter_pushed(rest, s.last(), few);
    lemma_filter_pushed(rest, s.last(), many);
    if k < rest.len() {
        lemma_filter_fewer(rest, few, many, k);
    } else {
        lemma_filter_no_more(rest, few, many);
    }
}

proof fn lemma_filter_no_more<V>(s: Seq<V>, few: spec_fn(V) -> bool, many: spec_fn(V) -> bool)
    requires
        forall|v: V| #[trigger] few(v) ==> many(v),
    ensures
        s.filter(few).len() <= s.filter(many).len(),
    decreases s.len(),
{
    if s.len() > 0 {
        let rest = s.drop_last();
        assert(s =~= rest.push(s.last()));
        lemma_filter_pushed(rest, s.last(), few);
        lemma_filter_pushed(rest, s.last(), many);
        lemma_filter_no_more(rest, few, many);
    } else {
        assert(s.filter(few) =~= s);
    }
}

/// The rows of a page are chosen ones, in order.
pub proof fn lemma_page<V>(
    s: Seq<V>,
    chosen: spec_fn(V) -> bool,
    before: spec_fn(V, V) -> bool,
    n: int,
)
    requires
        total_preorder(before),
    ensures
        ({
            let page = limited(ordered(s.filter(chosen), before), n);
            &&& in_order(page, before)
            &&& forall|i: int|
                0 <= i < page.len() ==> chosen(#[trigger] page[i]) && s.contains(page[i])
        }),
{
    let f = s.filter(chosen);
    lemma_filter_members(s, chosen);
    lemma_ordered_members(f, before);
    ordered_is_a_sorted_rearrangement(f, before);
    let o = ordered(f, before);
    let page = limited(o, n);
    assert forall|i: int| 0 <= i < page.len() implies chosen(#[trigger] page[i]) && s.contains(
        page[i],
    ) by {
        assert(page[i] == o[i]);
        assert(f.contains(o[i]));
        let k = choose|k: int| 0 <= k < f.len() && f[k] == o[i];
        assert(chosen(f[k]));
    }
    assert forall|i: int, j: int| 0 <= i < j < page.len() implies before(
        #[trigger] page[i],
        #[trigger] page[j],
    ) by {
        assert(page[i] == o[i] && page[j] == o[j]);
    }
}

/// Whether every row has an id of its own, at most `last`.
pub open spec fn numbered<V>(s: Seq<V>, id: spec_fn(V) -> i64, last: i64) -> bool {
    distinct(s, id) && forall|i: int| 0 <= i < s.len() ==> id(#[trigger] s[i]) <= last
}

/// A row with a new key keeps the keys distinct.
pub proof fn lemma_distinct_push<V, K>(s: Seq<V>, key: spec_fn(V) -> K, x: V)
    requires
        distinct(s, key),
        forall|i: int| 0 <= i < s.len() ==> key(#[trigger] s[i]) != key(x),
    ensures
        distinct(s.push(x), key),
{
    let after = s.push(x);
    assert forall|i: int, j: int| 0 <= i < j < after.len() implies key(#[trigger] after[i]) != key(
        #[trigger] after[j],
    ) by {
        if j == s.len() {
            assert(key(s[i]) != key(x));
        } else {
            assert(key(s[i]) != key(s[j]));
        }
    }
}

/// A change that keeps the keys keeps them distinct.
pub proof fn lemma_distinct_updated<V, K>(
    s: Seq<V>,
    key: spec_fn(V) -> K,
    chosen: spec_fn(V) -> bool,
    change: spec_fn(V) -> V,
)
    requires
        distinct(s, key),
        forall|v: V| key(#[trigger] change(v)) == key(v),
    ensures
        distinct(updated(s, chosen, change), key),
        forall|i: int| 0 <= i < s.len() ==> key(#[trigger] updated(s, chosen, change)[i]) == key(
            s[i],
        ),
{
    let after = updated(s, chosen, change);
    assert forall|i: int| 0 <= i < s.len() implies key(#[trigger] after[i]) == key(s[i]) by {
        let n = change(s[i]);
        assert(key(n) == key(s[i]));
    }
    assert forall|i: int, j: int| 0 <= i < j < after.len() implies key(#[trigger] after[i]) != key(
        #[trigger] after[j],
    ) by {
        assert(key(s[i]) != key(s[j]));
    }
}

/// A row with a larger id keeps the rows numbered.
pub proof fn lemma_numbered_push<V>(s: Seq<V>, id: spec_fn(V) -> i64, last: i64, x: V)
    requires
        numbered(s, id, last),
        id(x) > last,
    ensures
        numbered(s.push(x), id, id(x)),
{
    assert forall|i: int| 0 <= i < s.len() implies id(#[trigger] s[i]) != id(x) by {
        assert(id(s[i]) <= last);
    }
    lemma_distinct_push(s, id, x);
    assert forall|i: int| 0 <= i < s.push(x).len() implies id(#[trigger] s.push(x)[i]) <= id(x) by {
        if i < s.len() {
            assert(id(s[i]) <= last);
        }
    }
}

/// A change that keeps the ids keeps the rows numbered.
pub proof fn lemma_numbered_updated<V>(
    s: Seq<V>,
    id: spec_fn(V) -> i64,
    last: i64,
    chosen: spec_fn(V) -> bool,
    change: spec_fn(V) -> V,
)
    requires
        numbered(s, id, last),
        forall|v: V| id(#[trigger] change(v)) == id(v),
    ensures
        numbered(updated(s, chosen, change), id, last),
{
    lemma_distinct_updated(s, id, chosen, change);
    let after = updated(s, chosen, change);
    assert forall|i: int| 0 <= i < after.len() implies id(#[trigger] after[i]) <= last by {
        assert(id(s[i]) <= last);
    }
}

/// The rows that are left stay numbered.
pub proof fn lemma_numbered_without<V>(
    s: Seq<V>,
    id: spec_fn(V) -> i64,
    last: i64,
    chosen: spec_fn(V) -> bool,
)
    requires
        numbered(s, id, last),
    ensures
        numbered(without(s, chosen), id, last),
{
    lemma_without_distinct(s, chosen, id);
    lemma_without_members(s, chosen);
    let after = without(s, chosen);
    assert forall|i: int| 0 <= i < after.len() implies id(#[trigger] after[i]) <= last by {
        assert(s.contains(after[i]));
        let k = choose|k: int| 0 <= k < s.len() && s[k] == after[i];
        assert(id(s[k]) <= last);
    }
}

pub proof fn lemma_views_push<T: View>(s: Seq<T>, t: T)
    ensures
        views(s.push(t)) == views(s).push(t@),
{
    assert(views(s.push(t)) =~= views(s).push(t@));
}

spec fn all_before<V>(s: Seq<V>, y: V, before: spec_fn(V, V) -> bool) -> bool {
    forall|i: int| 0 <= i < s.len() ==> before(#[trigger] s[i], y)
}

proof fn lemma_placed_all_before<V>(s: Seq<V>, x: V, y: V, before: spec_fn(V, V) -> bool)
    requires
        all_before(s, y, before),
        before(x, y),
    ensures
        all_before(placed(s, x, before), y, before),
    decreases s.len(),
{
    if s.len() > 0 {
        let rest = s.drop_last();
        assert(forall|i: int| 0 <= i < rest.len() ==> rest[i] == #[trigger] s[i]);
        lemma_placed_all_before(rest, x, y, before);
        assert(before(s[s.len() - 1], y));
    }
}

proof fn lemma_placed_in_order<V>(s: Seq<V>, x: V, before: spec_fn(V, V) -> bool)
    requires
        total_preorder(before),
        in_order(s, before),
    ensures
        in_order(placed(s, x, before), before),
        placed(s, x, before).to_multiset() == s.to_multiset().insert(x),
        placed(s, x, before).len() == s.len() + 1,
    decreases s.len(),
{
    broadcast use vstd::seq_lib::group_to_multiset_ensures;

    if s.len() == 0 || before(s.last(), x) {
        assert forall|i: int, j: int| 0 <= i < j < s.len() + 1 implies before(
            s.push(x)[i],
            s.push(x)[j],
        ) by {
            if j == s.len() {
                if i < s.len() - 1 {
                    assert(before(s[i], s[s.len() - 1]));
                }
            } else {
                assert(before(s[i], s[j]));
            }
        }
    } else {
        let rest = s.drop_last();
        lemma_placed_in_order(rest, x, before);
        let p = placed(rest, x, before);
        assert(before(x, s.last()));
        assert forall|i: int| 0 <= i < rest.len() implies before(#[trigger] rest[i], s.last()) by {
            assert(before(s[i], s[s.len() - 1]));
        }
        lemma_placed_all_before(rest, x, s.last(), before);
        assert(s =~= rest.push(s.last()));
        assert(p.push(s.last()).to_multiset() =~= s.to_multiset().insert(x));
    }
}

/// Ordering keeps the rows and puts them in order.
pub proof fn ordered_is_a_sorted_rearrangement<V>(s: Seq<V>, before: spec_fn(V, V) -> bool)
    requires
        total_preorder(before),
    ensures
        in_order(ordered(s, before), before),
        ordered(s, before).to_multiset() == s.to_multiset(),
        ordered(s, before).len() == s.len(),
    decreases s.len(),
{
    broadcast use vstd::seq_lib::group_to_multiset_ensures;

    if s.len() > 0 {
        let rest = s.drop_last();
        ordered_is_a_sorted_rearrangement(rest, before);
        lemma_placed_in_order(ordered(rest, before), s.last(), before);
        assert(s =~= rest.push(s.last()));
        assert(ordered(s, before).to_multiset() =~= s.to_multiset());
    }
}

/// Rows that are in order already stay as they are.
pub proof fn ordering_rows_in_order_changes_nothing<V>(s: Seq<V>, before: spec_fn(V, V) -> bool)
    requires
        in_order(s, before),
    ensures
        ordered(s, before) == s,
    decreases s.len(),
{
    if s.len() > 0 {
        let rest = s.drop_last();
        assert(in_order(rest, before));
        ordering_rows_in_order_changes_nothing(rest, before);
        if rest.len() > 0 {
            assert(before(s[s.len() - 2], s[s.len() - 1]));
        }
        assert(ordered(s, before) =~= s);
    }
}

proof fn lemma_placed_at<V>(s: Seq<V>, x: V, before: spec_fn(V, V) -> bool, j: int)
    requires
        0 <= j <= s.len(),
        j > 0 ==> before(s[j - 1], x),
        forall|k: int| j <= k < s.len() ==> !before(#[trigger] s[k], x),
    ensures
        placed(s, x, before) == s.insert(j, x),
    decreases s.len(),
{
    if j == s.len() {
        assert(s.insert(j, x) =~= s.push(x));
    } else {
        lemma_placed_at(s.drop_last(), x, before, j);
        assert(!before(s[s.len() - 1], x));
        assert(s.drop_last().insert(j, x).push(s.last()) =~= s.insert(j, x));
    }
}

/// The first row for which `chosen` holds stands behind rows for which it
/// does not.
pub proof fn lemma_first_where<V>(s: Seq<V>, chosen: spec_fn(V) -> bool, i: int)
    requires
        0 <= i <= s.len(),
        forall|j: int| 0 <= j < i ==> !chosen(#[trigger] s[j]),
        i < s.len() ==> chosen(s[i]),
    ensures
        first_where(s, chosen) == (if i < s.len() {
            Some(s[i])
        } else {
            None
        }),
    decreases s.len(),
{
    if s.len() > 0 && i > 0 {
        assert(!chosen(s[0]));
        assert forall|j: int| 0 <= j < i - 1 implies !chosen(#[trigger] s.drop_first()[j]) by {
            assert(!chosen(s[j + 1]));
        }
        lemma_first_where(s.drop_first(), chosen, i - 1);
    }
}

/// A row at the end is the first one only where there was none before.
pub proof fn lemma_first_where_push<V>(s: Seq<V>, x: V, chosen: spec_fn(V) -> bool)
    ensures
        first_where(s.push(x), chosen) == (if first_where(s, chosen) is Some {
            first_where(s, chosen)
        } else if chosen(x) {
            Some(x)
        } else {
            None
        }),
    decreases s.len(),
{
    reveal_with_fuel(first_where, 2);
    if s.len() == 0 {
        assert(s.push(x).drop_first() =~= Seq::<V>::empty());
    } else {
        assert(s.push(x).drop_first() =~= s.drop_first().push(x));
        lemma_first_where_push(s.drop_first(), x, chosen);
    }
}

/// There is a first row exactly where there is any.
pub proof fn lemma_first_where_any<V>(s: Seq<V>, chosen: spec_fn(V) -> bool)
    ensures
        first_where(s, chosen) is Some <==> any_where(s, chosen),
        first_where(s, chosen) is Some ==> chosen(first_where(s, chosen)->0) && s.contains(
            first_where(s, chosen)->0,
        ),
    decreases s.len(),
{
    if s.len() > 0 {
        lemma_first_where_any(s.drop_first(), chosen);
        if chosen(s[0]) {
        } else {
            if any_where(s, chosen) {
                let i = choose|i: int| 0 <= i < s.len() && chosen(#[trigger] s[i]);
                assert(chosen(s.drop_first()[i - 1]));
            }
            if any_where(s.drop_first(), chosen) {
                let i = choose|i: int|
                    0 <= i < s.drop_first().len() && chosen(#[trigger] s.drop_first()[i]);
                assert(chosen(s[i + 1]));
                let x = first_where(s.drop_first(), chosen)->0;
                let k = choose|k: int| 0 <= k < s.drop_first().len() && s.drop_first()[k] == x;
                assert(s[k + 1] == x);
            }
        }
    }
}

/// The rows that are left are rows that were there and were not chosen, and
/// every such row is left.
pub proof fn lemma_without_members<V>(s: Seq<V>, chosen: spec_fn(V) -> bool)
    ensures
        forall|i: int|
            0 <= i < without(s, chosen).len() ==> s.contains(#[trigger] without(s, chosen)[i])
                && !chosen(without(s, chosen)[i]),
        forall|i: int|
            0 <= i < s.len() && !chosen(#[trigger] s[i]) ==> without(s, chosen).contains(s[i]),
{
    let kept = |v: V| !chosen(v);
    lemma_filter_members(s, kept);
    assert forall|i: int| 0 <= i < s.len() && !chosen(#[trigger] s[i]) implies without(
        s,
        chosen,
    ).contains(s[i]) by {
        assert(kept(s[i]));
        s.lemma_filter_contains(kept, i);
    }
    assert forall|i: int| 0 <= i < without(s, chosen).len() implies s.contains(
        #[trigger] without(s, chosen)[i],
    ) && !chosen(without(s, chosen)[i]) by {
        assert(kept(s.filter(kept)[i]));
    }
}

/// The rows that a filter keeps are rows that were there and pass it.
pub proof fn lemma_filter_members<V>(s: Seq<V>, chosen: spec_fn(V) -> bool)
    ensures
        forall|i: int|
            0 <= i < s.filter(chosen).len() ==> s.contains(#[trigger] s.filter(chosen)[i])
                && chosen(s.filter(chosen)[i]),
    decreases s.len(),
{
    reveal(Seq::filter);
    if s.len() > 0 {
        let rest = s.drop_last();
        lemma_filter_members(rest, chosen);
        assert forall|i: int| 0 <= i < s.filter(chosen).len() implies s.contains(
            #[trigger] s.filter(chosen)[i],
        ) && chosen(s.filter(chosen)[i]) by {
            if i < rest.filter(chosen).len() {
                let x = rest.filter(chosen)[i];
                let k = choose|k: int| 0 <= k < rest.len() && rest[k] == x;
                assert(s[k] == x);
            } else {
                assert(s[s.len() - 1] == s.last());
            }
        }
    }
}

/// A filter that every row passes keeps them all.
pub proof fn lemma_filter_all<V>(s: Seq<V>, chosen: spec_fn(V) -> bool)
    requires
        forall|i: int| 0 <= i < s.len() ==> chosen(#[trigger] s[i]),
    ensures
        s.filter(chosen) == s,
    decreases s.len(),
{
    reveal(Seq::filter);
    if s.len() > 0 {
        let rest = s.drop_last();
        assert forall|i: int| 0 <= i < rest.len() implies chosen(#[trigger] rest[i]) by {
            assert(chosen(s[i]));
        }
        lemma_filter_all(rest, chosen);
        assert(chosen(s[s.len() - 1]));
        assert(rest.push(s.last()) =~= s);
    }
}

/// What holds of every two rows still does when some of the rows go.
pub proof fn lemma_filter_pairwise<V>(
    s: Seq<V>,
    chosen: spec_fn(V) -> bool,
    ok: spec_fn(V, V) -> bool,
)
    requires
        pairwise(s, ok),
    ensures
        pairwise(s.filter(chosen), ok),
    decreases s.len(),
{
    reveal(Seq::filter);
    if s.len() > 0 {
        let rest = s.drop_last();
        assert forall|i: int, j: int| 0 <= i < j < rest.len() implies ok(
            #[trigger] rest[i],
            #[trigger] rest[j],
        ) by {
            assert(ok(s[i], s[j]));
        }
        lemma_filter_pairwise(rest, chosen, ok);
        lemma_filter_members(rest, chosen);
        let f = rest.filter(chosen);
        if chosen(s.last()) {
            assert forall|i: int, j: int| 0 <= i < j < f.push(s.last()).len() implies ok(
                #[trigger] f.push(s.last())[i],
                #[trigger] f.push(s.last())[j],
            ) by {
                if j == f.len() {
                    let k = choose|k: int| 0 <= k < rest.len() && rest[k] == f[i];
                    assert(ok(s[k], s[s.len() - 1]));
                } else {
                    assert(ok(f[i], f[j]));
                }
            }
        }
    }
}

/// Rows with distinct keys keep them when some of the rows go.
pub proof fn lemma_filter_distinct<V, K>(
    s: Seq<V>,
    chosen: spec_fn(V) -> bool,
    key: spec_fn(V) -> K,
)
    requires
        distinct(s, key),
    ensures
        distinct(s.filter(chosen), key),
{
    let differ = |a: V, b: V| key(a) != key(b);
    lemma_filter_pairwise(s, chosen, differ);
    let f = s.filter(chosen);
    assert forall|i: int, j: int| 0 <= i < j < f.len() implies key(#[trigger] f[i]) != key(
        #[trigger] f[j],
    ) by {
        assert(differ(f[i], f[j]));
    }
}

/// Rows with distinct keys keep them when some of the rows go.
pub proof fn lemma_without_distinct<V, K>(
    s: Seq<V>,
    chosen: spec_fn(V) -> bool,
    key: spec_fn(V) -> K,
)
    requires
        distinct(s, key),
    ensures
        distinct(without(s, chosen), key),
{
    lemma_filter_distinct(s, |v: V| !chosen(v), key);
}

/// The first rows of each kind are rows that were there.
pub proof fn lemma_first_of_each_members<V>(s: Seq<V>, alike: spec_fn(V, V) -> bool)
    ensures
        forall|i: int|
            0 <= i < first_of_each(s, alike).len() ==> s.contains(
                #[trigger] first_of_each(s, alike)[i],
            ),
    decreases s.len(),
{
    if s.len() > 0 {
        let rest = s.drop_last();
        lemma_first_of_each_members(rest, alike);
        let f = first_of_each(rest, alike);
        assert forall|i: int| 0 <= i < first_of_each(s, alike).len() implies s.contains(
            #[trigger] first_of_each(s, alike)[i],
        ) by {
            if i < f.len() {
                assert(rest.contains(f[i]));
                let k = choose|k: int| 0 <= k < rest.len() && rest[k] == f[i];
                assert(s[k] == f[i]);
            } else {
                assert(s[s.len() - 1] == s.last());
            }
        }
    }
}

/// No two of the first rows of each kind are alike.
pub proof fn lemma_first_of_each_differ<V>(s: Seq<V>, alike: spec_fn(V, V) -> bool)
    ensures
        forall|i: int, j: int|
            0 <= i < j < first_of_each(s, alike).len() ==> !alike(
                #[trigger] first_of_each(s, alike)[i],
                #[trigger] first_of_each(s, alike)[j],
            ),
    decreases s.len(),
{
    if s.len() > 0 {
        let rest = s.drop_last();
        lemma_first_of_each_differ(rest, alike);
        lemma_first_of_each_members(rest, alike);
        let f = first_of_each(rest, alike);
        let all = first_of_each(s, alike);
        let like_last = |v: V| alike(v, s.last());
        assert forall|i: int, j: int| 0 <= i < j < all.len() implies !alike(
            #[trigger] all[i],
            #[trigger] all[j],
        ) by {
            if j == f.len() {
                assert(rest.contains(f[i]));
                let k = choose|k: int| 0 <= k < rest.len() && rest[k] == f[i];
                assert(!like_last(rest[k]));
            } else {
                assert(!alike(f[i], f[j]));
            }
        }
    }
}

/// Ordered rows are rows that were there.
pub proof fn lemma_ordered_members<V>(s: Seq<V>, before: spec_fn(V, V) -> bool)
    ensures
        ordered(s, before).len() == s.len(),
        forall|i: int| 0 <= i < s.len() ==> s.contains(#[trigger] ordered(s, before)[i]),
    decreases s.len(),
{
    if s.len() > 0 {
        let rest = s.drop_last();
        lemma_ordered_members(rest, before);
        let o = ordered(rest, before);
        lemma_placed_members(o, s.last(), before);
        assert forall|i: int| 0 <= i < s.len() implies s.contains(
            #[trigger] ordered(s, before)[i],
        ) by {
            let x = ordered(s, before)[i];
            if x == s.last() {
                assert(s[s.len() - 1] == x);
            } else {
                assert(o.contains(x));
                let k = choose|k: int| 0 <= k < o.len() && o[k] == x;
                assert(rest.contains(o[k]));
                let m = choose|m: int| 0 <= m < rest.len() && rest[m] == x;
                assert(s[m] == x);
            }
        }
    }
}

proof fn lemma_placed_members<V>(s: Seq<V>, x: V, before: spec_fn(V, V) -> bool)
    ensures
        placed(s, x, before).len() == s.len() + 1,
        forall|i: int|
            0 <= i < s.len() + 1 ==> (#[trigger] placed(s, x, before)[i]) == x || s.contains(
                placed(s, x, before)[i],
            ),
    decreases s.len(),
{
    if s.len() == 0 || before(s.last(), x) {
        assert forall|i: int| 0 <= i < s.len() + 1 implies (#[trigger] placed(s, x, before)[i]) == x
            || s.contains(placed(s, x, before)[i]) by {
            if i < s.len() {
                assert(s[i] == placed(s, x, before)[i]);
            }
        }
    } else {
        let rest = s.drop_last();
        lemma_placed_members(rest, x, before);
        let p = placed(rest, x, before);
        assert forall|i: int| 0 <= i < s.len() + 1 implies (#[trigger] placed(s, x, before)[i]) == x
            || s.contains(placed(s, x, before)[i]) by {
            if i < p.len() {
                if p[i] != x {
                    let k = choose|k: int| 0 <= k < rest.len() && rest[k] == p[i];
                    assert(s[k] == p[i]);
                }
            } else {
                assert(s[s.len() - 1] == s.last());
            }
        }
    }
}

/// A copy of a list of plain values.
pub(crate) fn dup_list<T: Copy>(list: &Vec<T>) -> (out: Vec<T>)
    ensures
        out@ == list@,
{
    let mut out: Vec<T> = Vec::new();
    let mut i: usize = 0;
    while i < list.len()
        invariant
            i <= list.len(),
            out@ == list@.take(i as int),
        decreases list.len() - i,
    {
        out.push(list[i]);
        assert(out@ =~= list@.take(i + 1));
        i += 1;
    }
    assert(out@ =~= list@);
    out
}

/// Copies of all rows.
pub(crate) fn dup_all<T: Dup>(rows: &Vec<T>) -> (out: Vec<T>)
    ensures
        views(out@) == views(rows@),
{
    let mut out: Vec<T> = Vec::new();
    let mut i: usize = 0;
    while i < rows.len()
        invariant
            i <= rows.len(),
            views(out@) == views(rows@).take(i as int),
        decreases rows.len() - i,
    {
        let ghost before = out@;
        out.push(rows[i].dup());
        proof {
            lemma_views_push(before, out@.last());
            assert(views(rows@).take(i + 1) =~= views(rows@).take(i as int).push(rows@[i as int]@));
        }
        i += 1;
    }
    assert(views(rows@).take(i as int) =~= views(rows@));
    out
}

/// Copies of the rows for which `test` holds, in order.
pub(crate) fn select<T: Dup, F: Fn(&T) -> bool>(
    rows: &Vec<T>,
    test: F,
    Ghost(chosen): Ghost<spec_fn(T::V) -> bool>,
) -> (out: Vec<T>)
    requires
        forall|t: &T| #[trigger] call_requires(test, (t,)),
        forall|t: &T, b: bool| #[trigger] call_ensures(test, (t,), b) ==> b == chosen(t@),
    ensures
        views(out@) == views(rows@).filter(chosen),
{
    let mut out: Vec<T> = Vec::new();
    let mut i: usize = 0;
    proof {
        reveal(Seq::filter);
        assert(views(rows@).take(0).filter(chosen) =~= Seq::<T::V>::empty());
        assert(views(out@) =~= Seq::<T::V>::empty());
    }
    while i < rows.len()
        invariant
            i <= rows.len(),
            forall|t: &T| #[trigger] call_requires(test, (t,)),
            forall|t: &T, b: bool| #[trigger] call_ensures(test, (t,), b) ==> b == chosen(t@),
            views(out@) == views(rows@).take(i as int).filter(chosen),
        decreases rows.len() - i,
    {
        let ghost before = out@;
        proof {
            assert(views(rows@).take(i + 1) =~= views(rows@).take(i as int).push(rows@[i as int]@));
            views(rows@).take(i as int).lemma_filter_push(rows@[i as int]@, chosen);
        }
        if test(&rows[i]) {
            out.push(rows[i].dup());
            proof {
                lemma_views_push(before, out@.last());
            }
        }
        i += 1;
    }
    assert(views(rows@).take(i as int) =~= views(rows@));
    out
}

/// How many rows `test` holds for.
pub(crate) fn count_where<T: View, F: Fn(&T) -> bool>(
    rows: &Vec<T>,
    test: F,
    Ghost(chosen): Ghost<spec_fn(T::V) -> bool>,
) -> (n: usize)
    requires
        forall|t: &T| #[trigger] call_requires(test, (t,)),
        forall|t: &T, b: bool| #[trigger] call_ensures(test, (t,), b) ==> b == chosen(t@),
    ensures
        n == views(rows@).filter(chosen).len(),
{
    let mut n: usize = 0;
    let mut i: usize = 0;
    proof {
        reveal(Seq::filter);
        assert(views(rows@).take(0).filter(chosen) =~= Seq::<T::V>::empty());
    }
    while i < rows.len()
        invariant
            i <= rows.len(),
            n <= i,
            forall|t: &T| #[trigger] call_requires(test, (t,)),
            forall|t: &T, b: bool| #[trigger] call_ensures(test, (t,), b) ==> b == chosen(t@),
            n == views(rows@).take(i as int).filter(chosen).len(),
        decreases rows.len() - i,
    {
        proof {
            assert(views(rows@).take(i + 1) =~= views(rows@).take(i as int).push(rows@[i as int]@));
            views(rows@).take(i as int).lemma_filter_push(rows@[i as int]@, chosen);
        }
        if test(&rows[i]) {
            n += 1;
        }
        i += 1;
    }
    assert(views(rows@).take(i as int) =~= views(rows@));
    n
}

/// What `make` makes of each row, in order.
pub(crate) fn project<T: View, U: View, F: Fn(&T) -> U>(
    rows: &Vec<T>,
    make: F,
    Ghost(made): Ghost<spec_fn(T::V) -> U::V>,
    Ghost(learnt): Ghost<spec_fn(T::V) -> bool>,
) -> (out: Vec<U>)
    requires
        forall|t: &T| #[trigger] call_requires(make, (t,)),
        forall|t: &T, u: U| #[trigger]
            call_ensures(make, (t,), u) ==> u@ == made(t@) && learnt(t@),
    ensures
        views(out@) == views(rows@).map_values(made),
        forall|i: int| 0 <= i < rows.len() ==> learnt(#[trigger] views(rows@)[i]),
{
    let mut out: Vec<U> = Vec::new();
    let mut i: usize = 0;
    while i < rows.len()
        invariant
            i <= rows.len(),
            out.len() == i,
            forall|t: &T| #[trigger] call_requires(make, (t,)),
            forall|t: &T, u: U| #[trigger]
                call_ensures(make, (t,), u) ==> u@ == made(t@) && learnt(t@),
            forall|j: int| 0 <= j < i ==> #[trigger] out@[j]@ == made(views(rows@)[j]),
            forall|j: int| 0 <= j < i ==> learnt(#[trigger] views(rows@)[j]),
        decreases rows.len() - i,
    {
        let u = make(&rows[i]);
        out.push(u);
        i += 1;
    }
    assert(views(out@) =~= views(rows@).map_values(made));
    out
}

/// Copies of the rows without those that are alike an earlier one.
pub(crate) fn keep_first_of_each<T: Dup, F: Fn(&T, &T) -> bool>(
    rows: &Vec<T>,
    test: F,
    Ghost(alike): Ghost<spec_fn(T::V, T::V) -> bool>,
) -> (out: Vec<T>)
    requires
        forall|a: &T, b: &T| #[trigger] call_requires(test, (a, b)),
        forall|a: &T, b: &T, r: bool| #[trigger]
            call_ensures(test, (a, b), r) ==> r == alike(a@, b@),
    ensures
        views(out@) == first_of_each(views(rows@), alike),
{
    let ghost all = views(rows@);
    let mut out: Vec<T> = Vec::new();
    let mut i: usize = 0;
    assert(views(out@) =~= first_of_each(all.take(0), alike));
    while i < rows.len()
        invariant
            i <= rows.len(),
            all == views(rows@),
            forall|a: &T, b: &T| #[trigger] call_requires(test, (a, b)),
            forall|a: &T, b: &T, r: bool| #[trigger]
                call_ensures(test, (a, b), r) ==> r == alike(a@, b@),
            views(out@) == first_of_each(all.take(i as int), alike),
        decreases rows.len() - i,
    {
        let mut found: bool = false;
        let mut j: usize = 0;
        while j < i
            invariant
                j <= i < rows.len(),
                all == views(rows@),
                forall|a: &T, b: &T| #[trigger] call_requires(test, (a, b)),
                forall|a: &T, b: &T, r: bool| #[trigger]
                    call_ensures(test, (a, b), r) ==> r == alike(a@, b@),
                found == exists|k: int| 0 <= k < j && alike(#[trigger] all[k], all[i as int]),
            decreases i - j,
        {
            if test(&rows[j], &rows[i]) {
                assert(alike(all[j as int], all[i as int]));
                found = true;
            }
            j += 1;
        }
        proof {
            let s = all.take(i + 1);
            assert(s.drop_last() =~= all.take(i as int));
            let like_last = |v: T::V| alike(v, s.last());
            assert(found == any_where(s.drop_last(), like_last)) by {
                if found {
                    let k = choose|k: int| 0 <= k < j && alike(#[trigger] all[k], all[i as int]);
                    assert(like_last(s.drop_last()[k]));
                }
                if any_where(s.drop_last(), like_last) {
                    let k = choose|k: int|
                        0 <= k < s.drop_last().len() && like_last(#[trigger] s.drop_last()[k]);
                    assert(alike(all[k], all[i as int]));
                }
            }
        }
        if !found {
            let ghost had = out@;
            out.push(rows[i].dup());
            proof {
                lemma_views_push(had, out@.last());
            }
        }
        i += 1;
    }
    assert(all.take(i as int) =~= all);
    out
}

/// Whether `test` holds for some row.
pub(crate) fn any<T: View, F: Fn(&T) -> bool>(
    rows: &Vec<T>,
    test: F,
    Ghost(chosen): Ghost<spec_fn(T::V) -> bool>,
) -> (r: bool)
    requires
        forall|t: &T| #[trigger] call_requires(test, (t,)),
        forall|t: &T, b: bool| #[trigger] call_ensures(test, (t,), b) ==> b == chosen(t@),
    ensures
        r == any_where(views(rows@), chosen),
{
    match position(rows, test, Ghost(chosen)) {
        Some(i) => {
            assert(chosen(views(rows@)[i as int]));
            true
        },
        None => false,
    }
}

/// The contents of a row that may be missing.
pub open spec fn optional_view<T: View>(o: Option<T>) -> Option<T::V> {
    match o {
        Some(t) => Some(t@),
        None => None,
    }
}

/// A copy of the first row for which `test` holds.
pub(crate) fn find_first<T: Dup, F: Fn(&T) -> bool>(
    rows: &Vec<T>,
    test: F,
    Ghost(chosen): Ghost<spec_fn(T::V) -> bool>,
) -> (r: Option<T>)
    requires
        forall|t: &T| #[trigger] call_requires(test, (t,)),
        forall|t: &T, b: bool| #[trigger] call_ensures(test, (t,), b) ==> b == chosen(t@),
    ensures
        optional_view(r) == first_where(views(rows@), chosen),
{
    match position(rows, test, Ghost(chosen)) {
        Some(i) => Some(rows[i].dup()),
        None => None,
    }
}

/// Where the first row is for which `test` holds.
pub(crate) fn position<T: View, F: Fn(&T) -> bool>(
    rows: &Vec<T>,
    test: F,
    Ghost(chosen): Ghost<spec_fn(T::V) -> bool>,
) -> (found: Option<usize>)
    requires
        forall|t: &T| #[trigger] call_requires(test, (t,)),
        forall|t: &T, b: bool| #[trigger] call_ensures(test, (t,), b) ==> b == chosen(t@),
    ensures
        match found {
            Some(i) => {
                &&& i < rows.len()
                &&& chosen(views(rows@)[i as int])
                &&& forall|j: int| 0 <= j < i ==> !chosen(#[trigger] views(rows@)[j])
            },
            None => forall|j: int| 0 <= j < rows.len() ==> !chosen(#[trigger] views(rows@)[j]),
        },
        first_where(views(rows@), chosen) == (match found {
            Some(i) => Some(rows[i as int]@),
            None => None,
        }),
{
    let mut i: usize = 0;
    while i < rows.len()
        invariant
            i <= rows.len(),
            forall|t: &T| #[trigger] call_requires(test, (t,)),
            forall|t: &T, b: bool| #[trigger] call_ensures(test, (t,), b) ==> b == chosen(t@),
            forall|j: int| 0 <= j < i ==> !chosen(#[trigger] views(rows@)[j]),
        decreases rows.len() - i,
    {
        if test(&rows[i]) {
            proof {
                lemma_first_where(views(rows@), chosen, i as int);
            }
            return Some(i);
        }
        i += 1;
    }
    proof {
        lemma_first_where(views(rows@), chosen, i as int);
    }
    None
}

/// Whether `test` holds for every row.
pub(crate) fn every<T: View, F: Fn(&T) -> bool>(
    rows: &Vec<T>,
    test: F,
    Ghost(ok): Ghost<spec_fn(T::V) -> bool>,
) -> (r: bool)
    requires
        forall|t: &T| #[trigger] call_requires(test, (t,)),
        forall|t: &T, b: bool| #[trigger] call_ensures(test, (t,), b) ==> b == ok(t@),
    ensures
        r == forall|i: int| 0 <= i < rows.len() ==> ok(#[trigger] views(rows@)[i]),
{
    let mut i: usize = 0;
    while i < rows.len()
        invariant
            i <= rows.len(),
            forall|t: &T| #[trigger] call_requires(test, (t,)),
            forall|t: &T, b: bool| #[trigger] call_ensures(test, (t,), b) ==> b == ok(t@),
            forall|j: int| 0 <= j < i ==> ok(#[trigger] views(rows@)[j]),
        decreases rows.len() - i,
    {
        if !test(&rows[i]) {
            assert(!ok(views(rows@)[i as int]));
            return false;
        }
        i += 1;
    }
    true
}

/// Whether `test` holds for every two rows, the earlier one first.
pub(crate) fn every_pair<T: View, F: Fn(&T, &T) -> bool>(
    rows: &Vec<T>,
    test: F,
    Ghost(ok): Ghost<spec_fn(T::V, T::V) -> bool>,
) -> (r: bool)
    requires
        forall|a: &T, b: &T| #[trigger] call_requires(test, (a, b)),
        forall|a: &T, b: &T, r: bool| #[trigger]
            call_ensures(test, (a, b), r) ==> r == ok(a@, b@),
    ensures
        r == pairwise(views(rows@), ok),
{
    let ghost s = views(rows@);
    let mut j: usize = 0;
    while j < rows.len()
        invariant
            j <= rows.len(),
            s == views(rows@),
            forall|a: &T, b: &T| #[trigger] call_requires(test, (a, b)),
            forall|a: &T, b: &T, r: bool| #[trigger]
                call_ensures(test, (a, b), r) ==> r == ok(a@, b@),
            forall|x: int, y: int| 0 <= x < y < j ==> ok(#[trigger] s[x], #[trigger] s[y]),
        decreases rows.len() - j,
    {
        let mut i: usize = 0;
        while i < j
            invariant
                i <= j < rows.len(),
                s == views(rows@),
                forall|a: &T, b: &T| #[trigger] call_requires(test, (a, b)),
                forall|a: &T, b: &T, r: bool| #[trigger]
                    call_ensures(test, (a, b), r) ==> r == ok(a@, b@),
                forall|x: int| 0 <= x < i ==> ok(#[trigger] s[x], s[j as int]),
            decreases j - i,
        {
            if !test(&rows[i], &rows[j]) {
                assert(!ok(s[i as int], s[j as int]));
                return false;
            }
            i += 1;
        }
        j += 1;
    }
    true
}

/// Whether every row has an id of its own, at most `last`.
pub(crate) fn check_numbered<T: View, F: Fn(&T) -> i64>(
    rows: &Vec<T>,
    last: i64,
    id_of: F,
    Ghost(id): Ghost<spec_fn(T::V) -> i64>,
) -> (r: bool)
    requires
        forall|t: &T| #[trigger] call_requires(id_of, (t,)),
        forall|t: &T, n: i64| #[trigger] call_ensures(id_of, (t,), n) ==> n == id(t@),
    ensures
        r == numbered(views(rows@), id, last),
{
    let ghost s = views(rows@);
    let mut j: usize = 0;
    while j < rows.len()
        invariant
            j <= rows.len(),
            s == views(rows@),
            forall|t: &T| #[trigger] call_requires(id_of, (t,)),
            forall|t: &T, n: i64| #[trigger] call_ensures(id_of, (t,), n) ==> n == id(t@),
            forall|x: int, y: int|
                0 <= x < y < j ==> id(#[trigger] s[x]) != id(#[trigger] s[y]),
            forall|x: int| 0 <= x < j ==> id(#[trigger] s[x]) <= last,
        decreases rows.len() - j,
    {
        let own_id: i64 = id_of(&rows[j]);
        assert(own_id == id(s[j as int]));
        if own_id > last {
            return false;
        }
        let mut i: usize = 0;
        while i < j
            invariant
                i <= j < rows.len(),
                s == views(rows@),
                own_id == id(s[j as int]),
                forall|t: &T| #[trigger] call_requires(id_of, (t,)),
                forall|t: &T, n: i64| #[trigger] call_ensures(id_of, (t,), n) ==> n == id(t@),
                forall|x: int| 0 <= x < i ==> id(#[trigger] s[x]) != own_id,
            decreases j - i,
        {
            let other: i64 = id_of(&rows[i]);
            assert(other == id(s[i as int]));
            if other == own_id {
                return false;
            }
            i += 1;
        }
        j += 1;
    }
    true
}

/// Drops the rows for which `test` holds and says how many there were.
pub(crate) fn delete_where<T: View, F: Fn(&T) -> bool>(
    rows: &mut Vec<T>,
    test: F,
    Ghost(chosen): Ghost<spec_fn(T::V) -> bool>,
) -> (n: usize)
    requires
        forall|t: &T| #[trigger] call_requires(test, (t,)),
        forall|t: &T, b: bool| #[trigger] call_ensures(test, (t,), b) ==> b == chosen(t@),
    ensures
        views(final(rows)@) == without(views(old(rows)@), chosen),
        n == views(old(rows)@).len() - without(views(old(rows)@), chosen).len(),
{
    let ghost all = views(rows@);
    let ghost kept = |v: T::V| !chosen(v);
    let mut rest: Vec<T> = Vec::new();
    std::mem::swap(rows, &mut rest);
    let total: usize = rest.len();
    let mut flipped: Vec<T> = Vec::new();
    proof {
        assert(all.skip(all.len() as int) =~= Seq::<T::V>::empty());
        reveal(Seq::filter);
        assert(Seq::<T::V>::empty().filter(kept) =~= Seq::<T::V>::empty());
        assert(views(flipped@) =~= Seq::<T::V>::empty());
        assert(views(rest@) =~= all.take(all.len() as int));
    }
    while rest.len() > 0
        invariant
            rest.len() <= all.len(),
            forall|t: &T| #[trigger] call_requires(test, (t,)),
            forall|t: &T, b: bool| #[trigger] call_ensures(test, (t,), b) ==> b == chosen(t@),
            kept == (|v: T::V| !chosen(v)),
            views(rest@) == all.take(rest.len() as int),
            views(flipped@).reverse() == all.skip(rest.len() as int).filter(kept),
        decreases rest.len(),
    {
        let ghost had = rest@;
        let ghost flipped_before = flipped@;
        let taken = rest.pop();
        if let Some(t) = taken {
            proof {
                let n = rest.len() as int;
                assert(t@ == views(had)[n]);
                assert(all[n] == t@);
                assert(all.skip(n) =~= seq![t@] + all.skip(n + 1));
                Seq::filter_distributes_over_add(seq![t@], all.skip(n + 1), kept);
                reveal_with_fuel(Seq::filter, 2);
                assert(seq![t@].drop_last() =~= Seq::<T::V>::empty());
                assert(views(rest@) =~= all.take(n));
            }
            if !test(&t) {
                let ghost v = t@;
                flipped.push(t);
                proof {
                    lemma_views_push(flipped_before, flipped@.last());
                    assert(views(flipped@).reverse() =~= seq![v] + views(flipped_before).reverse());
                    assert(seq![v].filter(kept) =~= seq![v]);
                }
            } else {
                proof {
                    assert(seq![t@].filter(kept) =~= Seq::<T::V>::empty());
                    assert(all.skip(rest.len() as int).filter(kept) =~= all.skip(
                        rest.len() + 1,
                    ).filter(kept));
                }
            }
        }
    }
    assert(all.skip(0) =~= all);
    let kept_count: usize = flipped.len();
    proof {
        assert(views(flipped@).reverse().len() == flipped.len());
        all.lemma_filter_len(kept);
    }
    *rows = flip(flipped);
    total - kept_count
}

/// The rows in reverse.
pub(crate) fn flip<T: View>(rows: Vec<T>) -> (out: Vec<T>)
    ensures
        views(out@) == views(rows@).reverse(),
        out@ == rows@.reverse(),
{
    let ghost all = rows@;
    let mut rest = rows;
    let mut out: Vec<T> = Vec::new();
    while rest.len() > 0
        invariant
            rest.len() <= all.len(),
            rest@ == all.take(rest.len() as int),
            out@ == all.reverse().take(all.len() - rest.len()),
        decreases rest.len(),
    {
        let ghost n = rest.len() as int;
        if let Some(t) = rest.pop() {
            out.push(t);
            proof {
                assert(rest@ =~= all.take(n - 1));
                assert(out@ =~= all.reverse().take(all.len() - n + 1));
            }
        }
    }
    assert(out@ =~= all.reverse());
    assert(views(out@) =~= views(all).reverse());
    out
}

/// Replaces every row for which `test` holds by what `change` makes of it and
/// says how many there were.
pub(crate) fn update_where<T: View, F: Fn(&T) -> bool, G: Fn(T) -> T>(
    rows: &mut Vec<T>,
    test: F,
    change: G,
    Ghost(chosen): Ghost<spec_fn(T::V) -> bool>,
    Ghost(changed): Ghost<spec_fn(T::V) -> T::V>,
) -> (n: usize)
    requires
        forall|t: &T| #[trigger] call_requires(test, (t,)),
        forall|t: &T, b: bool| #[trigger] call_ensures(test, (t,), b) ==> b == chosen(t@),
        forall|t: T| #[trigger] call_requires(change, (t,)),
        forall|t: T, r: T| #[trigger] call_ensures(change, (t,), r) ==> r@ == changed(t@),
    ensures
        views(final(rows)@) == updated(views(old(rows)@), chosen, changed),
        n == views(old(rows)@).filter(chosen).len(),
{
    let ghost all = views(rows@);
    let ghost done = updated(all, chosen, changed);
    let counting = |t: &T| -> (b: bool)
        ensures b == chosen(t@)
        { test(t) };
    let n: usize = count_where(rows, counting, Ghost(chosen));
    let mut rest: Vec<T> = Vec::new();
    std::mem::swap(rows, &mut rest);
    let mut flipped: Vec<T> = Vec::new();
    assert(views(rest@) =~= all.take(all.len() as int));
    while rest.len() > 0
        invariant
            rest.len() <= all.len(),
            done == updated(all, chosen, changed),
            forall|t: &T| #[trigger] call_requires(test, (t,)),
            forall|t: &T, b: bool| #[trigger] call_ensures(test, (t,), b) ==> b == chosen(t@),
            forall|t: T| #[trigger] call_requires(change, (t,)),
            forall|t: T, r: T| #[trigger] call_ensures(change, (t,), r) ==> r@ == changed(t@),
            views(rest@) == all.take(rest.len() as int),
            views(flipped@) == done.reverse().take(all.len() - rest.len()),
        decreases rest.len(),
    {
        let ghost had = rest@;
        let ghost flipped_before = flipped@;
        let taken = rest.pop();
        if let Some(t) = taken {
            let ghost m = rest.len() as int;
            let ghost v = t@;
            proof {
                assert(v == views(had)[m]);
                assert(all[m] == v);
                assert(views(rest@) =~= all.take(m));
            }
            let new_row = if test(&t) {
                change(t)
            } else {
                t
            };
            assert(new_row@ == done[m]);
            flipped.push(new_row);
            proof {
                lemma_views_push(flipped_before, new_row);
                assert(views(flipped@) =~= done.reverse().take(all.len() - m));
            }
        }
    }
    assert(views(flipped@) =~= done.reverse());
    *rows = flip(flipped);
    assert(done.reverse().reverse() =~= done);
    n
}

/// Changes the rows for which `test` holds, or puts `fresh` at the end where it
/// holds for none.
pub(crate) fn upsert<T: View, F: Fn(&T) -> bool, G: Fn(T) -> T>(
    rows: &mut Vec<T>,
    test: F,
    change: G,
    fresh: T,
    Ghost(chosen): Ghost<spec_fn(T::V) -> bool>,
    Ghost(changed): Ghost<spec_fn(T::V) -> T::V>,
)
    requires
        forall|t: &T| #[trigger] call_requires(test, (t,)),
        forall|t: &T, b: bool| #[trigger] call_ensures(test, (t,), b) ==> b == chosen(t@),
        forall|t: T| #[trigger] call_requires(change, (t,)),
        forall|t: T, r: T| #[trigger] call_ensures(change, (t,), r) ==> r@ == changed(t@),
    ensures
        views(final(rows)@) == upserted(views(old(rows)@), chosen, changed, fresh@),
{
    let ghost s = views(rows@);
    let n: usize = update_where(rows, test, change, Ghost(chosen), Ghost(changed));
    if n == 0 {
        proof {
            assert forall|i: int| 0 <= i < s.len() implies !chosen(#[trigger] s[i]) by {
                if chosen(s[i]) {
                    s.lemma_filter_contains(chosen, i);
                }
            }
            assert(updated(s, chosen, changed) =~= s);
            lemma_views_push(rows@, fresh);
        }
        rows.push(fresh);
    } else {
        proof {
            lemma_filter_members(s, chosen);
            let x = s.filter(chosen)[0];
            assert(s.contains(x) && chosen(x));
            let k = choose|k: int| 0 <= k < s.len() && s[k] == x;
            assert(chosen(s[k]));
        }
    }
}

/// The rows in the order that `test` gives.
pub(crate) fn order_by<T: View, F: Fn(&T, &T) -> bool>(
    rows: Vec<T>,
    test: F,
    Ghost(before): Ghost<spec_fn(T::V, T::V) -> bool>,
) -> (out: Vec<T>)
    requires
        forall|a: &T, b: &T| #[trigger] call_requires(test, (a, b)),
        forall|a: &T, b: &T, r: bool| #[trigger]
            call_ensures(test, (a, b), r) ==> r == before(a@, b@),
    ensures
        views(out@) == ordered(views(rows@), before),
{
    let ghost all = views(rows@);
    let mut rest = flip(rows);
    let mut out: Vec<T> = Vec::new();
    assert(all.take(0) =~= Seq::<T::V>::empty());
    assert(views(out@) =~= Seq::<T::V>::empty());
    assert(views(rest@) =~= all.skip(0).reverse());
    while rest.len() > 0
        invariant
            rest.len() <= all.len(),
            forall|a: &T, b: &T| #[trigger] call_requires(test, (a, b)),
            forall|a: &T, b: &T, r: bool| #[trigger]
                call_ensures(test, (a, b), r) ==> r == before(a@, b@),
            views(rest@) == all.skip(all.len() - rest.len()).reverse(),
            views(out@) == ordered(all.take(all.len() - rest.len()), before),
        decreases rest.len(),
    {
        let ghost had = rest@;
        let taken = rest.pop();
        if let Some(t) = taken {
            let ghost k = all.len() - rest.len() - 1;
            let ghost v = t@;
            let ghost sorted = views(out@);
            proof {
                assert(v == views(had)[had.len() - 1]);
                assert(v == all[k]);
                assert(all.take(k + 1).drop_last() =~= all.take(k));
                assert forall|i: int| 0 <= i < rest.len() implies #[trigger] views(rest@)[i]
                    == all.skip(k + 1).reverse()[i] by {
                    assert(views(rest@)[i] == views(had)[i]);
                }
                assert(views(rest@) =~= all.skip(k + 1).reverse());
            }
            let mut j: usize = out.len();
            while j > 0 && !test(&out[j - 1], &t)
                invariant
                    j <= out.len(),
                    sorted == views(out@),
                    v == t@,
                    forall|a: &T, b: &T| #[trigger] call_requires(test, (a, b)),
                    forall|a: &T, b: &T, r: bool| #[trigger]
                        call_ensures(test, (a, b), r) ==> r == before(a@, b@),
                    forall|m: int| j <= m < sorted.len() ==> !before(#[trigger] sorted[m], v),
                decreases j,
            {
                j -= 1;
            }
            proof {
                lemma_placed_at(sorted, v, before, j as int);
            }
            out.insert(j, t);
            assert(views(out@) =~= sorted.insert(j as int, v));
        }
    }
    assert(all.take(all.len() as int) =~= all);
    out
}

/// The first `n` rows; all of them when `n` is negative.
pub(crate) fn limit<T: View>(rows: Vec<T>, n: i64) -> (out: Vec<T>)
    ensures
        views(out@) == limited(views(rows@), n as int),
{
    let mut out = rows;
    if n >= 0 && out.len() as u64 > n as u64 {
        out.truncate(n as usize);
        assert(views(out@) =~= views(rows@).take(n as int));
    }
    out
}

/// Of rows that are alike the first one is kept: a row stays where no earlier
/// one is like it.
pub proof fn the_first_of_each_is_kept<V>(s: Seq<V>, alike: spec_fn(V, V) -> bool, i: int)
    requires
        0 <= i < s.len(),
        forall|k: int| 0 <= k < i ==> !alike(#[trigger] s[k], s[i]),
    ensures
        first_of_each(s, alike).contains(s[i]),
    decreases s.len(),
{
    let rest = s.drop_last();
    let f = first_of_each(rest, alike);
    let all = first_of_each(s, alike);
    if i < rest.len() {
        assert forall|k: int| 0 <= k < i implies !alike(#[trigger] rest[k], rest[i]) by {
            assert(rest[k] == s[k]);
        }
        the_first_of_each_is_kept(rest, alike, i);
        let m = choose|m: int| 0 <= m < f.len() && f[m] == rest[i];
        assert(all[m] == f[m]);
    } else {
        let like = |v: V| alike(v, s.last());
        assert(!any_where(rest, like)) by {
            assert forall|k: int| 0 <= k < rest.len() implies !like(#[trigger] rest[k]) by {
                assert(rest[k] == s[k]);
            }
        }
        assert(all[f.len() as int] == s[i]);
    }
}

/// Only rows that no earlier one is like are kept.
pub proof fn a_kept_row_is_the_first_of_its_kind<V>(
    s: Seq<V>,
    alike: spec_fn(V, V) -> bool,
    m: int,
) -> (i: int)
    requires
        0 <= m < first_of_each(s, alike).len(),
    ensures
        0 <= i < s.len(),
        s[i] == first_of_each(s, alike)[m],
        forall|k: int| 0 <= k < i ==> !alike(#[trigger] s[k], s[i]),
    decreases s.len(),
{
    let rest = s.drop_last();
    let f = first_of_each(rest, alike);
    if m < f.len() {
        let i = a_kept_row_is_the_first_of_its_kind(rest, alike, m);
        assert forall|k: int| 0 <= k < i implies !alike(#[trigger] s[k], s[i]) by {
            assert(rest[k] == s[k]);
        }
        i
    } else {
        let like = |v: V| alike(v, s.last());
        assert(!any_where(rest, like));
        assert forall|k: int| 0 <= k < s.len() - 1 implies !alike(#[trigger] s[k], s.last()) by {
            assert(rest[k] == s[k]);
            assert(!like(rest[k]));
        }
        s.len() - 1
    }
}

/// A list that is cut short keeps its beginning; a negative bound cuts
/// nothing.
pub proof fn a_cut_list_keeps_its_beginning<V>(s: Seq<V>, n: int)
    ensures
        n < 0 ==> limited(s, n) == s,
        0 <= n < s.len() ==> limited(s, n).len() == n,
        n >= s.len() ==> limited(s, n) == s,
        forall|i: int| 0 <= i < limited(s, n).len() ==> #[trigger] limited(s, n)[i] == s[i],
{
}

/// A change touches the chosen rows alone, each in its place.
pub proof fn a_change_touches_the_chosen_rows<V>(
    s: Seq<V>,
    chosen: spec_fn(V) -> bool,
    change: spec_fn(V) -> V,
    i: int,
)
    requires
        0 <= i < s.len(),
    ensures
        updated(s, chosen, change).len() == s.len(),
        chosen(s[i]) ==> updated(s, chosen, change)[i] == change(s[i]),
        !chosen(s[i]) ==> updated(s, chosen, change)[i] == s[i],
{
}

/// A row is put in place of the chosen ones, or, where there is none, behind
/// the others.
pub proof fn a_row_is_changed_or_added<V>(
    s: Seq<V>,
    chosen: spec_fn(V) -> bool,
    change: spec_fn(V) -> V,
    fresh: V,
)
    ensures
        any_where(s, chosen) ==> upserted(s, chosen, change, fresh) == updated(s, chosen, change),
        !any_where(s, chosen) ==> upserted(s, chosen, change, fresh) == s.push(fresh),
{
}

} // verus!
