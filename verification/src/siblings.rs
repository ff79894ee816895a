//! The steps that bring a list of sibling records into canonical form:
//! dropping blank ones, sorting, and dropping those that repeat the one
//! before.

use crate::ordering::{
    deduplicated, has_no_repeats, has_no_ties, insertion_point, is_ranking, is_sorted,
    lemma_deduplicated, lemma_deduplicated_sorted, lemma_filter_all_pass,
    lemma_filter_ignores_order, lemma_filter_keeps, lemma_inserted_at, lemma_sorted_stays,
    lemma_sorting_ignores_order, lemma_stably_sorted, stably_sorted,
};
use vstd::seq_lib::*;
use vstd::prelude::*;

verus! {

/// A record that stands in a list beside others of its type.
pub trait Sibling: View + Sized {
    /// Whether the record is blank and so to be dropped.
    spec fn spec_blank(v: Self::V) -> bool;

    /// Whether two records say the same, whatever their identifiers.
    spec fn spec_same(a: Self::V, b: Self::V) -> bool;

    /// Whether `a` stands at the place of `b` or before it.
    spec fn spec_not_after(a: Self::V, b: Self::V) -> bool;

    /// The order ranks every record: it is connected and transitive.
    proof fn lemma_ranking()
        ensures
            forall|a: Self::V, b: Self::V|
                #[trigger] Self::spec_not_after(a, b) || #[trigger] Self::spec_not_after(b, a),
            forall|a: Self::V, b: Self::V, c: Self::V|
                #[trigger] Self::spec_not_after(a, b) && #[trigger] Self::spec_not_after(b, c)
                    ==> Self::spec_not_after(a, c),
    ;

    fn blank(&self) -> (r: bool)
        ensures
            r == Self::spec_blank(self@),
    ;

    fn same(&self, other: &Self) -> (r: bool)
        ensures
            r == Self::spec_same(self@, other@),
    ;

    fn not_after(&self, other: &Self) -> (r: bool)
        ensures
            r == Self::spec_not_after(self@, other@),
    ;
}

/// The views of the records of a list.
pub open spec fn views<T: View>(items: Seq<T>) -> Seq<T::V> {
    items.map_values(|item: T| item@)
}

/// The order of the siblings of a type.
pub open spec fn sibling_order<T: Sibling>() -> spec_fn(T::V, T::V) -> bool {
    |a: T::V, b: T::V| T::spec_not_after(a, b)
}

/// The relation of saying the same, for the siblings of a type.
pub open spec fn sibling_sameness<T: Sibling>() -> spec_fn(T::V, T::V) -> bool {
    |a: T::V, b: T::V| T::spec_same(a, b)
}

/// The test for a sibling that is kept: one that is not blank.
pub open spec fn sibling_presence<T: Sibling>() -> spec_fn(T::V) -> bool {
    |a: T::V| !T::spec_blank(a)
}

/// The siblings that are not blank.
pub open spec fn without_blank<T: Sibling>(items: Seq<T::V>) -> Seq<T::V> {
    items.filter(sibling_presence::<T>())
}

/// The siblings in their order.
pub open spec fn sorted<T: Sibling>(items: Seq<T::V>) -> Seq<T::V> {
    stably_sorted(items, sibling_order::<T>())
}

/// The siblings without those that repeat the one kept before them.
pub open spec fn without_repeats<T: Sibling>(items: Seq<T::V>) -> Seq<T::V> {
    deduplicated(items, sibling_sameness::<T>())
}

/// The canonical form of a list of siblings: without blank ones, sorted,
/// without repeats.
pub open spec fn canonical_siblings<T: Sibling>(items: Seq<T::V>) -> Seq<T::V> {
    without_repeats::<T>(sorted::<T>(without_blank::<T>(items)))
}

/// The order of siblings is a ranking.
pub proof fn lemma_sibling_ranking<T: Sibling>()
    ensures
        is_ranking(sibling_order::<T>()),
{
    T::lemma_ranking();
    let order = sibling_order::<T>();
    assert forall|a: T::V, b: T::V| #[trigger] order(a, b) || #[trigger] order(b, a) by {
        assert(T::spec_not_after(a, b) || T::spec_not_after(b, a));
    }
    assert forall|a: T::V, b: T::V, c: T::V| #[trigger] order(a, b) && #[trigger] order(
        b,
        c,
    ) implies order(a, c) by {
        assert(T::spec_not_after(a, b) && T::spec_not_after(b, c));
    }
}

/// The canonical form of a list of siblings does not depend on the order in
/// which they are given, as long as no two different siblings that are kept
/// tie in their order.
pub proof fn lemma_canonical_siblings_ignore_order<T: Sibling>(a: Seq<T::V>, b: Seq<T::V>)
    requires
        a.to_multiset() == b.to_multiset(),
        has_no_ties(without_blank::<T>(a), sibling_order::<T>()),
    ensures
        canonical_siblings::<T>(a) == canonical_siblings::<T>(b),
{
    lemma_sibling_ranking::<T>();
    lemma_filter_ignores_order(a, b, sibling_presence::<T>());
    lemma_sorting_ignores_order(
        without_blank::<T>(a),
        without_blank::<T>(b),
        sibling_order::<T>(),
    );
}

/// Whether a list of siblings is in canonical form: none is blank, they
/// stand in their order, and none repeats the one before it.
pub open spec fn are_canonical_siblings<T: Sibling>(items: Seq<T::V>) -> bool {
    &&& forall|i: int| 0 <= i < items.len() ==> !T::spec_blank(#[trigger] items[i])
    &&& is_sorted(items, sibling_order::<T>())
    &&& has_no_repeats(items, sibling_sameness::<T>())
}

/// The canonical form of a list of siblings is in canonical form, and each of
/// its siblings is one of the list.
pub proof fn lemma_canonical_siblings<T: Sibling>(items: Seq<T::V>)
    ensures
        are_canonical_siblings::<T>(canonical_siblings::<T>(items)),
        forall|i: int|
            0 <= i < canonical_siblings::<T>(items).len() ==> items.contains(
                #[trigger] canonical_siblings::<T>(items)[i],
            ),
        canonical_siblings::<T>(items).len() <= items.len(),
{
    broadcast use group_to_multiset_ensures;

    let order = sibling_order::<T>();
    let same = sibling_sameness::<T>();
    let present = sibling_presence::<T>();
    let kept = without_blank::<T>(items);
    let ranked = sorted::<T>(kept);
    let all = canonical_siblings::<T>(items);
    lemma_sibling_ranking::<T>();
    lemma_filter_keeps(items, present);
    items.lemma_filter_len(present);
    lemma_stably_sorted(kept, order);
    lemma_deduplicated_sorted(ranked, same, order);
    lemma_deduplicated(ranked, same);
    assert forall|i: int| 0 <= i < all.len() implies items.contains(#[trigger] all[i])
        && !T::spec_blank(all[i]) by {
        assert(ranked.contains(all[i]));
        assert(ranked.to_multiset().count(all[i]) > 0);
        assert(kept.to_multiset().count(all[i]) > 0);
        assert(kept.contains(all[i]));
        assert(present(all[i]));
    }
}

/// Bringing a list of siblings that is in canonical form into canonical form
/// changes nothing.
pub proof fn lemma_canonical_siblings_stay<T: Sibling>(items: Seq<T::V>)
    requires
        are_canonical_siblings::<T>(items),
    ensures
        canonical_siblings::<T>(items) == items,
{
    let present = sibling_presence::<T>();
    assert forall|i: int| 0 <= i < items.len() implies present(#[trigger] items[i]) by {
        assert(!T::spec_blank(items[i]));
    }
    lemma_filter_all_pass(items, present);
    lemma_sorted_stays(items, sibling_order::<T>());
    lemma_deduplicated(items, sibling_sameness::<T>());
}

proof fn lemma_skip_step<T>(a: Seq<T>, i: int, b: Seq<T>, k: int)
    requires
        0 <= i < a.len(),
        0 <= k < b.len(),
        a.skip(i) == b.skip(k),
    ensures
        a[i] == b[k],
        a.skip(i + 1) == b.skip(k + 1),
        a.remove(i).skip(i) == b.skip(k + 1),
        a.remove(i).take(i) == a.take(i),
{
    assert(a[i] == a.skip(i)[0]);
    assert(b[k] == b.skip(k)[0]);
    assert(a.skip(i + 1) =~= a.skip(i).drop_first());
    assert(b.skip(k + 1) =~= b.skip(k).drop_first());
    assert(a.remove(i).skip(i) =~= a.skip(i + 1));
    assert(a.remove(i).take(i) =~= a.take(i));
}

proof fn lemma_views_take<T: View>(items: Seq<T>, k: int)
    requires
        0 <= k < items.len(),
    ensures
        views(items.take(k + 1)).drop_last() == views(items.take(k)),
        views(items.take(k + 1)).last() == items[k]@,
        views(items.take(k + 1)) == views(items.take(k)).push(items[k]@),
{
    assert(views(items.take(k + 1)).drop_last() =~= views(items.take(k)));
    assert(views(items.take(k + 1)) =~= views(items.take(k)).push(items[k]@));
}

/// Drops the blank records.
pub fn remove_blank<T: Sibling>(items: &mut Vec<T>)
    ensures
        views(final(items)@) == without_blank::<T>(views(old(items)@)),
{
    let ghost start = items@;
    let ghost mut seen: int = 0;
    let mut i: usize = 0;
    proof {
        reveal(Seq::filter);
        assert(views(items@.take(0)) =~= Seq::<T::V>::empty());
        assert(views(start.take(0)) =~= Seq::<T::V>::empty());
    }
    while i < items.len()
        invariant
            i <= items.len(),
            0 <= seen <= start.len(),
            items.len() - i == start.len() - seen,
            items@.skip(i as int) == start.skip(seen),
            views(items@.take(i as int)) == without_blank::<T>(views(start.take(seen))),
        decreases items.len() - i,
    {
        proof {
            reveal(Seq::filter);
            lemma_skip_step(items@, i as int, start, seen);
            lemma_views_take(start, seen);
        }
        if items[i].blank() {
            let _ = items.remove(i);
        } else {
            proof {
                lemma_views_take(items@, i as int);
            }
            i += 1;
        }
        proof {
            seen = seen + 1;
        }
    }
    assert(items@.take(i as int) =~= items@);
    assert(start.take(seen) =~= start);
}

/// Sorts the records, leaving those that tie in the order they had.
pub fn sort<T: Sibling>(items: &mut Vec<T>)
    ensures
        views(final(items)@) == sorted::<T>(views(old(items)@)),
{
    let ghost start = items@;
    let ghost order = sibling_order::<T>();
    let mut i: usize = 0;
    proof {
        assert(views(items@.take(0)) =~= Seq::<T::V>::empty());
    }
    while i < items.len()
        invariant
            i <= items.len(),
            items.len() == start.len(),
            order == sibling_order::<T>(),
            items@.skip(i as int) == start.skip(i as int),
            views(items@.take(i as int)) == stably_sorted(views(start.take(i as int)), order),
        decreases items.len() - i,
    {
        let ghost before = items@;
        let ghost head = views(before.take(i as int));
        let ghost x = before[i as int]@;
        proof {
            lemma_skip_step(before, i as int, start, i as int);
            lemma_views_take(start, i as int);
            lemma_inserted_at(head, x, order);
        }
        let mut j: usize = i;
        while j > 0 && !items[j - 1].not_after(&items[i])
            invariant
                j <= i < items.len(),
                items@ == before,
                head == views(before.take(i as int)),
                x == before[i as int]@,
                order == sibling_order::<T>(),
                insertion_point(head, x, order) <= j,
                forall|k: int| j <= k < i ==> !#[trigger] order(head[k], x),
            decreases j,
        {
            proof {
                assert(head[j - 1] == before[j - 1]@);
                lemma_point_below(head, x, order, j as int - 1);
            }
            j -= 1;
        }
        proof {
            if j > 0 {
                assert(head[j - 1] == before[j - 1]@);
                assert(order(head[j - 1], x));
            }
            lemma_point_is(head, x, order, j as int);
        }
        let item = items.remove(i);
        items.insert(j, item);
        proof {
            assert(items@.skip(i + 1) =~= before.skip(i + 1));
            assert(views(items@.take(i + 1)) =~= head.insert(j as int, x));
        }
        i += 1;
    }
    assert(items@.take(i as int) =~= items@);
    assert(start.take(i as int) =~= start);
}

/// Where every element from `j` on is after `x`, the insertion point of `x` is
/// at `j` or below.
proof fn lemma_point_below<T>(s: Seq<T>, x: T, order: spec_fn(T, T) -> bool, j: int)
    requires
        0 <= j <= s.len(),
        forall|k: int| j <= k < s.len() ==> !#[trigger] order(s[k], x),
    ensures
        insertion_point(s, x, order) <= j,
    decreases s.len(),
{
    lemma_inserted_at(s, x, order);
    if s.len() > j {
        assert(!order(s[s.len() - 1], x));
        let t = s.drop_last();
        assert forall|k: int| j <= k < t.len() implies !#[trigger] order(t[k], x) by {
            assert(t[k] == s[k]);
        }
        lemma_point_below(t, x, order, j);
    }
}

/// Where every element from `j` on is after `x` and the one before `j` is
/// not, `j` is the insertion point of `x`.
proof fn lemma_point_is<T>(s: Seq<T>, x: T, order: spec_fn(T, T) -> bool, j: int)
    requires
        0 <= j <= s.len(),
        forall|k: int| j <= k < s.len() ==> !#[trigger] order(s[k], x),
        j > 0 ==> order(s[j - 1], x),
    ensures
        insertion_point(s, x, order) == j,
    decreases s.len(),
{
    if s.len() > j {
        assert(!order(s[s.len() - 1], x));
        let t = s.drop_last();
        assert forall|k: int| j <= k < t.len() implies !#[trigger] order(t[k], x) by {
            assert(t[k] == s[k]);
        }
        if j > 0 {
            assert(t[j - 1] == s[j - 1]);
        }
        lemma_point_is(t, x, order, j);
    }
}

/// Drops each record that says the same as the record kept before it.
pub fn deduplicate<T: Sibling>(items: &mut Vec<T>)
    ensures
        views(final(items)@) == without_repeats::<T>(views(old(items)@)),
{
    let ghost start = items@;
    let ghost sameness = sibling_sameness::<T>();
    let ghost mut seen: int = 0;
    let mut i: usize = 0;
    proof {
        assert(views(items@.take(0)) =~= Seq::<T::V>::empty());
        assert(views(start.take(0)) =~= Seq::<T::V>::empty());
    }
    while i < items.len()
        invariant
            i <= items.len(),
            0 <= seen <= start.len(),
            items.len() - i == start.len() - seen,
            sameness == sibling_sameness::<T>(),
            items@.skip(i as int) == start.skip(seen),
            views(items@.take(i as int)) == deduplicated(views(start.take(seen)), sameness),
        decreases items.len() - i,
    {
        proof {
            lemma_skip_step(items@, i as int, start, seen);
            lemma_views_take(start, seen);
            if i > 0 {
                assert(views(items@.take(i as int)).last() == items@[i - 1]@);
            }
        }
        if i > 0 && items[i].same(&items[i - 1]) {
            let _ = items.remove(i);
        } else {
            proof {
                lemma_views_take(items@, i as int);
            }
            i += 1;
        }
        proof {
            seen = seen + 1;
        }
    }
    assert(items@.take(i as int) =~= items@);
    assert(start.take(seen) =~= start);
}

} // verus!
