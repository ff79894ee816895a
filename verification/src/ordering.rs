//! The order of texts, and stable sorting and deduplication of sequences.

use vstd::prelude::*;
use vstd::seq_lib::*;
use vstd::string::*;
use vstd::utf8::*;

verus! {

/// Whether `a` is `b` or comes before it when bytes are compared one by one
/// and a prefix comes before what it is a prefix of.
pub open spec fn bytes_not_after(a: Seq<u8>, b: Seq<u8>) -> bool
    decreases a.len(),
{
    if a.len() == 0 {
        true
    } else if b.len() == 0 {
        false
    } else if a[0] != b[0] {
        a[0] < b[0]
    } else {
        bytes_not_after(a.drop_first(), b.drop_first())
    }
}

/// The order of texts: that of their UTF-8 encodings, which is the order of
/// `str` in std.
pub open spec fn text_not_after(a: Seq<char>, b: Seq<char>) -> bool {
    bytes_not_after(encode_utf8(a), encode_utf8(b))
}

/// Whether `a` comes before `b` and differs from it.
pub open spec fn text_before(a: Seq<char>, b: Seq<char>) -> bool {
    text_not_after(a, b) && a != b
}

pub proof fn lemma_bytes_reflexive(a: Seq<u8>)
    ensures
        bytes_not_after(a, a),
    decreases a.len(),
{
    if a.len() > 0 {
        lemma_bytes_reflexive(a.drop_first());
    }
}

pub proof fn lemma_bytes_total(a: Seq<u8>, b: Seq<u8>)
    ensures
        bytes_not_after(a, b) || bytes_not_after(b, a),
    decreases a.len(),
{
    if a.len() > 0 && b.len() > 0 && a[0] == b[0] {
        lemma_bytes_total(a.drop_first(), b.drop_first());
    }
}

pub proof fn lemma_bytes_antisymmetric(a: Seq<u8>, b: Seq<u8>)
    requires
        bytes_not_after(a, b),
        bytes_not_after(b, a),
    ensures
        a == b,
    decreases a.len(),
{
    if a.len() > 0 && b.len() > 0 {
        lemma_bytes_antisymmetric(a.drop_first(), b.drop_first());
        assert(a =~= seq![a[0]] + a.drop_first());
        assert(b =~= seq![b[0]] + b.drop_first());
    } else {
        assert(a =~= b);
    }
}

pub proof fn lemma_bytes_transitive(a: Seq<u8>, b: Seq<u8>, c: Seq<u8>)
    requires
        bytes_not_after(a, b),
        bytes_not_after(b, c),
    ensures
        bytes_not_after(a, c),
    decreases a.len(),
{
    if a.len() > 0 && b.len() > 0 && c.len() > 0 && a[0] == b[0] && b[0] == c[0] {
        lemma_bytes_transitive(a.drop_first(), b.drop_first(), c.drop_first());
    }
}

/// The order of texts is total: reflexive, connected, transitive, and two
/// texts that come before each other are one text.
pub proof fn lemma_text_order(a: Seq<char>, b: Seq<char>, c: Seq<char>)
    ensures
        text_not_after(a, a),
        text_not_after(a, b) || text_not_after(b, a),
        text_not_after(a, b) && text_not_after(b, a) ==> a == b,
        text_not_after(a, b) && text_not_after(b, c) ==> text_not_after(a, c),
{
    lemma_bytes_reflexive(encode_utf8(a));
    lemma_bytes_total(encode_utf8(a), encode_utf8(b));
    if text_not_after(a, b) && text_not_after(b, a) {
        lemma_bytes_antisymmetric(encode_utf8(a), encode_utf8(b));
        encode_utf8_decode_utf8(a);
        encode_utf8_decode_utf8(b);
    }
    if text_not_after(a, b) && text_not_after(b, c) {
        lemma_bytes_transitive(encode_utf8(a), encode_utf8(b), encode_utf8(c));
    }
}

proof fn lemma_bytes_skip_common(a: Seq<u8>, b: Seq<u8>, n: int)
    requires
        0 <= n <= a.len(),
        n <= b.len(),
        a.take(n) == b.take(n),
    ensures
        bytes_not_after(a, b) == bytes_not_after(a.skip(n), b.skip(n)),
    decreases n,
{
    if n > 0 {
        assert(a[0] == a.take(n)[0]);
        assert(b[0] == b.take(n)[0]);
        assert(a.drop_first().take(n - 1) =~= a.take(n).drop_first());
        assert(b.drop_first().take(n - 1) =~= b.take(n).drop_first());
        lemma_bytes_skip_common(a.drop_first(), b.drop_first(), n - 1);
        assert(a.drop_first().skip(n - 1) =~= a.skip(n));
        assert(b.drop_first().skip(n - 1) =~= b.skip(n));
    } else {
        assert(a.skip(0) =~= a);
        assert(b.skip(0) =~= b);
    }
}

/// Whether the first text is the second or comes before it.
pub fn compare_texts(a: &str, b: &str) -> (r: bool)
    ensures
        r == text_not_after(a@, b@),
{
    let x = a.as_bytes();
    let y = b.as_bytes();
    let mut i: usize = 0;
    while i < x.len() && i < y.len()
        invariant
            i <= x.len(),
            i <= y.len(),
            x@ == encode_utf8(a@),
            y@ == encode_utf8(b@),
            x@.take(i as int) == y@.take(i as int),
        decreases x.len() - i,
    {
        if x[i] != y[i] {
            proof {
                lemma_bytes_skip_common(x@, y@, i as int);
                assert(x@.skip(i as int)[0] == x@[i as int]);
                assert(y@.skip(i as int)[0] == y@[i as int]);
            }
            return x[i] < y[i];
        }
        assert(x@.take(i + 1) =~= x@.take(i as int).push(x@[i as int]));
        assert(y@.take(i + 1) =~= y@.take(i as int).push(y@[i as int]));
        i += 1;
    }
    proof {
        lemma_bytes_skip_common(x@, y@, i as int);
    }
    i == x.len()
}

/// Whether the two texts are one text.
pub fn same_text(a: &str, b: &str) -> (r: bool)
    ensures
        r == (a@ == b@),
{
    proof {
        lemma_text_order(a@, b@, a@);
    }
    compare_texts(a, b) && compare_texts(b, a)
}

/// Whether each element of the sequence is not after those that follow it.
pub open spec fn is_sorted<T>(s: Seq<T>, not_after: spec_fn(T, T) -> bool) -> bool {
    forall|i: int, j: int| 0 <= i < j < s.len() ==> #[trigger] not_after(s[i], s[j])
}

/// Whether the relation is connected and transitive, so that it ranks every
/// value, with ties.
pub open spec fn is_ranking<T>(not_after: spec_fn(T, T) -> bool) -> bool {
    &&& forall|a: T, b: T| #[trigger] not_after(a, b) || #[trigger] not_after(b, a)
    &&& forall|a: T, b: T, c: T|
        #[trigger] not_after(a, b) && #[trigger] not_after(b, c) ==> not_after(a, c)
}

/// Whether no two different elements of the sequence tie.
pub open spec fn has_no_ties<T>(s: Seq<T>, not_after: spec_fn(T, T) -> bool) -> bool {
    forall|i: int, j: int|
        0 <= i < s.len() && 0 <= j < s.len() && #[trigger] not_after(s[i], s[j]) && not_after(
            s[j],
            s[i],
        ) ==> s[i] == s[j]
}

/// The sorted sequence `s` with `x` put in behind every element that is not
/// after it.
pub open spec fn inserted<T>(s: Seq<T>, x: T, not_after: spec_fn(T, T) -> bool) -> Seq<T>
    decreases s.len(),
{
    if s.len() == 0 || not_after(s.last(), x) {
        s.push(x)
    } else {
        inserted(s.drop_last(), x, not_after).push(s.last())
    }
}

/// The sequence sorted, with elements that tie left in the order they had.
pub open spec fn stably_sorted<T>(s: Seq<T>, not_after: spec_fn(T, T) -> bool) -> Seq<T>
    decreases s.len(),
{
    if s.len() == 0 {
        s
    } else {
        inserted(stably_sorted(s.drop_last(), not_after), s.last(), not_after)
    }
}

/// The sequence without each element that says the same as the element kept
/// before it.
pub open spec fn deduplicated<T>(s: Seq<T>, same: spec_fn(T, T) -> bool) -> Seq<T>
    decreases s.len(),
{
    if s.len() == 0 {
        s
    } else {
        let kept = deduplicated(s.drop_last(), same);
        if kept.len() > 0 && same(s.last(), kept.last()) {
            kept
        } else {
            kept.push(s.last())
        }
    }
}

/// Whether no element says the same as the one before it.
pub open spec fn has_no_repeats<T>(s: Seq<T>, same: spec_fn(T, T) -> bool) -> bool {
    forall|i: int| 0 < i < s.len() ==> !#[trigger] same(s[i], s[i - 1])
}

/// Where `x` goes into `s`: behind the last element that is not after it.
pub open spec fn insertion_point<T>(s: Seq<T>, x: T, not_after: spec_fn(T, T) -> bool) -> int
    decreases s.len(),
{
    if s.len() == 0 || not_after(s.last(), x) {
        s.len() as int
    } else {
        insertion_point(s.drop_last(), x, not_after)
    }
}

/// Putting `x` in is inserting it at its insertion point.
pub proof fn lemma_inserted_at<T>(s: Seq<T>, x: T, not_after: spec_fn(T, T) -> bool)
    ensures
        0 <= insertion_point(s, x, not_after) <= s.len(),
        inserted(s, x, not_after) == s.insert(insertion_point(s, x, not_after), x),
        forall|k: int|
            insertion_point(s, x, not_after) <= k < s.len() ==> !#[trigger] not_after(s[k], x),
        insertion_point(s, x, not_after) > 0 ==> not_after(
            s[insertion_point(s, x, not_after) - 1],
            x,
        ),
    decreases s.len(),
{
    if s.len() == 0 || not_after(s.last(), x) {
        assert(s.push(x) =~= s.insert(s.len() as int, x));
    } else {
        let t = s.drop_last();
        lemma_inserted_at(t, x, not_after);
        let p = insertion_point(t, x, not_after);
        assert(t.insert(p, x).push(s.last()) =~= s.insert(p, x));
        assert forall|k: int| p <= k < s.len() implies !#[trigger] not_after(s[k], x) by {
            if k < t.len() {
                assert(s[k] == t[k]);
            }
        }
    }
}

/// Putting an element into a sorted sequence leaves it sorted.
pub proof fn lemma_inserted_sorted<T>(s: Seq<T>, x: T, not_after: spec_fn(T, T) -> bool)
    requires
        is_ranking(not_after),
        is_sorted(s, not_after),
    ensures
        is_sorted(inserted(s, x, not_after), not_after),
{
    lemma_inserted_at(s, x, not_after);
    let p = insertion_point(s, x, not_after);
    let r = s.insert(p, x);
    assert forall|i: int, j: int| 0 <= i < j < r.len() implies #[trigger] not_after(
        r[i],
        r[j],
    ) by {
        if j < p {
            assert(not_after(s[i], s[j]));
        } else if j == p {
            if i < p - 1 {
                assert(not_after(s[i], s[p - 1]));
            }
            assert(not_after(s[p - 1], x));
        } else if i == p {
            assert(!not_after(s[j - 1], x));
        } else if i < p {
            assert(not_after(s[i], s[j - 1]));
        } else {
            assert(not_after(s[i - 1], s[j - 1]));
        }
    }
}

/// A stably sorted sequence is sorted and has the elements of the one it was
/// made from, each as often.
pub proof fn lemma_stably_sorted<T>(s: Seq<T>, not_after: spec_fn(T, T) -> bool)
    requires
        is_ranking(not_after),
    ensures
        is_sorted(stably_sorted(s, not_after), not_after),
        stably_sorted(s, not_after).to_multiset() == s.to_multiset(),
        stably_sorted(s, not_after).len() == s.len(),
    decreases s.len(),
{
    broadcast use group_to_multiset_ensures;

    if s.len() > 0 {
        let t = s.drop_last();
        let u = stably_sorted(t, not_after);
        lemma_stably_sorted(t, not_after);
        lemma_inserted_sorted(u, s.last(), not_after);
        lemma_inserted_at(u, s.last(), not_after);
        let p = insertion_point(u, s.last(), not_after);
        assert(u.insert(p, s.last()).remove(p) =~= u);
        assert(s =~= t.push(s.last()));
        assert(u.insert(p, s.last()).to_multiset() =~= u.to_multiset().insert(s.last())) by {
            let w = u.insert(p, s.last());
            assert(w.remove(p).to_multiset() =~= w.to_multiset().remove(w[p]));
            assert(w.to_multiset().count(w[p]) > 0);
        }
    }
}

/// Sorting a sorted sequence leaves it as it is.
pub proof fn lemma_sorted_stays<T>(s: Seq<T>, not_after: spec_fn(T, T) -> bool)
    requires
        is_sorted(s, not_after),
    ensures
        stably_sorted(s, not_after) == s,
    decreases s.len(),
{
    if s.len() > 0 {
        let t = s.drop_last();
        assert(is_sorted(t, not_after)) by {
            assert forall|i: int, j: int| 0 <= i < j < t.len() implies #[trigger] not_after(
                t[i],
                t[j],
            ) by {
                assert(not_after(s[i], s[j]));
            }
        }
        lemma_sorted_stays(t, not_after);
        if t.len() > 0 {
            assert(not_after(s[t.len() - 1], s[s.len() - 1]));
            assert(t.last() == s[t.len() - 1]);
        }
        assert(t.push(s.last()) =~= s);
    }
}

/// Two sorted sequences with the same elements, none of which tie, are one
/// sequence.
pub proof fn lemma_sorted_is_unique<T>(a: Seq<T>, b: Seq<T>, not_after: spec_fn(T, T) -> bool)
    requires
        is_sorted(a, not_after),
        is_sorted(b, not_after),
        has_no_ties(a, not_after),
        a.to_multiset() == b.to_multiset(),
    ensures
        a == b,
    decreases a.len(),
{
    broadcast use group_to_multiset_ensures;

    a.to_multiset_ensures();
    b.to_multiset_ensures();
    assert(a.len() == b.len());
    if a.len() > 0 {
        let x = a.last();
        let y = b.last();
        assert(a.contains(x)) by {
            assert(a[a.len() - 1] == x);
        }
        assert(b.contains(y)) by {
            assert(b[b.len() - 1] == y);
        }
        assert(a.to_multiset().count(x) > 0);
        assert(b.to_multiset().count(x) > 0);
        assert(b.to_multiset().count(y) > 0);
        assert(a.to_multiset().count(y) > 0);
        assert(b.contains(x));
        assert(a.contains(y));
        let i = choose|i: int| 0 <= i < b.len() && b[i] == x;
        let j = choose|j: int| 0 <= j < a.len() && a[j] == y;
        if i < b.len() - 1 {
            assert(not_after(b[i], b[b.len() - 1]));
        }
        if j < a.len() - 1 {
            assert(not_after(a[j], a[a.len() - 1]));
        }
        assert(x == y) by {
            if i < b.len() - 1 && j < a.len() - 1 {
                assert(not_after(a[a.len() - 1], a[j]));
            }
        }
        let s = a.drop_last();
        let t = b.drop_last();
        assert(s =~= a.remove(a.len() - 1));
        assert(t =~= b.remove(b.len() - 1));
        assert(s.to_multiset() =~= t.to_multiset());
        assert(is_sorted(s, not_after)) by {
            assert forall|i: int, j: int| 0 <= i < j < s.len() implies #[trigger] not_after(
                s[i],
                s[j],
            ) by {
                assert(not_after(a[i], a[j]));
            }
        }
        assert(is_sorted(t, not_after)) by {
            assert forall|i: int, j: int| 0 <= i < j < t.len() implies #[trigger] not_after(
                t[i],
                t[j],
            ) by {
                assert(not_after(b[i], b[j]));
            }
        }
        assert(has_no_ties(s, not_after)) by {
            assert forall|i: int, j: int|
                0 <= i < s.len() && 0 <= j < s.len() && #[trigger] not_after(s[i], s[j])
                    && not_after(s[j], s[i]) implies s[i] == s[j] by {
                assert(s[i] == a[i] && s[j] == a[j]);
            }
        }
        lemma_sorted_is_unique(s, t, not_after);
        assert(a =~= s.push(x));
        assert(b =~= t.push(y));
    } else {
        assert(a =~= b);
    }
}

/// The order in which elements are given does not matter to the sorted
/// sequence, as long as no two different elements tie.
pub proof fn lemma_sorting_ignores_order<T>(a: Seq<T>, b: Seq<T>, not_after: spec_fn(T, T) -> bool)
    requires
        is_ranking(not_after),
        has_no_ties(a, not_after),
        a.to_multiset() == b.to_multiset(),
    ensures
        stably_sorted(a, not_after) == stably_sorted(b, not_after),
{
    broadcast use group_to_multiset_ensures;

    lemma_stably_sorted(a, not_after);
    lemma_stably_sorted(b, not_after);
    let s = stably_sorted(a, not_after);
    assert(has_no_ties(s, not_after)) by {
        assert forall|i: int, j: int|
            0 <= i < s.len() && 0 <= j < s.len() && #[trigger] not_after(s[i], s[j])
                && not_after(s[j], s[i]) implies s[i] == s[j] by {
            assert(s.to_multiset().count(s[i]) > 0);
            assert(s.to_multiset().count(s[j]) > 0);
            assert(a.contains(s[i]));
            assert(a.contains(s[j]));
            let k = choose|k: int| 0 <= k < a.len() && a[k] == s[i];
            let l = choose|l: int| 0 <= l < a.len() && a[l] == s[j];
            assert(not_after(a[k], a[l]));
        }
    }
    lemma_sorted_is_unique(s, stably_sorted(b, not_after), not_after);
}

/// What a filter keeps are the elements that pass its test, and it keeps none
/// twice where none stands twice.
pub proof fn lemma_filter_keeps<V>(s: Seq<V>, test: spec_fn(V) -> bool)
    ensures
        forall|x: V| #[trigger] s.filter(test).contains(x) <==> s.contains(x) && test(x),
        s.no_duplicates() ==> s.filter(test).no_duplicates(),
    decreases s.len(),
{
    reveal(Seq::filter);
    if s.len() > 0 {
        let rest = s.drop_last();
        let last = s.last();
        lemma_filter_keeps(rest, test);
        let kept = rest.filter(test);
        let all = s.filter(test);
        assert forall|x: V| #[trigger] all.contains(x) <==> s.contains(x) && test(x) by {
            if all.contains(x) {
                let m = choose|m: int| 0 <= m < all.len() && all[m] == x;
                if m < kept.len() {
                    assert(kept[m] == x);
                    assert(kept.contains(x));
                    let k = choose|k: int| 0 <= k < rest.len() && rest[k] == x;
                    assert(s[k] == x);
                } else {
                    assert(s[s.len() - 1] == x);
                }
            }
            if s.contains(x) && test(x) {
                let k = choose|k: int| 0 <= k < s.len() && s[k] == x;
                if k < rest.len() {
                    assert(rest[k] == x);
                    assert(rest.contains(x));
                    assert(kept.contains(x));
                    let m = choose|m: int| 0 <= m < kept.len() && kept[m] == x;
                    assert(all[m] == x);
                } else {
                    assert(all[all.len() - 1] == x);
                }
            }
        }
        if s.no_duplicates() {
            assert(rest.no_duplicates());
            if test(last) {
                assert(!kept.contains(last)) by {
                    if kept.contains(last) {
                        assert(rest.contains(last));
                        let k = choose|k: int| 0 <= k < rest.len() && rest[k] == last;
                        assert(s[k] == s[s.len() - 1]);
                    }
                }
                assert forall|a: int, b: int| 0 <= a < b < all.len() implies all[a] != all[b] by {
                    if b == all.len() - 1 {
                        assert(kept[a] == all[a]);
                        assert(kept.contains(all[a]));
                    } else {
                        assert(kept[a] != kept[b]);
                    }
                }
            }
        }
    }
}

/// A filter leaves a sequence as it is where every element passes its test.
pub proof fn lemma_filter_all_pass<T>(s: Seq<T>, test: spec_fn(T) -> bool)
    requires
        forall|i: int| 0 <= i < s.len() ==> test(#[trigger] s[i]),
    ensures
        s.filter(test) == s,
    decreases s.len(),
{
    reveal(Seq::filter);
    if s.len() > 0 {
        let rest = s.drop_last();
        assert forall|i: int| 0 <= i < rest.len() implies test(#[trigger] rest[i]) by {
            assert(rest[i] == s[i]);
        }
        lemma_filter_all_pass(rest, test);
        assert(test(s[s.len() - 1]));
        assert(rest.push(s.last()) =~= s);
    }
}

/// How often a value stands in a filtered sequence: as often as in the
/// sequence where it passes the test, and never where it does not.
pub proof fn lemma_filter_counts<T>(s: Seq<T>, test: spec_fn(T) -> bool, v: T)
    ensures
        s.filter(test).to_multiset().count(v) == if test(v) {
            s.to_multiset().count(v)
        } else {
            0
        },
    decreases s.len(),
{
    broadcast use group_to_multiset_ensures;

    reveal(Seq::filter);
    if s.len() > 0 {
        let rest = s.drop_last();
        lemma_filter_counts(rest, test, v);
        assert(s =~= rest.push(s.last()));
        assert(s.to_multiset() =~= rest.to_multiset().insert(s.last()));
    } else {
        assert(s.to_multiset().count(v) == 0) by {
            assert(!s.contains(v));
        }
    }
}

/// Filtering two sequences with the same elements gives sequences with the
/// same elements.
pub proof fn lemma_filter_ignores_order<T>(a: Seq<T>, b: Seq<T>, test: spec_fn(T) -> bool)
    requires
        a.to_multiset() == b.to_multiset(),
    ensures
        a.filter(test).to_multiset() == b.filter(test).to_multiset(),
{
    assert forall|v: T|
        a.filter(test).to_multiset().count(v) == b.filter(test).to_multiset().count(v) by {
        lemma_filter_counts(a, test, v);
        lemma_filter_counts(b, test, v);
    }
    assert(a.filter(test).to_multiset() =~= b.filter(test).to_multiset());
}

/// Mapping two sequences with the same elements gives sequences with the same
/// elements.
pub proof fn lemma_map_ignores_order<T, U>(a: Seq<T>, b: Seq<T>, f: spec_fn(T) -> U)
    requires
        a.to_multiset() == b.to_multiset(),
    ensures
        a.map_values(f).to_multiset() == b.map_values(f).to_multiset(),
    decreases a.len(),
{
    broadcast use group_to_multiset_ensures;

    a.to_multiset_ensures();
    b.to_multiset_ensures();
    assert(a.len() == b.len());
    if a.len() > 0 {
        let x = a.last();
        assert(a.contains(x)) by {
            assert(a[a.len() - 1] == x);
        }
        assert(a.to_multiset().count(x) > 0);
        assert(b.to_multiset().count(x) > 0);
        assert(b.contains(x));
        let i = choose|i: int| 0 <= i < b.len() && b[i] == x;
        let rest_a = a.drop_last();
        let rest_b = b.remove(i);
        assert(rest_a =~= a.remove(a.len() - 1));
        assert(rest_a.to_multiset() =~= a.to_multiset().remove(x));
        assert(rest_b.to_multiset() =~= b.to_multiset().remove(x));
        lemma_map_ignores_order(rest_a, rest_b, f);
        let mapped_a = a.map_values(f);
        let mapped_b = b.map_values(f);
        assert(rest_a.map_values(f) =~= mapped_a.remove(a.len() - 1));
        assert(rest_b.map_values(f) =~= mapped_b.remove(i));
        mapped_a.to_multiset_ensures();
        mapped_b.to_multiset_ensures();
        assert(mapped_a.remove(a.len() - 1).to_multiset() =~= mapped_a.to_multiset().remove(f(x)));
        assert(mapped_b.remove(i).to_multiset() =~= mapped_b.to_multiset().remove(f(x)));
        assert(mapped_a.contains(f(x))) by {
            assert(mapped_a[a.len() - 1] == f(x));
        }
        assert(mapped_b.contains(f(x))) by {
            assert(mapped_b[i] == f(x));
        }
        assert(mapped_a.to_multiset().count(f(x)) > 0);
        assert(mapped_b.to_multiset().count(f(x)) > 0);
        assert(mapped_a.to_multiset() =~= mapped_a.to_multiset().remove(f(x)).insert(f(x)));
        assert(mapped_b.to_multiset() =~= mapped_b.to_multiset().remove(f(x)).insert(f(x)));
    } else {
        assert(a.map_values(f) =~= b.map_values(f));
    }
}

/// A deduplicated sequence has no repeats, and a sequence without repeats is
/// left as it is.
pub proof fn lemma_deduplicated<T>(s: Seq<T>, same: spec_fn(T, T) -> bool)
    ensures
        has_no_repeats(deduplicated(s, same), same),
        deduplicated(s, same).len() <= s.len(),
        s.len() > 0 ==> deduplicated(s, same).len() > 0,
        has_no_repeats(s, same) ==> deduplicated(s, same) == s,
    decreases s.len(),
{
    if s.len() > 0 {
        let t = s.drop_last();
        lemma_deduplicated(t, same);
        if has_no_repeats(s, same) {
            assert(has_no_repeats(t, same)) by {
                assert forall|i: int| 0 < i < t.len() implies !#[trigger] same(t[i], t[i - 1]) by {
                    assert(!same(s[i], s[i - 1]));
                }
            }
            if t.len() > 0 {
                assert(!same(s[s.len() - 1], s[s.len() - 2]));
                assert(t.last() == s[s.len() - 2]);
            }
            assert(t.push(s.last()) =~= s);
        }
    }
}

/// Each element of a deduplicated sequence is one of the sequence it was made
/// from, and the order is kept.
pub proof fn lemma_deduplicated_sorted<T>(
    s: Seq<T>,
    same: spec_fn(T, T) -> bool,
    not_after: spec_fn(T, T) -> bool,
)
    requires
        is_sorted(s, not_after),
    ensures
        is_sorted(deduplicated(s, same), not_after),
        forall|i: int|
            0 <= i < deduplicated(s, same).len() ==> s.contains(
                #[trigger] deduplicated(s, same)[i],
            ),
    decreases s.len(),
{
    if s.len() > 0 {
        let t = s.drop_last();
        assert(is_sorted(t, not_after)) by {
            assert forall|i: int, j: int| 0 <= i < j < t.len() implies #[trigger] not_after(
                t[i],
                t[j],
            ) by {
                assert(not_after(s[i], s[j]));
            }
        }
        lemma_deduplicated_sorted(t, same, not_after);
        let kept = deduplicated(t, same);
        let d = deduplicated(s, same);
        assert forall|i: int| 0 <= i < d.len() implies s.contains(#[trigger] d[i]) by {
            if i < kept.len() {
                assert(t.contains(kept[i]));
                let k = choose|k: int| 0 <= k < t.len() && t[k] == kept[i];
                assert(s[k] == kept[i]);
            } else {
                assert(s[s.len() - 1] == d[i]);
            }
        }
        assert forall|i: int, j: int| 0 <= i < j < d.len() implies #[trigger] not_after(
            d[i],
            d[j],
        ) by {
            if j < kept.len() {
                assert(not_after(kept[i], kept[j]));
            } else {
                assert(t.contains(kept[i]));
                let k = choose|k: int| 0 <= k < t.len() && t[k] == kept[i];
                assert(not_after(s[k], s[s.len() - 1]));
            }
        }
    }
}

} // verus!
