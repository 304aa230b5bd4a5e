//! Stable sorting, as lists of notes and vault trees use it: each item goes
//! after every item that may stay before it, so items that compare equal
//! keep the order they came in.

use vstd::prelude::*;

verus! {

/// Where `x` goes in `s`: before the first item that may not stay before it.
pub open spec fn insert_pos<T>(s: Seq<T>, x: T, stays: spec_fn(T, T) -> bool) -> int
    decreases s.len(),
{
    if s.len() == 0 || !stays(s[0], x) {
        0
    } else {
        1 + insert_pos(s.drop_first(), x, stays)
    }
}

/// The items of `s` sorted stably: each in turn inserted where
/// `insert_pos` puts it.
pub open spec fn stable_sort<T>(s: Seq<T>, stays: spec_fn(T, T) -> bool) -> Seq<T>
    decreases s.len(),
{
    if s.len() == 0 {
        s
    } else {
        let t = stable_sort(s.drop_last(), stays);
        t.insert(insert_pos(t, s.last(), stays), s.last())
    }
}

pub proof fn lemma_insert_pos_bounds<T>(s: Seq<T>, x: T, stays: spec_fn(T, T) -> bool)
    ensures
        0 <= insert_pos(s, x, stays) <= s.len(),
        forall|k: int| 0 <= k < insert_pos(s, x, stays) ==> stays(#[trigger] s[k], x),
        insert_pos(s, x, stays) < s.len() ==> !stays(s[insert_pos(s, x, stays)], x),
    decreases s.len(),
{
    if s.len() > 0 && stays(s[0], x) {
        lemma_insert_pos_bounds(s.drop_first(), x, stays);
        assert forall|k: int| 0 <= k < insert_pos(s, x, stays) implies stays(#[trigger] s[k], x) by {
            if k > 0 {
                assert(s[k] == s.drop_first()[k - 1]);
            }
        }
    }
}

/// The step of an insertion sort: with `i` items of `s` already passed,
/// `insert_pos` is `i` plus the position in the rest.
pub proof fn lemma_insert_pos_step<T>(s: Seq<T>, x: T, stays: spec_fn(T, T) -> bool, i: int)
    requires
        0 <= i < s.len(),
        stays(s[i], x),
        insert_pos(s, x, stays) == i + insert_pos(s.skip(i), x, stays),
    ensures
        insert_pos(s, x, stays) == i + 1 + insert_pos(s.skip(i + 1), x, stays),
{
    assert(s.skip(i).drop_first() =~= s.skip(i + 1));
    assert(s.skip(i)[0] == s[i]);
}

/// A sorted list has as many items as it was given.
pub proof fn lemma_stable_sort_len<T>(s: Seq<T>, stays: spec_fn(T, T) -> bool)
    ensures
        stable_sort(s, stays).len() == s.len(),
    decreases s.len(),
{
    if s.len() > 0 {
        lemma_stable_sort_len(s.drop_last(), stays);
        lemma_insert_pos_bounds(stable_sort(s.drop_last(), stays), s.last(), stays);
    }
}

/// Sorting keeps every item, each as often as it was given.
pub proof fn lemma_stable_sort_perm<T>(s: Seq<T>, stays: spec_fn(T, T) -> bool)
    ensures
        stable_sort(s, stays).to_multiset() =~= s.to_multiset(),
    decreases s.len(),
{
    broadcast use vstd::seq_lib::group_to_multiset_ensures;

    if s.len() > 0 {
        let init = s.drop_last();
        lemma_stable_sort_perm(init, stays);
        let t = stable_sort(init, stays);
        lemma_insert_pos_bounds(t, s.last(), stays);
        let p = insert_pos(t, s.last(), stays);
        vstd::seq_lib::lemma_seq_union_to_multiset_commutative(t.take(p), t.skip(p));
        assert(t.insert(p, s.last()) =~= t.take(p) + seq![s.last()] + t.skip(p));
        assert(t =~= t.take(p) + t.skip(p));
        vstd::seq_lib::lemma_multiset_commutative(t.take(p) + seq![s.last()], t.skip(p));
        vstd::seq_lib::lemma_multiset_commutative(t.take(p), seq![s.last()]);
        vstd::seq_lib::lemma_multiset_commutative(t.take(p), t.skip(p));
        assert(s =~= init.push(s.last()));
    }
}

/// With an order that is total and transitive, the sorted list is in order:
/// every item may stay before every later one.
pub proof fn lemma_stable_sort_sorted<T>(s: Seq<T>, stays: spec_fn(T, T) -> bool)
    requires
        forall|a: T, b: T| #[trigger] stays(a, b) || #[trigger] stays(b, a),
        forall|a: T, b: T, c: T| #[trigger] stays(a, b) && #[trigger] stays(b, c) ==> stays(a, c),
    ensures
        forall|i: int, j: int|
            0 <= i < j < stable_sort(s, stays).len() ==> stays(
                #[trigger] stable_sort(s, stays)[i],
                #[trigger] stable_sort(s, stays)[j],
            ),
    decreases s.len(),
{
    if s.len() > 0 {
        let init = s.drop_last();
        lemma_stable_sort_sorted(init, stays);
        let t = stable_sort(init, stays);
        let x = s.last();
        lemma_insert_pos_bounds(t, x, stays);
        let p = insert_pos(t, x, stays);
        let r = t.insert(p, x);
        assert forall|i: int, j: int| 0 <= i < j < r.len() implies stays(#[trigger] r[i], #[trigger] r[j]) by {
            if j < p {
                assert(r[i] == t[i] && r[j] == t[j]);
            } else if j == p {
                assert(r[i] == t[i]);
            } else if i < p {
                assert(r[i] == t[i] && r[j] == t[j - 1]);
                assert(stays(t[i], t[j - 1]));
            } else if i == p {
                assert(r[j] == t[j - 1]);
                assert(!stays(t[p], x));
                assert(stays(x, t[p]));
                if j - 1 > p {
                    assert(stays(t[p], t[j - 1]));
                }
            } else {
                assert(r[i] == t[i - 1] && r[j] == t[j - 1]);
            }
        }
    }
}

} // verus!
