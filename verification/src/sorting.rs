//! Stable sorting.

use crate::seqs::lemma_filter_end;
use crate::strs::views;
use vstd::prelude::*;
use vstd::relations::sorted_by;

verus! {

/// `x` put into the sorted `s`, behind everything that may stand before it.
pub open spec fn insert_sorted<A>(s: Seq<A>, x: A, leq: spec_fn(A, A) -> bool) -> Seq<A>
    decreases s.len(),
{
    if s.len() == 0 || leq(s.last(), x) {
        s.push(x)
    } else {
        insert_sorted(s.drop_last(), x, leq).push(s.last())
    }
}

/// `s` in order, items that may stand either way round kept as they stood.
pub open spec fn stable_sort<A>(s: Seq<A>, leq: spec_fn(A, A) -> bool) -> Seq<A>
    decreases s.len(),
{
    if s.len() == 0 {
        s
    } else {
        insert_sorted(stable_sort(s.drop_last(), leq), s.last(), leq)
    }
}

/// `leq` orders any two items, and does so transitively.
pub open spec fn total_preorder<A>(leq: spec_fn(A, A) -> bool) -> bool {
    &&& forall|a: A, b: A| #[trigger] leq(a, b) || leq(b, a)
    &&& forall|a: A, b: A, c: A| #[trigger] leq(a, b) && #[trigger] leq(b, c) ==> leq(a, c)
}

proof fn lemma_insert_at<A>(s: Seq<A>, x: A, leq: spec_fn(A, A) -> bool, p: int)
    requires
        0 <= p <= s.len(),
        forall|i: int| 0 <= i < p ==> leq(#[trigger] s[i], x),
        forall|i: int| p <= i < s.len() ==> !leq(#[trigger] s[i], x),
    ensures
        insert_sorted(s, x, leq) == s.insert(p, x),
    decreases s.len(),
{
    if p == s.len() {
        assert(s.insert(p, x) =~= s.push(x));
    } else {
        assert(!leq(s[s.len() - 1], x));
        lemma_insert_at(s.drop_last(), x, leq, p);
        assert(s.insert(p, x) =~= s.drop_last().insert(p, x).push(s.last()));
    }
}

proof fn lemma_insert_sorted<A>(s: Seq<A>, x: A, leq: spec_fn(A, A) -> bool)
    requires
        total_preorder(leq),
        sorted_by(s, leq),
    ensures
        sorted_by(insert_sorted(s, x, leq), leq),
        insert_sorted(s, x, leq).to_multiset() == s.to_multiset().insert(x),
        insert_sorted(s, x, leq).len() == s.len() + 1,
        forall|i: int| 0 <= i <= s.len() ==> {
            let y = #[trigger] insert_sorted(s, x, leq)[i];
            y == x || s.contains(y)
        },
    decreases s.len(),
{
    broadcast use vstd::seq_lib::group_to_multiset_ensures;

    if s.len() == 0 || leq(s.last(), x) {
        let r = s.push(x);
        assert forall|i: int, j: int| 0 <= i < j < r.len() implies #[trigger] leq(r[i], r[j]) by {
            if j == s.len() {
                if i < s.len() - 1 {
                    assert(leq(s[i], s[s.len() - 1]));
                }
            }
        }
        assert forall|i: int| 0 <= i <= s.len() implies {
            let y = #[trigger] r[i];
            y == x || s.contains(y)
        } by {
            if i < s.len() {
                assert(s[i] == r[i]);
            }
        }
    } else {
        let t = s.drop_last();
        lemma_insert_sorted(t, x, leq);
        let q = insert_sorted(t, x, leq);
        let r = q.push(s.last());
        assert(leq(x, s.last()));
        assert forall|i: int, j: int| 0 <= i < j < r.len() implies #[trigger] leq(r[i], r[j]) by {
            if j == q.len() {
                let y = q[i];
                if y != x {
                    let k = choose|k: int| 0 <= k < t.len() && t[k] == y;
                    assert(leq(s[k], s[s.len() - 1]));
                }
            } else {
                assert(leq(q[i], q[j]));
            }
        }
        assert forall|i: int| 0 <= i <= s.len() implies {
            let y = #[trigger] r[i];
            y == x || s.contains(y)
        } by {
            if i < q.len() {
                let y = q[i];
                if y != x {
                    let k = choose|k: int| 0 <= k < t.len() && t[k] == y;
                    assert(s[k] == y);
                }
            } else {
                assert(s[s.len() - 1] == r[i]);
            }
        }
        assert(t.push(s.last()) =~= s);
        assert(r.to_multiset() =~= s.to_multiset().insert(x));
    }
}

/// Sorting keeps the items and puts them in order.
pub proof fn stable_sort_sorts<A>(s: Seq<A>, leq: spec_fn(A, A) -> bool)
    requires
        total_preorder(leq),
    ensures
        sorted_by(stable_sort(s, leq), leq),
        stable_sort(s, leq).to_multiset() == s.to_multiset(),
        stable_sort(s, leq).len() == s.len(),
    decreases s.len(),
{
    broadcast use vstd::seq_lib::group_to_multiset_ensures;

    if s.len() > 0 {
        stable_sort_sorts(s.drop_last(), leq);
        lemma_insert_sorted(stable_sort(s.drop_last(), leq), s.last(), leq);
        assert(s.drop_last().push(s.last()) =~= s);
    }
}

/// Lists of the same items, in whatever order, stay so when each item is
/// mapped.
pub proof fn mapping_keeps_items<A, B>(s: Seq<A>, t: Seq<A>, f: spec_fn(A) -> B)
    requires
        s.to_multiset() == t.to_multiset(),
    ensures
        s.map_values(f).to_multiset() == t.map_values(f).to_multiset(),
    decreases s.len(),
{
    broadcast use vstd::seq_lib::group_to_multiset_ensures;

    vstd::seq_lib::to_multiset_len(s);
    vstd::seq_lib::to_multiset_len(t);
    if s.len() == 0 {
        assert(s.map_values(f) =~= t.map_values(f));
    } else {
        let d = s.drop_last();
        let x = s.last();
        assert(d.push(x) =~= s);
        assert(s.contains(x));
        assert(s.to_multiset().count(x) > 0);
        assert(t.contains(x));
        let i = choose|i: int| 0 <= i < t.len() && t[i] == x;
        let u = t.remove(i);
        assert(d.to_multiset() =~= s.to_multiset().remove(x));
        assert(u.to_multiset() =~= t.to_multiset().remove(x));
        mapping_keeps_items(d, u, f);
        assert(s.map_values(f) =~= d.map_values(f).push(f(x)));
        assert(t.map_values(f) =~= u.map_values(f).insert(i, f(x)));
        lemma_insert_multiset(u.map_values(f), i, f(x));
    }
}

/// Items that `keep` picks out of `s`, in their order.
pub open spec fn kept<A>(s: Seq<A>, keep: spec_fn(A) -> bool) -> Seq<A>
    decreases s.len(),
{
    if s.len() == 0 {
        s
    } else if keep(s.last()) {
        kept(s.drop_last(), keep).push(s.last())
    } else {
        kept(s.drop_last(), keep)
    }
}

/// Picks the items that may stand either way round with `pivot`.
pub open spec fn level_with<A>(leq: spec_fn(A, A) -> bool, pivot: A) -> spec_fn(A) -> bool {
    |a: A| leq(a, pivot) && leq(pivot, a)
}

proof fn lemma_insert_stable<A>(s: Seq<A>, x: A, leq: spec_fn(A, A) -> bool, pivot: A)
    requires
        total_preorder(leq),
        sorted_by(s, leq),
    ensures
        kept(insert_sorted(s, x, leq), level_with(leq, pivot)) == kept(
            s.push(x),
            level_with(leq, pivot),
        ),
    decreases s.len(),
{
    let same = level_with(leq, pivot);
    if s.len() == 0 || leq(s.last(), x) {
    } else {
        let t = s.drop_last();
        lemma_insert_stable(t, x, leq, pivot);
        assert(t.push(x).drop_last() =~= t);
        assert(s.push(x).drop_last() =~= s);
        let q = insert_sorted(t, x, leq);
        assert(q.push(s.last()).drop_last() =~= q);
        assert(same(x) && same(s.last()) ==> leq(s.last(), x));
        assert(s.push(x).last() == x);
        assert(t.push(x).last() == x);
        assert(q.push(s.last()).last() == s.last());
        assert(kept(s, same) == if same(s.last()) { kept(t, same).push(s.last()) } else { kept(t, same) });
    }
}

/// Items that may stand either way round keep the order that they had.
pub proof fn stable_sort_is_stable<A>(s: Seq<A>, leq: spec_fn(A, A) -> bool, pivot: A)
    requires
        total_preorder(leq),
    ensures
        kept(stable_sort(s, leq), level_with(leq, pivot)) == kept(s, level_with(leq, pivot)),
    decreases s.len(),
{
    if s.len() > 0 {
        let t = s.drop_last();
        stable_sort_is_stable(t, leq, pivot);
        stable_sort_sorts(t, leq);
        lemma_insert_stable(stable_sort(t, leq), s.last(), leq, pivot);
        let u = stable_sort(t, leq);
        assert(u.push(s.last()).drop_last() =~= u);
    }
}

/// A type whose values can be put in order.
pub trait Ranked: View + Sized {
    /// `a` may stand before `b`.
    spec fn leq(a: Self::V, b: Self::V) -> bool;

    proof fn leq_total(a: Self::V, b: Self::V)
        ensures
            Self::leq(a, b) || Self::leq(b, a),
    ;

    proof fn leq_transitive(a: Self::V, b: Self::V, c: Self::V)
        requires
            Self::leq(a, b),
            Self::leq(b, c),
        ensures
            Self::leq(a, c),
    ;

    /// Whether `self` may stand before `other`.
    fn may_precede(&self, other: &Self) -> (r: bool)
        ensures
            r == Self::leq(self@, other@),
    ;
}

/// The order of a type as a function.
pub open spec fn ranking<T: Ranked>() -> spec_fn(T::V, T::V) -> bool {
    |a: T::V, b: T::V| T::leq(a, b)
}

/// The order of a type orders any two values, and does so transitively.
pub proof fn ranking_is_total_preorder<T: Ranked>()
    ensures
        total_preorder(ranking::<T>()),
{
    let leq = ranking::<T>();
    assert forall|a: T::V, b: T::V| #[trigger] leq(a, b) || leq(b, a) by {
        T::leq_total(a, b);
    }
    assert forall|a: T::V, b: T::V, c: T::V| #[trigger] leq(a, b) && #[trigger] leq(b, c) implies leq(
        a,
        c,
    ) by {
        T::leq_transitive(a, b, c);
    }
}

/// How many of the first items may stand before `x`.
fn insertion_point<T: Ranked>(v: &Vec<T>, x: &T) -> (p: usize)
    requires
        sorted_by(views(v@), ranking::<T>()),
    ensures
        p <= v@.len(),
        forall|i: int| 0 <= i < p ==> T::leq(#[trigger] views(v@)[i], x@),
        forall|i: int| p <= i < v@.len() ==> !T::leq(#[trigger] views(v@)[i], x@),
{
    let mut lo: usize = 0;
    let mut hi: usize = v.len();
    while lo < hi
        invariant
            lo <= hi <= v@.len(),
            sorted_by(views(v@), ranking::<T>()),
            forall|i: int| 0 <= i < lo ==> T::leq(#[trigger] views(v@)[i], x@),
            forall|i: int| hi <= i < v@.len() ==> !T::leq(#[trigger] views(v@)[i], x@),
        decreases hi - lo,
    {
        let mid: usize = lo + (hi - lo) / 2;
        proof {
            ranking_is_total_preorder::<T>();
            let leq = ranking::<T>();
            assert(views(v@)[mid as int] == v@[mid as int]@);
            assert forall|i: int, j: int| 0 <= i < j < v@.len() implies T::leq(
                #[trigger] views(v@)[i],
                #[trigger] views(v@)[j],
            ) by {
                assert(leq(views(v@)[i], views(v@)[j]));
            }
            if T::leq(views(v@)[mid as int], x@) {
                assert forall|i: int| 0 <= i <= mid implies T::leq(#[trigger] views(v@)[i], x@) by {
                    if i < mid {
                        T::leq_transitive(views(v@)[i], views(v@)[mid as int], x@);
                    }
                }
            } else {
                assert forall|i: int| mid <= i < v@.len() implies !T::leq(
                    #[trigger] views(v@)[i],
                    x@,
                ) by {
                    if i > mid && T::leq(views(v@)[i], x@) {
                        T::leq_transitive(views(v@)[mid as int], views(v@)[i], x@);
                    }
                }
            }
        }
        if v[mid].may_precede(x) {
            lo = mid + 1;
        } else {
            hi = mid;
        }
    }
    lo
}

/// Sorts `items`, keeping the order of items that may stand either way round.
pub fn sort<T: Ranked>(items: Vec<T>) -> (r: Vec<T>)
    ensures
        views(r@) == stable_sort(views(items@), ranking::<T>()),
        r@.to_multiset() == items@.to_multiset(),
{
    let ghost all = items@;
    let ghost leq = ranking::<T>();
    let mut rest = items;
    let mut back: Vec<T> = Vec::new();
    while rest.len() > 0
        invariant
            rest@ + back@.reverse() == all,
        decreases rest@.len(),
    {
        let ghost before = rest@;
        let ghost gone = back@;
        let x = rest.pop().unwrap();
        back.push(x);
        proof {
            assert(before =~= rest@.push(x));
            assert(back@.reverse() =~= seq![x] + gone.reverse());
            assert(rest@ + back@.reverse() =~= before + gone.reverse());
        }
    }
    let mut r: Vec<T> = Vec::new();
    let mut done: Ghost<Seq<T>> = Ghost(Seq::empty());
    proof {
        assert(rest@ =~= Seq::<T>::empty());
        assert(done@ + back@.reverse() =~= all);
        assert(views(done@) =~= Seq::<T::V>::empty());
        assert(views(r@) =~= Seq::<T::V>::empty());
    }
    while back.len() > 0
        invariant
            done@ + back@.reverse() == all,
            leq == ranking::<T>(),
            views(r@) == stable_sort(views(done@), leq),
            r@.to_multiset() == done@.to_multiset(),
        decreases back@.len(),
    {
        let ghost before = back@;
        let ghost sorted = r@;
        let x = back.pop().unwrap();
        proof {
            broadcast use vstd::seq_lib::group_to_multiset_ensures;

            ranking_is_total_preorder::<T>();
            stable_sort_sorts(views(done@), leq);
            assert(before.reverse() =~= seq![x] + back@.reverse());
        }
        let p = insertion_point(&r, &x);
        r.insert(p, x);
        proof {
            broadcast use vstd::seq_lib::group_to_multiset_ensures;

            lemma_insert_at(views(sorted), x@, leq, p as int);
            assert(views(r@) =~= views(sorted).insert(p as int, x@));
            let next = done@.push(x);
            assert(views(next).drop_last() =~= views(done@));
            assert(views(next).last() == x@);
            assert(next + back@.reverse() =~= done@ + before.reverse());
            lemma_insert_multiset(sorted, p as int, x);
            done@ = next;
        }
    }
    proof {
        assert(done@ =~= all);
    }
    r
}

pub proof fn lemma_insert_multiset<A>(s: Seq<A>, p: int, x: A)
    requires
        0 <= p <= s.len(),
    ensures
        s.insert(p, x).to_multiset() == s.to_multiset().insert(x),
    decreases s.len() - p,
{
    broadcast use vstd::seq_lib::group_to_multiset_ensures;

    if p == s.len() {
        assert(s.insert(p, x) =~= s.push(x));
    } else {
        lemma_insert_multiset(s.drop_last(), p, x);
        assert(s.insert(p, x) =~= s.drop_last().insert(p, x).push(s.last()));
        assert(s =~= s.drop_last().push(s.last()));
        assert(s.insert(p, x).to_multiset() =~= s.to_multiset().insert(x));
    }
}

/// Where two kept items stood: in the same order.
pub proof fn lemma_kept_order<A>(s: Seq<A>, keep: spec_fn(A) -> bool, i: int, j: int) -> (r: (
    int,
    int,
))
    requires
        0 <= i < j < kept(s, keep).len(),
    ensures
        0 <= r.0 < r.1 < s.len(),
        s[r.0] == kept(s, keep)[i],
        s[r.1] == kept(s, keep)[j],
    decreases s.len(),
{
    let init = s.drop_last();
    let k = kept(init, keep);
    if keep(s.last()) && j == k.len() {
        let a = lemma_kept_from(init, keep, i);
        (a, s.len() - 1)
    } else {
        lemma_kept_order(init, keep, i, j)
    }
}

/// Where a kept item stood; it is one that `keep` picks.
pub proof fn lemma_kept_from<A>(s: Seq<A>, keep: spec_fn(A) -> bool, i: int) -> (a: int)
    requires
        0 <= i < kept(s, keep).len(),
    ensures
        0 <= a < s.len(),
        s[a] == kept(s, keep)[i],
        keep(kept(s, keep)[i]),
    decreases s.len(),
{
    let init = s.drop_last();
    let k = kept(init, keep);
    if keep(s.last()) && i == k.len() {
        s.len() - 1
    } else {
        lemma_kept_from(init, keep, i)
    }
}

/// What `keep` picks is kept.
pub proof fn lemma_kept_contains<A>(s: Seq<A>, keep: spec_fn(A) -> bool, a: int)
    requires
        0 <= a < s.len(),
        keep(s[a]),
    ensures
        kept(s, keep).contains(s[a]),
    decreases s.len(),
{
    let init = s.drop_last();
    let k = kept(s, keep);
    if a == s.len() - 1 {
        assert(k[k.len() - 1] == s[a]);
    } else {
        lemma_kept_contains(init, keep, a);
        let i = choose|i: int| 0 <= i < kept(init, keep).len() && kept(init, keep)[i] == init[a];
        assert(k[i] == s[a]);
    }
}

proof fn lemma_insert_keyed<A, B>(s: Seq<A>, x: A, key: spec_fn(A) -> B, leq: spec_fn(B, B) -> bool)
    ensures
        insert_sorted(s.map_values(key), key(x), leq) == insert_sorted(
            s,
            x,
            |a: A, b: A| leq(key(a), key(b)),
        ).map_values(key),
    decreases s.len(),
{
    let upto = |a: A, b: A| leq(key(a), key(b));
    let m = s.map_values(key);
    if s.len() == 0 || leq(key(s.last()), key(x)) {
        assert(s.push(x).map_values(key) =~= m.push(key(x)));
    } else {
        let d = s.drop_last();
        lemma_insert_keyed(d, x, key, leq);
        assert(m.drop_last() =~= d.map_values(key));
        let r = insert_sorted(d, x, upto);
        assert(r.push(s.last()).map_values(key) =~= r.map_values(key).push(key(s.last())));
    }
}

proof fn lemma_sort_keyed<A, B>(s: Seq<A>, key: spec_fn(A) -> B, leq: spec_fn(B, B) -> bool)
    ensures
        stable_sort(s.map_values(key), leq) == stable_sort(
            s,
            |a: A, b: A| leq(key(a), key(b)),
        ).map_values(key),
    decreases s.len(),
{
    let upto = |a: A, b: A| leq(key(a), key(b));
    if s.len() > 0 {
        let d = s.drop_last();
        lemma_sort_keyed(d, key, leq);
        assert(s.map_values(key).drop_last() =~= d.map_values(key));
        lemma_insert_keyed(stable_sort(d, upto), s.last(), key, leq);
    } else {
        assert(s.map_values(key) =~= seq![]);
        assert(stable_sort(s, upto).map_values(key) =~= seq![]);
    }
}

/// Sorting the keys of items sorts the items: there is an order of the items in
/// which the keys are sorted, and it has the same items.
pub proof fn sorting_keys_sorts_items<A, B>(
    s: Seq<A>,
    key: spec_fn(A) -> B,
    leq: spec_fn(B, B) -> bool,
) -> (t: Seq<A>)
    requires
        total_preorder(leq),
    ensures
        stable_sort(s.map_values(key), leq) == t.map_values(key),
        t.to_multiset() == s.to_multiset(),
        t.len() == s.len(),
        forall|i: int, j: int| 0 <= i < j < t.len() ==> leq(key(#[trigger] t[i]), key(#[trigger] t[j])),
{
    let upto = |a: A, b: A| leq(key(a), key(b));
    assert(total_preorder(upto)) by {
        assert forall|a: A, b: A| #[trigger] upto(a, b) || upto(b, a) by {
            assert(leq(key(a), key(b)) || leq(key(b), key(a)));
        }
        assert forall|a: A, b: A, c: A| #[trigger] upto(a, b) && #[trigger] upto(b, c) implies upto(
            a,
            c,
        ) by {
            assert(leq(key(a), key(b)) && leq(key(b), key(c)));
        }
    }
    lemma_sort_keyed(s, key, leq);
    stable_sort_sorts(s, upto);
    let t = stable_sort(s, upto);
    assert forall|i: int, j: int| 0 <= i < j < t.len() implies leq(
        key(#[trigger] t[i]),
        key(#[trigger] t[j]),
    ) by {
        assert(upto(t[i], t[j]));
    }
    t
}

/// What is in order already is not moved.
pub proof fn sorting_the_sorted_changes_nothing<A>(s: Seq<A>, leq: spec_fn(A, A) -> bool)
    requires
        forall|i: int, j: int| 0 <= i < j < s.len() ==> leq(#[trigger] s[i], #[trigger] s[j]),
    ensures
        stable_sort(s, leq) == s,
    decreases s.len(),
{
    if s.len() > 0 {
        let d = s.drop_last();
        assert forall|i: int, j: int| 0 <= i < j < d.len() implies leq(
            #[trigger] d[i],
            #[trigger] d[j],
        ) by {
            assert(leq(s[i], s[j]));
        }
        sorting_the_sorted_changes_nothing(d, leq);
        if d.len() > 0 {
            assert(leq(s[d.len() - 1], s[d.len() as int]));
        }
        assert(d.push(s.last()) =~= s);
    }
}

/// What is kept is what a filter lets through.
pub proof fn keeping_is_filtering<A>(s: Seq<A>, keep: spec_fn(A) -> bool)
    ensures
        kept(s, keep) == s.filter(keep),
    decreases s.len(),
{
    lemma_filter_end(s, keep);
    if s.len() > 0 {
        keeping_is_filtering(s.drop_last(), keep);
    }
}

} // verus!
