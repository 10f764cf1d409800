//! Facts about sequences.

use vstd::prelude::*;

verus! {

/// Flattening goes item by item: what the last item gives stands at the end.
pub proof fn lemma_flat_end<A, B>(s: Seq<A>, f: spec_fn(A) -> Seq<B>)
    ensures
        s.len() == 0 ==> s.map_values(f).flatten() == Seq::<B>::empty(),
        s.len() > 0 ==> s.map_values(f).flatten() == s.drop_last().map_values(f).flatten() + f(
            s.last(),
        ),
{
    let m = s.map_values(f);
    if s.len() > 0 {
        m.lemma_flatten_and_flatten_alt_are_equivalent();
        m.drop_last().lemma_flatten_and_flatten_alt_are_equivalent();
        assert(m.drop_last() =~= s.drop_last().map_values(f));
        assert(m.flatten_alt() == m.drop_last().flatten_alt() + m.last());
    } else {
        assert(m =~= Seq::<Seq<B>>::empty());
    }
}

/// Filtering goes item by item.
pub proof fn lemma_filter_end<A>(s: Seq<A>, p: spec_fn(A) -> bool)
    ensures
        s.len() == 0 ==> s.filter(p) == Seq::<A>::empty(),
        s.len() > 0 ==> s.filter(p) == if p(s.last()) {
            s.drop_last().filter(p).push(s.last())
        } else {
            s.drop_last().filter(p)
        },
{
    reveal(Seq::filter);
}

/// What is filtered out and then mapped goes item by item.
pub proof fn lemma_pick_end<A, B>(s: Seq<A>, p: spec_fn(A) -> bool, f: spec_fn(A) -> B)
    ensures
        s.len() == 0 ==> s.filter(p).map_values(f) == Seq::<B>::empty(),
        s.len() > 0 ==> s.filter(p).map_values(f) == if p(s.last()) {
            s.drop_last().filter(p).map_values(f).push(f(s.last()))
        } else {
            s.drop_last().filter(p).map_values(f)
        },
{
    lemma_filter_end(s, p);
    if s.len() > 0 && p(s.last()) {
        let d = s.drop_last().filter(p);
        assert(d.push(s.last()).map_values(f) =~= d.map_values(f).push(f(s.last())));
    } else if s.len() == 0 {
        assert(s.filter(p).map_values(f) =~= Seq::<B>::empty());
    }
}

/// What a filter keeps: the items that it picks, and no others.
pub proof fn lemma_filter_keeps<A>(s: Seq<A>, p: spec_fn(A) -> bool, x: A)
    ensures
        s.filter(p).contains(x) <==> s.contains(x) && p(x),
    decreases s.len(),
{
    lemma_filter_end(s, p);
    if s.len() > 0 {
        let d = s.drop_last();
        lemma_filter_keeps(d, p, x);
        let f = s.filter(p);
        if f.contains(x) {
            let i = choose|i: int| 0 <= i < f.len() && f[i] == x;
            if i < d.filter(p).len() {
                assert(d.filter(p)[i] == x);
                let j = choose|j: int| 0 <= j < d.len() && d[j] == x;
                assert(s[j] == x);
            } else {
                assert(s[s.len() - 1] == x);
            }
        }
        if s.contains(x) && p(x) {
            let i = choose|i: int| 0 <= i < s.len() && s[i] == x;
            if i < d.len() {
                assert(d[i] == x);
                let j = choose|j: int| 0 <= j < d.filter(p).len() && d.filter(p)[j] == x;
                assert(f[j] == x);
            } else {
                assert(f[f.len() - 1] == x);
            }
        }
    }
}

/// What a flattened list holds: the items of each part, and no others.
pub proof fn lemma_flat_holds<A, B>(s: Seq<A>, f: spec_fn(A) -> Seq<B>, x: B)
    ensures
        s.map_values(f).flatten().contains(x) <==> exists|i: int|
            0 <= i < s.len() && f(#[trigger] s[i]).contains(x),
    decreases s.len(),
{
    lemma_flat_end(s, f);
    if s.len() > 0 {
        let d = s.drop_last();
        lemma_flat_holds(d, f, x);
        let all = s.map_values(f).flatten();
        let head = d.map_values(f).flatten();
        let tail = f(s.last());
        assert(all == head + tail);
        if all.contains(x) {
            let i = choose|i: int| 0 <= i < all.len() && all[i] == x;
            if i < head.len() {
                assert(head[i] == x);
                let k = choose|k: int| 0 <= k < d.len() && f(#[trigger] d[k]).contains(x);
                assert(f(s[k]).contains(x));
            } else {
                assert(tail[i - head.len()] == x);
                assert(f(s[s.len() - 1]).contains(x));
            }
        }
        if exists|i: int| 0 <= i < s.len() && f(#[trigger] s[i]).contains(x) {
            let i = choose|i: int| 0 <= i < s.len() && f(#[trigger] s[i]).contains(x);
            if i < d.len() {
                assert(f(d[i]).contains(x));
                let k = choose|k: int| 0 <= k < head.len() && head[k] == x;
                assert(all[k] == x);
            } else {
                let k = choose|k: int| 0 <= k < tail.len() && tail[k] == x;
                assert(all[head.len() + k] == x);
            }
        }
    }
}

/// A list of lists is laid out list by list.
pub proof fn lemma_layout_end<A>(s: Seq<Seq<A>>)
    ensures
        s.len() == 0 ==> s.flatten() == Seq::<A>::empty(),
        s.len() > 0 ==> s.flatten() == s.drop_last().flatten() + s.last(),
{
    lemma_flat_end(s, |x: Seq<A>| x);
    assert(s.map_values(|x: Seq<A>| x) =~= s);
    if s.len() > 0 {
        assert(s.drop_last().map_values(|x: Seq<A>| x) =~= s.drop_last());
    }
}

} // verus!
