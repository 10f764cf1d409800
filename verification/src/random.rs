//! Chance: everything that the random number generator decides.

use rand::distr::{Alphanumeric, SampleString};
use rand::seq::SliceRandom;
use rand::Rng;
use vstd::prelude::*;

verus! {

/// `order` lists the numbers below `n`, each once.
pub open spec fn is_order(order: Seq<usize>, n: nat) -> bool {
    &&& order.len() == n
    &&& forall|i: int| 0 <= i < order.len() ==> (#[trigger] order[i]) < n
    &&& order.no_duplicates()
}

/// `items` in the order that `order` gives.
pub open spec fn reordered<A>(items: Seq<A>, order: Seq<usize>) -> Seq<A> {
    Seq::new(order.len(), |i: int| items[order[i] as int])
}

/// `SliceRandom::shuffle` of the `rand` crate, with the thread's generator:
/// the items stay, in whatever order comes out.
#[verifier::external_body]
fn shuffled(order: Vec<usize>) -> (r: Vec<usize>)
    ensures
        r@.to_multiset() == order@.to_multiset(),
{
    let mut order = order;
    order.shuffle(&mut rand::rng());
    order
}

/// `Rng::fill` of the `rand` crate, with the thread's generator: sixteen
/// random bytes.
#[verifier::external_body]
fn random_bytes() -> (r: Vec<u8>)
    ensures
        r@.len() == 16,
{
    let mut bytes = [0u8; 16];
    rand::rng().fill(&mut bytes);
    bytes.to_vec()
}

/// `rand::random` of the `rand` crate: thirty-two random bytes.
#[verifier::external_body]
fn random_key() -> (r: Vec<u8>)
    ensures
        r@.len() == 32,
{
    rand::random::<[u8; 32]>().to_vec()
}

/// `c` is a letter or a digit of ASCII.
pub open spec fn is_plain(c: char) -> bool {
    'a' <= c <= 'z' || 'A' <= c <= 'Z' || '0' <= c <= '9'
}

/// `SampleString::sample_string` of the `rand` crate's `Alphanumeric`: sixteen
/// random letters and digits.
#[verifier::external_body]
fn random_salt() -> (r: String)
    ensures
        r@.len() == 16,
        forall|i: int| 0 <= i < r@.len() ==> is_plain(#[trigger] r@[i]),
{
    Alphanumeric.sample_string(&mut rand::rng(), 16)
}

/// These bytes are what `random_bytes` drew.
pub closed spec fn bytes_drawn(b: Vec<u8>) -> bool {
    call_ensures(random_bytes, (), b)
}

/// Sixteen bytes that chance has drawn.
pub fn draw_bytes() -> (r: Vec<u8>)
    ensures
        bytes_drawn(r),
        r@.len() == 16,
{
    random_bytes()
}

/// These bytes are what `random_key` drew.
pub closed spec fn key_drawn(key: Vec<u8>) -> bool {
    call_ensures(random_key, (), key)
}

/// Thirty-two bytes that chance has drawn.
pub fn draw_key() -> (r: Vec<u8>)
    ensures
        key_drawn(r),
        r@.len() == 32,
{
    random_key()
}

/// These characters are what `random_salt` drew.
pub closed spec fn salt_drawn(salt: String) -> bool {
    call_ensures(random_salt, (), salt)
}

/// Sixteen letters and digits that chance has drawn.
pub fn draw_salt() -> (r: String)
    ensures
        salt_drawn(r),
        r@.len() == 16,
        forall|i: int| 0 <= i < r@.len() ==> is_plain(#[trigger] r@[i]),
{
    random_salt()
}

/// This order is what `shuffled` made of the numbers below `n`.
pub closed spec fn order_drawn(order: Vec<usize>, n: nat) -> bool {
    exists|start: Vec<usize>| #[trigger]
        call_ensures(shuffled, (start,), order) && start@ == Seq::new(n, |i: int| i as usize)
}

/// The numbers below `n` in the order that chance has drawn.
pub fn random_order(n: usize) -> (order: Vec<usize>)
    ensures
        is_order(order@, n as nat),
        order_drawn(order, n as nat),
{
    let mut order: Vec<usize> = Vec::new();
    for i in 0..n
        invariant
            order@.len() == i,
            forall|k: int| 0 <= k < i ==> (#[trigger] order@[k]) == k,
    {
        order.push(i);
    }
    let ghost before = order@;
    assert(before.no_duplicates());
    let start = order;
    let order = shuffled(start);
    proof {
        assert(before =~= Seq::new(n as nat, |i: int| i as usize));
        assert(call_ensures(shuffled, (start,), order));
        broadcast use vstd::seq_lib::group_to_multiset_ensures;

        before.lemma_multiset_has_no_duplicates();
        order@.lemma_multiset_has_no_duplicates_conv();
        assert forall|i: int| 0 <= i < order@.len() implies (#[trigger] order@[i]) < n by {
            assert(order@.contains(order@[i]));
            assert(order@.to_multiset().count(order@[i]) > 0);
            assert(before.contains(order@[i]));
        }
        assert(order@.len() == order@.to_multiset().len());
    }
    order
}

/// A reordered list holds the same items.
pub proof fn reordering_keeps_items<A>(items: Seq<A>, order: Seq<usize>)
    requires
        is_order(order, items.len()),
        items.len() <= usize::MAX,
    ensures
        reordered(items, order).to_multiset() == items.to_multiset(),
    decreases items.len(),
{
    broadcast use vstd::seq_lib::group_to_multiset_ensures;

    let n = items.len();
    if n == 0 {
        assert(reordered(items, order) =~= items);
    } else {
        // Where the last item went.
        let p = lemma_order_hits(order, n, (n - 1) as usize);
        let rest = order.remove(p);
        assert(is_order(rest, (n - 1) as nat)) by {
            assert forall|i: int| 0 <= i < rest.len() implies (#[trigger] rest[i]) < n - 1 by {
                let k = if i < p { i } else { i + 1 };
                assert(rest[i] == order[k]);
                assert(order[k] != order[p]);
            }
            assert forall|i: int, j: int|
                0 <= i < rest.len() && 0 <= j < rest.len() && i != j implies rest[i] != rest[j] by {
                let k = if i < p { i } else { i + 1 };
                let l = if j < p { j } else { j + 1 };
                assert(order[k] != order[l]);
            }
        }
        reordering_keeps_items(items.drop_last(), rest);
        let r = reordered(items, order);
        let s = reordered(items.drop_last(), rest);
        assert forall|i: int| 0 <= i < r.len() implies r[i] == s.insert(p, items.last())[i] by {
            if i < p {
                assert(rest[i] == order[i]);
            } else if i > p {
                assert(rest[i - 1] == order[i]);
            }
        }
        assert(r =~= s.insert(p, items.last()));
        crate::sorting::lemma_insert_multiset(s, p, items.last());
        assert(items =~= items.drop_last().push(items.last()));
    }
}

proof fn lemma_order_hits(order: Seq<usize>, n: nat, x: usize) -> (p: int)
    requires
        is_order(order, n),
        n <= usize::MAX,
        x < n,
    ensures
        0 <= p < order.len(),
        order[p] == x,
{
    let s = order.to_set();
    let all = Set::new(|v: usize| v < n);
    order.unique_seq_to_set();
    assert(s.subset_of(all));
    lemma_below_finite(n);
    vstd::set_lib::lemma_subset_equality(s, all);
    assert(s.contains(x));
    choose|p: int| 0 <= p < order.len() && order[p] == x
}

proof fn lemma_below_finite(n: nat)
    requires
        n <= usize::MAX,
    ensures
        Set::new(|v: usize| v < n).finite(),
        Set::new(|v: usize| v < n).len() == n,
    decreases n,
{
    let s = Set::new(|v: usize| v < n);
    if n == 0 {
        assert(s =~= Set::empty());
    } else {
        lemma_below_finite((n - 1) as nat);
        let t = Set::new(|v: usize| v < n - 1);
        assert(s =~= t.insert((n - 1) as usize));
        assert(!t.contains((n - 1) as usize));
    }
}

} // verus!
