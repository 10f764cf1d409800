//! Tables: rows that are told apart by their keys.

use crate::seqs::lemma_filter_end;
use crate::strs::views;
use vstd::prelude::*;

verus! {

/// A row of a table.
pub trait Row: View + Sized {
    /// What tells the row from others.
    spec fn key(v: Self::V) -> Seq<Seq<char>>;

    /// A stored row once a new one with its key was written over it.
    spec fn over(stored: Self::V, new: Self::V) -> Self::V;

    /// Writing over a row keeps its key.
    proof fn over_keeps_key(stored: Self::V, new: Self::V)
        requires
            Self::key(stored) == Self::key(new),
        ensures
            Self::key(Self::over(stored, new)) == Self::key(stored),
    ;

    /// Whether two rows have the same key.
    fn same_key(&self, other: &Self) -> (r: bool)
        ensures
            r == (Self::key(self@) == Self::key(other@)),
    ;

    /// This row once `new` was written over it.
    fn put_over(&self, new: Self) -> (r: Self)
        ensures
            r@ == Self::over(self@, new@),
    ;

    /// A row that holds the same.
    fn copy(&self) -> (r: Self)
        ensures
            r@ == self@,
    ;
}

/// The first row with this key.
pub open spec fn found<T: Row>(rows: Seq<T::V>, key: Seq<Seq<char>>) -> Option<T::V>
    decreases rows.len(),
{
    if rows.len() == 0 {
        None
    } else if T::key(rows[0]) == key {
        Some(rows[0])
    } else {
        found::<T>(rows.skip(1), key)
    }
}

/// The rows after `new` was written: over the row with its key if there is
/// one, else behind all rows.
pub open spec fn written<T: Row>(rows: Seq<T::V>, new: T::V) -> Seq<T::V>
    decreases rows.len(),
{
    if rows.len() == 0 {
        seq![new]
    } else if T::key(rows[0]) == T::key(new) {
        seq![T::over(rows[0], new)] + rows.skip(1)
    } else {
        seq![rows[0]] + written::<T>(rows.skip(1), new)
    }
}

/// The rows without those with this key.
pub open spec fn without<T: Row>(rows: Seq<T::V>, key: Seq<Seq<char>>) -> Seq<T::V>
    decreases rows.len(),
{
    if rows.len() == 0 {
        seq![]
    } else {
        let rest = without::<T>(rows.drop_last(), key);
        if T::key(rows.last()) == key {
            rest
        } else {
            rest.push(rows.last())
        }
    }
}

/// No two rows share a key.
pub open spec fn keys_distinct<T: Row>(rows: Seq<T::V>) -> bool {
    forall|i: int, j: int|
        0 <= i < j < rows.len() ==> T::key(#[trigger] rows[i]) != T::key(#[trigger] rows[j])
}

/// Some row has this key.
pub open spec fn has_key<T: Row>(rows: Seq<T::V>, key: Seq<Seq<char>>) -> bool {
    exists|i: int| 0 <= i < rows.len() && T::key(#[trigger] rows[i]) == key
}

/// Writes a row.
pub fn put<T: Row>(rows: &mut Vec<T>, new: T)
    ensures
        views(final(rows)@) == written::<T>(views(old(rows)@), new@),
{
    let ghost s = views(rows@);
    let ghost nv = new@;
    let mut i: usize = 0;
    assert(s.take(0) + written::<T>(s.skip(0), nv) =~= written::<T>(s, nv)) by {
        assert(s.skip(0) =~= s);
    }
    while i < rows.len()
        invariant
            i <= rows@.len(),
            s == views(rows@),
            s == views(old(rows)@),
            nv == new@,
            s.take(i as int) + written::<T>(s.skip(i as int), nv) == written::<T>(s, nv),
        decreases rows@.len() - i,
    {
        let ghost rest = s.skip(i as int);
        proof {
            assert(rest[0] == rows@[i as int]@);
            assert(rest.skip(1) =~= s.skip(i + 1));
        }
        if rows[i].same_key(&new) {
            let known = rows[i].put_over(new);
            let ghost kv = known@;
            rows.set(i, known);
            proof {
                assert(kv == T::over(rest[0], nv));
                assert(views(rows@) =~= s.update(i as int, kv));
                assert(s.update(i as int, kv) =~= s.take(i as int) + (seq![kv] + rest.skip(1)));
            }
            return;
        }
        assert(s.take(i + 1) + written::<T>(s.skip(i + 1), nv) =~= s.take(i as int) + (
        seq![rest[0]] + written::<T>(rest.skip(1), nv)));
        i += 1;
    }
    rows.push(new);
    proof {
        assert(s.take(i as int) =~= s);
        assert(s.skip(i as int).len() == 0);
        assert(views(rows@) =~= s + seq![nv]);
    }
}

/// Removes the rows with the key of `probe`.
pub fn remove<T: Row>(rows: &mut Vec<T>, probe: &T)
    ensures
        views(final(rows)@) == without::<T>(views(old(rows)@), T::key(probe@)),
{
    let ghost s = views(rows@);
    let mut out: Vec<T> = Vec::new();
    let mut i: usize = 0;
    assert(s.take(0) =~= seq![]);
    assert(views(out@) =~= seq![]);
    while i < rows.len()
        invariant
            i <= rows@.len(),
            s == views(rows@),
            views(out@) == without::<T>(s.take(i as int), T::key(probe@)),
        decreases rows@.len() - i,
    {
        let ghost before = out@;
        proof {
            assert(s.take(i + 1).drop_last() =~= s.take(i as int));
            assert(s.take(i + 1).last() == rows@[i as int]@);
        }
        if !rows[i].same_key(probe) {
            let row = rows[i].copy();
            let ghost rv = row@;
            out.push(row);
            assert(views(out@) =~= views(before).push(rv));
        }
        i += 1;
    }
    assert(s.take(i as int) =~= s);
    *rows = out;
}

/// A row that was written is found by its key, written over the one that stood
/// there; under other keys the same rows are found as before.
pub proof fn written_row_is_found<T: Row>(rows: Seq<T::V>, new: T::V, other: Seq<Seq<char>>)
    ensures
        found::<T>(written::<T>(rows, new), T::key(new)) == match found::<T>(rows, T::key(new)) {
            Some(stored) => Some(T::over(stored, new)),
            None => Some(new),
        },
        other != T::key(new) ==> found::<T>(written::<T>(rows, new), other) == found::<T>(
            rows,
            other,
        ),
    decreases rows.len(),
{
    let all = written::<T>(rows, new);
    reveal_with_fuel(found, 2);
    if rows.len() == 0 {
        assert(all.skip(1) =~= seq![]);
    } else if T::key(rows[0]) == T::key(new) {
        T::over_keeps_key(rows[0], new);
        assert(all.skip(1) =~= rows.skip(1));
    } else {
        written_row_is_found::<T>(rows.skip(1), new, other);
        assert(all.skip(1) =~= written::<T>(rows.skip(1), new));
    }
}

proof fn lemma_written_keys<T: Row>(rows: Seq<T::V>, new: T::V)
    ensures
        has_key::<T>(rows, T::key(new)) ==> written::<T>(rows, new).len() == rows.len(),
        has_key::<T>(rows, T::key(new)) ==> forall|i: int|
            0 <= i < rows.len() ==> T::key(#[trigger] written::<T>(rows, new)[i]) == T::key(
                rows[i],
            ),
        !has_key::<T>(rows, T::key(new)) ==> written::<T>(rows, new) == rows.push(new),
    decreases rows.len(),
{
    let all = written::<T>(rows, new);
    if rows.len() == 0 {
        assert(all =~= rows.push(new));
    } else {
        let t = rows.skip(1);
        if T::key(rows[0]) == T::key(new) {
            T::over_keeps_key(rows[0], new);
            assert(has_key::<T>(rows, T::key(new)));
            assert forall|i: int| 0 <= i < rows.len() implies T::key(#[trigger] all[i]) == T::key(
                rows[i],
            ) by {
                if i > 0 {
                    assert(all[i] == t[i - 1]);
                }
            }
        } else {
            lemma_written_keys::<T>(t, new);
            let w = written::<T>(t, new);
            if has_key::<T>(rows, T::key(new)) {
                let k = choose|k: int|
                    0 <= k < rows.len() && T::key(#[trigger] rows[k]) == T::key(new);
                assert(t[k - 1] == rows[k]);
                assert(has_key::<T>(t, T::key(new)));
                assert forall|i: int| 0 <= i < rows.len() implies T::key(#[trigger] all[i])
                    == T::key(rows[i]) by {
                    if i > 0 {
                        assert(all[i] == w[i - 1]);
                        assert(t[i - 1] == rows[i]);
                    }
                }
            } else {
                if has_key::<T>(t, T::key(new)) {
                    let k = choose|k: int|
                        0 <= k < t.len() && T::key(#[trigger] t[k]) == T::key(new);
                    assert(rows[k + 1] == t[k]);
                }
                assert(all =~= rows.push(new));
            }
        }
    }
}

/// Writing a row keeps the keys distinct.
pub proof fn writing_keeps_keys_distinct<T: Row>(rows: Seq<T::V>, new: T::V)
    requires
        keys_distinct::<T>(rows),
    ensures
        keys_distinct::<T>(written::<T>(rows, new)),
{
    lemma_written_keys::<T>(rows, new);
    let all = written::<T>(rows, new);
    assert forall|i: int, j: int| 0 <= i < j < all.len() implies T::key(#[trigger] all[i]) != T::key(
        #[trigger] all[j],
    ) by {
        if j < rows.len() {
            assert(T::key(rows[i]) != T::key(rows[j]));
        } else {
            assert(T::key(rows[i]) != T::key(new));
        }
    }
}

/// A key that was removed is not found, and every row with another key is
/// found as before.
pub proof fn removed_key_is_gone<T: Row>(
    rows: Seq<T::V>,
    key: Seq<Seq<char>>,
    other: Seq<Seq<char>>,
)
    ensures
        !has_key::<T>(without::<T>(rows, key), key),
        found::<T>(without::<T>(rows, key), key) is None,
        other != key ==> found::<T>(without::<T>(rows, key), other) == found::<T>(rows, other),
    decreases rows.len(),
{
    if rows.len() > 0 {
        let d = rows.drop_last();
        let rest = without::<T>(d, key);
        let all = without::<T>(rows, key);
        removed_key_is_gone::<T>(d, key, other);
        if has_key::<T>(all, key) {
            let i = choose|i: int| 0 <= i < all.len() && T::key(#[trigger] all[i]) == key;
            assert(i < rest.len());
            assert(rest[i] == all[i]);
            assert(has_key::<T>(rest, key));
        }
        lemma_found_end::<T>(rows, other);
        if T::key(rows.last()) != key {
            assert(all.drop_last() =~= rest);
            lemma_found_end::<T>(all, other);
        }
    }
    lemma_not_found::<T>(without::<T>(rows, key), key);
}

proof fn lemma_not_found<T: Row>(rows: Seq<T::V>, key: Seq<Seq<char>>)
    ensures
        found::<T>(rows, key) is None <==> !has_key::<T>(rows, key),
    decreases rows.len(),
{
    if rows.len() > 0 {
        let t = rows.skip(1);
        lemma_not_found::<T>(t, key);
        if T::key(rows[0]) == key {
            assert(has_key::<T>(rows, key));
        } else {
            if has_key::<T>(rows, key) {
                let k = choose|k: int| 0 <= k < rows.len() && T::key(#[trigger] rows[k]) == key;
                assert(t[k - 1] == rows[k]);
            }
            if has_key::<T>(t, key) {
                let k = choose|k: int| 0 <= k < t.len() && T::key(#[trigger] t[k]) == key;
                assert(rows[k + 1] == t[k]);
            }
        }
    }
}

proof fn lemma_found_end<T: Row>(rows: Seq<T::V>, key: Seq<Seq<char>>)
    requires
        rows.len() > 0,
    ensures
        found::<T>(rows, key) == match found::<T>(rows.drop_last(), key) {
            Some(row) => Some(row),
            None => if T::key(rows.last()) == key {
                Some(rows.last())
            } else {
                None
            },
        },
    decreases rows.len(),
{
    reveal_with_fuel(found, 2);
    if rows.len() == 1 {
        assert(rows.drop_last() =~= seq![]);
        assert(rows.skip(1) =~= seq![]);
    } else if T::key(rows[0]) != key {
        lemma_found_end::<T>(rows.skip(1), key);
        assert(rows.skip(1).drop_last() =~= rows.drop_last().skip(1));
    }
}

/// Removing a key takes the rows that have it; the others stay in their order.
pub proof fn other_rows_stay<T: Row>(rows: Seq<T::V>, key: Seq<Seq<char>>)
    ensures
        without::<T>(rows, key) == rows.filter(|r: T::V| T::key(r) != key),
    decreases rows.len(),
{
    lemma_filter_end(rows, |r: T::V| T::key(r) != key);
    if rows.len() > 0 {
        other_rows_stay::<T>(rows.drop_last(), key);
    }
}

/// A row is written over the first that has its key, and behind all others if none
/// has; no other row changes.
pub proof fn rows_are_written_in_place<T: Row>(rows: Seq<T::V>, new: T::V, i: int)
    ensures
        0 <= i < rows.len() && T::key(rows[i]) == T::key(new) && (forall|j: int|
            0 <= j < i ==> T::key(#[trigger] rows[j]) != T::key(new)) ==> written::<T>(rows, new)
            == rows.update(i, T::over(rows[i], new)),
        (forall|j: int| 0 <= j < rows.len() ==> T::key(#[trigger] rows[j]) != T::key(new))
            ==> written::<T>(rows, new) == rows.push(new),
    decreases rows.len(),
{
    if rows.len() > 0 {
        let t = rows.skip(1);
        rows_are_written_in_place::<T>(t, new, i - 1);
        assert forall|j: int| 0 <= j < t.len() implies #[trigger] t[j] == rows[j + 1] by {}
        if T::key(rows[0]) == T::key(new) {
            assert(seq![T::over(rows[0], new)] + t =~= rows.update(0, T::over(rows[0], new)));
        } else {
            if 0 < i < rows.len() && T::key(rows[i]) == T::key(new) && (forall|j: int|
                0 <= j < i ==> T::key(#[trigger] rows[j]) != T::key(new)) {
                let x = T::over(rows[i], new);
                assert forall|j: int| 0 <= j < i - 1 implies T::key(#[trigger] t[j]) != T::key(
                    new,
                ) by {
                    assert(T::key(rows[j + 1]) != T::key(new));
                }
                assert(t[i - 1] == rows[i]);
                assert(written::<T>(t, new) == t.update(i - 1, x));
                assert(seq![rows[0]] + t.update(i - 1, x) =~= rows.update(i, x));
            }
            if forall|j: int| 0 <= j < rows.len() ==> T::key(#[trigger] rows[j]) != T::key(new) {
                assert forall|j: int| 0 <= j < t.len() implies T::key(#[trigger] t[j]) != T::key(
                    new,
                ) by {
                    assert(T::key(rows[j + 1]) != T::key(new));
                }
                assert(seq![rows[0]] + t.push(new) =~= rows.push(new));
            }
        }
    } else {
        assert(seq![new] =~= rows.push(new));
    }
}

} // verus!
