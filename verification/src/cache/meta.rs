//! What is remembered of the cache, under names.

use crate::cache::db::fresh;
use crate::strs::{decimal, decimal_read_back, opt_text, str_eq, views};
use crate::table::{found, put, written, written_row_is_found, Row};
use vstd::prelude::*;

verus! {

/// Something that is remembered.
#[derive(Debug)]
pub struct Meta {
    pub key: String,
    pub value: String,
    pub updated_at: String,
}

/// Something that is remembered, as characters.
pub struct MetaView {
    pub key: Seq<char>,
    pub value: Seq<char>,
    pub updated_at: Seq<char>,
}

impl View for Meta {
    type V = MetaView;

    open spec fn view(&self) -> MetaView {
        MetaView { key: self.key@, value: self.value@, updated_at: self.updated_at@ }
    }
}

impl Row for Meta {
    open spec fn key(v: MetaView) -> Seq<Seq<char>> {
        seq![v.key]
    }

    open spec fn over(stored: MetaView, new: MetaView) -> MetaView {
        MetaView { key: stored.key, value: new.value, updated_at: new.updated_at }
    }

    proof fn over_keeps_key(stored: MetaView, new: MetaView) {
    }

    fn same_key(&self, other: &Self) -> (r: bool) {
        proof {
            lemma_one_name(self.key@, other.key@);
        }
        str_eq(self.key.as_str(), other.key.as_str())
    }

    fn put_over(&self, new: Self) -> (r: Self) {
        Meta { key: self.key.clone(), value: new.value, updated_at: new.updated_at }
    }

    fn copy(&self) -> (r: Self) {
        Meta {
            key: self.key.clone(),
            value: self.value.clone(),
            updated_at: self.updated_at.clone(),
        }
    }
}

proof fn lemma_one_name(a: Seq<char>, b: Seq<char>)
    ensures
        (seq![a] == seq![b]) == (a == b),
{
    if seq![a] == seq![b] {
        assert(seq![a][0] == seq![b][0]);
    }
}

/// What is remembered under a name.
pub open spec fn remembered(rows: Seq<MetaView>, key: Seq<char>) -> Option<Seq<char>> {
    match found::<Meta>(rows, seq![key]) {
        Some(m) => Some(m.value),
        None => None,
    }
}

/// What is remembered under a name, if anything is.
pub fn get_cache_meta(rows: &Vec<Meta>, key: &str) -> (r: Option<String>)
    ensures
        opt_text(r) == remembered(views(rows@), key@),
{
    let ghost s = views(rows@);
    let mut i: usize = 0;
    assert(s.skip(0) =~= s);
    while i < rows.len()
        invariant
            i <= rows@.len(),
            s == views(rows@),
            found::<Meta>(s, seq![key@]) == found::<Meta>(s.skip(i as int), seq![key@]),
        decreases rows@.len() - i,
    {
        proof {
            assert(s.skip(i as int)[0] == rows@[i as int]@);
            assert(s.skip(i as int).skip(1) =~= s.skip(i + 1));
            lemma_one_name(rows@[i as int].key@, key@);
        }
        if str_eq(rows[i].key.as_str(), key) {
            return Some(rows[i].value.clone());
        }
        i += 1;
    }
    None
}

/// Remembers a value under a name, in place of what was remembered there.
pub fn set_cache_meta(rows: &mut Vec<Meta>, key: &str, value: &str, now: &str)
    ensures
        views(final(rows)@) == written::<Meta>(
            views(old(rows)@),
            (MetaView { key: key@, value: value@, updated_at: now@ }),
        ),
{
    put(
        rows,
        Meta { key: key.to_owned(), value: value.to_owned(), updated_at: now.to_owned() },
    );
}

/// What was remembered under a name is read back, and nothing else changes.
pub proof fn remembered_value_is_read(rows: Seq<MetaView>, new: MetaView, other: Seq<char>)
    ensures
        remembered(written::<Meta>(rows, new), new.key) == Some(new.value),
        other != new.key ==> remembered(written::<Meta>(rows, new), other) == remembered(
            rows,
            other,
        ),
{
    written_row_is_found::<Meta>(rows, new, seq![other]);
    lemma_one_name(other, new.key);
}

/// Under which name the time of a backend's last synchronisation is kept.
pub open spec fn sync_name(backend_idx: nat) -> Seq<char> {
    "backend_"@ + decimal(backend_idx) + "_last_sync"@
}

/// Under which name the time of a backend's last change is kept.
pub open spec fn modified_name(backend_idx: nat) -> Seq<char> {
    "backend_"@ + decimal(backend_idx) + "_last_modified"@
}

/// What is remembered of backends is kept apart: by backend, and by what it
/// says.
pub proof fn backend_names_differ(i: nat, j: nat)
    ensures
        i != j ==> sync_name(i) != sync_name(j),
        i != j ==> modified_name(i) != modified_name(j),
        sync_name(i) != modified_name(j),
{
    reveal_strlit("backend_");
    reveal_strlit("_last_sync");
    reveal_strlit("_last_modified");
    decimal_read_back(i);
    decimal_read_back(j);
    if sync_name(i) == sync_name(j) {
        lemma_middle("backend_"@, decimal(i), decimal(j), "_last_sync"@);
    }
    if modified_name(i) == modified_name(j) {
        lemma_middle("backend_"@, decimal(i), decimal(j), "_last_modified"@);
    }
    assert(sync_name(i).last() == 'c');
    assert(modified_name(j).last() == 'd');
}

proof fn lemma_middle(a: Seq<char>, x: Seq<char>, y: Seq<char>, b: Seq<char>)
    requires
        a + x + b == a + y + b,
    ensures
        x == y,
{
    let s = a + x + b;
    assert(s.len() == a.len() + x.len() + b.len());
    assert(s.len() == a.len() + y.len() + b.len());
    assert(s.subrange(a.len() as int, (a.len() + x.len()) as int) =~= x);
    assert((a + y + b).subrange(a.len() as int, (a.len() + y.len()) as int) =~= y);
}

/// Once a backend was synchronised its cache is fresh until it is
/// `max_age_secs` old, and no longer; the freshness of no other changes.
pub proof fn sync_makes_fresh(
    rows: Seq<MetaView>,
    backend: nat,
    synced_at: u64,
    updated_at: Seq<char>,
    other: nat,
    now: u64,
    max_age_secs: nat,
)
    requires
        synced_at <= i64::MAX,
        other != backend,
    ensures
        ({
            let after = written::<Meta>(
                rows,
                (MetaView {
                    key: sync_name(backend),
                    value: decimal(synced_at as nat),
                    updated_at,
                }),
            );
            &&& fresh(remembered(after, sync_name(backend)), now, max_age_secs) == (now - synced_at
                < max_age_secs)
            &&& fresh(remembered(after, sync_name(other)), now, max_age_secs) == fresh(
                remembered(rows, sync_name(other)),
                now,
                max_age_secs,
            )
        }),
{
    let new = MetaView { key: sync_name(backend), value: decimal(synced_at as nat), updated_at };
    remembered_value_is_read(rows, new, sync_name(other));
    backend_names_differ(other, backend);
    crate::cache::db::synced_cache_is_fresh(synced_at, now, max_age_secs);
}

} // verus!
