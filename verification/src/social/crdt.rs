//! Lightweight OR-Set CRDT for collaborative playlists.
//!
//! Every change to a collaborative playlist is an operation: a track is added
//! with its metadata, a track is removed, or the playlist is renamed. Each
//! operation has a unique `op_id` (`{node_id}:{lamport_timestamp}`), so
//! duplicates are safely ignored.
//!
//! The playlist is what the operations come to in the order of their
//! timestamps, operations with equal timestamps in the order of their ids.
//! A removal takes away what was added before it; an add that is concurrent
//! with a removal wins.
//!
//! ```text
//! Node A adds track X (offline)     Node B adds track Y (offline)
//!   op: A:1 AddTrack(X)               op: B:1 AddTrack(Y)
//!                   \                 /
//!                    --- reconnect ---
//!                   /                 \
//!   receives B:1, merges              receives A:1, merges
//!   rebuild: [X, Y]                   rebuild: [X, Y]
//! ```

use crate::seqs::lemma_layout_end;
use crate::social::collab_playlist::{CollabTrack, CollabTrackView};
use crate::sorting::{
    ranking, ranking_is_total_preorder, sort, stable_sort, stable_sort_sorts, Ranked,
};
use crate::strs::{
    str_eq, str_less, text_less, text_less_irreflexive, text_less_total, text_less_transitive,
    views,
};
use vstd::prelude::*;
use vstd::relations::sorted_by;

verus! {

/// A CRDT operation on a collaborative playlist.
#[derive(Debug)]
pub struct CrdtOp {
    /// Unique operation ID: "{node_id}:{lamport_clock}"
    pub op_id: String,
    /// Lamport timestamp for causal ordering
    pub timestamp: u64,
    /// The node that created this operation
    pub origin_node: String,
    /// The operation itself
    pub kind: CrdtOpKind,
}

/// What an operation does.
#[derive(Debug)]
pub enum CrdtOpKind {
    AddTrack { track: CollabTrack },
    RemoveTrack { track_id: String, owner_node: String },
    SetName { name: String },
}

/// An operation, as characters and numbers.
pub struct CrdtOpView {
    pub op_id: Seq<char>,
    pub timestamp: u64,
    pub origin_node: Seq<char>,
    pub kind: CrdtOpKindView,
}

/// What an operation does, as characters and numbers.
pub enum CrdtOpKindView {
    AddTrack { track: CollabTrackView },
    RemoveTrack { track_id: Seq<char>, owner_node: Seq<char> },
    SetName { name: Seq<char> },
}

impl View for CrdtOpKind {
    type V = CrdtOpKindView;

    open spec fn view(&self) -> CrdtOpKindView {
        match *self {
            CrdtOpKind::AddTrack { track } => CrdtOpKindView::AddTrack { track: track@ },
            CrdtOpKind::RemoveTrack { track_id, owner_node } => CrdtOpKindView::RemoveTrack {
                track_id: track_id@,
                owner_node: owner_node@,
            },
            CrdtOpKind::SetName { name } => CrdtOpKindView::SetName { name: name@ },
        }
    }
}

impl View for CrdtOp {
    type V = CrdtOpView;

    open spec fn view(&self) -> CrdtOpView {
        CrdtOpView {
            op_id: self.op_id@,
            timestamp: self.timestamp,
            origin_node: self.origin_node@,
            kind: self.kind@,
        }
    }
}

impl Clone for CrdtOpKind {
    fn clone(&self) -> (r: Self)
        ensures
            r@ == self@,
    {
        match self {
            CrdtOpKind::AddTrack { track } => CrdtOpKind::AddTrack { track: track.clone() },
            CrdtOpKind::RemoveTrack { track_id, owner_node } => CrdtOpKind::RemoveTrack {
                track_id: track_id.clone(),
                owner_node: owner_node.clone(),
            },
            CrdtOpKind::SetName { name } => CrdtOpKind::SetName { name: name.clone() },
        }
    }
}

impl Clone for CrdtOp {
    fn clone(&self) -> (r: Self)
        ensures
            r@ == self@,
    {
        CrdtOp {
            op_id: self.op_id.clone(),
            timestamp: self.timestamp,
            origin_node: self.origin_node.clone(),
            kind: self.kind.clone(),
        }
    }
}

impl CrdtOpView {
    /// This operation adds the track with this key.
    pub open spec fn adds(self, key: (Seq<char>, Seq<char>)) -> bool {
        self.kind matches CrdtOpKindView::AddTrack { track } && track.key() == key
    }

    /// This operation removes the track with this key.
    pub open spec fn removes(self, key: (Seq<char>, Seq<char>)) -> bool {
        self.kind matches CrdtOpKindView::RemoveTrack { track_id, owner_node } && (
            track_id,
            owner_node,
        ) == key
    }
}

impl Ranked for CrdtOp {
    open spec fn leq(a: CrdtOpView, b: CrdtOpView) -> bool {
        a.timestamp < b.timestamp || (a.timestamp == b.timestamp && !text_less(b.op_id, a.op_id))
    }

    proof fn leq_total(a: CrdtOpView, b: CrdtOpView) {
        if text_less(a.op_id, b.op_id) && text_less(b.op_id, a.op_id) {
            text_less_transitive(a.op_id, b.op_id, a.op_id);
            text_less_irreflexive(a.op_id);
        }
    }

    proof fn leq_transitive(a: CrdtOpView, b: CrdtOpView, c: CrdtOpView) {
        text_less_total(a.op_id, b.op_id);
        text_less_total(b.op_id, c.op_id);
        if text_less(c.op_id, a.op_id) {
            if text_less(a.op_id, b.op_id) {
                text_less_transitive(c.op_id, a.op_id, b.op_id);
            } else if text_less(b.op_id, c.op_id) {
                text_less_transitive(b.op_id, c.op_id, a.op_id);
            }
        }
    }

    fn may_precede(&self, other: &Self) -> (r: bool) {
        self.timestamp < other.timestamp || (self.timestamp == other.timestamp && !str_less(
            other.op_id.as_str(),
            self.op_id.as_str(),
        ))
    }
}

/// The operations in the order in which they are replayed.
pub open spec fn replay_order(ops: Seq<CrdtOpView>) -> Seq<CrdtOpView> {
    stable_sort(ops, ranking::<CrdtOp>())
}

/// An operation behind position `i` adds the key once more.
pub open spec fn added_later(s: Seq<CrdtOpView>, i: int, key: (Seq<char>, Seq<char>)) -> bool {
    exists|j: int| i < j < s.len() && (#[trigger] s[j]).adds(key)
}

/// Some operation removes the key after time `t`.
pub open spec fn removed_after(s: Seq<CrdtOpView>, t: u64, key: (Seq<char>, Seq<char>)) -> bool {
    exists|j: int| 0 <= j < s.len() && (#[trigger] s[j]).removes(key) && s[j].timestamp > t
}

/// The operation at `i` is the last add of its track and no later removal
/// takes the track away.
pub open spec fn survives(s: Seq<CrdtOpView>, i: int) -> bool {
    s[i].kind matches CrdtOpKindView::AddTrack { track } && !added_later(s, i, track.key())
        && !removed_after(s, s[i].timestamp, track.key())
}

/// The tracks that the first `n` operations leave in the playlist, in the
/// order of their last add.
pub open spec fn surviving(s: Seq<CrdtOpView>, n: int) -> Seq<CollabTrackView>
    decreases n,
{
    if n <= 0 {
        seq![]
    } else if survives(s, n - 1) {
        surviving(s, n - 1).push(s[n - 1].kind->track)
    } else {
        surviving(s, n - 1)
    }
}

/// The tracks of the playlist that the operations come to.
pub open spec fn playlist_tracks(ops: Seq<CrdtOpView>) -> Seq<CollabTrackView> {
    let s = replay_order(ops);
    surviving(s, s.len() as int)
}

/// The name that the last renaming in `s` gives.
pub open spec fn last_name(s: Seq<CrdtOpView>) -> Option<Seq<char>>
    decreases s.len(),
{
    if s.len() == 0 {
        None
    } else {
        match s.last().kind {
            CrdtOpKindView::SetName { name } => Some(name),
            _ => last_name(s.drop_last()),
        }
    }
}

/// The name of the playlist, if an operation gives it one.
pub open spec fn playlist_name(ops: Seq<CrdtOpView>) -> Option<Seq<char>> {
    last_name(replay_order(ops))
}

/// An operation with this id is in the log.
pub open spec fn has_op(log: Seq<CrdtOpView>, op_id: Seq<char>) -> bool {
    exists|i: int| 0 <= i < log.len() && (#[trigger] log[i]).op_id == op_id
}

/// The log after an operation was offered to it: known ids are ignored.
pub open spec fn with_op(log: Seq<CrdtOpView>, op: CrdtOpView) -> Seq<CrdtOpView> {
    if has_op(log, op.op_id) {
        log
    } else {
        log.push(op)
    }
}

/// The log after all of `ops` were offered to it.
pub open spec fn merged(log: Seq<CrdtOpView>, ops: Seq<CrdtOpView>) -> Seq<CrdtOpView>
    decreases ops.len(),
{
    if ops.len() == 0 {
        log
    } else {
        with_op(merged(log, ops.drop_last()), ops.last())
    }
}

/// No two operations share an id.
pub open spec fn distinct_ids(log: Seq<CrdtOpView>) -> bool {
    forall|i: int, j: int|
        0 <= i < j < log.len() ==> (#[trigger] log[i]).op_id != (#[trigger] log[j]).op_id
}

/// The latest timestamp in the log, zero if it is empty.
pub open spec fn latest(log: Seq<CrdtOpView>) -> u64
    decreases log.len(),
{
    if log.len() == 0 {
        0
    } else if log.last().timestamp > latest(log.drop_last()) {
        log.last().timestamp
    } else {
        latest(log.drop_last())
    }
}

/// The operation log of one collaborative playlist.
#[derive(Debug)]
pub struct OpLog {
    pub ops: Vec<CrdtOp>,
}

impl View for OpLog {
    type V = Seq<CrdtOpView>;

    open spec fn view(&self) -> Seq<CrdtOpView> {
        views(self.ops@)
    }
}

impl OpLog {
    /// An empty log.
    pub fn new() -> (r: OpLog)
        ensures
            r@ == Seq::<CrdtOpView>::empty(),
    {
        let r = OpLog { ops: Vec::new() };
        assert(r@ =~= Seq::<CrdtOpView>::empty());
        r
    }

    /// Whether an operation with this id is in the log.
    pub fn contains(&self, op_id: &str) -> (r: bool)
        ensures
            r == has_op(self@, op_id@),
    {
        let mut i: usize = 0;
        while i < self.ops.len()
            invariant
                i <= self.ops@.len(),
                forall|j: int| 0 <= j < i ==> (#[trigger] self@[j]).op_id != op_id@,
            decreases self.ops@.len() - i,
        {
            if str_eq(self.ops[i].op_id.as_str(), op_id) {
                assert(self@[i as int].op_id == op_id@);
                return true;
            }
            assert(self@[i as int] == self.ops@[i as int]@);
            i += 1;
        }
        false
    }
}

/// The latest timestamp in the log, zero if it is empty.
pub fn latest_timestamp(log: &OpLog) -> (r: u64)
    ensures
        r == latest(log@),
{
    let mut t: u64 = 0;
    let mut i: usize = 0;
    while i < log.ops.len()
        invariant
            i <= log.ops@.len(),
            log@ == views(log.ops@),
            t == latest(log@.take(i as int)),
        decreases log.ops@.len() - i,
    {
        proof {
            assert(log@.take(i + 1).drop_last() =~= log@.take(i as int));
            assert(log@.take(i + 1).last() == log.ops@[i as int]@);
        }
        if log.ops[i].timestamp > t {
            t = log.ops[i].timestamp;
        }
        i += 1;
    }
    proof {
        assert(log@.take(i as int) =~= log@);
    }
    t
}

/// The timestamp for the next operation of this node: one more than the latest
/// that the log has seen.
pub fn next_timestamp(log: &OpLog) -> (r: u64)
    requires
        latest(log@) < u64::MAX,
    ensures
        r == latest(log@) + 1,
{
    latest_timestamp(log) + 1
}

/// Stores an operation; says whether it was new. A known id is ignored.
pub fn store_op(log: &mut OpLog, op: &CrdtOp) -> (new: bool)
    ensures
        final(log)@ == with_op(old(log)@, op@),
        new == !has_op(old(log)@, op.op_id@),
{
    if log.contains(op.op_id.as_str()) {
        false
    } else {
        let ghost before = log@;
        let c = op.clone();
        log.ops.push(c);
        assert(log@ =~= before.push(op@));
        true
    }
}

/// Merges remote operations into the log; says how many were new.
pub fn merge_ops(log: &mut OpLog, ops: &Vec<CrdtOp>) -> (new_count: usize)
    ensures
        final(log)@ == merged(old(log)@, views(ops@)),
        new_count == final(log)@.len() - old(log)@.len(),
{
    let ghost before = log@;
    let mut new_count: usize = 0;
    let mut i: usize = 0;
    proof {
        assert(views(ops@).take(0) =~= Seq::<CrdtOpView>::empty());
    }
    while i < ops.len()
        invariant
            i <= ops@.len(),
            log@ == merged(before, views(ops@).take(i as int)),
            new_count == log@.len() - before.len(),
            new_count <= i,
        decreases ops@.len() - i,
    {
        proof {
            assert(views(ops@).take(i + 1).drop_last() =~= views(ops@).take(i as int));
            assert(views(ops@).take(i + 1).last() == ops@[i as int]@);
        }
        if store_op(log, &ops[i]) {
            new_count += 1;
        }
        i += 1;
    }
    proof {
        assert(views(ops@).take(i as int) =~= views(ops@));
    }
    new_count
}

/// All operations of the log, in the order in which they are replayed.
pub fn get_all_ops(log: &OpLog) -> (r: Vec<CrdtOp>)
    ensures
        views(r@) == replay_order(log@),
{
    let mut all: Vec<CrdtOp> = Vec::new();
    let mut i: usize = 0;
    while i < log.ops.len()
        invariant
            i <= log.ops@.len(),
            log@ == views(log.ops@),
            views(all@) == log@.take(i as int),
        decreases log.ops@.len() - i,
    {
        let ghost sofar = all@;
        let c = log.ops[i].clone();
        all.push(c);
        proof {
            assert(views(all@) =~= views(sofar).push(c@));
            assert(log@.take(i + 1) =~= log@.take(i as int).push(log.ops@[i as int]@));
        }
        i += 1;
    }
    proof {
        assert(log@.take(i as int) =~= log@);
    }
    sort(all)
}

fn same_key(track: &CollabTrack, track_id: &String, owner_node: &String) -> (r: bool)
    ensures
        r == (track@.key() == (track_id@, owner_node@)),
{
    str_eq(track.track_id.as_str(), track_id.as_str()) && str_eq(
        track.owner_node.as_str(),
        owner_node.as_str(),
    )
}

/// Whether the operation at `i` leaves its track in the playlist.
fn op_survives(ops: &Vec<CrdtOp>, i: usize, track: &CollabTrack) -> (r: bool)
    requires
        i < ops@.len(),
        ops@[i as int].kind@ == (CrdtOpKindView::AddTrack { track: track@ }),
    ensures
        r == survives(views(ops@), i as int),
{
    let ghost s = views(ops@);
    let ghost key = track@.key();
    let t: u64 = ops[i].timestamp;
    let mut j: usize = 0;
    assert(s[i as int] == ops@[i as int]@);
    while j < ops.len()
        invariant
            j <= ops@.len(),
            i < ops@.len(),
            s == views(ops@),
            key == track@.key(),
            t == s[i as int].timestamp,
            s[i as int].kind == (CrdtOpKindView::AddTrack { track: track@ }),
            forall|k: int| i < k < j ==> !(#[trigger] s[k]).adds(key),
            forall|k: int|
                0 <= k < j ==> !((#[trigger] s[k]).removes(key) && s[k].timestamp > t),
        decreases ops@.len() - j,
    {
        assert(s[j as int] == ops@[j as int]@);
        match &ops[j].kind {
            CrdtOpKind::AddTrack { track: other } => {
                if j > i && same_key(track, &other.track_id, &other.owner_node) {
                    assert(s[j as int].adds(key));
                    return false;
                }
            },
            CrdtOpKind::RemoveTrack { track_id, owner_node } => {
                if ops[j].timestamp > t && same_key(track, track_id, owner_node) {
                    assert(s[j as int].removes(key));
                    return false;
                }
            },
            CrdtOpKind::SetName { .. } => {},
        }
        j += 1;
    }
    true
}

/// Rebuilds the playlist from the log: its tracks, and its name if an
/// operation gives it one.
pub fn rebuild_playlist(log: &OpLog) -> (r: (Vec<CollabTrack>, Option<String>))
    ensures
        views(r.0@) == playlist_tracks(log@),
        crate::strs::opt_text(r.1) == playlist_name(log@),
{
    let ops = get_all_ops(log);
    let ghost s = views(ops@);
    let mut tracks: Vec<CollabTrack> = Vec::new();
    let mut name: Option<String> = None;
    let mut i: usize = 0;
    assert(views(tracks@) =~= surviving(s, 0));
    assert(s.take(0) =~= Seq::<CrdtOpView>::empty());
    while i < ops.len()
        invariant
            i <= ops@.len(),
            s == views(ops@),
            views(tracks@) == surviving(s, i as int),
            crate::strs::opt_text(name) == last_name(s.take(i as int)),
        decreases ops@.len() - i,
    {
        let ghost sofar = tracks@;
        proof {
            assert(s.take(i + 1).drop_last() =~= s.take(i as int));
            assert(s.take(i + 1).last() == ops@[i as int]@);
            assert(s[i as int] == ops@[i as int]@);
        }
        match &ops[i].kind {
            CrdtOpKind::AddTrack { track } => {
                if op_survives(&ops, i, track) {
                    let t = track.clone();
                    tracks.push(t);
                    assert(views(tracks@) =~= views(sofar).push(t@));
                }
            },
            CrdtOpKind::RemoveTrack { .. } => {},
            CrdtOpKind::SetName { name: n } => {
                name = Some(n.clone());
            },
        }
        i += 1;
    }
    assert(s.take(i as int) =~= s);
    (tracks, name)
}

/// An operation that arrives twice is ignored the second time.
pub proof fn storing_again_changes_nothing(log: Seq<CrdtOpView>, op: CrdtOpView)
    ensures
        with_op(with_op(log, op), op) == with_op(log, op),
        has_op(with_op(log, op), op.op_id),
{
    if !has_op(log, op.op_id) {
        assert(log.push(op)[log.len() as int].op_id == op.op_id);
    }
}

/// Storing keeps the ids in a log distinct.
pub proof fn storing_keeps_ids_distinct(log: Seq<CrdtOpView>, op: CrdtOpView)
    requires
        distinct_ids(log),
    ensures
        distinct_ids(with_op(log, op)),
{
    if !has_op(log, op.op_id) {
        let l = log.push(op);
        assert forall|i: int, j: int| 0 <= i < j < l.len() implies (#[trigger] l[i]).op_id != (
        #[trigger] l[j]).op_id by {
            if j == log.len() {
                assert(log[i].op_id != op.op_id);
            } else {
                assert(log[i].op_id != log[j].op_id);
            }
        }
    }
}

/// A merged log holds the ids of both sides and no others, keeps what it held,
/// and keeps its ids distinct.
pub proof fn merging_unites(log: Seq<CrdtOpView>, ops: Seq<CrdtOpView>)
    ensures
        forall|id: Seq<char>| #[trigger]
            has_op(merged(log, ops), id) <==> has_op(log, id) || has_op(ops, id),
        log.is_prefix_of(merged(log, ops)),
        forall|op: CrdtOpView|
            merged(log, ops).contains(op) ==> log.contains(op) || #[trigger] ops.contains(op),
        distinct_ids(log) ==> distinct_ids(merged(log, ops)),
    decreases ops.len(),
{
    if ops.len() == 0 {
        assert(log =~= log.subrange(0, log.len() as int));
    } else {
        let init = ops.drop_last();
        let m = merged(log, init);
        let last = ops.last();
        merging_unites(log, init);
        if distinct_ids(log) {
            storing_keeps_ids_distinct(m, last);
        }
        storing_again_changes_nothing(m, last);
        assert forall|id: Seq<char>| #[trigger]
            has_op(merged(log, ops), id) <==> has_op(log, id) || has_op(ops, id) by {
            if has_op(ops, id) {
                let k = choose|k: int| 0 <= k < ops.len() && (#[trigger] ops[k]).op_id == id;
                if k < init.len() {
                    assert(init[k].op_id == id);
                }
            }
            if has_op(init, id) {
                let k = choose|k: int| 0 <= k < init.len() && (#[trigger] init[k]).op_id == id;
                assert(ops[k].op_id == id);
            }
            if has_op(m, id) {
                let k = choose|k: int| 0 <= k < m.len() && (#[trigger] m[k]).op_id == id;
                assert(merged(log, ops)[k].op_id == id);
            }
            if has_op(merged(log, ops), id) {
                let k = choose|k: int|
                    0 <= k < merged(log, ops).len() && (#[trigger] merged(log, ops)[k]).op_id == id;
                if k < m.len() {
                    assert(m[k].op_id == id);
                } else {
                    assert(ops[ops.len() - 1].op_id == id);
                }
            }
        }
        assert forall|op: CrdtOpView| merged(log, ops).contains(op) implies log.contains(op)
            || #[trigger] ops.contains(op) by {
            let k = choose|k: int| 0 <= k < merged(log, ops).len() && merged(log, ops)[k] == op;
            if k < m.len() {
                assert(m.contains(op)) by {
                    assert(m[k] == op);
                }
                if init.contains(op) {
                    let q = choose|q: int| 0 <= q < init.len() && init[q] == op;
                    assert(ops[q] == op);
                }
            } else {
                assert(ops[ops.len() - 1] == op);
            }
        }
        assert(merged(log, ops).subrange(0, log.len() as int) =~= m.subrange(0, log.len() as int));
    }
}

/// Merging the same operations once more changes nothing and finds nothing new.
pub proof fn merging_again_changes_nothing(log: Seq<CrdtOpView>, ops: Seq<CrdtOpView>)
    ensures
        merged(merged(log, ops), ops) == merged(log, ops),
{
    merging_unites(log, ops);
    let m = merged(log, ops);
    assert forall|i: int| 0 <= i < ops.len() implies has_op(m, (#[trigger] ops[i]).op_id) by {
        assert(has_op(ops, ops[i].op_id));
    }
    lemma_merge_known(m, ops);
}

proof fn lemma_merge_known(log: Seq<CrdtOpView>, ops: Seq<CrdtOpView>)
    requires
        forall|i: int| 0 <= i < ops.len() ==> has_op(log, (#[trigger] ops[i]).op_id),
    ensures
        merged(log, ops) == log,
    decreases ops.len(),
{
    if ops.len() > 0 {
        lemma_merge_known(log, ops.drop_last());
        assert(has_op(log, ops[ops.len() - 1].op_id));
    }
}

proof fn lemma_sorted_same(a: Seq<CrdtOpView>, b: Seq<CrdtOpView>)
    requires
        sorted_by(a, ranking::<CrdtOp>()),
        sorted_by(b, ranking::<CrdtOp>()),
        distinct_ids(a),
        distinct_ids(b),
        forall|op: CrdtOpView| #[trigger] a.contains(op) <==> b.contains(op),
    ensures
        a == b,
    decreases a.len(),
{
    let leq = ranking::<CrdtOp>();
    if a.len() == 0 {
        if b.len() > 0 {
            assert(b.contains(b[0]));
            assert(a.contains(b[0]));
        }
        assert(a =~= b);
    } else {
        assert(a.contains(a.last()));
        assert(b.len() > 0);
        assert(b.contains(b.last()));
        assert(a.contains(b.last()));
        let i = choose|i: int| 0 <= i < a.len() && a[i] == b.last();
        let j = choose|j: int| 0 <= j < b.len() && b[j] == a.last();
        if a.last() != b.last() {
            assert(leq(a[i], a[a.len() - 1]));
            assert(leq(b[j], b[b.len() - 1]));
            text_less_total(a.last().op_id, b.last().op_id);
            assert(a[i].op_id == a[a.len() - 1].op_id);
            assert(false);
        }
        let x = a.drop_last();
        let y = b.drop_last();
        assert forall|op: CrdtOpView| #[trigger] x.contains(op) <==> y.contains(op) by {
            if x.contains(op) {
                let k = choose|k: int| 0 <= k < x.len() && x[k] == op;
                assert(a[k] == op);
                assert(a.contains(op));
                assert(b.contains(op));
                let m = choose|m: int| 0 <= m < b.len() && b[m] == op;
                assert(a[k].op_id != a[a.len() - 1].op_id);
                assert(y[m] == op);
            }
            if y.contains(op) {
                let k = choose|k: int| 0 <= k < y.len() && y[k] == op;
                assert(b[k] == op);
                assert(b.contains(op));
                assert(a.contains(op));
                let m = choose|m: int| 0 <= m < a.len() && a[m] == op;
                assert(b[k].op_id != b[b.len() - 1].op_id);
                assert(x[m] == op);
            }
        }
        assert forall|p: int, q: int| 0 <= p < q < x.len() implies #[trigger] leq(x[p], x[q]) by {
            assert(leq(a[p], a[q]));
        }
        assert forall|p: int, q: int| 0 <= p < q < y.len() implies #[trigger] leq(y[p], y[q]) by {
            assert(leq(b[p], b[q]));
        }
        assert(distinct_ids(x)) by {
            assert forall|p: int, q: int| 0 <= p < q < x.len() implies (#[trigger] x[p]).op_id != (
            #[trigger] x[q]).op_id by {
                assert(a[p].op_id != a[q].op_id);
            }
        }
        assert(distinct_ids(y)) by {
            assert forall|p: int, q: int| 0 <= p < q < y.len() implies (#[trigger] y[p]).op_id != (
            #[trigger] y[q]).op_id by {
                assert(b[p].op_id != b[q].op_id);
            }
        }
        lemma_sorted_same(x, y);
        assert(a =~= x.push(a.last()));
        assert(b =~= y.push(b.last()));
    }
}

proof fn lemma_replay_order(ops: Seq<CrdtOpView>)
    ensures
        sorted_by(replay_order(ops), ranking::<CrdtOp>()),
        replay_order(ops).len() == ops.len(),
        forall|op: CrdtOpView| #[trigger] replay_order(ops).contains(op) <==> ops.contains(op),
        distinct_ids(ops) ==> distinct_ids(replay_order(ops)),
{
    broadcast use vstd::seq_lib::group_to_multiset_ensures;

    ranking_is_total_preorder::<CrdtOp>();
    stable_sort_sorts(ops, ranking::<CrdtOp>());
    let s = replay_order(ops);
    assert forall|op: CrdtOpView| #[trigger] s.contains(op) <==> ops.contains(op) by {
        assert(s.to_multiset().count(op) > 0 <==> s.contains(op));
        assert(ops.to_multiset().count(op) > 0 <==> ops.contains(op));
    }
    if distinct_ids(ops) {
        assert(ops.no_duplicates()) by {
            assert forall|i: int, j: int| 0 <= i < ops.len() && 0 <= j < ops.len() && i
                != j implies ops[i] != ops[j] by {
                if i < j {
                    assert(ops[i].op_id != ops[j].op_id);
                } else {
                    assert(ops[j].op_id != ops[i].op_id);
                }
            }
        }
        ops.lemma_multiset_has_no_duplicates();
        assert(s.to_multiset() =~= ops.to_multiset());
        s.lemma_multiset_has_no_duplicates_conv();
        assert forall|i: int, j: int| 0 <= i < j < s.len() implies (#[trigger] s[i]).op_id != (
        #[trigger] s[j]).op_id by {
            assert(s.contains(s[i]));
            assert(s.contains(s[j]));
            let p = choose|p: int| 0 <= p < ops.len() && ops[p] == s[i];
            let q = choose|q: int| 0 <= q < ops.len() && ops[q] == s[j];
            assert(s[i] != s[j]);
            if p < q {
                assert(ops[p].op_id != ops[q].op_id);
            } else {
                assert(ops[q].op_id != ops[p].op_id);
            }
        }
    }
}

/// Two logs that hold the same operations come to the same playlist, in
/// whatever order the operations arrived.
pub proof fn same_operations_same_playlist(a: Seq<CrdtOpView>, b: Seq<CrdtOpView>)
    requires
        distinct_ids(a),
        distinct_ids(b),
        forall|op: CrdtOpView| #[trigger] a.contains(op) <==> b.contains(op),
    ensures
        playlist_tracks(a) == playlist_tracks(b),
        playlist_name(a) == playlist_name(b),
{
    lemma_replay_order(a);
    lemma_replay_order(b);
    assert forall|op: CrdtOpView| #[trigger]
        replay_order(a).contains(op) <==> replay_order(b).contains(op) by {
        assert(a.contains(op) <==> b.contains(op));
    }
    lemma_sorted_same(replay_order(a), replay_order(b));
}

/// Equal ids mean equal operations.
pub open spec fn agree(a: Seq<CrdtOpView>, b: Seq<CrdtOpView>) -> bool {
    forall|i: int, j: int|
        0 <= i < a.len() && 0 <= j < b.len() && (#[trigger] a[i]).op_id == (#[trigger] b[j]).op_id
            ==> a[i] == b[j]
}

/// A log that another was merged into holds the operations of both.
pub proof fn merged_log_holds_both(a: Seq<CrdtOpView>, b: Seq<CrdtOpView>, op: CrdtOpView)
    requires
        agree(a, b),
        agree(b, b),
    ensures
        merged(a, b).contains(op) <==> a.contains(op) || b.contains(op),
{
    merging_unites(a, b);
    let m = merged(a, b);
    if a.contains(op) {
        let k = choose|k: int| 0 <= k < a.len() && a[k] == op;
        assert(m.subrange(0, a.len() as int)[k] == op);
        assert(m[k] == op);
    } else if b.contains(op) {
        let k = choose|k: int| 0 <= k < b.len() && b[k] == op;
        assert(has_op(b, op.op_id));
        assert(has_op(m, op.op_id));
        let q = choose|q: int| 0 <= q < m.len() && (#[trigger] m[q]).op_id == op.op_id;
        assert(m.contains(m[q]));
        if a.contains(m[q]) {
            let p = choose|p: int| 0 <= p < a.len() && a[p] == m[q];
            assert(a[p] == b[k]);
        } else {
            assert(b.contains(m[q]));
            let p = choose|p: int| 0 <= p < b.len() && b[p] == m[q];
            assert(b[p] == b[k]);
        }
    } else if m.contains(op) {
        assert(b.contains(op) || a.contains(op));
    }
}

/// Two nodes that merge each other's log converge: both end up with the same
/// playlist.
pub proof fn merging_converges(a: Seq<CrdtOpView>, b: Seq<CrdtOpView>)
    requires
        distinct_ids(a),
        distinct_ids(b),
        agree(a, b),
    ensures
        playlist_tracks(merged(a, b)) == playlist_tracks(merged(b, a)),
        playlist_name(merged(a, b)) == playlist_name(merged(b, a)),
{
    merging_unites(a, b);
    merging_unites(b, a);
    assert(agree(b, b)) by {
        assert forall|i: int, j: int|
            0 <= i < b.len() && 0 <= j < b.len() && (#[trigger] b[i]).op_id == (
            #[trigger] b[j]).op_id implies b[i] == b[j] by {
            if i < j {
                assert(b[i].op_id != b[j].op_id);
            } else if j < i {
                assert(b[j].op_id != b[i].op_id);
            }
        }
    }
    assert(agree(a, a)) by {
        assert forall|i: int, j: int|
            0 <= i < a.len() && 0 <= j < a.len() && (#[trigger] a[i]).op_id == (
            #[trigger] a[j]).op_id implies a[i] == a[j] by {
            if i < j {
                assert(a[i].op_id != a[j].op_id);
            } else if j < i {
                assert(a[j].op_id != a[i].op_id);
            }
        }
    }
    assert(agree(b, a));
    assert forall|op: CrdtOpView| #[trigger]
        merged(a, b).contains(op) <==> merged(b, a).contains(op) by {
        merged_log_holds_both(a, b, op);
        merged_log_holds_both(b, a, op);
    }
    same_operations_same_playlist(merged(a, b), merged(b, a));
}

/// The playlist lists a track with this key.
pub open spec fn lists(tracks: Seq<CollabTrackView>, key: (Seq<char>, Seq<char>)) -> bool {
    exists|i: int| 0 <= i < tracks.len() && (#[trigger] tracks[i]).key() == key
}

proof fn lemma_surviving(s: Seq<CrdtOpView>, n: int)
    requires
        0 <= n <= s.len(),
    ensures
        forall|t: int|
            0 <= t < surviving(s, n).len() ==> exists|i: int|
                0 <= i < n && #[trigger] survives(s, i) && s[i].kind->track == #[trigger] surviving(
                    s,
                    n,
                )[t],
        forall|i: int|
            0 <= i < n && #[trigger] survives(s, i) ==> surviving(s, n).contains(s[i].kind->track),
        forall|t: int, u: int|
            0 <= t < u < surviving(s, n).len() ==> (#[trigger] surviving(s, n)[t]).key() != (
            #[trigger] surviving(s, n)[u]).key(),
    decreases n,
{
    if n > 0 {
        lemma_surviving(s, n - 1);
        let before = surviving(s, n - 1);
        let after = surviving(s, n);
        if survives(s, n - 1) {
            assert forall|t: int| 0 <= t < after.len() implies exists|i: int|
                0 <= i < n && #[trigger] survives(s, i) && s[i].kind->track
                    == #[trigger] after[t] by {
                if t < before.len() {
                    assert(after[t] == before[t]);
                    let i = choose|i: int|
                        0 <= i < n - 1 && #[trigger] survives(s, i) && s[i].kind->track
                            == before[t];
                    assert(survives(s, i));
                } else {
                    assert(survives(s, n - 1));
                }
            }
            assert forall|i: int| 0 <= i < n && #[trigger] survives(s, i) implies after.contains(
                s[i].kind->track,
            ) by {
                if i < n - 1 {
                    let k = choose|k: int| 0 <= k < before.len() && before[k] == s[i].kind->track;
                    assert(after[k] == s[i].kind->track);
                } else {
                    assert(after[before.len() as int] == s[i].kind->track);
                }
            }
            assert forall|t: int, u: int| 0 <= t < u < after.len() implies (
            #[trigger] after[t]).key() != (#[trigger] after[u]).key() by {
                if u < before.len() {
                    assert(before[t].key() != before[u].key());
                } else {
                    assert(after[t] == before[t]);
                    let i = choose|i: int|
                        0 <= i < n - 1 && #[trigger] survives(s, i) && s[i].kind->track
                            == before[t];
                    if before[t].key() == after[u].key() {
                        assert(s[n - 1].adds(before[t].key()));
                        assert(added_later(s, i, before[t].key()));
                    }
                }
            }
        }
    }
}

/// A playlist lists every track at most once.
pub proof fn tracks_are_listed_once(ops: Seq<CrdtOpView>, t: int, u: int)
    requires
        0 <= t < u < playlist_tracks(ops).len(),
    ensures
        playlist_tracks(ops)[t].key() != playlist_tracks(ops)[u].key(),
{
    let s = replay_order(ops);
    lemma_surviving(s, s.len() as int);
}

/// A track is in the playlist exactly when some operation added it and no
/// removal has a later timestamp than that add: an add wins over a removal
/// that is concurrent with it.
pub proof fn add_wins(ops: Seq<CrdtOpView>, key: (Seq<char>, Seq<char>))
    ensures
        lists(playlist_tracks(ops), key) <==> exists|i: int|
            0 <= i < ops.len() && (#[trigger] ops[i]).adds(key) && !removed_after(
                ops,
                ops[i].timestamp,
                key,
            ),
{
    let s = replay_order(ops);
    let tracks = playlist_tracks(ops);
    lemma_replay_order(ops);
    lemma_surviving(s, s.len() as int);
    assert forall|t: u64| removed_after(s, t, key) <==> removed_after(ops, t, key) by {
        if removed_after(s, t, key) {
            let j = choose|j: int|
                0 <= j < s.len() && (#[trigger] s[j]).removes(key) && s[j].timestamp > t;
            assert(s.contains(s[j]));
            let k = choose|k: int| 0 <= k < ops.len() && ops[k] == s[j];
            assert(ops[k].removes(key));
        }
        if removed_after(ops, t, key) {
            let j = choose|j: int|
                0 <= j < ops.len() && (#[trigger] ops[j]).removes(key) && ops[j].timestamp > t;
            assert(ops.contains(ops[j]));
            assert(s.contains(ops[j]));
            let k = choose|k: int| 0 <= k < s.len() && s[k] == ops[j];
            assert(s[k].removes(key));
        }
    }
    if lists(tracks, key) {
        let t = choose|t: int| 0 <= t < tracks.len() && (#[trigger] tracks[t]).key() == key;
        let i = choose|i: int|
            0 <= i < s.len() && #[trigger] survives(s, i) && s[i].kind->track == tracks[t];
        assert(s.contains(s[i]));
        let k = choose|k: int| 0 <= k < ops.len() && ops[k] == s[i];
        assert(ops[k].adds(key) && !removed_after(ops, ops[k].timestamp, key));
    }
    if exists|i: int|
        0 <= i < ops.len() && (#[trigger] ops[i]).adds(key) && !removed_after(
            ops,
            ops[i].timestamp,
            key,
        ) {
        let i = choose|i: int|
            0 <= i < ops.len() && (#[trigger] ops[i]).adds(key) && !removed_after(
                ops,
                ops[i].timestamp,
                key,
            );
        assert(ops.contains(ops[i]));
        assert(s.contains(ops[i]));
        let k = choose|k: int| 0 <= k < s.len() && s[k] == ops[i];
        let last = lemma_last_add(s, k, key);
        let leq = ranking::<CrdtOp>();
        if last > k {
            assert(leq(s[k], s[last]));
        }
        assert(!removed_after(s, s[last].timestamp, key)) by {
            if removed_after(s, s[last].timestamp, key) {
                let j = choose|j: int|
                    0 <= j < s.len() && (#[trigger] s[j]).removes(key) && s[j].timestamp
                        > s[last].timestamp;
                assert(s[j].removes(key) && s[j].timestamp > s[k].timestamp);
            }
        }
        assert(survives(s, last));
        let q = choose|q: int| 0 <= q < tracks.len() && tracks[q] == s[last].kind->track;
        assert(tracks[q].key() == key);
    }
}

proof fn lemma_last_add(s: Seq<CrdtOpView>, k: int, key: (Seq<char>, Seq<char>)) -> (last: int)
    requires
        0 <= k < s.len(),
        s[k].adds(key),
    ensures
        k <= last < s.len(),
        s[last].adds(key),
        !added_later(s, last, key),
    decreases s.len() - k,
{
    if added_later(s, k, key) {
        let j = choose|j: int| k < j < s.len() && (#[trigger] s[j]).adds(key);
        lemma_last_add(s, j, key)
    } else {
        k
    }
}

pub proof fn lemma_latest(log: Seq<CrdtOpView>, i: int)
    requires
        0 <= i < log.len(),
    ensures
        log[i].timestamp <= latest(log),
    decreases log.len(),
{
    if i < log.len() - 1 {
        lemma_latest(log.drop_last(), i);
    }
}

/// A removal that a node stamps with its next timestamp takes the track away
/// from everything that the node had seen.
pub proof fn fresh_removal_takes_effect(log: Seq<CrdtOpView>, op: CrdtOpView, key: (Seq<char>, Seq<char>))
    requires
        op.removes(key),
        op.timestamp == latest(log) + 1,
        !has_op(log, op.op_id),
    ensures
        !lists(playlist_tracks(with_op(log, op)), key),
{
    let m = with_op(log, op);
    add_wins(m, key);
    assert forall|i: int| 0 <= i < m.len() && (#[trigger] m[i]).adds(key) implies removed_after(
        m,
        m[i].timestamp,
        key,
    ) by {
        if i < log.len() {
            lemma_latest(log, i);
            assert(m[log.len() as int].removes(key));
        }
    }
}

/// A track that a node adds with its next timestamp is in its playlist, also
/// when it had been removed before.
pub proof fn fresh_add_takes_effect(log: Seq<CrdtOpView>, op: CrdtOpView, key: (Seq<char>, Seq<char>))
    requires
        op.adds(key),
        op.timestamp == latest(log) + 1,
        !has_op(log, op.op_id),
    ensures
        lists(playlist_tracks(with_op(log, op)), key),
{
    let m = with_op(log, op);
    add_wins(m, key);
    assert(m[log.len() as int].adds(key));
    assert(!removed_after(m, op.timestamp, key)) by {
        assert forall|j: int| 0 <= j < m.len() && (#[trigger] m[j]).removes(key) implies m[j].timestamp
            <= op.timestamp by {
            if j < log.len() {
                lemma_latest(log, j);
            }
        }
    }
}

// ── Laws of replay ──────────────────────────────────────────────

/// Operations are replayed in the order of their timestamps, those of equal
/// timestamps in the order of their identifiers, and none is lost.
pub proof fn operations_are_replayed_in_order(ops: Seq<CrdtOpView>, i: int, j: int)
    ensures
        replay_order(ops).to_multiset() == ops.to_multiset(),
        replay_order(ops).len() == ops.len(),
        0 <= i < j < ops.len() ==> {
            let a = replay_order(ops)[i];
            let b = replay_order(ops)[j];
            a.timestamp < b.timestamp || (a.timestamp == b.timestamp && !text_less(
                b.op_id,
                a.op_id,
            ))
        },
{
    ranking_is_total_preorder::<CrdtOp>();
    stable_sort_sorts(ops, ranking::<CrdtOp>());
    if 0 <= i < j < ops.len() {
        assert(ranking::<CrdtOp>()(replay_order(ops)[i], replay_order(ops)[j]));
    }
}

/// The playlist holds, in the order of replay, the track of each addition that no
/// later addition of the same track repeats and no removal with a later timestamp
/// undoes.
pub proof fn last_additions_make_the_playlist(ops: Seq<CrdtOpView>)
    ensures
        ({
            let s = replay_order(ops);
            playlist_tracks(ops) == Seq::new(
                s.len(),
                |i: int|
                    match s[i].kind {
                        CrdtOpKindView::AddTrack { track } => if (exists|j: int|
                            i < j < s.len() && ((#[trigger] s[j]).kind matches CrdtOpKindView::AddTrack {
                                track: again,
                            } && again.key() == track.key())) || (exists|j: int|
                            0 <= j < s.len() && (#[trigger] s[j]).timestamp > s[i].timestamp && (
                            s[j].kind matches CrdtOpKindView::RemoveTrack { track_id, owner_node }
                                && (track_id, owner_node) == track.key())) {
                            seq![]
                        } else {
                            seq![track]
                        },
                        _ => seq![],
                    },
            ).flatten()
        }),
{
    let s = replay_order(ops);
    lemma_survivors(s, s.len());
}

proof fn lemma_survivors(s: Seq<CrdtOpView>, n: nat)
    requires
        n <= s.len(),
    ensures
        surviving(s, n as int) == Seq::new(
            n,
            |i: int|
                match s[i].kind {
                    CrdtOpKindView::AddTrack { track } => if (exists|j: int|
                        i < j < s.len() && ((#[trigger] s[j]).kind matches CrdtOpKindView::AddTrack {
                            track: again,
                        } && again.key() == track.key())) || (exists|j: int|
                        0 <= j < s.len() && (#[trigger] s[j]).timestamp > s[i].timestamp && (
                        s[j].kind matches CrdtOpKindView::RemoveTrack { track_id, owner_node } && (
                            track_id,
                            owner_node,
                        ) == track.key())) {
                        seq![]
                    } else {
                        seq![track]
                    },
                    _ => seq![],
                },
        ).flatten(),
    decreases n,
{
    let f = |i: int|
        match s[i].kind {
            CrdtOpKindView::AddTrack { track } => if (exists|j: int|
                i < j < s.len() && ((#[trigger] s[j]).kind matches CrdtOpKindView::AddTrack {
                    track: again,
                } && again.key() == track.key())) || (exists|j: int|
                0 <= j < s.len() && (#[trigger] s[j]).timestamp > s[i].timestamp && (
                s[j].kind matches CrdtOpKindView::RemoveTrack { track_id, owner_node } && (
                    track_id,
                    owner_node,
                ) == track.key())) {
                seq![]
            } else {
                seq![track]
            },
            _ => seq![],
        };
    let all = Seq::new(n, f);
    lemma_layout_end(all);
    if n > 0 {
        lemma_survivors(s, (n - 1) as nat);
        assert(all.drop_last() =~= Seq::new((n - 1) as nat, f));
        lemma_survivor(s, n - 1);
        assert(all.last() == f(n - 1));
    }
}

proof fn lemma_survivor(s: Seq<CrdtOpView>, i: int)
    requires
        0 <= i < s.len(),
    ensures
        s[i].kind matches CrdtOpKindView::AddTrack { track } ==> (survives(s, i) <==> !(exists|j: int|
            i < j < s.len() && ((#[trigger] s[j]).kind matches CrdtOpKindView::AddTrack {
                track: again,
            } && again.key() == track.key())) && !(exists|j: int|
            0 <= j < s.len() && (#[trigger] s[j]).timestamp > s[i].timestamp && (
            s[j].kind matches CrdtOpKindView::RemoveTrack { track_id, owner_node } && (
                track_id,
                owner_node,
            ) == track.key()))),
        !(s[i].kind is AddTrack) ==> !survives(s, i),
{
    match s[i].kind {
        CrdtOpKindView::AddTrack { track } => {
            let key = track.key();
            if added_later(s, i, key) {
                let j = choose|j: int| i < j < s.len() && (#[trigger] s[j]).adds(key);
                assert(s[j].kind is AddTrack);
            }
            if exists|j: int|
                i < j < s.len() && ((#[trigger] s[j]).kind matches CrdtOpKindView::AddTrack {
                    track: again,
                } && again.key() == track.key()) {
                let j = choose|j: int|
                    i < j < s.len() && ((#[trigger] s[j]).kind matches CrdtOpKindView::AddTrack {
                        track: again,
                    } && again.key() == track.key());
                assert(s[j].adds(key));
            }
            if removed_after(s, s[i].timestamp, key) {
                let j = choose|j: int|
                    0 <= j < s.len() && (#[trigger] s[j]).removes(key) && s[j].timestamp
                        > s[i].timestamp;
                assert(s[j].timestamp > s[i].timestamp);
            }
            if exists|j: int|
                0 <= j < s.len() && (#[trigger] s[j]).timestamp > s[i].timestamp && (
                s[j].kind matches CrdtOpKindView::RemoveTrack { track_id, owner_node } && (
                    track_id,
                    owner_node,
                ) == track.key()) {
                let j = choose|j: int|
                    0 <= j < s.len() && (#[trigger] s[j]).timestamp > s[i].timestamp && (
                    s[j].kind matches CrdtOpKindView::RemoveTrack { track_id, owner_node } && (
                        track_id,
                        owner_node,
                    ) == track.key());
                assert(s[j].removes(key));
            }
        },
        _ => {},
    }
}

/// The name of a playlist is the one that was set last, in the order of replay.
pub proof fn last_name_counts(ops: Seq<CrdtOpView>, k: int, name: Seq<char>)
    ensures
        ({
            let s = replay_order(ops);
            &&& 0 <= k < s.len() && s[k].kind == (CrdtOpKindView::SetName { name }) && (forall|j: int|
                k < j < s.len() ==> !((#[trigger] s[j]).kind is SetName)) ==> playlist_name(ops)
                == Some(name)
            &&& (forall|j: int| 0 <= j < s.len() ==> !((#[trigger] s[j]).kind is SetName))
                ==> playlist_name(ops) is None
        }),
{
    lemma_last_name(replay_order(ops), k, name);
}

proof fn lemma_last_name(s: Seq<CrdtOpView>, k: int, name: Seq<char>)
    ensures
        0 <= k < s.len() && s[k].kind == (CrdtOpKindView::SetName { name }) && (forall|j: int|
            k < j < s.len() ==> !((#[trigger] s[j]).kind is SetName)) ==> last_name(s) == Some(name),
        (forall|j: int| 0 <= j < s.len() ==> !((#[trigger] s[j]).kind is SetName)) ==> last_name(
            s,
        ) is None,
    decreases s.len(),
{
    if s.len() > 0 {
        let d = s.drop_last();
        lemma_last_name(d, k, name);
        assert(s[s.len() - 1] == s.last());
        assert forall|j: int| 0 <= j < d.len() implies #[trigger] d[j] == s[j] by {}
    }
}

} // verus!
