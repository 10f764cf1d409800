//! What is stored of one collaborative playlist, and how operations change it.

use crate::seqs::lemma_flat_end;
use crate::social::collab_playlist::{
    add_track, may_edit, remove_track, role_name, role_named, role_round_trip, with_track,
    without_track, CollabPlaylist, CollabPlaylistView, CollabTrack, CollabTrackView, PlaylistOp,
    Role,
};
use crate::social::crdt::{
    add_wins, agree, distinct_ids, lists, merge_ops, merged, merged_log_holds_both,
    merging_converges, merging_unites, playlist_name, playlist_tracks, rebuild_playlist, CrdtOp,
    CrdtOpKind, CrdtOpKindView, CrdtOpView, OpLog,
};
use crate::sorting::{
    ranking, ranking_is_total_preorder, sort, stable_sort, stable_sort_sorts, Ranked,
};
use crate::strs::{
    concat3, decimal, decimal_read_back, decimal_string, str_eq, str_less, text_less,
    text_less_irreflexive, text_less_total, text_less_transitive, views,
};
use crate::table::{
    found, put, remove, removed_key_is_gone, without, written, written_row_is_found, Row,
};
use vstd::prelude::*;

verus! {

// ── Members ─────────────────────────────────────────────────────

/// A member of a collaborative playlist, with the name of their role.
#[derive(Debug)]
pub struct Member {
    pub node_id: String,
    pub name: String,
    pub role: String,
}

/// A member, as characters.
pub struct MemberView {
    pub node_id: Seq<char>,
    pub name: Seq<char>,
    pub role: Seq<char>,
}

impl View for Member {
    type V = MemberView;

    open spec fn view(&self) -> MemberView {
        MemberView { node_id: self.node_id@, name: self.name@, role: self.role@ }
    }
}

impl Clone for Member {
    fn clone(&self) -> (r: Self)
        ensures
            r@ == self@,
    {
        Member {
            node_id: self.node_id.clone(),
            name: self.name.clone(),
            role: self.role.clone(),
        }
    }
}

proof fn lemma_one_key(a: Seq<char>, b: Seq<char>)
    ensures
        (seq![a] == seq![b]) == (a == b),
{
    if seq![a] == seq![b] {
        assert(seq![a][0] == seq![b][0]);
    }
}

impl Row for Member {
    open spec fn key(v: MemberView) -> Seq<Seq<char>> {
        seq![v.node_id]
    }

    open spec fn over(stored: MemberView, new: MemberView) -> MemberView {
        new
    }

    proof fn over_keeps_key(stored: MemberView, new: MemberView) {
    }

    fn same_key(&self, other: &Self) -> (r: bool) {
        proof {
            lemma_one_key(self.node_id@, other.node_id@);
        }
        str_eq(self.node_id.as_str(), other.node_id.as_str())
    }

    fn put_over(&self, new: Self) -> (r: Self) {
        new
    }

    fn copy(&self) -> (r: Self) {
        self.clone()
    }
}

impl Ranked for Member {
    open spec fn leq(a: MemberView, b: MemberView) -> bool {
        text_less(a.role, b.role) || (a.role == b.role && !text_less(b.name, a.name))
    }

    proof fn leq_total(a: MemberView, b: MemberView) {
        text_less_total(a.role, b.role);
        if text_less(a.name, b.name) && text_less(b.name, a.name) {
            text_less_transitive(a.name, b.name, a.name);
            text_less_irreflexive(a.name);
        }
    }

    proof fn leq_transitive(a: MemberView, b: MemberView, c: MemberView) {
        if text_less(a.role, b.role) && text_less(b.role, c.role) {
            text_less_transitive(a.role, b.role, c.role);
        }
        if text_less(c.name, a.name) {
            text_less_total(a.name, b.name);
            text_less_total(b.name, c.name);
            if text_less(a.name, b.name) {
                text_less_transitive(c.name, a.name, b.name);
            } else if text_less(b.name, c.name) {
                text_less_transitive(b.name, c.name, a.name);
            }
        }
    }

    fn may_precede(&self, other: &Self) -> (r: bool) {
        str_less(self.role.as_str(), other.role.as_str()) || (str_eq(
            self.role.as_str(),
            other.role.as_str(),
        ) && !str_less(other.name.as_str(), self.name.as_str()))
    }
}

/// The role of a node; none if it is no member.
pub open spec fn member_role(members: Seq<MemberView>, node_id: Seq<char>) -> Option<Role> {
    match found::<Member>(members, seq![node_id]) {
        Some(m) => role_named(m.role),
        None => None,
    }
}

/// Adds a member; a node that is one already gets the new name and role.
pub fn add_member(members: &mut Vec<Member>, node_id: &str, name: &str, role: Role)
    ensures
        views(final(members)@) == written::<Member>(
            views(old(members)@),
            (MemberView { node_id: node_id@, name: name@, role: role_name(role) }),
        ),
{
    put(
        members,
        Member {
            node_id: node_id.to_owned(),
            name: name.to_owned(),
            role: role.as_str().to_owned(),
        },
    );
}

/// Removes a member.
pub fn remove_member(members: &mut Vec<Member>, node_id: &str)
    ensures
        views(final(members)@) == without::<Member>(views(old(members)@), seq![node_id@]),
{
    let probe = Member {
        node_id: node_id.to_owned(),
        name: String::new(),
        role: String::new(),
    };
    remove(members, &probe);
}

/// The role of a node; none if it is no member.
pub fn get_member_role(members: &Vec<Member>, node_id: &str) -> (r: Option<Role>)
    ensures
        r == member_role(views(members@), node_id@),
{
    let ghost s = views(members@);
    let mut i: usize = 0;
    assert(s.skip(0) =~= s);
    while i < members.len()
        invariant
            i <= members@.len(),
            s == views(members@),
            found::<Member>(s, seq![node_id@]) == found::<Member>(
                s.skip(i as int),
                seq![node_id@],
            ),
        decreases members@.len() - i,
    {
        proof {
            assert(s.skip(i as int)[0] == members@[i as int]@);
            assert(s.skip(i as int).skip(1) =~= s.skip(i + 1));
            lemma_one_key(members@[i as int].node_id@, node_id@);
        }
        if str_eq(members[i].node_id.as_str(), node_id) {
            return Role::from_str(members[i].role.as_str());
        }
        i += 1;
    }
    None
}

/// Whether a node may edit the playlist.
pub fn can_edit(members: &Vec<Member>, node_id: &str) -> (r: bool)
    ensures
        r == may_edit(member_role(views(members@), node_id@)),
{
    match get_member_role(members, node_id) {
        Some(role) => role.can_edit(),
        None => false,
    }
}

/// The members whose stored role is one, as node, name and role.
pub open spec fn known_members(s: Seq<MemberView>) -> Seq<(Seq<char>, Seq<char>, Role)>
    decreases s.len(),
{
    if s.len() == 0 {
        seq![]
    } else {
        match role_named(s.last().role) {
            Some(role) => known_members(s.drop_last()).push(
                (s.last().node_id, s.last().name, role),
            ),
            None => known_members(s.drop_last()),
        }
    }
}

/// Members as node, name and role.
pub open spec fn member_views(rows: Seq<(String, String, Role)>) -> Seq<
    (Seq<char>, Seq<char>, Role),
> {
    rows.map_values(|r: (String, String, Role)| (r.0@, r.1@, r.2))
}

/// The members by role and name; those whose stored role is unknown are left
/// out.
pub fn list_members(members: &Vec<Member>) -> (r: Vec<(String, String, Role)>)
    ensures
        member_views(r@) == known_members(stable_sort(views(members@), ranking::<Member>())),
{
    let ghost s = views(members@);
    let mut all: Vec<Member> = Vec::new();
    let mut k: usize = 0;
    while k < members.len()
        invariant
            k <= members@.len(),
            s == views(members@),
            views(all@) == s.take(k as int),
        decreases members@.len() - k,
    {
        let ghost before = all@;
        let m = members[k].clone();
        let ghost mv = m@;
        all.push(m);
        assert(views(all@) =~= views(before).push(mv));
        assert(s.take(k + 1) =~= s.take(k as int).push(mv));
        k += 1;
    }
    assert(s.take(k as int) =~= s);
    let sorted = sort(all);
    let ghost t = views(sorted@);
    let mut out: Vec<(String, String, Role)> = Vec::new();
    let mut i: usize = 0;
    assert(t.take(0) =~= seq![]);
    assert(member_views(out@) =~= seq![]);
    while i < sorted.len()
        invariant
            i <= sorted@.len(),
            t == views(sorted@),
            member_views(out@) == known_members(t.take(i as int)),
        decreases sorted@.len() - i,
    {
        let ghost before = out@;
        proof {
            assert(t.take(i + 1).drop_last() =~= t.take(i as int));
            assert(t.take(i + 1).last() == sorted@[i as int]@);
        }
        match Role::from_str(sorted[i].role.as_str()) {
            Some(role) => {
                let m = (sorted[i].node_id.clone(), sorted[i].name.clone(), role);
                out.push(m);
                assert(member_views(out@) =~= member_views(before).push((m.0@, m.1@, m.2)));
            },
            None => {},
        }
        i += 1;
    }
    assert(t.take(i as int) =~= t);
    out
}

/// A node that was added as a member has the role that it was given; the roles
/// of others stay.
pub proof fn added_member_has_role(
    s: Seq<MemberView>,
    node_id: Seq<char>,
    name: Seq<char>,
    role: Role,
    other: Seq<char>,
)
    ensures
        member_role(
            written::<Member>(s, MemberView { node_id, name, role: role_name(role) }),
            node_id,
        ) == Some(role),
        other != node_id ==> member_role(
            written::<Member>(s, MemberView { node_id, name, role: role_name(role) }),
            other,
        ) == member_role(s, other),
{
    let m = MemberView { node_id, name, role: role_name(role) };
    written_row_is_found::<Member>(s, m, seq![other]);
    lemma_one_key(other, node_id);
    role_round_trip(role);
}

/// A node that was removed has no role; the roles of others stay.
pub proof fn removed_member_has_no_role(s: Seq<MemberView>, node_id: Seq<char>, other: Seq<char>)
    ensures
        member_role(without::<Member>(s, seq![node_id]), node_id) is None,
        other != node_id ==> member_role(without::<Member>(s, seq![node_id]), other)
            == member_role(s, other),
{
    removed_key_is_gone::<Member>(s, seq![node_id], seq![other]);
    lemma_one_key(other, node_id);
}

// ── The stored playlist ─────────────────────────────────────────

/// What is stored under the identifier of one collaborative playlist.
#[derive(Debug)]
pub struct PlaylistState {
    /// the playlist itself, once it was created
    pub playlist: Option<CollabPlaylist>,
    pub members: Vec<Member>,
    /// the tracks that clients are shown
    pub tracks: Vec<CollabTrack>,
    pub log: OpLog,
}

/// What is stored of a playlist, as sequences.
#[verifier::ext_equal]
pub struct PlaylistStateView {
    pub playlist: Option<CollabPlaylistView>,
    pub members: Seq<MemberView>,
    pub tracks: Seq<CollabTrackView>,
    pub log: Seq<CrdtOpView>,
}

impl View for PlaylistState {
    type V = PlaylistStateView;

    open spec fn view(&self) -> PlaylistStateView {
        PlaylistStateView {
            playlist: match self.playlist {
                Some(p) => Some(p@),
                None => None,
            },
            members: views(self.members@),
            tracks: views(self.tracks@),
            log: self.log@,
        }
    }
}

/// The state after a playlist was created; one that is known stays.
pub open spec fn created(st: PlaylistStateView, p: CollabPlaylistView) -> PlaylistStateView {
    if st.playlist is Some {
        st
    } else {
        PlaylistStateView { playlist: Some(p), ..st }
    }
}

/// The playlist under another name; one that is not known stays unknown.
pub open spec fn renamed(p: Option<CollabPlaylistView>, name: Seq<char>) -> Option<
    CollabPlaylistView,
> {
    match p {
        Some(q) => Some(CollabPlaylistView { name, ..q }),
        None => None,
    }
}

/// The state with the tracks, and the name, that the log comes to.
pub open spec fn rebuilt(st: PlaylistStateView) -> PlaylistStateView {
    PlaylistStateView {
        playlist: match playlist_name(st.log) {
            Some(name) => renamed(st.playlist, name),
            None => st.playlist,
        },
        tracks: playlist_tracks(st.log),
        ..st
    }
}

/// The state after operations were merged: where any of them is new, the tracks
/// are rebuilt.
pub open spec fn after_merge(st: PlaylistStateView, ops: Seq<CrdtOpView>) -> PlaylistStateView {
    let log = merged(st.log, ops);
    if log.len() > st.log.len() {
        rebuilt(PlaylistStateView { log, ..st })
    } else {
        st
    }
}

/// What clients are shown is what the log comes to.
pub open spec fn is_current(st: PlaylistStateView) -> bool {
    st.tracks == playlist_tracks(st.log)
}

impl PlaylistState {
    /// A playlist of which nothing is stored.
    pub fn new() -> (r: PlaylistState)
        ensures
            r@ == (PlaylistStateView {
                playlist: None,
                members: seq![],
                tracks: seq![],
                log: seq![],
            }),
    {
        let r = PlaylistState {
            playlist: None,
            members: Vec::new(),
            tracks: Vec::new(),
            log: OpLog::new(),
        };
        assert(r@.members =~= seq![]);
        assert(r@.tracks =~= seq![]);
        r
    }
}

/// Creates the playlist, unless it is known.
pub fn create_playlist(
    state: &mut PlaylistState,
    playlist_id: &str,
    name: &str,
    created_by: &str,
    created_at: &str,
)
    ensures
        final(state)@ == created(
            old(state)@,
            (CollabPlaylistView {
                id: playlist_id@,
                name: name@,
                created_by: created_by@,
                created_at: created_at@,
            }),
        ),
{
    if state.playlist.is_none() {
        state.playlist = Some(
            CollabPlaylist {
                id: playlist_id.to_owned(),
                name: name.to_owned(),
                created_by: created_by.to_owned(),
                created_at: created_at.to_owned(),
            },
        );
    }
}

/// Renames the playlist, if it is known.
pub fn rename_playlist(state: &mut PlaylistState, name: &str)
    ensures
        final(state)@ == (PlaylistStateView {
            playlist: renamed(old(state)@.playlist, name@),
            ..old(state)@
        }),
{
    match &mut state.playlist {
        Some(p) => {
            p.name = name.to_owned();
        },
        None => {},
    }
}

/// Deletes the playlist and its tracks. Members and operations stay stored.
pub fn delete_playlist(state: &mut PlaylistState)
    ensures
        final(state)@ == (PlaylistStateView { playlist: None, tracks: seq![], ..old(state)@ }),
{
    state.playlist = None;
    state.tracks = Vec::new();
    assert(state@.tracks =~= seq![]);
}

/// Joins a playlist by an invite: it is created under the name in the invite,
/// or renamed to it if it is known, and the node becomes a member with the role
/// in the invite.
pub fn join_playlist(
    state: &mut PlaylistState,
    playlist_id: &str,
    role: Role,
    name: &str,
    node_id: &str,
    display_name: &str,
    now: &str,
)
    ensures
        final(state)@ == (PlaylistStateView {
            playlist: match old(state)@.playlist {
                Some(p) => renamed(Some(p), name@),
                None => Some(
                    CollabPlaylistView {
                        id: playlist_id@,
                        name: name@,
                        created_by: "friend"@,
                        created_at: now@,
                    },
                ),
            },
            members: written::<Member>(
                old(state)@.members,
                (MemberView { node_id: node_id@, name: display_name@, role: role_name(role) }),
            ),
            ..old(state)@
        }),
{
    if state.playlist.is_none() {
        create_playlist(state, playlist_id, name, "friend", now);
    } else {
        rename_playlist(state, name);
    }
    add_member(&mut state.members, node_id, display_name, role);
}

/// Rebuilds the tracks and the name from the log.
pub fn rebuild(state: &mut PlaylistState)
    ensures
        final(state)@ == rebuilt(old(state)@),
{
    let (tracks, name) = rebuild_playlist(&state.log);
    state.tracks = tracks;
    match name {
        Some(n) => {
            rename_playlist(state, n.as_str());
        },
        None => {},
    }
}

/// Merges operations, and rebuilds the tracks if any of them is new. Gives the
/// number of new ones.
pub fn merge(state: &mut PlaylistState, ops: &Vec<CrdtOp>) -> (new_count: usize)
    ensures
        final(state)@ == after_merge(old(state)@, views(ops@)),
        new_count == final(state)@.log.len() - old(state)@.log.len(),
{
    proof {
        merging_unites(state.log@, views(ops@));
    }
    let ghost before = state.log@;
    let new_count = merge_ops(&mut state.log, ops);
    if new_count > 0 {
        rebuild(state);
    } else {
        proof {
            let m = merged(before, views(ops@));
            assert(m =~= before) by {
                assert(m.subrange(0, before.len() as int) =~= m);
            }
        }
    }
    new_count
}

/// The state after a friend's operations came in: the playlist is created under
/// a placeholder name unless it is known.
pub open spec fn after_sync(
    st: PlaylistStateView,
    playlist_id: Seq<char>,
    sender: Seq<char>,
    ops: Seq<CrdtOpView>,
    now: Seq<char>,
) -> PlaylistStateView {
    after_merge(
        created(
            st,
            CollabPlaylistView {
                id: playlist_id,
                name: "(syncing...)"@,
                created_by: sender,
                created_at: now,
            },
        ),
        ops,
    )
}

/// Takes in a friend's operations. Gives the number of new ones.
pub fn receive_ops(
    state: &mut PlaylistState,
    playlist_id: &str,
    sender: &str,
    ops: &Vec<CrdtOp>,
    now: &str,
) -> (new_count: usize)
    ensures
        final(state)@ == after_sync(old(state)@, playlist_id@, sender@, views(ops@), now@),
        new_count == final(state)@.log.len() - old(state)@.log.len(),
{
    create_playlist(state, playlist_id, "(syncing...)", sender, now);
    merge(state, ops)
}

// ── Playlist operations ─────────────────────────────────────────

/// A playlist operation of this sender is carried out. Everybody may create a
/// playlist; who may edit may add, remove and rename, and send the whole state;
/// a playlist that has no members yet takes tracks, one or all, from everybody;
/// only the owner deletes.
pub open spec fn op_allowed(op: PlaylistOp, members: Seq<MemberView>, sender: Seq<char>) -> bool {
    let role = member_role(members, sender);
    match op {
        PlaylistOp::Create { .. } => true,
        PlaylistOp::AddTrack { .. } => may_edit(role) || known_members(
            stable_sort(members, ranking::<Member>()),
        ).len() == 0,
        PlaylistOp::RemoveTrack { .. } => may_edit(role),
        PlaylistOp::Rename { .. } => may_edit(role),
        PlaylistOp::Delete { .. } => role == Some(Role::Owner),
        PlaylistOp::FullSync { .. } => may_edit(role) || known_members(
            stable_sort(members, ranking::<Member>()),
        ).len() == 0,
    }
}

/// The state after an operation that is allowed.
pub open spec fn carried_out(
    st: PlaylistStateView,
    sender: Seq<char>,
    op: PlaylistOp,
    now: Seq<char>,
) -> PlaylistStateView {
    match op {
        PlaylistOp::Create { playlist_id, name } => created(
            st,
            CollabPlaylistView {
                id: playlist_id@,
                name: name@,
                created_by: sender,
                created_at: now,
            },
        ),
        PlaylistOp::AddTrack { track, .. } => PlaylistStateView {
            tracks: with_track(st.tracks, track@),
            ..st
        },
        PlaylistOp::RemoveTrack { track_id, owner_node, .. } => PlaylistStateView {
            tracks: without_track(st.tracks, (track_id@, owner_node@)),
            ..st
        },
        PlaylistOp::Rename { name, .. } => PlaylistStateView {
            playlist: renamed(st.playlist, name@),
            ..st
        },
        PlaylistOp::Delete { .. } => PlaylistStateView { playlist: None, tracks: seq![], ..st },
        PlaylistOp::FullSync { playlist_id, name, tracks } => {
            let made = created(
                st,
                CollabPlaylistView {
                    id: playlist_id@,
                    name: name@,
                    created_by: sender,
                    created_at: now,
                },
            );
            rebuilt(
                PlaylistStateView {
                    log: merged(made.log, full_sync_ops(sender, name@, views(tracks@))),
                    ..made
                },
            )
        },
    }
}

/// The state after an operation that gossip brought: one that is not allowed
/// changes nothing.
pub open spec fn after_op(
    st: PlaylistStateView,
    sender: Seq<char>,
    op: PlaylistOp,
    now: Seq<char>,
) -> PlaylistStateView {
    if op_allowed(op, st.members, sender) {
        carried_out(st, sender, op, now)
    } else {
        st
    }
}

/// The operation that a full sync makes of its `i`-th track.
pub open spec fn full_sync_op(sender: Seq<char>, tracks: Seq<CollabTrackView>, i: int) -> CrdtOpView {
    CrdtOpView {
        op_id: "fullsync:"@ + sender + ":"@ + decimal(i as nat),
        timestamp: (i + 1) as u64,
        origin_node: tracks[i].added_by,
        kind: CrdtOpKindView::AddTrack { track: tracks[i] },
    }
}

/// The operations that a full sync stands for: an add for each track, in their
/// order, and the name, which any renaming outdates.
pub open spec fn full_sync_ops(sender: Seq<char>, name: Seq<char>, tracks: Seq<CollabTrackView>) -> Seq<
    CrdtOpView,
> {
    Seq::new(tracks.len(), |i: int| full_sync_op(sender, tracks, i)).push(
        CrdtOpView {
            op_id: "fullsync:"@ + sender + ":name"@,
            timestamp: 0,
            origin_node: sender,
            kind: CrdtOpKindView::SetName { name },
        },
    )
}

/// The operations that a full sync stands for, so that the log is complete and
/// a rebuild does not lose tracks.
pub fn backfill_ops(sender_node: &str, name: &str, tracks: &Vec<CollabTrack>) -> (r: Vec<CrdtOp>)
    ensures
        views(r@) == full_sync_ops(sender_node@, name@, views(tracks@)),
{
    let ghost ts = views(tracks@);
    let ghost want = Seq::new(ts.len(), |i: int| full_sync_op(sender_node@, ts, i));
    let mut ops: Vec<CrdtOp> = Vec::new();
    let mut i: usize = 0;
    while i < tracks.len()
        invariant
            i <= tracks@.len(),
            ts == views(tracks@),
            want == Seq::new(ts.len(), |i: int| full_sync_op(sender_node@, ts, i)),
            views(ops@) == want.take(i as int),
        decreases tracks@.len() - i,
    {
        let ghost before = ops@;
        let mut op_id = concat3("fullsync:", sender_node, ":");
        op_id.append(decimal_string(i as u128).as_str());
        let track = tracks[i].clone();
        let op = CrdtOp {
            op_id,
            timestamp: i as u64 + 1,
            origin_node: tracks[i].added_by.clone(),
            kind: CrdtOpKind::AddTrack { track },
        };
        proof {
            assert(ts[i as int] == tracks@[i as int]@);
            assert(want[i as int] == op@);
            assert(want.take(i + 1) =~= want.take(i as int).push(op@));
        }
        let ghost opv = op@;
        ops.push(op);
        assert(views(ops@) =~= views(before).push(opv));
        i += 1;
    }
    assert(want.take(i as int) =~= want);
    let ghost before = ops@;
    let last = CrdtOp {
        op_id: concat3("fullsync:", sender_node, ":name"),
        timestamp: 0,
        origin_node: sender_node.to_owned(),
        kind: CrdtOpKind::SetName { name: name.to_owned() },
    };
    let ghost lv = last@;
    ops.push(last);
    assert(views(ops@) =~= views(before).push(lv));
    ops
}

/// Carries out a playlist operation that gossip brought, if its sender may do
/// it. Says whether they may.
pub fn handle_playlist_op(state: &mut PlaylistState, sender: &str, op: &PlaylistOp, now: &str) -> (
    allowed: bool)
    ensures
        final(state)@ == after_op(old(state)@, sender@, *op, now@),
        allowed == op_allowed(*op, old(state)@.members, sender@),
{
    match op {
        PlaylistOp::Create { playlist_id, name } => {
            create_playlist(state, playlist_id.as_str(), name.as_str(), sender, now);
            true
        },
        PlaylistOp::AddTrack { track, .. } => {
            let known = list_members(&state.members);
            assert(member_views(known@).len() == known@.len());
            if can_edit(&state.members, sender) || known.len() == 0 {
                add_track(&mut state.tracks, track);
                true
            } else {
                false
            }
        },
        PlaylistOp::RemoveTrack { track_id, owner_node, .. } => {
            if can_edit(&state.members, sender) {
                remove_track(&mut state.tracks, track_id.as_str(), owner_node.as_str());
                true
            } else {
                false
            }
        },
        PlaylistOp::Rename { name, .. } => {
            if can_edit(&state.members, sender) {
                rename_playlist(state, name.as_str());
                true
            } else {
                false
            }
        },
        PlaylistOp::Delete { .. } => {
            match get_member_role(&state.members, sender) {
                Some(Role::Owner) => {
                    delete_playlist(state);
                    true
                },
                _ => false,
            }
        },
        PlaylistOp::FullSync { playlist_id, name, tracks } => {
            let known = list_members(&state.members);
            assert(member_views(known@).len() == known@.len());
            if can_edit(&state.members, sender) || known.len() == 0 {
                create_playlist(state, playlist_id.as_str(), name.as_str(), sender, now);
                let ops = backfill_ops(sender, name.as_str(), tracks);
                let _ = merge_ops(&mut state.log, &ops);
                rebuild(state);
                true
            } else {
                false
            }
        },
    }
}

/// A viewer, and a node that is no member, can change nothing in a playlist
/// that has members.
pub proof fn viewers_change_nothing(
    st: PlaylistStateView,
    sender: Seq<char>,
    op: PlaylistOp,
    now: Seq<char>,
)
    requires
        known_members(stable_sort(st.members, ranking::<Member>())).len() > 0,
        !may_edit(member_role(st.members, sender)),
        op is AddTrack || op is RemoveTrack || op is Rename || op is Delete || op is FullSync,
    ensures
        after_op(st, sender, op, now) == st,
{
}

/// Only an owner deletes a playlist.
pub proof fn only_owners_delete(
    st: PlaylistStateView,
    sender: Seq<char>,
    op: PlaylistOp,
    now: Seq<char>,
)
    requires
        st.playlist is Some,
        after_op(st, sender, op, now).playlist is None,
    ensures
        op is Delete && member_role(st.members, sender) == Some(Role::Owner),
{
}

/// No operation of gossip changes who is a member.
pub proof fn operations_keep_members(
    st: PlaylistStateView,
    sender: Seq<char>,
    op: PlaylistOp,
    now: Seq<char>,
)
    ensures
        after_op(st, sender, op, now).members == st.members,
{
}

// ── Laws of merging ─────────────────────────────────────────────

proof fn lemma_current(st: PlaylistStateView, ops: Seq<CrdtOpView>)
    requires
        is_current(st),
    ensures
        after_merge(st, ops).tracks == playlist_tracks(merged(st.log, ops)),
        after_merge(st, ops).log == merged(st.log, ops),
{
    merging_unites(st.log, ops);
    let m = merged(st.log, ops);
    if m.len() <= st.log.len() {
        assert(m.subrange(0, st.log.len() as int) =~= m);
        assert(m =~= st.log);
    }
}

/// Merging keeps what clients are shown in step with the log.
pub proof fn merging_keeps_tracks_current(st: PlaylistStateView, ops: Seq<CrdtOpView>)
    requires
        is_current(st),
    ensures
        is_current(after_merge(st, ops)),
{
    lemma_current(st, ops);
}

/// Two nodes that take in each other's operations show the same tracks, in the
/// same order.
pub proof fn synced_nodes_show_the_same(a: PlaylistStateView, b: PlaylistStateView)
    requires
        is_current(a),
        is_current(b),
        distinct_ids(a.log),
        distinct_ids(b.log),
        agree(a.log, b.log),
    ensures
        after_merge(a, b.log).tracks == after_merge(b, a.log).tracks,
{
    lemma_current(a, b.log);
    lemma_current(b, a.log);
    merging_converges(a.log, b.log);
}

/// Taking in the same operations again changes nothing.
pub proof fn syncing_again_changes_nothing(st: PlaylistStateView, ops: Seq<CrdtOpView>)
    ensures
        after_merge(after_merge(st, ops), ops) == after_merge(st, ops),
{
    let once = after_merge(st, ops);
    merging_unites(st.log, ops);
    let m = merged(st.log, ops);
    if m.len() <= st.log.len() {
        assert(m.subrange(0, st.log.len() as int) =~= m);
        assert(m =~= st.log);
    }
    assert(once.log == m);
    crate::social::crdt::merging_again_changes_nothing(st.log, ops);
}

proof fn lemma_full_sync_ids(sender: Seq<char>, name: Seq<char>, tracks: Seq<CollabTrackView>)
    requires
        tracks.len() < u64::MAX,
    ensures
        distinct_ids(full_sync_ops(sender, name, tracks)),
{
    let ops = full_sync_ops(sender, name, tracks);
    reveal_strlit(":");
    reveal_strlit(":name");
    assert forall|i: int, j: int| 0 <= i < j < ops.len() implies (#[trigger] ops[i]).op_id != (
    #[trigger] ops[j]).op_id by {
        let head = "fullsync:"@ + sender + ":"@;
        let a = ops[i].op_id;
        decimal_read_back(i as nat);
        assert(a =~= head + decimal(i as nat));
        assert(a.skip(head.len() as int) =~= decimal(i as nat));
        let b = ops[j].op_id;
        if j < tracks.len() {
            decimal_read_back(j as nat);
            assert(b =~= head + decimal(j as nat));
            assert(b.skip(head.len() as int) =~= decimal(j as nat));
        } else {
            crate::strs::decimal_starts_with_digit(i as nat);
            assert(b[head.len() as int] == 'n');
            assert(a[head.len() as int] == decimal(i as nat)[0]);
        }
    }
}

/// A full sync that is allowed, and reaches a node without operations, loses no
/// track.
pub proof fn full_sync_loses_nothing(
    st: PlaylistStateView,
    sender: Seq<char>,
    op: PlaylistOp,
    now: Seq<char>,
    i: int,
)
    requires
        st.log.len() == 0,
        op_allowed(op, st.members, sender),
        op matches PlaylistOp::FullSync { tracks, .. } && 0 <= i < tracks@.len() < u64::MAX,
    ensures
        op matches PlaylistOp::FullSync { tracks, .. } ==> lists(
            after_op(st, sender, op, now).tracks,
            tracks@[i]@.key(),
        ),
        is_current(after_op(st, sender, op, now)),
{
    if let PlaylistOp::FullSync { playlist_id, name, tracks } = op {
        let ts = views(tracks@);
        let ops = full_sync_ops(sender, name@, ts);
        let log = merged(st.log, ops);
        lemma_full_sync_ids(sender, name@, ts);
        assert(agree(ops, ops)) by {
            assert forall|x: int, y: int|
                0 <= x < ops.len() && 0 <= y < ops.len() && (#[trigger] ops[x]).op_id == (
                #[trigger] ops[y]).op_id implies ops[x] == ops[y] by {
                if x < y {
                    assert(ops[x].op_id != ops[y].op_id);
                } else if y < x {
                    assert(ops[y].op_id != ops[x].op_id);
                }
            }
        }
        let add = ops[i];
        assert(add == full_sync_op(sender, ts, i));
        assert(add.adds(ts[i].key()));
        assert(ops.contains(add));
        merged_log_holds_both(st.log, ops, add);
        let k = choose|k: int| 0 <= k < log.len() && log[k] == add;
        add_wins(log, ts[i].key());
        assert(!crate::social::crdt::removed_after(log, add.timestamp, ts[i].key())) by {
            if crate::social::crdt::removed_after(log, add.timestamp, ts[i].key()) {
                let j = choose|j: int|
                    0 <= j < log.len() && (#[trigger] log[j]).removes(ts[i].key())
                        && log[j].timestamp > add.timestamp;
                merged_log_holds_both(st.log, ops, log[j]);
                assert(log.contains(log[j]));
                assert(ops.contains(log[j]));
                let q = choose|q: int| 0 <= q < ops.len() && ops[q] == log[j];
            }
        }
        assert(log[k].adds(ts[i].key()));
    }
}

// ── Laws of what operations do ──────────────────────────────────

/// What an operation that is allowed does: it creates the playlist if there is
/// none, adds or removes a track, renames, or deletes; all else stays.
pub proof fn operations_do_what_they_say(
    st: PlaylistStateView,
    sender: Seq<char>,
    playlist_id: String,
    name: String,
    track: CollabTrack,
    track_id: String,
    owner_node: String,
    now: Seq<char>,
)
    ensures
        ({
            let new = carried_out(st, sender, PlaylistOp::Create { playlist_id, name }, now);
            &&& st.playlist is Some ==> new == st
            &&& st.playlist is None ==> new == (PlaylistStateView {
                playlist: Some(
                    (CollabPlaylistView {
                        id: playlist_id@,
                        name: name@,
                        created_by: sender,
                        created_at: now,
                    }),
                ),
                ..st
            })
        }),
        carried_out(st, sender, PlaylistOp::AddTrack { playlist_id, track }, now) == (
        PlaylistStateView { tracks: with_track(st.tracks, track@), ..st }),
        carried_out(
            st,
            sender,
            PlaylistOp::RemoveTrack { playlist_id, track_id, owner_node },
            now,
        ) == (PlaylistStateView {
            tracks: without_track(st.tracks, (track_id@, owner_node@)),
            ..st
        }),
        ({
            let new = carried_out(st, sender, PlaylistOp::Rename { playlist_id, name }, now);
            &&& st.playlist matches Some(p) ==> new == (PlaylistStateView {
                playlist: Some((CollabPlaylistView { name: name@, ..p })),
                ..st
            })
            &&& st.playlist is None ==> new == st
        }),
        carried_out(st, sender, PlaylistOp::Delete { playlist_id }, now) == (PlaylistStateView {
            playlist: None,
            tracks: seq![],
            ..st
        }),
{
}

/// Who may do what: anyone may create; owners and collaborators may add, remove and
/// rename; only owners delete. A playlist without known members takes tracks from
/// anyone.
pub proof fn roles_allow_operations(
    op: PlaylistOp,
    members: Seq<MemberView>,
    sender: Seq<char>,
)
    ensures
        op is Create ==> op_allowed(op, members, sender),
        member_role(members, sender) == Some(Role::Owner) ==> op_allowed(op, members, sender),
        member_role(members, sender) == Some(Role::Collab) ==> (op_allowed(op, members, sender)
            <==> !(op is Delete)),
        member_role(members, sender) == Some(Role::Viewer) && (op is RemoveTrack || op is Rename
            || op is Delete) ==> !op_allowed(op, members, sender),
        member_role(members, sender) is None && (op is RemoveTrack || op is Rename || op is Delete)
            ==> !op_allowed(op, members, sender),
        known_members(stable_sort(members, ranking::<Member>())).len() == 0 && (op is AddTrack
            || op is FullSync) ==> op_allowed(op, members, sender),
{
}

/// The known members are all those whose role is known, in their order.
pub proof fn members_of_known_roles_are_listed(s: Seq<MemberView>)
    ensures
        known_members(s) == s.map_values(
            |m: MemberView|
                match role_named(m.role) {
                    Some(role) => seq![(m.node_id, m.name, role)],
                    None => seq![],
                },
        ).flatten(),
    decreases s.len(),
{
    lemma_flat_end(
        s,
        |m: MemberView|
            match role_named(m.role) {
                Some(role) => seq![(m.node_id, m.name, role)],
                None => seq![],
            },
    );
    if s.len() > 0 {
        members_of_known_roles_are_listed(s.drop_last());
    }
}

/// Members are listed by role and, within a role, by name.
pub proof fn members_are_listed_by_role_and_name(s: Seq<MemberView>, i: int, j: int)
    requires
        0 <= i < j < s.len(),
    ensures
        ({
            let listed = stable_sort(s, ranking::<Member>());
            &&& listed.to_multiset() == s.to_multiset()
            &&& listed.len() == s.len()
            &&& text_less(listed[i].role, listed[j].role) || (listed[i].role == listed[j].role
                && !text_less(listed[j].name, listed[i].name))
        }),
{
    ranking_is_total_preorder::<Member>();
    stable_sort_sorts(s, ranking::<Member>());
    let listed = stable_sort(s, ranking::<Member>());
    assert(ranking::<Member>()(listed[i], listed[j]));
}

/// A rebuilt playlist has the tracks that its log gives and, where the log sets a
/// name, that name.
pub proof fn rebuilding_follows_the_log(st: PlaylistStateView)
    ensures
        rebuilt(st).tracks == playlist_tracks(st.log),
        rebuilt(st).log == st.log,
        rebuilt(st).members == st.members,
        st.playlist matches Some(p) ==> {
            &&& playlist_name(st.log) matches Some(name) ==> rebuilt(st).playlist == Some(
                (CollabPlaylistView { name, ..p }),
            )
            &&& playlist_name(st.log) is None ==> rebuilt(st).playlist == Some(p)
        },
        st.playlist is None ==> rebuilt(st).playlist is None,
{
}

/// A sync brings all operations of the other side into the log; a playlist that
/// was not there is made, in the sender's name.
pub proof fn syncs_bring_all_operations(
    st: PlaylistStateView,
    playlist_id: Seq<char>,
    sender: Seq<char>,
    ops: Seq<CrdtOpView>,
    now: Seq<char>,
)
    ensures
        ({
            let new = after_sync(st, playlist_id, sender, ops, now);
            &&& merged(st.log, ops).len() > st.log.len() ==> new.log == merged(st.log, ops)
                && new.tracks == playlist_tracks(new.log)
            &&& merged(st.log, ops).len() <= st.log.len() ==> new.log == st.log && new.tracks
                == st.tracks
            &&& new.members == st.members
            &&& new.playlist matches Some(p) && (st.playlist is None ==> p.id == playlist_id
                && p.created_by == sender && p.created_at == now && (playlist_name(new.log) is None
                ==> p.name == "(syncing...)"@)) && (st.playlist matches Some(q) ==> p.id == q.id
                && p.created_by == q.created_by && p.created_at == q.created_at)
        }),
{
}

/// A full sync adds every track, in order, and sets the name before all else.
pub proof fn full_sync_adds_every_track(
    sender: Seq<char>,
    name: Seq<char>,
    tracks: Seq<CollabTrackView>,
    i: int,
)
    requires
        0 <= i < tracks.len() < u64::MAX,
    ensures
        ({
            let ops = full_sync_ops(sender, name, tracks);
            &&& ops.len() == tracks.len() + 1
            &&& ops[i].kind == (CrdtOpKindView::AddTrack { track: tracks[i] })
            &&& ops[i].timestamp == i + 1
            &&& ops[i].origin_node == tracks[i].added_by
            &&& ops.last().kind == (CrdtOpKindView::SetName { name })
            &&& ops.last().timestamp == 0
        }),
{
}

} // verus!
