//! What a node does on a message, a request or a tick: the decisions of the
//! social service. The connections themselves are the caller's.

use crate::codec::{blake3_digest, blake3_hash};
use crate::error::{FugueError, FugueErrorView};
use crate::id::{decode_id, id_parts};
use crate::json::{
    integer, object, reading_after_setting, whole, Json, JsonView, Number, NumberView,
};
use crate::seqs::lemma_flat_end;
use crate::social::collab_playlist::{
    encode_remote_track_id, is_remote_track_id, remote_track, remote_track_id,
    remote_track_id_round_trip, CollabTrack, PlaylistOp,
};
use crate::social::crdt::{CrdtOp, OpLog};
use crate::social::party::{
    clock_step, with_active, with_member_added, with_member_removed, without_active,
    ActivePartyView, FollowingView, PartySessionView, PartyState, PartyStateView,
};
use crate::social::protocol::{
    clone_track, clone_tracks, opt_track, opt_track_json, opt_track_to_json, state_json,
    state_to_json, tracks_json, tracks_to_json, zero_secs, GossipMessage, PartyPlaybackState,
    PartyTrack, PartyTrackView, RequestMessage, ResponseMessage,
};
use crate::strs::{concat3, decimal, decimal_string, opt_text, str_eq, views};
use vstd::prelude::*;
use vstd::utf8::encode_utf8;

verus! {

/// The well-known topic of the Fugue social network.
pub fn fugue_topic() -> (r: Vec<u8>)
    ensures
        r@ == blake3_digest(encode_utf8("fugue-social-v0"@)),
        r@.len() == 32,
{
    blake3_hash("fugue-social-v0".as_bytes())
}

// ── Track identifiers for followers ─────────────────────────────

/// `t` with an identifier that leads back to the DJ's node. One that already
/// leads to a node stays, so that nothing is encoded twice.
pub open spec fn remote_party_track(dj_node: Seq<char>, t: PartyTrackView) -> PartyTrackView {
    if remote_track(t.song_id) is Some {
        t
    } else {
        PartyTrackView { song_id: remote_track_id(dj_node, t.song_id), ..t }
    }
}

pub(crate) fn remap_track(dj_node: &str, t: &PartyTrack) -> (r: PartyTrack)
    ensures
        r@ == remote_party_track(dj_node@, t@),
{
    let mut rt = t.clone();
    if !is_remote_track_id(t.song_id.as_str()) {
        rt.song_id = encode_remote_track_id(dj_node, t.song_id.as_str());
    }
    rt
}

/// The tracks with identifiers that lead back to the DJ's node.
pub open spec fn remote_party_tracks(dj_node: Seq<char>, s: Seq<PartyTrackView>) -> Seq<
    PartyTrackView,
> {
    s.map_values(|t: PartyTrackView| remote_party_track(dj_node, t))
}

/// Re-encodes song IDs as remote track IDs pointing to the DJ's node, so that
/// a follower streams from there.
pub fn remap_party_tracks_remote(dj_node: &str, tracks: &Vec<PartyTrack>) -> (r: Vec<PartyTrack>)
    ensures
        views(r@) == remote_party_tracks(dj_node@, views(tracks@)),
{
    let mut out: Vec<PartyTrack> = Vec::new();
    let mut i: usize = 0;
    let ghost want = remote_party_tracks(dj_node@, views(tracks@));
    while i < tracks.len()
        invariant
            i <= tracks@.len(),
            want == remote_party_tracks(dj_node@, views(tracks@)),
            views(out@) == want.take(i as int),
        decreases tracks@.len() - i,
    {
        let ghost before = out@;
        let c = remap_track(dj_node, &tracks[i]);
        out.push(c);
        proof {
            assert(views(out@) =~= views(before).push(c@));
            assert(want.take(i + 1) =~= want.take(i as int).push(c@));
        }
        i += 1;
    }
    assert(want.take(i as int) =~= want);
    out
}

/// Re-encoding twice is the same as re-encoding once, whichever node does it.
pub proof fn remapping_twice_changes_nothing(a: Seq<char>, b: Seq<char>, t: PartyTrackView)
    ensures
        remote_party_track(b, remote_party_track(a, t)) == remote_party_track(a, t),
{
    crate::social::collab_playlist::remote_track_ids_are_recognised(a, t.song_id);
}

// ── Events for connected clients ────────────────────────────────

/// An event that names a session, a person and a node.
pub open spec fn party_event(
    kind: Seq<char>,
    session_id: Seq<char>,
    display_name: Seq<char>,
    node_id: Seq<char>,
) -> JsonView {
    object().with("type"@, JsonView::Text(kind)).with("session_id"@, JsonView::Text(session_id)).with(
        "display_name"@,
        JsonView::Text(display_name),
    ).with("node_id"@, JsonView::Text(node_id))
}

fn make_party_event(kind: &str, session_id: &str, display_name: &str, node_id: &str) -> (r: Json)
    ensures
        r@ == party_event(kind@, session_id@, display_name@, node_id@),
{
    Json::object().with_text("type", kind).with_text("session_id", session_id).with_text(
        "display_name",
        display_name,
    ).with_text("node_id", node_id)
}

/// The event that a session has ended.
pub open spec fn party_end_event(session_id: Seq<char>, display_name: Seq<char>) -> JsonView {
    object().with("type"@, JsonView::Text("party_end"@)).with(
        "session_id"@,
        JsonView::Text(session_id),
    ).with("display_name"@, JsonView::Text(display_name))
}

pub(crate) fn make_party_end_event(session_id: &str, display_name: &str) -> (r: Json)
    ensures
        r@ == party_end_event(session_id@, display_name@),
{
    Json::object().with_text("type", "party_end").with_text("session_id", session_id).with_text(
        "display_name",
        display_name,
    )
}

/// The event that a friend came online or went offline.
pub open spec fn friend_event(kind: Seq<char>, node_id: Seq<char>) -> JsonView {
    object().with("type"@, JsonView::Text(kind)).with("node_id"@, JsonView::Text(node_id))
}

/// The event for a peer that connected.
pub fn friend_online_event(node_id: &str) -> (r: Json)
    ensures
        r@ == friend_event("friend_online"@, node_id@),
{
    Json::object().with_text("type", "friend_online").with_text("node_id", node_id)
}

/// The event for a peer that disconnected.
pub fn friend_offline_event(node_id: &str) -> (r: Json)
    ensures
        r@ == friend_event("friend_offline"@, node_id@),
{
    Json::object().with_text("type", "friend_offline").with_text("node_id", node_id)
}

/// What a sync event says of the playback.
pub open spec fn sync_event(
    session_id: Seq<char>,
    seq: u64,
    host_timestamp_ms: u64,
    clock_offset_ms: i64,
    state: JsonView,
    track: Option<PartyTrackView>,
    position_secs: NumberView,
) -> JsonView {
    object().with("type"@, JsonView::Text("party_sync"@)).with(
        "session_id"@,
        JsonView::Text(session_id),
    ).with("seq"@, whole(seq as nat)).with(
        "host_timestamp_ms"@,
        whole(host_timestamp_ms as nat),
    ).with("clock_offset_ms"@, integer(clock_offset_ms as int)).with("state"@, state).with(
        "track"@,
        opt_track_json(track),
    ).with("position_secs"@, JsonView::Number(position_secs))
}

pub(crate) fn make_sync_event(
    session_id: &str,
    seq: u64,
    host_timestamp_ms: u64,
    clock_offset_ms: i64,
    state: Json,
    track: &Option<PartyTrack>,
    position_secs: &Number,
) -> (r: Json)
    ensures
        r@ == sync_event(
            session_id@,
            seq,
            host_timestamp_ms,
            clock_offset_ms,
            state@,
            opt_track(*track),
            position_secs@,
        ),
{
    Json::object().with_text("type", "party_sync").with_text("session_id", session_id).with(
        "seq",
        Json::whole(seq),
    ).with("host_timestamp_ms", Json::whole(host_timestamp_ms)).with(
        "clock_offset_ms",
        Json::integer(clock_offset_ms),
    ).with("state", state).with("track", opt_track_to_json(track)).with(
        "position_secs",
        Json::Number(position_secs.clone()),
    )
}

/// What a queue event says of playlist and queue.
pub open spec fn queue_event(
    session_id: Seq<char>,
    seq: u64,
    playlist: Seq<PartyTrackView>,
    playlist_index: usize,
    queue: Seq<PartyTrackView>,
    queue_index: usize,
    playing_from_queue: bool,
) -> JsonView {
    object().with("type"@, JsonView::Text("party_queue_sync"@)).with(
        "session_id"@,
        JsonView::Text(session_id),
    ).with("seq"@, whole(seq as nat)).with("playlist"@, tracks_json(playlist)).with(
        "playlist_index"@,
        whole(playlist_index as nat),
    ).with("queue"@, tracks_json(queue)).with("queue_index"@, whole(queue_index as nat)).with(
        "playing_from_queue"@,
        JsonView::Bool(playing_from_queue),
    )
}

pub(crate) fn make_queue_event(
    session_id: &str,
    seq: u64,
    playlist: &Vec<PartyTrack>,
    playlist_index: usize,
    queue: &Vec<PartyTrack>,
    queue_index: usize,
    playing_from_queue: bool,
) -> (r: Json)
    ensures
        r@ == queue_event(
            session_id@,
            seq,
            views(playlist@),
            playlist_index,
            views(queue@),
            queue_index,
            playing_from_queue,
        ),
{
    Json::object().with_text("type", "party_queue_sync").with_text("session_id", session_id).with(
        "seq",
        Json::whole(seq),
    ).with("playlist", tracks_to_json(playlist)).with(
        "playlist_index",
        Json::whole(playlist_index as u64),
    ).with("queue", tracks_to_json(queue)).with("queue_index", Json::whole(queue_index as u64)).with(
        "playing_from_queue",
        Json::Bool(playing_from_queue),
    )
}

// ── Gossip ──────────────────────────────────────────────────────

/// What a gossip message makes of the party state, if it came from `node_id`
/// at `now`; the clock estimate of a followed session aside.
pub open spec fn party_after(
    s: PartyStateView,
    node_id: Seq<char>,
    msg: GossipMessage,
    now: u64,
) -> PartyStateView {
    match msg {
        GossipMessage::PartyCreate { session_id, display_name, node_id: host } => PartyStateView {
            active_parties: with_active(
                s.active_parties,
                session_id@,
                display_name@,
                host@,
                now,
            ),
            ..s
        },
        GossipMessage::PartyJoin { session_id, display_name, node_id: joiner } => counted_join(
            with_member_added(s, joiner@, display_name@),
            session_id@,
        ),
        GossipMessage::PartyLeave { node_id: leaver, .. } => with_member_removed(s, leaver@),
        GossipMessage::PartyEnd { session_id, .. } => PartyStateView {
            active_parties: without_active(s.active_parties, session_id@),
            following: match s.following {
                Some(f) => if f.session_id == session_id@ {
                    None
                } else {
                    Some(f)
                },
                None => None,
            },
            ..s
        },
        GossipMessage::PartySync { session_id, .. } => PartyStateView {
            active_parties: with_active(
                s.active_parties,
                session_id@,
                known_host(s.active_parties, session_id@, node_id),
                node_id,
                now,
            ),
            ..s
        },
        _ => s,
    }
}

/// Whoever joins the session that this node hosts is sent the current state:
/// under the next sequence number.
pub open spec fn counted_join(s: PartyStateView, session_id: Seq<char>) -> PartyStateView {
    match s.hosting {
        Some(h) => if h.session_id == session_id {
            PartyStateView {
                hosting: Some(PartySessionView { seq: (h.seq + 1) as u64, ..h }),
                ..s
            }
        } else {
            s
        },
        None => s,
    }
}

/// The name under which a party is known, `node_id` if it is not.
pub open spec fn known_host(s: Seq<ActivePartyView>, session_id: Seq<char>, node_id: Seq<char>) -> Seq<
    char,
>
    decreases s.len(),
{
    if s.len() == 0 {
        node_id
    } else if s[0].session_id == session_id {
        s[0].host_name
    } else {
        known_host(s.drop_first(), session_id, node_id)
    }
}

/// A sync message is news for a follower: it is of the session that the node
/// follows, and later than the last one applied.
pub open spec fn is_news(s: PartyStateView, session_id: Seq<char>, seq: u64) -> bool {
    s.following matches Some(f) && f.session_id == session_id && seq > f.last_seq
}

/// The event that connected clients get for a gossip message. `offset` is the
/// clock estimate once the message was applied.
pub open spec fn gossip_event(
    s: PartyStateView,
    node_id: Seq<char>,
    msg: GossipMessage,
    offset: i64,
) -> Option<JsonView> {
    match msg {
        GossipMessage::NowPlaying { display_name, track } => Some(
            object().with("type"@, JsonView::Text("now_playing"@)).with(
                "name"@,
                JsonView::Text(display_name@),
            ).with("node_id"@, JsonView::Text(node_id)).with(
                "title"@,
                JsonView::Text(track@.text_or("title"@, ""@)),
            ).with("artist"@, JsonView::Text(track@.text_or("artist"@, ""@))),
        ),
        GossipMessage::StoppedPlaying { display_name } => Some(
            object().with("type"@, JsonView::Text("stopped_playing"@)).with(
                "name"@,
                JsonView::Text(display_name@),
            ).with("node_id"@, JsonView::Text(node_id)),
        ),
        GossipMessage::PartyCreate { session_id, display_name, node_id: host } => Some(
            party_event("party_create"@, session_id@, display_name@, host@),
        ),
        GossipMessage::PartyInvite { session_id, display_name, node_id: host } => Some(
            party_event("party_invite"@, session_id@, display_name@, host@),
        ),
        GossipMessage::PartyJoin { session_id, display_name, node_id: joiner } => Some(
            party_event("party_join"@, session_id@, display_name@, joiner@),
        ),
        GossipMessage::PartyLeave { session_id, display_name, node_id: leaver } => Some(
            party_event("party_leave"@, session_id@, display_name@, leaver@),
        ),
        GossipMessage::PartyEnd { session_id, display_name } => Some(
            party_end_event(session_id@, display_name@),
        ),
        GossipMessage::PartySync {
            session_id,
            seq,
            host_timestamp_ms,
            state,
            track,
            position_secs,
        } => if is_news(s, session_id@, seq) {
            Some(
                sync_event(
                    session_id@,
                    seq,
                    host_timestamp_ms,
                    offset,
                    state_json(state),
                    match opt_track(track) {
                        Some(t) => Some(remote_party_track(node_id, t)),
                        None => None,
                    },
                    position_secs@,
                ),
            )
        } else {
            None
        },
        GossipMessage::PartyQueueSync {
            session_id,
            seq,
            playlist,
            playlist_index,
            queue,
            queue_index,
            playing_from_queue,
        } => if s.following matches Some(f) && f.session_id == session_id@ {
            Some(
                queue_event(
                    session_id@,
                    seq,
                    remote_party_tracks(node_id, views(playlist@)),
                    playlist_index,
                    remote_party_tracks(node_id, views(queue@)),
                    queue_index,
                    playing_from_queue,
                ),
            )
        } else {
            None
        },
        _ => None,
    }
}

/// The sync message that answers a join of the hosted session.
pub open spec fn join_answer(s: PartyStateView, msg: GossipMessage) -> Option<PartySessionView> {
    match msg {
        GossipMessage::PartyJoin { session_id, display_name, node_id: joiner } => {
            match with_member_added(s, joiner@, display_name@).hosting {
                Some(h) => if h.session_id == session_id@ {
                    Some(PartySessionView { seq: (h.seq + 1) as u64, ..h })
                } else {
                    None
                },
                None => None,
            }
        },
        _ => None,
    }
}

/// `m` announces the state of session `h` at `now`.
pub open spec fn announces(m: GossipMessage, h: PartySessionView, now: u64) -> bool {
    m matches GossipMessage::PartySync {
        session_id,
        seq,
        host_timestamp_ms,
        state,
        track,
        position_secs,
    } && session_id@ == h.session_id && seq == h.seq && host_timestamp_ms == now && state == h.state
        && opt_track(track) == h.track && position_secs@ == h.position_secs
}

/// What a node does on a gossip message.
pub struct Reaction {
    /// The event for connected clients.
    pub event: Option<Json>,
    /// The message to broadcast.
    pub broadcast: Option<GossipMessage>,
}

/// What an optional event holds.
pub open spec fn opt_event(e: Option<Json>) -> Option<JsonView> {
    match e {
        Some(j) => Some(j@),
        None => None,
    }
}

/// The clock estimate of a followed session after a message, if the message is
/// news for it.
pub open spec fn followed_clock(
    before: PartyStateView,
    after: PartyStateView,
    msg: GossipMessage,
    now: u64,
) -> bool {
    match msg {
        GossipMessage::PartySync { session_id, seq, host_timestamp_ms, .. } => if is_news(
            before,
            session_id@,
            seq,
        ) {
            after.following is Some && clock_step(
                (FollowingView { last_seq: seq, ..before.following->0 }),
                after.following->0,
                host_timestamp_ms,
                now,
            )
        } else {
            after.following == before.following
        },
        _ => after.following == party_after(before, seq![], msg, now).following,
    }
}

fn host_name_of(state: &PartyState, session_id: &str, node_id: &str) -> (r: String)
    ensures
        r@ == known_host(state@.active_parties, session_id@, node_id@),
{
    let ghost s = state@.active_parties;
    let mut i: usize = 0;
    assert(s.skip(0) =~= s);
    while i < state.active_parties.len()
        invariant
            i <= state.active_parties@.len(),
            s == views(state.active_parties@),
            known_host(s, session_id@, node_id@) == known_host(
                s.skip(i as int),
                session_id@,
                node_id@,
            ),
        decreases state.active_parties@.len() - i,
    {
        proof {
            assert(s.skip(i as int)[0] == state.active_parties@[i as int]@);
            assert(s.skip(i as int).drop_first() =~= s.skip(i + 1));
        }
        if str_eq(state.active_parties[i].session_id.as_str(), session_id) {
            return state.active_parties[i].host_name.clone();
        }
        i += 1;
    }
    node_id.to_owned()
}

/// Applies a sync message to the followed session, if it is news for it; gives
/// the clock estimate then.
fn apply_sync(
    state: &mut PartyState,
    session_id: &str,
    seq: u64,
    host_timestamp_ms: u64,
    now: u64,
) -> (r: Option<i64>)
    ensures
        final(state)@.hosting == old(state)@.hosting,
        final(state)@.active_parties == old(state)@.active_parties,
        r is Some == is_news(old(state)@, session_id@, seq),
        match r {
            Some(offset) => final(state)@.following is Some && clock_step(
                (FollowingView { last_seq: seq, ..old(state)@.following->0 }),
                final(state)@.following->0,
                host_timestamp_ms,
                now,
            ) && offset == final(state)@.following->0.clock_offset_ms,
            None => final(state)@ == old(state)@,
        },
{
    match &mut state.following {
        Some(f) => {
            if str_eq(f.session_id.as_str(), session_id) && seq > f.last_seq {
                f.last_seq = seq;
                f.apply_clock(host_timestamp_ms, now);
                Some(f.clock_offset_ms)
            } else {
                None
            }
        },
        None => None,
    }
}

/// Reacts to a gossip message that `node_id` delivered at `now`.
pub fn on_gossip(state: &mut PartyState, node_id: &str, msg: &GossipMessage, now: u64) -> (r:
    Reaction)
    requires
        old(state)@.hosting matches Some(h) ==> h.seq < u64::MAX,
    ensures
        final(state)@ == (PartyStateView {
            following: final(state)@.following,
            ..party_after(old(state)@, node_id@, *msg, now)
        }),
        followed_clock(old(state)@, final(state)@, *msg, now),
        opt_event(r.event) == gossip_event(
            old(state)@,
            node_id@,
            *msg,
            match final(state)@.following {
                Some(f) => f.clock_offset_ms,
                None => 0,
            },
        ),
        match join_answer(old(state)@, *msg) {
            Some(h) => r.broadcast is Some && announces(r.broadcast->0, h, now),
            None => r.broadcast is None,
        },
{
    match msg {
        GossipMessage::NowPlaying { display_name, track } => {
            let event = Json::object().with_text("type", "now_playing").with_text(
                "name",
                display_name.as_str(),
            ).with_text("node_id", node_id).with_text("title", track.str_or("title", "")).with_text(
                "artist",
                track.str_or("artist", ""),
            );
            Reaction { event: Some(event), broadcast: None }
        },
        GossipMessage::StoppedPlaying { display_name } => {
            let event = Json::object().with_text("type", "stopped_playing").with_text(
                "name",
                display_name.as_str(),
            ).with_text("node_id", node_id);
            Reaction { event: Some(event), broadcast: None }
        },
        GossipMessage::PartyCreate { session_id, display_name, node_id: host } => {
            state.touch_active_party_at(
                session_id.as_str(),
                display_name.as_str(),
                host.as_str(),
                now,
            );
            let event = make_party_event(
                "party_create",
                session_id.as_str(),
                display_name.as_str(),
                host.as_str(),
            );
            Reaction { event: Some(event), broadcast: None }
        },
        GossipMessage::PartyInvite { session_id, display_name, node_id: host } => {
            let event = make_party_event(
                "party_invite",
                session_id.as_str(),
                display_name.as_str(),
                host.as_str(),
            );
            Reaction { event: Some(event), broadcast: None }
        },
        GossipMessage::PartyJoin { session_id, display_name, node_id: joiner } => {
            state.add_member(joiner.as_str(), display_name.as_str());
            let broadcast = match &mut state.hosting {
                Some(h) => if str_eq(h.session_id.as_str(), session_id.as_str()) {
                    h.seq = h.seq + 1;
                    Some(
                        GossipMessage::PartySync {
                            session_id: h.session_id.clone(),
                            seq: h.seq,
                            host_timestamp_ms: now,
                            state: h.state,
                            track: clone_track(&h.track),
                            position_secs: h.position_secs.clone(),
                        },
                    )
                } else {
                    None
                },
                None => None,
            };
            let event = make_party_event(
                "party_join",
                session_id.as_str(),
                display_name.as_str(),
                joiner.as_str(),
            );
            Reaction { event: Some(event), broadcast }
        },
        GossipMessage::PartyLeave { session_id, display_name, node_id: leaver } => {
            state.remove_member(leaver.as_str());
            let event = make_party_event(
                "party_leave",
                session_id.as_str(),
                display_name.as_str(),
                leaver.as_str(),
            );
            Reaction { event: Some(event), broadcast: None }
        },
        GossipMessage::PartyEnd { session_id, display_name } => {
            state.remove_active_party(session_id.as_str());
            let ours = match &state.following {
                Some(f) => str_eq(f.session_id.as_str(), session_id.as_str()),
                None => false,
            };
            if ours {
                let _ = state.unfollow();
            }
            let event = make_party_end_event(session_id.as_str(), display_name.as_str());
            Reaction { event: Some(event), broadcast: None }
        },
        GossipMessage::PartySync {
            session_id,
            seq,
            host_timestamp_ms,
            state: playback,
            track,
            position_secs,
        } => {
            let host_name = host_name_of(&*state, session_id.as_str(), node_id);
            state.touch_active_party_at(session_id.as_str(), host_name.as_str(), node_id, now);
            match apply_sync(state, session_id.as_str(), *seq, *host_timestamp_ms, now) {
                Some(offset) => {
                    let remote = match track {
                        Some(t) => Some(remap_track(node_id, t)),
                        None => None,
                    };
                    let event = make_sync_event(
                        session_id.as_str(),
                        *seq,
                        *host_timestamp_ms,
                        offset,
                        state_to_json(*playback),
                        &remote,
                        position_secs,
                    );
                    Reaction { event: Some(event), broadcast: None }
                },
                None => Reaction { event: None, broadcast: None },
            }
        },
        GossipMessage::PartyQueueSync {
            session_id,
            seq,
            playlist,
            playlist_index,
            queue,
            queue_index,
            playing_from_queue,
        } => {
            let is_following = match &state.following {
                Some(f) => str_eq(f.session_id.as_str(), session_id.as_str()),
                None => false,
            };
            if is_following {
                let remote_playlist = remap_party_tracks_remote(node_id, playlist);
                let remote_queue = remap_party_tracks_remote(node_id, queue);
                let event = make_queue_event(
                    session_id.as_str(),
                    *seq,
                    &remote_playlist,
                    *playlist_index,
                    &remote_queue,
                    *queue_index,
                    *playing_from_queue,
                );
                Reaction { event: Some(event), broadcast: None }
            } else {
                Reaction { event: None, broadcast: None }
            }
        },
        _ => Reaction { event: None, broadcast: None },
    }
}

/// A valid party state stays valid, whatever the gossip says.
pub proof fn gossip_keeps_party_valid(
    before: PartyStateView,
    after: PartyStateView,
    node_id: Seq<char>,
    msg: GossipMessage,
    now: u64,
)
    requires
        crate::social::party::party_valid(before),
        after == (PartyStateView {
            following: after.following,
            ..party_after(before, node_id, msg, now)
        }),
        followed_clock(before, after, msg, now),
    ensures
        crate::social::party::party_valid(after),
{
    match msg {
        GossipMessage::PartyCreate { session_id, display_name, node_id: host } => {
            crate::social::party::known_parties_stay_valid(
                before,
                session_id@,
                display_name@,
                host@,
                now,
            );
        },
        GossipMessage::PartyJoin { session_id, display_name, node_id: joiner } => {
            crate::social::party::membership_stays_valid(before, joiner@, display_name@);
        },
        GossipMessage::PartyLeave { session_id, display_name, node_id: leaver } => {
            crate::social::party::membership_stays_valid(before, leaver@, display_name@);
        },
        GossipMessage::PartyEnd { session_id, display_name } => {
            crate::social::party::known_parties_stay_valid(
                before,
                session_id@,
                display_name@,
                seq![],
                now,
            );
        },
        GossipMessage::PartySync { session_id, .. } => {
            crate::social::party::known_parties_stay_valid(
                before,
                session_id@,
                known_host(before.active_parties, session_id@, node_id),
                node_id,
                now,
            );
        },
        _ => {},
    }
}

/// What a gossip message asks to be stored.
pub enum StoreAction {
    SetNowPlaying { node_id: String, display_name: String, track: Json },
    ClearNowPlaying { node_id: String, display_name: String },
    AddChat { node_id: String, display_name: String, message: String },
    Playlist { op: PlaylistOp },
    MergeOps { playlist_id: String, ops: Vec<CrdtOp> },
    Nothing,
}

/// What a gossip message from `node_id` asks to be stored.
pub fn handle_gossip_message(node_id: &str, msg: GossipMessage) -> (r: StoreAction)
    ensures
        match msg {
            GossipMessage::NowPlaying { display_name, track } => r matches StoreAction::SetNowPlaying {
                node_id: n,
                display_name: d,
                track: t,
            } && n@ == node_id@ && d == display_name && t == track,
            GossipMessage::StoppedPlaying {
                display_name,
            } => r matches StoreAction::ClearNowPlaying { node_id: n, display_name: d } && n@
                == node_id@ && d == display_name,
            GossipMessage::Chat { display_name, message } => r matches StoreAction::AddChat {
                node_id: n,
                display_name: d,
                message: m,
            } && n@ == node_id@ && d == display_name && m == message,
            GossipMessage::Playlist { op } => r == (StoreAction::Playlist { op }),
            GossipMessage::CrdtSync { playlist_id, ops } => r == (StoreAction::MergeOps {
                playlist_id,
                ops,
            }),
            _ => r == StoreAction::Nothing,
        },
{
    match msg {
        GossipMessage::NowPlaying { display_name, track } => StoreAction::SetNowPlaying {
            node_id: node_id.to_owned(),
            display_name,
            track,
        },
        GossipMessage::StoppedPlaying { display_name } => StoreAction::ClearNowPlaying {
            node_id: node_id.to_owned(),
            display_name,
        },
        GossipMessage::Chat { display_name, message } => StoreAction::AddChat {
            node_id: node_id.to_owned(),
            display_name,
            message,
        },
        GossipMessage::Playlist { op } => StoreAction::Playlist { op },
        GossipMessage::CrdtSync { playlist_id, ops } => StoreAction::MergeOps {
            playlist_id,
            ops,
        },
        _ => StoreAction::Nothing,
    }
}

// ── Collaborative playlists ─────────────────────────────────────

/// What a node sends about a playlist to a peer that has just connected: all
/// operations; for a playlist without operations its tracks, if it has any.
pub fn sync_message(
    playlist_id: &str,
    name: &str,
    log: &OpLog,
    tracks: Vec<CollabTrack>,
) -> (r: Option<GossipMessage>)
    ensures
        match r {
            Some(GossipMessage::CrdtSync { playlist_id: p, ops }) => {
                &&& log@.len() > 0
                &&& p@ == playlist_id@
                &&& views(ops@) == crate::social::crdt::replay_order(log@)
            },
            Some(
                GossipMessage::Playlist {
                    op: PlaylistOp::FullSync { playlist_id: p, name: n, tracks: t },
                },
            ) => {
                &&& log@.len() == 0
                &&& tracks@.len() > 0
                &&& p@ == playlist_id@
                &&& n@ == name@
                &&& t == tracks
            },
            Some(_) => false,
            None => log@.len() == 0 && tracks@.len() == 0,
        },
{
    if log.ops.len() > 0 {
        Some(
            GossipMessage::CrdtSync {
                playlist_id: playlist_id.to_owned(),
                ops: crate::social::crdt::get_all_ops(log),
            },
        )
    } else if tracks.len() > 0 {
        Some(
            GossipMessage::Playlist {
                op: PlaylistOp::FullSync {
                    playlist_id: playlist_id.to_owned(),
                    name: name.to_owned(),
                    tracks,
                },
            },
        )
    } else {
        None
    }
}

// ── Peers ───────────────────────────────────────────────────────

/// The peers to start from: for each friend the node that its ticket names, or
/// else its public key; friends with neither are left out.
pub open spec fn reachable_peers(friends: Seq<(Option<Seq<char>>, Option<Seq<char>>)>) -> Seq<
    Seq<char>,
>
    decreases friends.len(),
{
    if friends.len() == 0 {
        seq![]
    } else {
        let rest = reachable_peers(friends.drop_last());
        match friends.last() {
            (Some(id), _) => rest.push(id),
            (None, Some(key)) => rest.push(key),
            (None, None) => rest,
        }
    }
}

/// What is known of friends: the node of the ticket, and the public key.
pub open spec fn friend_views(s: Seq<(Option<String>, Option<String>)>) -> Seq<
    (Option<Seq<char>>, Option<Seq<char>>),
> {
    s.map_values(|f: (Option<String>, Option<String>)| (opt_text(f.0), opt_text(f.1)))
}

/// The peers to start from.
pub fn bootstrap_peers(friends: &Vec<(Option<String>, Option<String>)>) -> (r: Vec<String>)
    ensures
        views(r@) == reachable_peers(friend_views(friends@)),
{
    let ghost fs = friend_views(friends@);
    let mut out: Vec<String> = Vec::new();
    let mut i: usize = 0;
    assert(fs.take(0) =~= seq![]);
    assert(views(out@) =~= seq![]);
    while i < friends.len()
        invariant
            i <= friends@.len(),
            fs == friend_views(friends@),
            views(out@) == reachable_peers(fs.take(i as int)),
        decreases friends@.len() - i,
    {
        let ghost before = out@;
        proof {
            assert(fs.take(i + 1).drop_last() =~= fs.take(i as int));
            assert(fs.take(i + 1).last() == (
                opt_text(friends@[i as int].0),
                opt_text(friends@[i as int].1),
            ));
        }
        match &friends[i].0 {
            Some(id) => {
                let c = id.clone();
                out.push(c);
                assert(views(out@) =~= views(before).push(c@));
            },
            None => match &friends[i].1 {
                Some(key) => {
                    let c = key.clone();
                    out.push(c);
                    assert(views(out@) =~= views(before).push(c@));
                },
                None => {},
            },
        }
        i += 1;
    }
    assert(fs.take(i as int) =~= fs);
    out
}

/// Who takes an incoming connection.
#[derive(Debug, Clone, Copy, PartialEq, Eq, Structural)]
pub enum Route {
    /// The gossip protocol.
    Gossip,
    /// Direct requests between nodes.
    Fugue,
    /// Subsonic requests over the connection.
    Subsonic,
    /// Subsonic requests, which this node does not serve.
    NotConfigured,
    /// A protocol that this node does not speak.
    Unknown,
}

fn same_bytes(a: &[u8], b: &[u8]) -> (r: bool)
    ensures
        r == (a@ == b@),
{
    if a.len() != b.len() {
        return false;
    }
    let mut i: usize = 0;
    while i < a.len()
        invariant
            i <= a@.len(),
            a@.len() == b@.len(),
            forall|k: int| 0 <= k < i ==> a@[k] == b@[k],
        decreases a@.len() - i,
    {
        if a[i] != b[i] {
            return false;
        }
        i += 1;
    }
    assert(a@ =~= b@);
    true
}

/// Who takes an incoming connection that asks for the protocol `alpn`.
pub fn route_connection(
    alpn: &[u8],
    gossip_alpn: &[u8],
    fugue_alpn: &[u8],
    subsonic_alpn: &[u8],
    serves_subsonic: bool,
) -> (r: Route)
    ensures
        r == if alpn@ == gossip_alpn@ {
            Route::Gossip
        } else if alpn@ == fugue_alpn@ {
            Route::Fugue
        } else if alpn@ == subsonic_alpn@ {
            if serves_subsonic {
                Route::Subsonic
            } else {
                Route::NotConfigured
            }
        } else {
            Route::Unknown
        },
{
    if same_bytes(alpn, gossip_alpn) {
        Route::Gossip
    } else if same_bytes(alpn, fugue_alpn) {
        Route::Fugue
    } else if same_bytes(alpn, subsonic_alpn) {
        if serves_subsonic {
            Route::Subsonic
        } else {
            Route::NotConfigured
        }
    } else {
        Route::Unknown
    }
}

// ── Direct requests ─────────────────────────────────────────────

/// How a direct request is served.
pub enum RequestPlan {
    /// Stream from one of our backends, without a response message.
    Stream { endpoint: String, track_id: String, max_bitrate: u32, format: String },
    /// Summarize our library and answer with that.
    Library,
    /// Look up an album and answer with that.
    Album { album_id: String },
    /// Answer at once.
    Respond(ResponseMessage),
}

/// How a direct request is served by a node with this party state. The two
/// times are those at which a ping arrived and is answered.
pub fn handle_connection(
    request: RequestMessage,
    party: &PartyState,
    received_ms: u64,
    answered_ms: u64,
) -> (r: RequestPlan)
    ensures
        match request {
            RequestMessage::StreamTrack { track_id, max_bitrate, format } => {
                r matches RequestPlan::Stream {
                    endpoint,
                    track_id: t,
                    max_bitrate: b,
                    format: f,
                } && endpoint@ == "stream"@ && t == track_id && b == max_bitrate && f == format
            },
            RequestMessage::StreamCoverArt { track_id } => {
                r matches RequestPlan::Stream {
                    endpoint,
                    track_id: t,
                    max_bitrate: b,
                    format: f,
                } && endpoint@ == "getCoverArt"@ && t == track_id && b == 0 && f@ == ""@
            },
            RequestMessage::GetLibrary => r == RequestPlan::Library,
            RequestMessage::GetAlbum { album_id } => r == (RequestPlan::Album { album_id }),
            RequestMessage::GetPartyStatus => {
                r matches RequestPlan::Respond(
                    ResponseMessage::PartyStatus { hosting, session_id, host_name },
                ) && match party@.hosting {
                    Some(h) => hosting && opt_text(session_id) == Some(h.session_id) && opt_text(
                        host_name,
                    ) == Some(h.host_name),
                    None => !hosting && session_id is None && host_name is None,
                }
            },
            RequestMessage::GetPartyFullState { session_id } => {
                r matches RequestPlan::Respond(m) && full_state(m, party@, session_id@)
            },
            RequestMessage::PartyTimePing { client_send_ms } => r == RequestPlan::Respond(
                (ResponseMessage::PartyTimePong {
                    client_send_ms,
                    server_recv_ms: received_ms,
                    server_send_ms: answered_ms,
                }),
            ),
        },
{
    match request {
        RequestMessage::StreamTrack { track_id, max_bitrate, format } => RequestPlan::Stream {
            endpoint: "stream".to_owned(),
            track_id,
            max_bitrate,
            format,
        },
        RequestMessage::StreamCoverArt { track_id } => RequestPlan::Stream {
            endpoint: "getCoverArt".to_owned(),
            track_id,
            max_bitrate: 0,
            format: "".to_owned(),
        },
        RequestMessage::GetLibrary => RequestPlan::Library,
        RequestMessage::GetAlbum { album_id } => RequestPlan::Album { album_id },
        RequestMessage::GetPartyStatus => match &party.hosting {
            Some(h) => RequestPlan::Respond(
                ResponseMessage::PartyStatus {
                    hosting: true,
                    session_id: Some(h.session_id.clone()),
                    host_name: Some(h.host_name.clone()),
                },
            ),
            None => RequestPlan::Respond(
                ResponseMessage::PartyStatus { hosting: false, session_id: None, host_name: None },
            ),
        },
        RequestMessage::GetPartyFullState { session_id } => RequestPlan::Respond(
            party_full_state(party, session_id.as_str()),
        ),
        RequestMessage::PartyTimePing { client_send_ms } => RequestPlan::Respond(
            ResponseMessage::PartyTimePong {
                client_send_ms,
                server_recv_ms: received_ms,
                server_send_ms: answered_ms,
            },
        ),
    }
}

/// `m` tells the full state of the session `session_id` if the node hosts it,
/// and that it was not found otherwise.
pub open spec fn full_state(m: ResponseMessage, party: PartyStateView, session_id: Seq<char>) -> bool {
    m matches ResponseMessage::PartyFullState {
        found,
        seq,
        state,
        track,
        position_secs,
        playlist,
        playlist_index,
        queue,
        queue_index,
        playing_from_queue,
    } && match party.hosting {
        Some(h) if h.session_id == session_id => found && seq == h.seq && state == Some(h.state)
            && opt_track(track) == h.track && position_secs@ == h.position_secs && views(
            playlist@,
        ) == h.playlist && playlist_index == h.playlist_index && views(queue@) == h.queue
            && queue_index == h.queue_index && playing_from_queue == h.playing_from_queue,
        _ => !found && seq == 0 && state is None && track is None && position_secs@
            == NumberView::Float("0.0"@) && playlist@.len() == 0 && playlist_index == 0
            && queue@.len() == 0 && queue_index == 0 && !playing_from_queue,
    }
}

fn party_full_state(party: &PartyState, session_id: &str) -> (r: ResponseMessage)
    ensures
        full_state(r, party@, session_id@),
{
    match &party.hosting {
        Some(h) => {
            if str_eq(h.session_id.as_str(), session_id) {
                return ResponseMessage::PartyFullState {
                    found: true,
                    seq: h.seq,
                    state: Some(h.state),
                    track: clone_track(&h.track),
                    position_secs: h.position_secs.clone(),
                    playlist: clone_tracks(&h.playlist),
                    playlist_index: h.playlist_index,
                    queue: clone_tracks(&h.queue),
                    queue_index: h.queue_index,
                    playing_from_queue: h.playing_from_queue,
                };
            }
        },
        None => {},
    }
    ResponseMessage::PartyFullState {
        found: false,
        seq: 0,
        state: None,
        track: None,
        position_secs: zero_secs(),
        playlist: Vec::new(),
        playlist_index: 0,
        queue: Vec::new(),
        queue_index: 0,
        playing_from_queue: false,
    }
}

/// The answer to a request for our library.
pub fn library_response(summary: Result<Json, FugueError>) -> (r: ResponseMessage)
    ensures
        match summary {
            Ok(data) => r == (ResponseMessage::Library { data }),
            Err(e) => r matches ResponseMessage::Error { message } && message@ == e@.log_line(),
        },
{
    match summary {
        Ok(data) => ResponseMessage::Library { data },
        Err(e) => ResponseMessage::Error { message: e.to_text() },
    }
}

/// The answer to a request for an album.
pub fn album_response(album: Option<Json>) -> (r: ResponseMessage)
    ensures
        match album {
            Some(data) => r == (ResponseMessage::Album { data }),
            None => r matches ResponseMessage::Error { message } && message@ == "Album not found"@,
        },
{
    match album {
        Some(data) => ResponseMessage::Album { data },
        None => ResponseMessage::Error { message: "Album not found".to_owned() },
    }
}

/// The position of the backend with this index.
pub open spec fn backend_at(indices: Seq<usize>, idx: nat) -> Option<int>
    decreases indices.len(),
{
    if indices.len() == 0 {
        None
    } else if indices[0] == idx {
        Some(0)
    } else {
        match backend_at(indices.drop_first(), idx) {
            Some(p) => Some(p + 1),
            None => None,
        }
    }
}

/// The parameters of a stream for a peer: the track, the bitrate if there is a
/// limit, the format if one is asked for.
pub open spec fn peer_stream_params(
    original_id: Seq<char>,
    max_bitrate: u32,
    format: Seq<char>,
) -> Seq<(Seq<char>, Seq<char>)> {
    let p = seq![("id"@, original_id)];
    let p = if max_bitrate > 0 {
        p.push(("maxBitRate"@, decimal(max_bitrate as nat)))
    } else {
        p
    };
    if format.len() > 0 && format != "raw"@ && format != "auto"@ {
        p.push(("format"@, format))
    } else {
        p
    }
}

/// Why a stream for a peer cannot start.
pub enum PeerStreamError {
    /// The track's identifier cannot be read.
    BadId(FugueError),
    /// We have no backend with this index; with the message to report.
    NoBackend(String),
}

/// Where a peer's stream comes from: the position of the backend among
/// `indices`, and the parameters for it.
pub fn stream_from_backend_for_peer(
    indices: &Vec<usize>,
    track_id: &str,
    max_bitrate: u32,
    format: &str,
) -> (r: Result<(usize, Vec<(String, String)>), PeerStreamError>)
    ensures
        match id_parts(track_id@) {
            Err(e) => r matches Err(PeerStreamError::BadId(f)) && f@ == e,
            Ok((idx, original)) => match backend_at(indices@, idx) {
                Some(p) => r matches Ok((q, params)) && q == p && crate::codec::pair_views(params@)
                    == peer_stream_params(original, max_bitrate, format@),
                None => r matches Err(PeerStreamError::NoBackend(m)) && m@ == "Backend "@ + decimal(
                    idx,
                ) + " not found"@,
            },
        },
{
    let (idx, original) = match decode_id(track_id) {
        Ok(p) => p,
        Err(e) => {
            return Err(PeerStreamError::BadId(e));
        },
    };
    let mut i: usize = 0;
    assert(indices@.skip(0) =~= indices@);
    while i < indices.len()
        invariant
            i <= indices@.len(),
            match backend_at(indices@.skip(i as int), idx as nat) {
                Some(p) => backend_at(indices@, idx as nat) == Some(p + i),
                None => backend_at(indices@, idx as nat) is None,
            },
            id_parts(track_id@) == Ok::<(nat, Seq<char>), FugueErrorView>((idx as nat, original@)),
        decreases indices@.len() - i,
    {
        proof {
            assert(indices@.skip(i as int)[0] == indices@[i as int]);
            assert(indices@.skip(i as int).drop_first() =~= indices@.skip(i + 1));
        }
        if indices[i] == idx {
            let mut params: Vec<(String, String)> = Vec::new();
            params.push(("id".to_owned(), original));
            let ghost p0 = params@;
            assert(crate::codec::pair_views(p0) =~= seq![("id"@, original@)]);
            if max_bitrate > 0 {
                let v = decimal_string(max_bitrate as u128);
                params.push(("maxBitRate".to_owned(), v));
                assert(crate::codec::pair_views(params@) =~= crate::codec::pair_views(p0).push(
                    ("maxBitRate"@, v@),
                ));
            }
            let ghost p1 = params@;
            if !format.is_empty() && !str_eq(format, "raw") && !str_eq(format, "auto") {
                params.push(("format".to_owned(), format.to_owned()));
                assert(crate::codec::pair_views(params@) =~= crate::codec::pair_views(p1).push(
                    ("format"@, format@),
                ));
            }
            return Ok((i, params));
        }
        i += 1;
    }
    Err(
        PeerStreamError::NoBackend(
            concat3("Backend ", decimal_string(idx as u128).as_str(), " not found"),
        ),
    )
}

// ── Messages from this node ─────────────────────────────────────

/// What this node tells its friends, under the name that it is known by.
#[derive(Debug)]
pub struct SocialHandle {
    pub display_name: String,
}

impl SocialHandle {
    /// A user here is playing a track.
    pub fn broadcast_now_playing(&self, track: &Json) -> (r: GossipMessage)
        ensures
            r matches GossipMessage::NowPlaying { display_name, track: t } && display_name@
                == self.display_name@ && t@ == track@,
    {
        GossipMessage::NowPlaying {
            display_name: self.display_name.clone(),
            track: track.clone(),
        }
    }

    /// A user here has stopped playing.
    pub fn broadcast_stopped_playing(&self) -> (r: GossipMessage)
        ensures
            r matches GossipMessage::StoppedPlaying { display_name } && display_name@
                == self.display_name@,
    {
        GossipMessage::StoppedPlaying { display_name: self.display_name.clone() }
    }

    /// A user here says something.
    pub fn broadcast_chat(&self, message: &str) -> (r: GossipMessage)
        ensures
            r matches GossipMessage::Chat { display_name, message: m } && display_name@
                == self.display_name@ && m@ == message@,
    {
        GossipMessage::Chat {
            display_name: self.display_name.clone(),
            message: message.to_owned(),
        }
    }

    /// This node hosts a session.
    pub fn broadcast_party_create(&self, session_id: &str, node_id: &str) -> (r: GossipMessage)
        ensures
            r matches GossipMessage::PartyCreate { session_id: s, display_name, node_id: n } && s@
                == session_id@ && display_name@ == self.display_name@ && n@ == node_id@,
    {
        GossipMessage::PartyCreate {
            session_id: session_id.to_owned(),
            display_name: self.display_name.clone(),
            node_id: node_id.to_owned(),
        }
    }

    /// This node invites to a session.
    pub fn broadcast_party_invite(&self, session_id: &str, node_id: &str) -> (r: GossipMessage)
        ensures
            r matches GossipMessage::PartyInvite { session_id: s, display_name, node_id: n } && s@
                == session_id@ && display_name@ == self.display_name@ && n@ == node_id@,
    {
        GossipMessage::PartyInvite {
            session_id: session_id.to_owned(),
            display_name: self.display_name.clone(),
            node_id: node_id.to_owned(),
        }
    }

    /// This node joined a session.
    pub fn broadcast_party_join(&self, session_id: &str, node_id: &str) -> (r: GossipMessage)
        ensures
            r matches GossipMessage::PartyJoin { session_id: s, display_name, node_id: n } && s@
                == session_id@ && display_name@ == self.display_name@ && n@ == node_id@,
    {
        GossipMessage::PartyJoin {
            session_id: session_id.to_owned(),
            display_name: self.display_name.clone(),
            node_id: node_id.to_owned(),
        }
    }

    /// This node left a session.
    pub fn broadcast_party_leave(&self, session_id: &str, node_id: &str) -> (r: GossipMessage)
        ensures
            r matches GossipMessage::PartyLeave { session_id: s, display_name, node_id: n } && s@
                == session_id@ && display_name@ == self.display_name@ && n@ == node_id@,
    {
        GossipMessage::PartyLeave {
            session_id: session_id.to_owned(),
            display_name: self.display_name.clone(),
            node_id: node_id.to_owned(),
        }
    }

    /// This node ended its session.
    pub fn broadcast_party_end(&self, session_id: &str) -> (r: GossipMessage)
        ensures
            r matches GossipMessage::PartyEnd { session_id: s, display_name } && s@ == session_id@
                && display_name@ == self.display_name@,
    {
        GossipMessage::PartyEnd {
            session_id: session_id.to_owned(),
            display_name: self.display_name.clone(),
        }
    }

    /// A change to a collaborative playlist.
    pub fn broadcast_playlist_op(&self, op: PlaylistOp) -> (r: GossipMessage)
        ensures
            r == (GossipMessage::Playlist { op }),
    {
        GossipMessage::Playlist { op }
    }

    /// What the hosted session plays, said at `now`.
    pub fn broadcast_party_sync(
        &self,
        session_id: &str,
        seq: u64,
        state: PartyPlaybackState,
        track: Option<PartyTrack>,
        position_secs: Number,
        now: u64,
    ) -> (r: GossipMessage)
        ensures
            r matches GossipMessage::PartySync {
                session_id: i,
                seq: q,
                host_timestamp_ms,
                state: st,
                track: t,
                position_secs: p,
            } && i@ == session_id@ && q == seq && host_timestamp_ms == now && st == state && t
                == track && p == position_secs,
    {
        GossipMessage::PartySync {
            session_id: session_id.to_owned(),
            seq,
            host_timestamp_ms: now,
            state,
            track,
            position_secs,
        }
    }

    /// What is in the playlist and the queue of the hosted session.
    pub fn broadcast_party_queue_sync(
        &self,
        session_id: &str,
        seq: u64,
        playlist: Vec<PartyTrack>,
        playlist_index: usize,
        queue: Vec<PartyTrack>,
        queue_index: usize,
        playing_from_queue: bool,
    ) -> (r: GossipMessage)
        ensures
            r matches GossipMessage::PartyQueueSync {
                session_id: i,
                seq: q,
                playlist: p,
                playlist_index: pi,
                queue: w,
                queue_index: wi,
                playing_from_queue: f,
            } && i@ == session_id@ && q == seq && p == playlist && pi == playlist_index && w
                == queue && wi == queue_index && f == playing_from_queue,
    {
        GossipMessage::PartyQueueSync {
            session_id: session_id.to_owned(),
            seq,
            playlist,
            playlist_index,
            queue,
            queue_index,
            playing_from_queue,
        }
    }

    /// The sync event that connected clients get at `now`.
    pub fn push_party_sync_event(
        &self,
        session_id: &str,
        seq: u64,
        state: PartyPlaybackState,
        track: &Option<PartyTrack>,
        position_secs: &Number,
        dj_timestamp_ms: u64,
        now: u64,
    ) -> (r: Json)
        ensures
            r@ == sync_event(
                session_id@,
                seq,
                now,
                0,
                state_json(state),
                opt_track(*track),
                position_secs@,
            ).with("dj_timestamp_ms"@, whole(dj_timestamp_ms as nat)),
    {
        make_sync_event(session_id, seq, now, 0, state_to_json(state), track, position_secs).with(
            "dj_timestamp_ms",
            Json::whole(dj_timestamp_ms),
        )
    }

    /// The queue event that connected clients get.
    pub fn push_party_queue_sync_event(
        &self,
        session_id: &str,
        seq: u64,
        playlist: &Vec<PartyTrack>,
        playlist_index: usize,
        queue: &Vec<PartyTrack>,
        queue_index: usize,
        playing_from_queue: bool,
    ) -> (r: Json)
        ensures
            r@ == queue_event(
                session_id@,
                seq,
                views(playlist@),
                playlist_index,
                views(queue@),
                queue_index,
                playing_from_queue,
            ),
    {
        make_queue_event(
            session_id,
            seq,
            playlist,
            playlist_index,
            queue,
            queue_index,
            playing_from_queue,
        )
    }
}

// ── Laws of events and gossip ───────────────────────────────────

/// A track of the host is shared under an identifier that leads back to the host
/// and the track; one that is shared already keeps its identifier. Nothing else of
/// the track changes.
pub proof fn shared_tracks_lead_to_their_host(dj_node: Seq<char>, t: PartyTrackView)
    requires
        !dj_node.contains(':'),
    ensures
        ({
            let r = remote_party_track(dj_node, t);
            &&& r == (PartyTrackView { song_id: r.song_id, ..t })
            &&& remote_track(t.song_id) is None ==> remote_track(r.song_id) == Some(
                (dj_node, t.song_id),
            )
            &&& remote_track(t.song_id) is Some ==> r.song_id == t.song_id
        }),
{
    remote_track_id_round_trip(dj_node, t.song_id);
}

/// A list of tracks is shared track by track.
pub proof fn lists_are_shared_track_by_track(dj_node: Seq<char>, s: Seq<PartyTrackView>, i: int)
    requires
        0 <= i < s.len(),
    ensures
        remote_party_tracks(dj_node, s).len() == s.len(),
        remote_party_tracks(dj_node, s)[i] == remote_party_track(dj_node, s[i]),
{
}

/// An event of a party says what happened, in which session, and to whom.
pub proof fn party_events_tell_who_and_where(
    kind: Seq<char>,
    session_id: Seq<char>,
    display_name: Seq<char>,
    node_id: Seq<char>,
)
    ensures
        ({
            let r = party_event(kind, session_id, display_name, node_id);
            &&& r.get("type"@) == Some(JsonView::Text(kind))
            &&& r.get("session_id"@) == Some(JsonView::Text(session_id))
            &&& r.get("display_name"@) == Some(JsonView::Text(display_name))
            &&& r.get("node_id"@) == Some(JsonView::Text(node_id))
        }),
{
    broadcast use reading_after_setting;

    reveal_strlit("type");
    reveal_strlit("session_id");
    reveal_strlit("display_name");
    reveal_strlit("node_id");
    assert("type"@.len() == 4 && "session_id"@.len() == 10 && "display_name"@.len() == 12);
    assert("node_id"@.len() == 7);
}

/// The end of a party is told with its session and its host.
pub proof fn end_events_tell_the_session(session_id: Seq<char>, display_name: Seq<char>)
    ensures
        ({
            let r = party_end_event(session_id, display_name);
            &&& r.get("type"@) == Some(JsonView::Text("party_end"@))
            &&& r.get("session_id"@) == Some(JsonView::Text(session_id))
            &&& r.get("display_name"@) == Some(JsonView::Text(display_name))
        }),
{
    broadcast use reading_after_setting;

    reveal_strlit("type");
    reveal_strlit("session_id");
    reveal_strlit("display_name");
    assert("type"@.len() == 4 && "session_id"@.len() == 10 && "display_name"@.len() == 12);
}

/// An event of a friend says what happened and at which node.
pub proof fn friend_events_tell_the_node(kind: Seq<char>, node_id: Seq<char>)
    ensures
        ({
            let r = friend_event(kind, node_id);
            &&& r.get("type"@) == Some(JsonView::Text(kind))
            &&& r.get("node_id"@) == Some(JsonView::Text(node_id))
        }),
{
    broadcast use reading_after_setting;

    reveal_strlit("type");
    reveal_strlit("node_id");
    assert("type"@.len() == 4 && "node_id"@.len() == 7);
}

/// A sync tells all that a follower needs to play along.
pub proof fn sync_events_tell_where_the_host_stands(
    session_id: Seq<char>,
    seq: u64,
    host_timestamp_ms: u64,
    clock_offset_ms: i64,
    state: JsonView,
    track: Option<PartyTrackView>,
    position_secs: NumberView,
)
    ensures
        ({
            let r = sync_event(
                session_id,
                seq,
                host_timestamp_ms,
                clock_offset_ms,
                state,
                track,
                position_secs,
            );
            &&& r.get("type"@) == Some(JsonView::Text("party_sync"@))
            &&& r.get("session_id"@) == Some(JsonView::Text(session_id))
            &&& r.get("seq"@) == Some(JsonView::Number(NumberView::PosInt(seq)))
            &&& r.get("host_timestamp_ms"@) == Some(JsonView::Number(NumberView::PosInt(host_timestamp_ms)))
            &&& r.get("clock_offset_ms"@) == Some(integer(clock_offset_ms as int))
            &&& r.get("state"@) == Some(state)
            &&& r.get("track"@) == Some(opt_track_json(track))
            &&& r.get("position_secs"@) == Some(JsonView::Number(position_secs))
        }),
{
    broadcast use reading_after_setting;

    reveal_strlit("type");
    reveal_strlit("session_id");
    reveal_strlit("seq");
    reveal_strlit("host_timestamp_ms");
    reveal_strlit("clock_offset_ms");
    reveal_strlit("state");
    reveal_strlit("track");
    reveal_strlit("position_secs");
    assert("type"@.len() == 4 && "session_id"@.len() == 10 && "seq"@.len() == 3);
    assert("host_timestamp_ms"@.len() == 17 && "clock_offset_ms"@.len() == 15);
    assert("state"@.len() == 5 && "track"@.len() == 5 && "position_secs"@.len() == 13);
    assert("state"@[0] != "track"@[0]);
}

/// A queue sync tells both lists and where in them the host is.
pub proof fn queue_events_tell_both_lists(
    session_id: Seq<char>,
    seq: u64,
    playlist: Seq<PartyTrackView>,
    playlist_index: usize,
    queue: Seq<PartyTrackView>,
    queue_index: usize,
    playing_from_queue: bool,
)
    ensures
        ({
            let r = queue_event(
                session_id,
                seq,
                playlist,
                playlist_index,
                queue,
                queue_index,
                playing_from_queue,
            );
            &&& r.get("type"@) == Some(JsonView::Text("party_queue_sync"@))
            &&& r.get("session_id"@) == Some(JsonView::Text(session_id))
            &&& r.get("seq"@) == Some(JsonView::Number(NumberView::PosInt(seq)))
            &&& r.get("playlist"@) == Some(tracks_json(playlist))
            &&& r.get("playlist_index"@) == Some(JsonView::Number(NumberView::PosInt(playlist_index as u64)))
            &&& r.get("queue"@) == Some(tracks_json(queue))
            &&& r.get("queue_index"@) == Some(JsonView::Number(NumberView::PosInt(queue_index as u64)))
            &&& r.get("playing_from_queue"@) == Some(JsonView::Bool(playing_from_queue))
        }),
{
    broadcast use reading_after_setting;

    reveal_strlit("type");
    reveal_strlit("session_id");
    reveal_strlit("seq");
    reveal_strlit("playlist");
    reveal_strlit("playlist_index");
    reveal_strlit("queue");
    reveal_strlit("queue_index");
    reveal_strlit("playing_from_queue");
    assert("type"@.len() == 4 && "session_id"@.len() == 10 && "seq"@.len() == 3);
    assert("playlist"@.len() == 8 && "playlist_index"@.len() == 14 && "queue"@.len() == 5);
    assert("queue_index"@.len() == 11 && "playing_from_queue"@.len() == 18);
}

/// What each message does to the parties that a node knows of.
pub proof fn gossip_moves_the_parties(
    s: PartyStateView,
    node_id: Seq<char>,
    session_id: String,
    display_name: String,
    who: String,
    now: u64,
)
    ensures
        party_after(
            s,
            node_id,
            GossipMessage::PartyCreate { session_id, display_name, node_id: who },
            now,
        ) == (PartyStateView {
            active_parties: with_active(
                s.active_parties,
                session_id@,
                display_name@,
                who@,
                now,
            ),
            ..s
        }),
        party_after(
            s,
            node_id,
            GossipMessage::PartyLeave { session_id, display_name, node_id: who },
            now,
        ) == with_member_removed(s, who@),
        ({
            let new = party_after(
                s,
                node_id,
                GossipMessage::PartyEnd { session_id, display_name },
                now,
            );
            &&& new.active_parties == without_active(s.active_parties, session_id@)
            &&& new.hosting == s.hosting
            &&& s.following matches Some(f) ==> (if f.session_id == session_id@ {
                new.following is None
            } else {
                new.following == Some(f)
            })
            &&& s.following is None ==> new.following is None
        }),
        ({
            let joined = with_member_added(s, who@, display_name@);
            let new = party_after(
                s,
                node_id,
                GossipMessage::PartyJoin { session_id, display_name, node_id: who },
                now,
            );
            &&& joined.hosting matches Some(h) ==> {
                &&& h.session_id == session_id@ && h.seq < u64::MAX ==> new == (PartyStateView {
                    hosting: Some((PartySessionView { seq: (h.seq + 1) as u64, ..h })),
                    ..joined
                })
                &&& h.session_id != session_id@ ==> new == joined
            }
            &&& joined.hosting is None ==> new == joined
        }),
        party_after(
            s,
            node_id,
            GossipMessage::PartyInvite { session_id, display_name, node_id: who },
            now,
        ) == s,
{
}

/// A host whom someone joins answers with its session, one step on; nobody else
/// answers.
pub proof fn hosts_answer_who_joins(
    s: PartyStateView,
    session_id: String,
    display_name: String,
    who: String,
)
    ensures
        ({
            let msg = GossipMessage::PartyJoin { session_id, display_name, node_id: who };
            &&& s.hosting is None ==> join_answer(s, msg) is None
            &&& s.hosting matches Some(h) ==> {
                &&& h.session_id != session_id@ ==> join_answer(s, msg) is None
                &&& h.session_id == session_id@ && h.seq < u64::MAX ==> (join_answer(
                    s,
                    msg,
                ) matches Some(a) && a == (PartySessionView {
                    seq: (h.seq + 1) as u64,
                    members: a.members,
                    ..h
                }) && with_member_added(s, who@, display_name@).hosting == Some(
                    (PartySessionView { members: a.members, ..h }),
                ))
            }
        }),
        join_answer(s, GossipMessage::PartyEnd { session_id, display_name }) is None,
{
}

/// The host of a known party is known by name; of an unknown one only the node is.
pub proof fn hosts_are_known_by_name(
    s: Seq<ActivePartyView>,
    session_id: Seq<char>,
    node_id: Seq<char>,
    i: int,
)
    ensures
        0 <= i < s.len() && s[i].session_id == session_id && (forall|j: int|
            0 <= j < i ==> (#[trigger] s[j]).session_id != session_id) ==> known_host(
            s,
            session_id,
            node_id,
        ) == s[i].host_name,
        (forall|j: int| 0 <= j < s.len() ==> (#[trigger] s[j]).session_id != session_id)
            ==> known_host(s, session_id, node_id) == node_id,
    decreases s.len(),
{
    if s.len() > 0 {
        let t = s.drop_first();
        hosts_are_known_by_name(t, session_id, node_id, i - 1);
        assert forall|j: int| 0 <= j < t.len() implies #[trigger] t[j] == s[j + 1] by {}
    }
}

/// A sync is news to those who follow the session, if it is later than what they
/// know.
pub proof fn later_syncs_are_news(s: PartyStateView, session_id: Seq<char>, seq: u64)
    ensures
        s.following is None ==> !is_news(s, session_id, seq),
        s.following matches Some(f) ==> (is_news(s, session_id, seq) <==> f.session_id == session_id
            && seq > f.last_seq),
{
}

/// What listeners are told of a message: what is played and no longer played, and
/// each step of a party.
pub proof fn listeners_hear_of_gossip(
    s: PartyStateView,
    node_id: Seq<char>,
    session_id: String,
    display_name: String,
    who: String,
    track: Json,
    offset: i64,
)
    ensures
        gossip_event(s, node_id, GossipMessage::NowPlaying { display_name, track }, offset) matches Some(
            e,
        ) && e.get("type"@) == Some(JsonView::Text("now_playing"@)) && e.get("name"@) == Some(
            JsonView::Text(display_name@),
        ) && e.get("node_id"@) == Some(JsonView::Text(node_id)) && e.get("title"@) == Some(
            JsonView::Text(track@.text_or("title"@, ""@)),
        ) && e.get("artist"@) == Some(JsonView::Text(track@.text_or("artist"@, ""@))),
        gossip_event(s, node_id, GossipMessage::StoppedPlaying { display_name }, offset) matches Some(
            e,
        ) && e.get("type"@) == Some(JsonView::Text("stopped_playing"@)) && e.get("name"@) == Some(
            JsonView::Text(display_name@),
        ) && e.get("node_id"@) == Some(JsonView::Text(node_id)),
        gossip_event(
            s,
            node_id,
            GossipMessage::PartyCreate { session_id, display_name, node_id: who },
            offset,
        ) == Some(party_event("party_create"@, session_id@, display_name@, who@)),
        gossip_event(
            s,
            node_id,
            GossipMessage::PartyInvite { session_id, display_name, node_id: who },
            offset,
        ) == Some(party_event("party_invite"@, session_id@, display_name@, who@)),
        gossip_event(
            s,
            node_id,
            GossipMessage::PartyJoin { session_id, display_name, node_id: who },
            offset,
        ) == Some(party_event("party_join"@, session_id@, display_name@, who@)),
        gossip_event(
            s,
            node_id,
            GossipMessage::PartyLeave { session_id, display_name, node_id: who },
            offset,
        ) == Some(party_event("party_leave"@, session_id@, display_name@, who@)),
        gossip_event(
            s,
            node_id,
            GossipMessage::PartyEnd { session_id, display_name },
            offset,
        ) == Some(party_end_event(session_id@, display_name@)),
{
    broadcast use reading_after_setting;

    reveal_strlit("type");
    reveal_strlit("name");
    reveal_strlit("node_id");
    reveal_strlit("title");
    reveal_strlit("artist");
    assert("type"@.len() == 4 && "name"@.len() == 4 && "node_id"@.len() == 7);
    assert("title"@.len() == 5 && "artist"@.len() == 6);
    assert("type"@[0] != "name"@[0]);
}

/// Followers, and only they, are told of later syncs and of queues, with the
/// tracks under identifiers that lead to the host.
pub proof fn followers_hear_of_syncs(
    s: PartyStateView,
    node_id: Seq<char>,
    msg: GossipMessage,
    offset: i64,
)
    ensures
        msg matches GossipMessage::PartySync {
            session_id,
            seq,
            host_timestamp_ms,
            state,
            track,
            position_secs,
        } ==> gossip_event(s, node_id, msg, offset) == if s.following is Some
            && s.following->0.session_id == session_id@ && seq > s.following->0.last_seq {
            Some(
                sync_event(
                    session_id@,
                    seq,
                    host_timestamp_ms,
                    offset,
                    state_json(state),
                    match track {
                        Some(t) => Some(remote_party_track(node_id, t@)),
                        None => None,
                    },
                    position_secs@,
                ),
            )
        } else {
            None
        },
        msg matches GossipMessage::PartyQueueSync {
            session_id,
            seq,
            playlist,
            playlist_index,
            queue,
            queue_index,
            playing_from_queue,
        } ==> gossip_event(s, node_id, msg, offset) == if s.following is Some
            && s.following->0.session_id == session_id@ {
            Some(
                queue_event(
                    session_id@,
                    seq,
                    remote_party_tracks(node_id, views(playlist@)),
                    playlist_index,
                    remote_party_tracks(node_id, views(queue@)),
                    queue_index,
                    playing_from_queue,
                ),
            )
        } else {
            None
        },
{
}

/// Every friend who can be reached is, by the identifier of the ticket or else by
/// the key.
pub proof fn reachable_friends_are_all_peers(
    friends: Seq<(Option<Seq<char>>, Option<Seq<char>>)>,
)
    ensures
        reachable_peers(friends) == friends.map_values(
            |f: (Option<Seq<char>>, Option<Seq<char>>)|
                match f.0 {
                    Some(id) => seq![id],
                    None => match f.1 {
                        Some(key) => seq![key],
                        None => seq![],
                    },
                },
        ).flatten(),
    decreases friends.len(),
{
    lemma_flat_end(
        friends,
        |f: (Option<Seq<char>>, Option<Seq<char>>)|
            match f.0 {
                Some(id) => seq![id],
                None => match f.1 {
                    Some(key) => seq![key],
                    None => seq![],
                },
            },
    );
    if friends.len() > 0 {
        reachable_friends_are_all_peers(friends.drop_last());
    }
}

/// A backend stands at the first place that bears its index.
pub proof fn backends_are_found_by_index(indices: Seq<usize>, idx: nat, i: int)
    ensures
        0 <= i < indices.len() && indices[i] == idx && (forall|j: int|
            0 <= j < i ==> #[trigger] indices[j] != idx) ==> backend_at(indices, idx) == Some(i),
        (forall|j: int| 0 <= j < indices.len() ==> #[trigger] indices[j] != idx) ==> backend_at(
            indices,
            idx,
        ) is None,
    decreases indices.len(),
{
    if indices.len() > 0 {
        let t = indices.drop_first();
        backends_are_found_by_index(t, idx, i - 1);
        assert forall|j: int| 0 <= j < t.len() implies #[trigger] t[j] == indices[j + 1] by {}
    }
}

/// A stream for a peer is asked for under the track's identifier, with the bitrate
/// and the format that the peer wants, if it wants any.
pub proof fn peers_get_the_stream_they_want(
    original_id: Seq<char>,
    max_bitrate: u32,
    format: Seq<char>,
)
    ensures
        peer_stream_params(original_id, max_bitrate, format) == seq![("id"@, original_id)] + (
        if max_bitrate > 0 {
            seq![("maxBitRate"@, decimal(max_bitrate as nat))]
        } else {
            seq![]
        }) + (if format.len() == 0 || format == "raw"@ || format == "auto"@ {
            seq![]
        } else {
            seq![("format"@, format)]
        }),
{
}

/// The full state of a session is what its host plays; who does not host it has
/// none of it.
pub proof fn only_the_host_knows_the_full_state(
    m: ResponseMessage,
    party: PartyStateView,
    session_id: Seq<char>,
)
    requires
        full_state(m, party, session_id),
    ensures
        m matches ResponseMessage::PartyFullState { found, seq, .. } && (found <==> (
        party.hosting matches Some(h) && h.session_id == session_id)) && (!found ==> seq == 0),
        party.hosting matches Some(h) ==> (h.session_id == session_id ==> (
        m matches ResponseMessage::PartyFullState {
            seq,
            state,
            track,
            playlist,
            playlist_index,
            queue,
            queue_index,
            playing_from_queue,
            ..
        } && seq == h.seq && state == Some(h.state) && opt_track(track) == h.track && views(
            playlist@,
        ) == h.playlist && playlist_index == h.playlist_index && views(queue@) == h.queue
            && queue_index == h.queue_index && playing_from_queue == h.playing_from_queue)),
{
}

/// A host announces its session as it stands: session, step, state, track and
/// position, at the time of the announcement.
pub proof fn announcements_tell_where_the_host_stands(
    m: GossipMessage,
    h: PartySessionView,
    now: u64,
)
    requires
        announces(m, h, now),
    ensures
        m matches GossipMessage::PartySync {
            session_id,
            seq,
            host_timestamp_ms,
            state,
            track,
            position_secs,
        } && session_id@ == h.session_id && seq == h.seq && host_timestamp_ms == now && state
            == h.state && position_secs@ == h.position_secs && (track matches Some(t) ==> h.track
            == Some(t@)) && (track is None ==> h.track is None),
{
}

} // verus!
