//! Playlists: those of the backends, of this node, and collaborative ones.

use crate::codec::{hex_encode, hex_text, pair_views};
use crate::error::{FugueError, FugueErrorView};
use crate::id::{namespaced_id, token_round_trip};
use crate::json::{append_items, integer, object, Json, JsonView};
use crate::proxy::router::{ids_lead_back, route, route_to_backend};
use crate::random::{bytes_drawn, draw_bytes};
use crate::social::collab_playlist::{
    collab_id, collab_id_round_trip, collab_uuid, decode_collab_id, encode_collab_id,
    CollabPlaylistView, CollabTrack, CollabTrackView,
};
use crate::social::collab_state::{
    created, rebuild, rebuilt, PlaylistState, PlaylistStateView,
};
use crate::social::crdt::{
    fresh_add_takes_effect, fresh_removal_takes_effect, has_op, latest, latest_timestamp,
    lemma_latest, lists, next_timestamp, playlist_tracks, store_op, with_op, CrdtOp, CrdtOpKind,
    CrdtOpKindView, CrdtOpView, OpLog,
};
use crate::strs::{
    after_prefix, concat2, decimal, decimal_read_back, decimal_starts_with_digit,
    decimal_string, has_prefix, in_i64, integer_value, opt_text, parse_i64, strip_prefix, trim,
    trimmed, views,
};
use crate::subsonic::models::{
    gather, gathered, merging_takes_every_item, namespaced, responses_view,
};
use crate::subsonic::params::{field_value, pass_on, passed_on, value_or, Params};
use crate::subsonic::playlist_db::{
    decode_local_playlist_id, local_playlist_id, local_playlist_id_round_trip,
    local_playlist_uuid,
};
use vstd::prelude::*;

verus! {

/// The text of a node without an identity.
pub open spec fn node_or_local(node: Option<Seq<char>>) -> Seq<char> {
    match node {
        Some(n) => n,
        None => "local"@,
    }
}

/// How this node signs what it does to a playlist.
pub fn node_name(node: Option<String>) -> (r: String)
    ensures
        r@ == node_or_local(opt_text(node)),
{
    match node {
        Some(n) => n,
        None => "local".to_owned(),
    }
}

// ── Listing ─────────────────────────────────────────────────────

/// The playlists of the backends, none if no backend answered.
pub open spec fn remote_playlists(remote: Result<Seq<(usize, JsonView)>, FugueErrorView>) -> Seq<
    JsonView,
> {
    match remote {
        Ok(rs) => gathered(rs, "playlists"@, "playlists"@, "playlist"@),
        Err(_) => seq![],
    }
}

/// All playlists: those of the backends, then those of this node, then the
/// collaborative ones. That no backend answers is no error.
pub fn get_playlists(
    remote: Result<Vec<(usize, Json)>, FugueError>,
    local: &Vec<Json>,
    collab: &Vec<Json>,
) -> (r: Json)
    ensures
        r@ == object().with(
            "playlists"@,
            object().with(
                "playlist"@,
                JsonView::Array(
                    remote_playlists(
                        match remote {
                            Ok(rs) => Ok(responses_view(rs@)),
                            Err(e) => Err(e@),
                        },
                    ) + views(local@) + views(collab@),
                ),
            ),
        ),
{
    let mut all: Vec<Json> = match remote {
        Ok(rs) => gather(&rs, "playlists", "playlists", "playlist"),
        Err(_) => {
            let none: Vec<Json> = Vec::new();
            assert(views(none@) =~= seq![]);
            none
        },
    };
    append_items(&mut all, local);
    append_items(&mut all, collab);
    Json::object().with("playlists", Json::object().with("playlist", Json::array(all)))
}

// ── Where a playlist lives ──────────────────────────────────────

/// Where a playlist lives.
#[derive(Debug)]
pub enum PlaylistPlace {
    /// It is collaborative.
    Collab { uuid: String },
    /// This node keeps it.
    Local { uuid: String },
    /// A backend keeps it.
    Remote { backend: usize, original_id: String },
}

/// Where a playlist lives, as characters and numbers.
pub enum PlaylistPlaceView {
    Collab { uuid: Seq<char> },
    Local { uuid: Seq<char> },
    Remote { backend: usize, original_id: Seq<char> },
}

impl View for PlaylistPlace {
    type V = PlaylistPlaceView;

    open spec fn view(&self) -> PlaylistPlaceView {
        match *self {
            PlaylistPlace::Collab { uuid } => PlaylistPlaceView::Collab { uuid: uuid@ },
            PlaylistPlace::Local { uuid } => PlaylistPlaceView::Local { uuid: uuid@ },
            PlaylistPlace::Remote { backend, original_id } => PlaylistPlaceView::Remote {
                backend,
                original_id: original_id@,
            },
        }
    }
}

/// Where the playlist with this identifier lives.
pub open spec fn place_of(id: Seq<char>, backends: nat) -> Result<
    PlaylistPlaceView,
    FugueErrorView,
> {
    match collab_uuid(id) {
        Some(uuid) => Ok(PlaylistPlaceView::Collab { uuid }),
        None => match local_playlist_uuid(id) {
            Some(uuid) => Ok(PlaylistPlaceView::Local { uuid }),
            None => match route(id, backends) {
                Ok((backend, original_id)) => Ok(
                    PlaylistPlaceView::Remote { backend: backend as usize, original_id },
                ),
                Err(e) => Err(e),
            },
        },
    }
}

/// Finds out where a playlist lives.
pub fn find_playlist(id: &str, backends: usize) -> (r: Result<PlaylistPlace, FugueError>)
    ensures
        match r {
            Ok(p) => place_of(id@, backends as nat) == Ok::<PlaylistPlaceView, FugueErrorView>(p@),
            Err(e) => place_of(id@, backends as nat) == Err::<PlaylistPlaceView, FugueErrorView>(
                e@,
            ),
        },
{
    match decode_collab_id(id) {
        Some(uuid) => Ok(PlaylistPlace::Collab { uuid }),
        None => match decode_local_playlist_id(id) {
            Some(uuid) => Ok(PlaylistPlace::Local { uuid }),
            None => match route_to_backend(backends, id) {
                Ok((backend, original_id)) => Ok(PlaylistPlace::Remote { backend, original_id }),
                Err(e) => Err(e),
            },
        },
    }
}

/// The playlist that a request reads or deletes.
pub fn get_playlist(params: &Params, backends: usize) -> (r: Result<PlaylistPlace, FugueError>)
    ensures
        match field_value(params@, "id"@) {
            Some(id) => match r {
                Ok(p) => place_of(id, backends as nat) == Ok::<PlaylistPlaceView, FugueErrorView>(
                    p@,
                ),
                Err(e) => place_of(id, backends as nat) == Err::<
                    PlaylistPlaceView,
                    FugueErrorView,
                >(e@),
            },
            None => r matches Err(e) && e@ == crate::error::missing_param("id"@),
        },
{
    match params.required("id") {
        Ok(id) => find_playlist(id.as_str(), backends),
        Err(e) => Err(e),
    }
}

/// The playlist that a request changes.
pub fn playlist_to_update(params: &Params, backends: usize) -> (r: Result<
    PlaylistPlace,
    FugueError,
>)
    ensures
        match field_value(params@, "playlistId"@) {
            Some(id) => match r {
                Ok(p) => place_of(id, backends as nat) == Ok::<PlaylistPlaceView, FugueErrorView>(
                    p@,
                ),
                Err(e) => place_of(id, backends as nat) == Err::<
                    PlaylistPlaceView,
                    FugueErrorView,
                >(e@),
            },
            None => r matches Err(e) && e@ == crate::error::missing_param("playlistId"@),
        },
{
    match params.required("playlistId") {
        Ok(id) => find_playlist(id.as_str(), backends),
        Err(e) => Err(e),
    }
}

// ── Creating ────────────────────────────────────────────────────

/// What kind of playlist is to be created.
#[derive(Debug)]
pub enum NewPlaylist {
    Collab { name: String },
    Local { name: String, song_id: Option<String> },
}

/// What kind of playlist is to be created, as characters.
pub enum NewPlaylistView {
    Collab { name: Seq<char> },
    Local { name: Seq<char>, song_id: Option<Seq<char>> },
}

impl View for NewPlaylist {
    type V = NewPlaylistView;

    open spec fn view(&self) -> NewPlaylistView {
        match *self {
            NewPlaylist::Collab { name } => NewPlaylistView::Collab { name: name@ },
            NewPlaylist::Local { name, song_id } => NewPlaylistView::Local {
                name: name@,
                song_id: opt_text(song_id),
            },
        }
    }
}

/// What a request asks to be created. A name that starts with "collab:", or
/// the parameter `collaborative`, asks for a collaborative playlist.
pub open spec fn wanted_playlist(fields: Seq<(Seq<char>, Seq<char>)>) -> NewPlaylistView {
    let name = value_or(fields, "name"@, "New Playlist"@);
    if has_prefix(name, "collab:"@) || field_value(fields, "collaborative"@) == Some("true"@) {
        NewPlaylistView::Collab {
            name: trimmed(
                match after_prefix(name, "collab:"@) {
                    Some(rest) => rest,
                    None => name,
                },
            ),
        }
    } else {
        NewPlaylistView::Local { name, song_id: field_value(fields, "songId"@) }
    }
}

/// What a request asks to be created.
pub fn create_playlist(params: &Params) -> (r: NewPlaylist)
    ensures
        r@ == wanted_playlist(params@),
{
    let name = params.get_or("name", "New Playlist");
    match strip_prefix(name.as_str(), "collab:") {
        Some(rest) => NewPlaylist::Collab { name: trim(rest.as_str()) },
        None => if params.has("collaborative", "true") {
            NewPlaylist::Collab { name: trim(name.as_str()) }
        } else {
            NewPlaylist::Local { name, song_id: params.copy_of("songId") }
        },
    }
}

/// A fresh identifier of a collaborative playlist: thirty-two random
/// hexadecimal digits.
pub fn new_playlist_id() -> (r: String)
    ensures
        exists|b: Vec<u8>| #[trigger]
            bytes_drawn(b) && b@.len() == 16 && r@ == hex_text(b@),
{
    let b = draw_bytes();
    hex_encode(b.as_slice())
}

/// What a client is told of a collaborative playlist that was created.
pub fn created_collab(playlist_id: &str, name: &str, node: &str) -> (r: Json)
    ensures
        r@ == object().with(
            "playlist"@,
            object().with("id"@, JsonView::Text(collab_id(playlist_id@))).with(
                "name"@,
                JsonView::Text("[Collab] "@ + name@),
            ).with("songCount"@, integer(0)).with("duration"@, integer(0)).with(
                "public"@,
                JsonView::Bool(true),
            ).with("owner"@, JsonView::Text(node@)),
        ),
{
    Json::object().with(
        "playlist",
        Json::object().with_text("id", encode_collab_id(playlist_id).as_str()).with_text(
            "name",
            concat2("[Collab] ", name).as_str(),
        ).with("songCount", Json::integer(0)).with("duration", Json::integer(0)).with(
            "public",
            Json::Bool(true),
        ).with_text("owner", node),
    )
}

// ── Collaborative changes ───────────────────────────────────────

/// The operation by which a node does `kind` next.
pub open spec fn next_op(
    log: Seq<CrdtOpView>,
    node: Seq<char>,
    kind: CrdtOpKindView,
) -> CrdtOpView {
    let ts = (latest(log) + 1) as u64;
    CrdtOpView { op_id: node + ":"@ + decimal(ts as nat), timestamp: ts, origin_node: node, kind }
}

/// The log and the operations after a node did each of `kinds` in turn.
pub open spec fn after_ops(
    log: Seq<CrdtOpView>,
    node: Seq<char>,
    kinds: Seq<CrdtOpKindView>,
) -> (Seq<CrdtOpView>, Seq<CrdtOpView>)
    decreases kinds.len(),
{
    if kinds.len() == 0 {
        (log, seq![])
    } else {
        let (l, ops) = after_ops(log, node, kinds.drop_last());
        let op = next_op(l, node, kinds.last());
        (with_op(l, op), ops.push(op))
    }
}

proof fn lemma_latest_grows(log: Seq<CrdtOpView>, op: CrdtOpView)
    ensures
        latest(with_op(log, op)) <= if op.timestamp > latest(log) {
            op.timestamp
        } else {
            latest(log)
        },
{
    assert(log.push(op).drop_last() =~= log);
}

/// Does `kind` to a playlist: stamps the operation, stores it and returns it.
pub fn stamp_op(log: &mut OpLog, node: &str, kind: CrdtOpKind) -> (r: CrdtOp)
    requires
        latest(old(log)@) < u64::MAX,
    ensures
        r@ == next_op(old(log)@, node@, kind@),
        final(log)@ == with_op(old(log)@, next_op(old(log)@, node@, kind@)),
        latest(final(log)@) <= latest(old(log)@) + 1,
{
    let ghost before = log@;
    let timestamp = next_timestamp(log);
    let mut op_id = concat2(node, ":");
    op_id.append(decimal_string(timestamp as u128).as_str());
    let op = CrdtOp { op_id, timestamp, origin_node: node.to_owned(), kind };
    store_op(log, &op);
    proof {
        lemma_latest_grows(before, op@);
    }
    op
}

/// The track at the position that a text gives, if there is one.
pub open spec fn track_at(tracks: Seq<CollabTrackView>, index: Option<Seq<char>>) -> Option<
    CollabTrackView,
> {
    match index {
        Some(text) => match in_i64(integer_value(text)) {
            Some(i) => if 0 <= i < tracks.len() {
                Some(tracks[i])
            } else {
                None
            },
            None => None,
        },
        None => None,
    }
}

/// What an update does to a collaborative playlist, in order: rename it, add a
/// track, remove the track at a position that it had before.
pub open spec fn update_kinds(
    tracks: Seq<CollabTrackView>,
    name: Option<Seq<char>>,
    added: Option<CollabTrackView>,
    index: Option<Seq<char>>,
) -> Seq<CrdtOpKindView> {
    let rename = match name {
        Some(name) => seq![CrdtOpKindView::SetName { name }],
        None => seq![],
    };
    let add = match added {
        Some(track) => seq![CrdtOpKindView::AddTrack { track }],
        None => seq![],
    };
    let remove = match track_at(tracks, index) {
        Some(t) => seq![
            CrdtOpKindView::RemoveTrack { track_id: t.track_id, owner_node: t.owner_node },
        ],
        None => seq![],
    };
    rename + add + remove
}

/// An optional track, as characters and numbers.
pub open spec fn opt_track(t: Option<CollabTrack>) -> Option<CollabTrackView> {
    match t {
        Some(t) => Some(t@),
        None => None,
    }
}

/// The stored playlist after a node did each of `kinds` in turn: its tracks are
/// rebuilt from the log.
pub open spec fn after_update(
    st: PlaylistStateView,
    node: Seq<char>,
    kinds: Seq<CrdtOpKindView>,
) -> PlaylistStateView {
    rebuilt(PlaylistStateView { log: after_ops(st.log, node, kinds).0, ..st })
}

/// Updates a collaborative playlist; returns the operations, which are to be
/// sent to friends.
pub fn update_playlist(
    state: &mut PlaylistState,
    node: &str,
    name: Option<String>,
    added: Option<CollabTrack>,
    index: Option<&String>,
) -> (r: Vec<CrdtOp>)
    requires
        latest(old(state)@.log) <= u64::MAX - 3,
    ensures
        ({
            let kinds = update_kinds(
                old(state)@.tracks,
                opt_text(name),
                opt_track(added),
                match index {
                    Some(i) => Some(i@),
                    None => None,
                },
            );
            &&& final(state)@ == after_update(old(state)@, node@, kinds)
            &&& views(r@) == after_ops(old(state)@.log, node@, kinds).1
        }),
{
    let ghost start = state.log@;
    let ghost iv = match index {
        Some(i) => Some(i@),
        None => None,
    };
    let ghost kinds = update_kinds(state@.tracks, opt_text(name), opt_track(added), iv);
    let gone: Option<(String, String)> = match find_track(&state.tracks, index) {
        Some(t) => Some((t.track_id.clone(), t.owner_node.clone())),
        None => None,
    };
    let mut ops: Vec<CrdtOp> = Vec::new();
    let ghost mut done: Seq<CrdtOpKindView> = seq![];
    assert(views(ops@) =~= seq![]);
    assert(after_ops(start, node@, done) == (state.log@, views(ops@)));
    match name {
        Some(name) => {
            let ghost before = ops@;
            let ghost kind = CrdtOpKindView::SetName { name: name@ };
            let op = stamp_op(&mut state.log, node, CrdtOpKind::SetName { name });
            let ghost ov = op@;
            ops.push(op);
            proof {
                assert(views(ops@) =~= views(before).push(ov));
                assert(done.push(kind).drop_last() =~= done);
                done = done.push(kind);
                assert(done.last() == kind);
                assert(after_ops(start, node@, done) == (state.log@, views(ops@)));
            }
        },
        None => {},
    }
    match added {
        Some(track) => {
            let ghost before = ops@;
            let ghost kind = CrdtOpKindView::AddTrack { track: track@ };
            let op = stamp_op(&mut state.log, node, CrdtOpKind::AddTrack { track });
            let ghost ov = op@;
            ops.push(op);
            proof {
                assert(views(ops@) =~= views(before).push(ov));
                assert(done.push(kind).drop_last() =~= done);
                done = done.push(kind);
                assert(done.last() == kind);
                assert(after_ops(start, node@, done) == (state.log@, views(ops@)));
            }
        },
        None => {},
    }
    match gone {
        Some((track_id, owner_node)) => {
            let ghost before = ops@;
            let ghost kind = CrdtOpKindView::RemoveTrack {
                track_id: track_id@,
                owner_node: owner_node@,
            };
            let op = stamp_op(
                &mut state.log,
                node,
                CrdtOpKind::RemoveTrack { track_id, owner_node },
            );
            let ghost ov = op@;
            ops.push(op);
            proof {
                assert(views(ops@) =~= views(before).push(ov));
                assert(done.push(kind).drop_last() =~= done);
                done = done.push(kind);
                assert(done.last() == kind);
                assert(after_ops(start, node@, done) == (state.log@, views(ops@)));
            }
        },
        None => {},
    }
    assert(done =~= kinds);
    rebuild(state);
    ops
}

/// Updates a collaborative playlist if its log has timestamps left, else changes
/// nothing and returns nothing.
pub fn try_update_playlist(
    state: &mut PlaylistState,
    node: &str,
    name: Option<String>,
    added: Option<CollabTrack>,
    index: Option<&String>,
) -> (r: Option<Vec<CrdtOp>>)
    ensures
        (r is Some) == (latest(old(state)@.log) <= u64::MAX - 3),
        match r {
            Some(ops) => {
                let kinds = update_kinds(
                    old(state)@.tracks,
                    opt_text(name),
                    opt_track(added),
                    match index {
                        Some(i) => Some(i@),
                        None => None,
                    },
                );
                &&& final(state)@ == after_update(old(state)@, node@, kinds)
                &&& views(ops@) == after_ops(old(state)@.log, node@, kinds).1
            },
            None => final(state)@ == old(state)@,
        },
{
    if latest_timestamp(&state.log) <= u64::MAX - 3 {
        Some(update_playlist(state, node, name, added, index))
    } else {
        None
    }
}

fn find_track<'a>(tracks: &'a Vec<CollabTrack>, index: Option<&String>) -> (r: Option<
    &'a CollabTrack,
>)
    ensures
        ({
            let iv = match index {
                Some(i) => Some(i@),
                None => None,
            };
            match r {
                Some(t) => track_at(views(tracks@), iv) == Some(t@),
                None => track_at(views(tracks@), iv) is None,
            }
        }),
{
    match index {
        Some(text) => match parse_i64(text.as_str()) {
            Some(i) => if 0 <= i && (i as u64) < tracks.len() as u64 {
                Some(&tracks[i as usize])
            } else {
                None
            },
            None => None,
        },
        None => None,
    }
}

/// Starts a collaborative playlist: it is created, and its first operation
/// gives it its name. Returns that operation, which is to be sent to friends.
pub fn start_collab(
    state: &mut PlaylistState,
    playlist_id: &str,
    name: &str,
    node: &str,
    now: &str,
) -> (r: CrdtOp)
    requires
        latest(old(state)@.log) < u64::MAX,
    ensures
        r@ == next_op(old(state)@.log, node@, CrdtOpKindView::SetName { name: name@ }),
        final(state)@ == (PlaylistStateView {
            log: with_op(old(state)@.log, r@),
            ..created(
                old(state)@,
                (CollabPlaylistView {
                    id: playlist_id@,
                    name: name@,
                    created_by: node@,
                    created_at: now@,
                }),
            )
        }),
{
    crate::social::collab_state::create_playlist(state, playlist_id, name, node, now);
    stamp_op(&mut state.log, node, CrdtOpKind::SetName { name: name.to_owned() })
}

/// Starts a collaborative playlist if its log has a timestamp left, else changes
/// nothing and returns nothing.
pub fn try_start_collab(
    state: &mut PlaylistState,
    playlist_id: &str,
    name: &str,
    node: &str,
    now: &str,
) -> (r: Option<CrdtOp>)
    ensures
        (r is Some) == (latest(old(state)@.log) < u64::MAX),
        match r {
            Some(op) => {
                &&& op@ == next_op(old(state)@.log, node@, CrdtOpKindView::SetName { name: name@ })
                &&& final(state)@ == (PlaylistStateView {
                    log: with_op(old(state)@.log, op@),
                    ..created(
                        old(state)@,
                        (CollabPlaylistView {
                            id: playlist_id@,
                            name: name@,
                            created_by: node@,
                            created_at: now@,
                        }),
                    )
                })
            },
            None => final(state)@ == old(state)@,
        },
{
    if latest_timestamp(&state.log) < u64::MAX {
        Some(start_collab(state, playlist_id, name, node, now))
    } else {
        None
    }
}

/// An identifier of an operation that a full sync stands for.
pub open spec fn is_backfill(op_id: Seq<char>) -> bool {
    "fullsync:"@.is_prefix_of(op_id)
}

/// Each operation carries the identifier that its node and its timestamp give
/// it, but for those that a full sync stands for.
pub open spec fn well_stamped(log: Seq<CrdtOpView>) -> bool {
    forall|i: int|
        0 <= i < log.len() ==> is_backfill((#[trigger] log[i]).op_id) || log[i].op_id
            == log[i].origin_node + ":"@ + decimal(log[i].timestamp as nat)
}

/// The identifiers that the node gives are not those of a full sync.
pub open spec fn stamps(node: Seq<char>) -> bool {
    !is_backfill(node + ":"@)
}

proof fn lemma_no_backfill(node: Seq<char>, t: nat)
    requires
        stamps(node),
    ensures
        !is_backfill(node + ":"@ + decimal(t)),
{
    reveal_strlit(":");
    reveal_strlit("fullsync:");
    let head = "fullsync:"@;
    let id = node + ":"@ + decimal(t);
    if is_backfill(id) {
        assert(head == id.subrange(0, 9));
        if node.len() < 8 {
            assert(id[node.len() as int] == ':');
            assert(head[node.len() as int] != ':');
        } else {
            assert((node + ":"@).subrange(0, 9) =~= head);
        }
    }
}

proof fn lemma_op_ids(a: Seq<char>, s: nat, b: Seq<char>, t: nat)
    requires
        a + ":"@ + decimal(s) == b + ":"@ + decimal(t),
    ensures
        s == t,
{
    reveal_strlit(":");
    decimal_read_back(s);
    decimal_read_back(t);
    let x = a + ":"@ + decimal(s);
    let y = b + ":"@ + decimal(t);
    let d = decimal(s);
    let e = decimal(t);
    if d.len() < e.len() {
        let p = x.len() - 1 - d.len();
        assert(x[p] == ':');
        assert(y[p] == e[p - b.len() - 1]);
        assert(e.contains(e[p - b.len() - 1]));
    } else if e.len() < d.len() {
        let p = x.len() - 1 - e.len();
        assert(y[p] == ':');
        assert(x[p] == d[p - a.len() - 1]);
        assert(d.contains(d[p - a.len() - 1]));
    } else {
        assert forall|i: int| 0 <= i < d.len() implies d[i] == e[i] by {
            assert(x[x.len() - d.len() + i] == d[i]);
            assert(y[x.len() - d.len() + i] == e[i]);
        }
        assert(d =~= e);
    }
}

/// What a node does next is never taken for something that it has seen, and
/// the log stays well stamped.
pub proof fn next_operation_is_new(log: Seq<CrdtOpView>, node: Seq<char>, kind: CrdtOpKindView)
    requires
        well_stamped(log),
        stamps(node),
        latest(log) < u64::MAX,
    ensures
        !has_op(log, next_op(log, node, kind).op_id),
        well_stamped(with_op(log, next_op(log, node, kind))),
{
    let op = next_op(log, node, kind);
    lemma_no_backfill(node, op.timestamp as nat);
    assert forall|i: int| 0 <= i < log.len() implies (#[trigger] log[i]).op_id != op.op_id by {
        lemma_latest(log, i);
        if log[i].op_id == op.op_id {
            lemma_op_ids(
                log[i].origin_node,
                log[i].timestamp as nat,
                node,
                op.timestamp as nat,
            );
        }
    }
}

/// A track that a node adds to a playlist is in it, whatever was done before.
pub proof fn added_track_is_listed(
    log: Seq<CrdtOpView>,
    node: Seq<char>,
    track: CollabTrackView,
)
    requires
        well_stamped(log),
        stamps(node),
        latest(log) < u64::MAX,
    ensures
        lists(
            playlist_tracks(with_op(log, next_op(log, node, CrdtOpKindView::AddTrack { track }))),
            track.key(),
        ),
{
    let kind = CrdtOpKindView::AddTrack { track };
    next_operation_is_new(log, node, kind);
    fresh_add_takes_effect(log, next_op(log, node, kind), track.key());
}

/// A track that a node removes from a playlist is no longer in it.
pub proof fn removed_track_is_gone(
    log: Seq<CrdtOpView>,
    node: Seq<char>,
    track_id: Seq<char>,
    owner_node: Seq<char>,
)
    requires
        well_stamped(log),
        stamps(node),
        latest(log) < u64::MAX,
    ensures
        !lists(
            playlist_tracks(
                with_op(
                    log,
                    next_op(log, node, CrdtOpKindView::RemoveTrack { track_id, owner_node }),
                ),
            ),
            (track_id, owner_node),
        ),
{
    let kind = CrdtOpKindView::RemoveTrack { track_id, owner_node };
    next_operation_is_new(log, node, kind);
    fresh_removal_takes_effect(log, next_op(log, node, kind), (track_id, owner_node));
}

/// Updates leave a well stamped log well stamped, and offer the log nothing
/// that it has already.
pub proof fn updates_keep_log_well_stamped(
    log: Seq<CrdtOpView>,
    node: Seq<char>,
    kinds: Seq<CrdtOpKindView>,
)
    requires
        well_stamped(log),
        stamps(node),
        latest(log) + kinds.len() <= u64::MAX,
    ensures
        well_stamped(after_ops(log, node, kinds).0),
        after_ops(log, node, kinds).0 == log + after_ops(log, node, kinds).1,
        latest(after_ops(log, node, kinds).0) <= latest(log) + kinds.len(),
    decreases kinds.len(),
{
    if kinds.len() > 0 {
        updates_keep_log_well_stamped(log, node, kinds.drop_last());
        let (l, ops) = after_ops(log, node, kinds.drop_last());
        next_operation_is_new(l, node, kinds.last());
        lemma_latest_grows(l, next_op(l, node, kinds.last()));
        assert(l.push(next_op(l, node, kinds.last())) =~= log + ops.push(
            next_op(l, node, kinds.last()),
        ));
    } else {
        assert(log + seq![] =~= log);
    }
}

/// A track as a song of a backend describes it.
pub open spec fn described_track(
    track_id: Seq<char>,
    node: Seq<char>,
    answer: Option<JsonView>,
) -> CollabTrackView {
    let song = match answer {
        Some(resp) => resp.get("song"@),
        None => None,
    };
    match song {
        Some(song) => CollabTrackView {
            track_id,
            owner_node: node,
            title: song.text_or("title"@, "Unknown"@),
            artist: song.get_text("artist"@),
            album: song.get_text("album"@),
            duration: match song.get("duration"@) {
                Some(d) => d.signed(),
                None => None,
            },
            added_by: node,
        },
        None => CollabTrackView {
            track_id,
            owner_node: node,
            title: "Unknown Track"@,
            artist: None,
            album: None,
            duration: None,
            added_by: node,
        },
    }
}

/// A track for a collaborative playlist, with what its backend answered.
pub fn resolve_track_for_collab(track_id: &str, node_id: &str, answer: Option<&Json>) -> (r:
    CollabTrack)
    ensures
        r@ == described_track(
            track_id@,
            node_id@,
            match answer {
                Some(a) => Some(a@),
                None => None,
            },
        ),
{
    let song = match answer {
        Some(resp) => resp.get("song"),
        None => None,
    };
    match song {
        Some(song) => CollabTrack {
            track_id: track_id.to_owned(),
            owner_node: node_id.to_owned(),
            title: song.str_or("title", "Unknown").to_owned(),
            artist: match song.get_str("artist") {
                Some(s) => Some(s.clone()),
                None => None,
            },
            album: match song.get_str("album") {
                Some(s) => Some(s.clone()),
                None => None,
            },
            duration: match song.get("duration") {
                Some(d) => d.as_i64(),
                None => None,
            },
            added_by: node_id.to_owned(),
        },
        None => CollabTrack {
            track_id: track_id.to_owned(),
            owner_node: node_id.to_owned(),
            title: "Unknown Track".to_owned(),
            artist: None,
            album: None,
            duration: None,
            added_by: node_id.to_owned(),
        },
    }
}

// ── Other changes ───────────────────────────────────────────────

/// What a request changes of a playlist of this node.
#[derive(Debug)]
pub struct LocalChange {
    pub name: Option<String>,
    pub comment: Option<String>,
    pub public: Option<bool>,
    pub song_to_add: Option<String>,
    pub index_to_remove: Option<i64>,
}

/// What a request changes of a playlist of this node.
pub fn local_change(params: &Params) -> (r: LocalChange)
    ensures
        opt_text(r.name) == field_value(params@, "name"@),
        opt_text(r.comment) == field_value(params@, "comment"@),
        r.public == (match field_value(params@, "public"@) {
            Some(v) => Some(v == "true"@),
            None => None,
        }),
        opt_text(r.song_to_add) == field_value(params@, "songIdToAdd"@),
        match field_value(params@, "songIndexToRemove"@) {
            Some(text) => match in_i64(integer_value(text)) {
                Some(i) => r.index_to_remove == Some(i as i64),
                None => r.index_to_remove is None,
            },
            None => r.index_to_remove is None,
        },
{
    LocalChange {
        name: params.copy_of("name"),
        comment: params.copy_of("comment"),
        public: match params.get("public") {
            Some(_) => Some(params.has("public", "true")),
            None => None,
        },
        song_to_add: params.copy_of("songIdToAdd"),
        index_to_remove: match params.get("songIndexToRemove") {
            Some(text) => parse_i64(text.as_str()),
            None => None,
        },
    }
}

/// What a backend is asked to change of its playlist.
pub fn remote_change(original_id: &str, params: &Params) -> (r: Vec<(String, String)>)
    ensures
        pair_views(r@) == passed_on(
            passed_on(
                passed_on(seq![("playlistId"@, original_id@)], params@, "name"@),
                params@,
                "comment"@,
            ),
            params@,
            "public"@,
        ),
{
    let mut out: Vec<(String, String)> = Vec::new();
    out.push(("playlistId".to_owned(), original_id.to_owned()));
    assert(pair_views(out@) =~= seq![("playlistId"@, original_id@)]);
    pass_on(&mut out, params, "name");
    pass_on(&mut out, params, "comment");
    pass_on(&mut out, params, "public");
    out
}

// ── Laws of where playlists live and what is done to them ───────

/// The identifier under which a playlist is shown leads back to it: to a
/// collaborative playlist, to one of this node, or to one of a backend.
pub proof fn playlists_are_found_by_their_ids(
    uuid: Seq<char>,
    backend: nat,
    original: Seq<char>,
    backends: nat,
)
    requires
        backend < backends <= usize::MAX,
    ensures
        place_of(collab_id(uuid), backends) == Ok::<PlaylistPlaceView, FugueErrorView>(
            PlaylistPlaceView::Collab { uuid },
        ),
        place_of(local_playlist_id(uuid), backends) == Ok::<PlaylistPlaceView, FugueErrorView>(
            PlaylistPlaceView::Local { uuid },
        ),
        place_of(namespaced_id(backend, original), backends) == Ok::<
            PlaylistPlaceView,
            FugueErrorView,
        >(PlaylistPlaceView::Remote { backend: backend as usize, original_id: original }),
{
    reveal_strlit("c:");
    reveal_strlit("m:");
    collab_id_round_trip(uuid);
    local_playlist_id_round_trip(uuid);
    token_round_trip("m:"@ + uuid);
    let own = "m:"@ + uuid;
    assert(own[0] == 'm' && own.take(2)[0] == own[0] && "c:"@[0] == 'c');
    assert(collab_uuid(local_playlist_id(uuid)) is None);
    let text = decimal(backend) + seq![':'] + original;
    token_round_trip(text);
    decimal_starts_with_digit(backend);
    assert(text[0] == decimal(backend)[0] && "m:"@[0] == 'm');
    if text.len() >= 2 {
        assert(text.take(2)[0] == text[0]);
    }
    ids_lead_back(backend, original, backends);
}

/// A name behind "collab:" asks for a collaborative playlist of that name, and so
/// does the parameter `collaborative`; any other request asks for a playlist of
/// this node, with the song that it gives. A request without a name asks for
/// "New Playlist".
pub proof fn requests_name_what_they_create(
    fields: Seq<(Seq<char>, Seq<char>)>,
    name: Seq<char>,
    rest: Seq<char>,
)
    requires
        field_value(fields, "name"@) == Some(name) || (field_value(fields, "name"@) is None && name
            == "New Playlist"@),
    ensures
        name == "collab:"@ + rest ==> wanted_playlist(fields) == (NewPlaylistView::Collab {
            name: trimmed(rest),
        }),
        !"collab:"@.is_prefix_of(name) && field_value(fields, "collaborative"@) == Some("true"@)
            ==> wanted_playlist(fields) == (NewPlaylistView::Collab { name: trimmed(name) }),
        !"collab:"@.is_prefix_of(name) && field_value(fields, "collaborative"@) != Some("true"@)
            ==> wanted_playlist(fields) == (NewPlaylistView::Local {
            name,
            song_id: field_value(fields, "songId"@),
        }),
{
    let mark = "collab:"@;
    if name == mark + rest {
        assert(name.take(mark.len() as int) =~= mark);
        assert(name.skip(mark.len() as int) =~= rest);
    }
    if has_prefix(name, mark) {
        assert(mark =~= name.subrange(0, mark.len() as int));
    }
}

/// A position, in decimal, picks the track there; a position behind the end picks
/// none.
pub proof fn positions_pick_tracks(tracks: Seq<CollabTrackView>, i: nat)
    requires
        i <= i64::MAX,
    ensures
        track_at(tracks, Some(decimal(i))) == if i < tracks.len() {
            Some(tracks[i as int])
        } else {
            None
        },
        track_at(tracks, None) is None,
{
    decimal_read_back(i);
    decimal_starts_with_digit(i);
}

/// An update renames, adds and removes in this order, each only if it is asked
/// for: the removed track is the one that stood at the position before.
pub proof fn updates_do_what_they_say(
    tracks: Seq<CollabTrackView>,
    name: Seq<char>,
    track: CollabTrackView,
    i: nat,
)
    requires
        i < tracks.len(),
        i <= i64::MAX,
    ensures
        ({
            let rename = CrdtOpKindView::SetName { name };
            let add = CrdtOpKindView::AddTrack { track };
            let remove = CrdtOpKindView::RemoveTrack {
                track_id: tracks[i as int].track_id,
                owner_node: tracks[i as int].owner_node,
            };
            let at = Some(decimal(i));
            &&& update_kinds(tracks, None, None, None).len() == 0
            &&& update_kinds(tracks, Some(name), None, None) == seq![rename]
            &&& update_kinds(tracks, None, Some(track), None) == seq![add]
            &&& update_kinds(tracks, None, None, at) == seq![remove]
            &&& update_kinds(tracks, Some(name), Some(track), None) == seq![rename, add]
            &&& update_kinds(tracks, Some(name), None, at) == seq![rename, remove]
            &&& update_kinds(tracks, None, Some(track), at) == seq![add, remove]
            &&& update_kinds(tracks, Some(name), Some(track), at) == seq![rename, add, remove]
        }),
{
    positions_pick_tracks(tracks, i);
}

/// An update leaves the members of a playlist as they are, and its tracks are
/// those that its log gives.
pub proof fn updates_rebuild_the_tracks(
    st: PlaylistStateView,
    node: Seq<char>,
    kinds: Seq<CrdtOpKindView>,
)
    ensures
        ({
            let new = after_update(st, node, kinds);
            &&& new.log == after_ops(st.log, node, kinds).0
            &&& new.tracks == playlist_tracks(new.log)
            &&& new == (PlaylistStateView {
                log: new.log,
                tracks: new.tracks,
                playlist: new.playlist,
                ..st
            })
            &&& new.playlist is Some <==> st.playlist is Some
            &&& st.playlist matches Some(p) ==> new.playlist matches Some(q) && q == (
            CollabPlaylistView { name: q.name, ..p })
        }),
{
}

/// The playlists of all backends are shown, backend after backend, namespaced;
/// where none answered there are none.
pub proof fn playlists_of_all_backends_are_shown(
    rs: Seq<(usize, JsonView)>,
    e: FugueErrorView,
)
    ensures
        remote_playlists(Ok(rs)) == rs.map_values(
            |p: (usize, JsonView)|
                match p.1.get("playlists"@) {
                    Some(s) => namespaced(s, p.0 as nat).items("playlist"@),
                    None => seq![],
                },
        ).flatten(),
        remote_playlists(Err(e)) == Seq::<JsonView>::empty(),
{
    merging_takes_every_item(rs, "playlists"@, "playlists"@, "playlist"@);
    let f = |p: (usize, JsonView)|
        match p.1.get("playlists"@) {
            Some(s) => namespaced(s, p.0 as nat).items("playlist"@),
            None => match p.1.get("playlists"@) {
                Some(s) => namespaced(s, p.0 as nat).items("playlist"@),
                None => seq![],
            },
        };
    let g = |p: (usize, JsonView)|
        match p.1.get("playlists"@) {
            Some(s) => namespaced(s, p.0 as nat).items("playlist"@),
            None => seq![],
        };
    assert(rs.map_values(f) =~= rs.map_values(g));
}

/// A node signs with its name, one without an identity as "local".
pub proof fn nodes_sign_with_their_names(name: Seq<char>)
    ensures
        node_or_local(Some(name)) == name,
        node_or_local(None) == "local"@,
{
}

/// A track that is added to a collaborative playlist is described as its backend
/// describes the song; one that no backend knows is an unknown track. It belongs to
/// this node, which adds it.
pub proof fn added_tracks_are_described(
    track_id: Seq<char>,
    node: Seq<char>,
    resp: JsonView,
    song: JsonView,
    text: Seq<char>,
)
    ensures
        resp.get("song"@) == Some(song) ==> ({
            let t = described_track(track_id, node, Some(resp));
            &&& t.track_id == track_id && t.owner_node == node && t.added_by == node
            &&& song.get("title"@) == Some(JsonView::Text(text)) ==> t.title == text
            &&& song.get("title"@) is None ==> t.title == "Unknown"@
            &&& song.get("artist"@) == Some(JsonView::Text(text)) ==> t.artist == Some(text)
            &&& song.get("artist"@) is None ==> t.artist is None
            &&& song.get("album"@) == Some(JsonView::Text(text)) ==> t.album == Some(text)
            &&& song.get("album"@) is None ==> t.album is None
            &&& t.duration == song.get_signed("duration"@)
        }),
        ({
            let t = described_track(track_id, node, None);
            &&& t == (CollabTrackView {
                track_id,
                owner_node: node,
                title: "Unknown Track"@,
                artist: None,
                album: None,
                duration: None,
                added_by: node,
            })
            &&& resp.get("song"@) is None ==> described_track(track_id, node, Some(resp)) == t
        }),
{
}

} // verus!
