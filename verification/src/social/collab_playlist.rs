//! Collaborative playlists: shared between Fugue nodes via gossip.

use crate::codec::{blake3_digest, blake3_hash};
use crate::error::{FugueError, FugueErrorView};
use crate::id::{make_token, readable, token, token_round_trip, try_read_token};
use crate::json::{integer, object, reading_after_setting, whole, Json, JsonView};
use crate::seqs::lemma_filter_end;
use crate::social::library::{by_name, sort_by_name};
use crate::sorting::{ranking, ranking_is_total_preorder, sorting_keys_sorts_items, stable_sort};
use crate::strs::{
    after_prefix, chars_of, concat2, concat3, contains_char, cut_at, lemma_cut_at, opt_text,
    split_once, str_eq, strip_prefix, text_less, views,
};
use crate::subsonic::models::TextKeyed;
use vstd::prelude::*;
use vstd::utf8::encode_utf8;

verus! {

/// A track in a collaborative playlist, with ownership info.
#[derive(Debug)]
pub struct CollabTrack {
    /// namespaced ID on the owner's node
    pub track_id: String,
    /// node that can stream this track
    pub owner_node: String,
    pub title: String,
    pub artist: Option<String>,
    pub album: Option<String>,
    pub duration: Option<i64>,
    /// node that added this
    pub added_by: String,
}

/// What a track holds, as characters and numbers.
pub struct CollabTrackView {
    pub track_id: Seq<char>,
    pub owner_node: Seq<char>,
    pub title: Seq<char>,
    pub artist: Option<Seq<char>>,
    pub album: Option<Seq<char>>,
    pub duration: Option<i64>,
    pub added_by: Seq<char>,
}

impl View for CollabTrack {
    type V = CollabTrackView;

    open spec fn view(&self) -> CollabTrackView {
        CollabTrackView {
            track_id: self.track_id@,
            owner_node: self.owner_node@,
            title: self.title@,
            artist: opt_text(self.artist),
            album: opt_text(self.album),
            duration: self.duration,
            added_by: self.added_by@,
        }
    }
}

impl CollabTrackView {
    /// What tells one track of a playlist from another.
    pub open spec fn key(self) -> (Seq<char>, Seq<char>) {
        (self.track_id, self.owner_node)
    }
}

impl Clone for CollabTrack {
    fn clone(&self) -> (r: Self)
        ensures
            r@ == self@,
    {
        CollabTrack {
            track_id: self.track_id.clone(),
            owner_node: self.owner_node.clone(),
            title: self.title.clone(),
            artist: self.artist.clone(),
            album: self.album.clone(),
            duration: self.duration,
            added_by: self.added_by.clone(),
        }
    }
}

/// Gossip operations for collaborative playlists.
#[derive(Debug)]
pub enum PlaylistOp {
    /// Create a new collaborative playlist.
    Create { playlist_id: String, name: String },
    /// Add a track to the playlist.
    AddTrack { playlist_id: String, track: CollabTrack },
    /// Remove a track from the playlist.
    RemoveTrack { playlist_id: String, track_id: String, owner_node: String },
    /// Rename the playlist.
    Rename { playlist_id: String, name: String },
    /// Delete the playlist.
    Delete { playlist_id: String },
    /// Full sync: send all tracks (used when a new friend joins).
    FullSync { playlist_id: String, name: String, tracks: Vec<CollabTrack> },
}

impl PlaylistOp {
    /// The playlist that the operation is about, as characters.
    pub open spec fn about(self) -> Seq<char> {
        match self {
            PlaylistOp::Create { playlist_id, .. } => playlist_id@,
            PlaylistOp::AddTrack { playlist_id, .. } => playlist_id@,
            PlaylistOp::RemoveTrack { playlist_id, .. } => playlist_id@,
            PlaylistOp::Rename { playlist_id, .. } => playlist_id@,
            PlaylistOp::Delete { playlist_id } => playlist_id@,
            PlaylistOp::FullSync { playlist_id, .. } => playlist_id@,
        }
    }

    /// The playlist that the operation is about.
    pub fn playlist_id(&self) -> (r: &str)
        ensures
            r@ == self.about(),
    {
        match self {
            PlaylistOp::Create { playlist_id, .. } => playlist_id.as_str(),
            PlaylistOp::AddTrack { playlist_id, .. } => playlist_id.as_str(),
            PlaylistOp::RemoveTrack { playlist_id, .. } => playlist_id.as_str(),
            PlaylistOp::Rename { playlist_id, .. } => playlist_id.as_str(),
            PlaylistOp::Delete { playlist_id } => playlist_id.as_str(),
            PlaylistOp::FullSync { playlist_id, .. } => playlist_id.as_str(),
        }
    }
}

// ── Roles ───────────────────────────────────────────────────────

/// Roles for collaborative playlist members.
#[derive(Debug, Clone, Copy, PartialEq, Eq, Structural)]
pub enum Role {
    Owner,
    Collab,
    Viewer,
}

/// The name of a role.
pub open spec fn role_name(r: Role) -> Seq<char> {
    match r {
        Role::Owner => "owner"@,
        Role::Collab => "collab"@,
        Role::Viewer => "viewer"@,
    }
}

/// The role with this name.
pub open spec fn role_named(s: Seq<char>) -> Option<Role> {
    if s == "owner"@ {
        Some(Role::Owner)
    } else if s == "collab"@ {
        Some(Role::Collab)
    } else if s == "viewer"@ {
        Some(Role::Viewer)
    } else {
        None
    }
}

/// Owners and collaborators may edit; viewers, and nodes that are no members,
/// may not.
pub open spec fn may_edit(role: Option<Role>) -> bool {
    role == Some(Role::Owner) || role == Some(Role::Collab)
}

impl Role {
    /// The name of the role.
    pub fn as_str(&self) -> (r: &str)
        ensures
            r@ == role_name(*self),
    {
        match self {
            Role::Owner => "owner",
            Role::Collab => "collab",
            Role::Viewer => "viewer",
        }
    }

    /// The role with this name.
    pub fn from_str(s: &str) -> (r: Option<Role>)
        ensures
            r == role_named(s@),
    {
        if str_eq(s, "owner") {
            Some(Role::Owner)
        } else if str_eq(s, "collab") {
            Some(Role::Collab)
        } else if str_eq(s, "viewer") {
            Some(Role::Viewer)
        } else {
            None
        }
    }

    /// Whether the role may edit.
    pub fn can_edit(&self) -> (r: bool)
        ensures
            r == may_edit(Some(*self)),
    {
        match self {
            Role::Owner | Role::Collab => true,
            Role::Viewer => false,
        }
    }
}

/// A role is found again by its name.
pub proof fn role_round_trip(r: Role)
    ensures
        role_named(role_name(r)) == Some(r),
        !role_name(r).contains(':'),
{
    reveal_strlit("owner");
    reveal_strlit("collab");
    reveal_strlit("viewer");
    assert("owner"@.len() == 5);
    assert("collab"@.len() == 6 && "viewer"@.len() == 6);
    assert("collab"@[0] != "viewer"@[0]);
}

// ── Identifiers ─────────────────────────────────────────────────

/// The identifier of a collaborative playlist.
pub open spec fn collab_id(uuid: Seq<char>) -> Seq<char> {
    token("c:"@ + uuid)
}

/// The playlist that an identifier names, if it names one.
pub open spec fn collab_uuid(encoded: Seq<char>) -> Option<Seq<char>> {
    match readable(encoded) {
        Some(raw) => after_prefix(raw, "c:"@),
        None => None,
    }
}

/// Encodes a collaborative playlist ID: base64url("c:{uuid}").
pub fn encode_collab_id(uuid: &str) -> (r: String)
    ensures
        r@ == collab_id(uuid@),
{
    make_token(concat2("c:", uuid).as_str())
}

/// Decodes a collaborative playlist ID.
pub fn decode_collab_id(encoded: &str) -> (r: Option<String>)
    ensures
        opt_text(r) == collab_uuid(encoded@),
{
    match try_read_token(encoded) {
        Some(raw) => strip_prefix(raw.as_str(), "c:"),
        None => None,
    }
}

/// The identifier of a track that another node can stream.
pub open spec fn remote_track_id(owner_node: Seq<char>, track_id: Seq<char>) -> Seq<char> {
    token("r:"@ + owner_node + ":"@ + track_id)
}

/// The node and the track that an identifier names, if it names a remote
/// track.
pub open spec fn remote_track(encoded: Seq<char>) -> Option<(Seq<char>, Seq<char>)> {
    match readable(encoded) {
        Some(raw) => match after_prefix(raw, "r:"@) {
            Some(rest) => cut_at(rest, ':'),
            None => None,
        },
        None => None,
    }
}

/// Encodes a remote track ID: base64url("r:{owner_node}:{track_id}"). It tells
/// the streaming layer to fetch from the owner node.
pub fn encode_remote_track_id(owner_node: &str, track_id: &str) -> (r: String)
    ensures
        r@ == remote_track_id(owner_node@, track_id@),
{
    let mut raw = concat3("r:", owner_node, ":");
    raw.append(track_id);
    make_token(raw.as_str())
}

/// Decodes a remote track ID to the owner node and the track ID.
pub fn decode_remote_track_id(encoded: &str) -> (r: Option<(String, String)>)
    ensures
        match r {
            Some((owner, track)) => remote_track(encoded@) == Some((owner@, track@)),
            None => remote_track(encoded@) is None,
        },
{
    match try_read_token(encoded) {
        Some(raw) => match strip_prefix(raw.as_str(), "r:") {
            Some(rest) => split_once(rest.as_str(), ':'),
            None => None,
        },
        None => None,
    }
}

/// Whether an ID is a remote track ID.
pub fn is_remote_track_id(encoded: &str) -> (r: bool)
    ensures
        r == remote_track(encoded@) is Some,
{
    match decode_remote_track_id(encoded) {
        Some(_) => true,
        None => false,
    }
}

/// An identifier of a collaborative playlist gives the playlist back.
pub proof fn collab_id_round_trip(uuid: Seq<char>)
    ensures
        collab_uuid(collab_id(uuid)) == Some(uuid),
{
    let raw = "c:"@ + uuid;
    token_round_trip(raw);
    assert(raw.take("c:"@.len() as int) =~= "c:"@);
    assert(raw.skip("c:"@.len() as int) =~= uuid);
}

/// An identifier of a remote track gives the node and the track back, if the
/// name of the node holds no colon.
pub proof fn remote_track_id_round_trip(owner_node: Seq<char>, track_id: Seq<char>)
    requires
        !owner_node.contains(':'),
    ensures
        remote_track(remote_track_id(owner_node, track_id)) == Some((owner_node, track_id)),
{
    reveal_strlit(":");
    let raw = "r:"@ + owner_node + ":"@ + track_id;
    token_round_trip(raw);
    let rest = owner_node + seq![':'] + track_id;
    assert(raw.take("r:"@.len() as int) =~= "r:"@);
    assert(raw.skip("r:"@.len() as int) =~= rest);
    lemma_cut_at(owner_node, ':', track_id);
}

/// What is encoded as a remote track is always recognised as one, so that it
/// is never encoded twice.
pub proof fn remote_track_ids_are_recognised(owner_node: Seq<char>, track_id: Seq<char>)
    ensures
        remote_track(remote_track_id(owner_node, track_id)) is Some,
{
    reveal_strlit(":");
    let raw = "r:"@ + owner_node + ":"@ + track_id;
    token_round_trip(raw);
    let rest = owner_node + seq![':'] + track_id;
    assert(raw.take("r:"@.len() as int) =~= "r:"@);
    assert(raw.skip("r:"@.len() as int) =~= rest);
    lemma_has_first(rest, ':', owner_node.len() as int);
}

proof fn lemma_has_first(s: Seq<char>, c: char, i: int)
    requires
        0 <= i < s.len(),
        s[i] == c,
    ensures
        0 <= crate::strs::first_index(s, c) <= i,
    decreases s.len(),
{
    if s[0] != c {
        lemma_has_first(s.drop_first(), c, i - 1);
    }
}

// ── Invites ─────────────────────────────────────────────────────

/// The invite to a playlist.
pub open spec fn invite(playlist_id: Seq<char>, role: Role, name: Seq<char>) -> Seq<char> {
    token("i:"@ + playlist_id + ":"@ + role_name(role) + ":"@ + name)
}

/// The playlist, the role and the name in an invite, if it is one.
pub open spec fn invite_parts(code: Seq<char>) -> Option<(Seq<char>, Role, Seq<char>)> {
    match readable(code) {
        None => None,
        Some(raw) => match after_prefix(raw, "i:"@) {
            None => None,
            Some(rest) => match cut_at(rest, ':') {
                None => None,
                Some((playlist_id, remainder)) => match cut_at(remainder, ':') {
                    None => None,
                    Some((role, name)) => match role_named(role) {
                        None => None,
                        Some(r) => Some((playlist_id, r, name)),
                    },
                },
            },
        },
    }
}

/// Generates an invite code for a playlist with a specific role:
/// base64url("i:{playlist_id}:{role}:{name}").
pub fn generate_invite(playlist_id: &str, role: Role, name: &str) -> (r: String)
    ensures
        r@ == invite(playlist_id@, role, name@),
{
    let mut raw = concat3("i:", playlist_id, ":");
    raw.append(role.as_str());
    raw.append(":");
    raw.append(name);
    make_token(raw.as_str())
}

/// Parses an invite code. The name may contain colons.
pub fn parse_invite(code: &str) -> (r: Option<(String, Role, String)>)
    ensures
        match r {
            Some((playlist_id, role, name)) => invite_parts(code@) == Some(
                (playlist_id@, role, name@),
            ),
            None => invite_parts(code@) is None,
        },
{
    let raw = match try_read_token(code) {
        Some(s) => s,
        None => {
            return None;
        },
    };
    let rest = match strip_prefix(raw.as_str(), "i:") {
        Some(s) => s,
        None => {
            return None;
        },
    };
    match split_once(rest.as_str(), ':') {
        None => None,
        Some((playlist_id, remainder)) => match split_once(remainder.as_str(), ':') {
            None => None,
            Some((role_str, name)) => match Role::from_str(role_str.as_str()) {
                None => None,
                Some(role) => Some((playlist_id, role, name)),
            },
        },
    }
}

/// An invite gives back the playlist, the role and the name that it was made
/// for, if the playlist's identifier holds no colon.
pub proof fn invite_round_trip(playlist_id: Seq<char>, role: Role, name: Seq<char>)
    requires
        !playlist_id.contains(':'),
    ensures
        invite_parts(invite(playlist_id, role, name)) == Some((playlist_id, role, name)),
{
    reveal_strlit(":");
    role_round_trip(role);
    let raw = "i:"@ + playlist_id + ":"@ + role_name(role) + ":"@ + name;
    token_round_trip(raw);
    let remainder = role_name(role) + seq![':'] + name;
    let rest = playlist_id + seq![':'] + remainder;
    assert(raw.take("i:"@.len() as int) =~= "i:"@);
    assert(raw.skip("i:"@.len() as int) =~= rest);
    lemma_cut_at(playlist_id, ':', remainder);
    lemma_cut_at(role_name(role), ':', name);
}

/// The gossip topic of a playlist.
pub fn playlist_topic(playlist_id: &str) -> (r: Vec<u8>)
    ensures
        r@ == blake3_digest(encode_utf8("fugue-playlist-"@ + playlist_id@)),
        r@.len() == 32,
{
    let text = concat2("fugue-playlist-", playlist_id);
    blake3_hash(text.as_str().as_bytes())
}

// ── What clients are shown ──────────────────────────────────────

/// A time stamp of the database in the notation that clients expect: the space
/// becomes a `T`, and a `Z` is put behind it.
pub open spec fn iso8601(ts: Seq<char>) -> Seq<char> {
    if ts.contains('T') {
        ts
    } else {
        ts.map_values(|c: char| if c == ' ' { 'T' } else { c }).push('Z')
    }
}

/// A time stamp of the database in the notation that clients expect.
pub fn to_iso8601(ts: &str) -> (r: String)
    ensures
        r@ == iso8601(ts@),
{
    if contains_char(ts, 'T') {
        return ts.to_owned();
    }
    let x = chars_of(ts);
    let mut out = String::new();
    let mut i: usize = 0;
    let ghost want = ts@.map_values(|c: char| if c == ' ' { 'T' } else { c });
    while i < x.len()
        invariant
            i <= x@.len(),
            x@ == ts@,
            want == ts@.map_values(|c: char| if c == ' ' { 'T' } else { c }),
            out@ == want.take(i as int),
        decreases x@.len() - i,
    {
        let c: char = if x[i] == ' ' {
            'T'
        } else {
            x[i]
        };
        out.push(c);
        assert(want.take(i + 1) =~= want.take(i as int).push(c));
        i += 1;
    }
    assert(want.take(i as int) =~= want);
    out.push('Z');
    out
}

/// A stored collaborative playlist.
#[derive(Debug)]
pub struct CollabPlaylist {
    pub id: String,
    pub name: String,
    pub created_by: String,
    pub created_at: String,
}

/// A stored collaborative playlist, as characters.
pub struct CollabPlaylistView {
    pub id: Seq<char>,
    pub name: Seq<char>,
    pub created_by: Seq<char>,
    pub created_at: Seq<char>,
}

impl View for CollabPlaylist {
    type V = CollabPlaylistView;

    open spec fn view(&self) -> CollabPlaylistView {
        CollabPlaylistView {
            id: self.id@,
            name: self.name@,
            created_by: self.created_by@,
            created_at: self.created_at@,
        }
    }
}

/// What clients are shown of a collaborative playlist.
pub open spec fn playlist_summary(p: CollabPlaylistView, song_count: nat, duration: int) -> JsonView {
    object().with("id"@, JsonView::Text(collab_id(p.id))).with(
        "name"@,
        JsonView::Text("[Collab] "@ + p.name),
    ).with(
        "comment"@,
        JsonView::Text("Collaborative playlist (created by "@ + p.created_by + ")"@),
    ).with("public"@, JsonView::Bool(true)).with("owner"@, JsonView::Text(p.created_by)).with(
        "songCount"@,
        whole(song_count),
    ).with("duration"@, integer(duration)).with(
        "created"@,
        JsonView::Text(iso8601(p.created_at)),
    ).with("changed"@, JsonView::Text(iso8601(p.created_at)))
}

fn summarize(p: &CollabPlaylist, song_count: usize, duration: i64) -> (r: Json)
    ensures
        r@ == playlist_summary(p@, song_count as nat, duration as int),
{
    Json::object().with_text("id", encode_collab_id(p.id.as_str()).as_str()).with_text(
        "name",
        concat2("[Collab] ", p.name.as_str()).as_str(),
    ).with_text(
        "comment",
        concat3("Collaborative playlist (created by ", p.created_by.as_str(), ")").as_str(),
    ).with("public", Json::Bool(true)).with_text("owner", p.created_by.as_str()).with(
        "songCount",
        Json::whole(song_count as u64),
    ).with("duration", Json::integer(duration)).with_text(
        "created",
        to_iso8601(p.created_at.as_str()).as_str(),
    ).with_text("changed", to_iso8601(p.created_at.as_str()).as_str())
}

/// The text, empty if there is none.
pub open spec fn text_or_empty(o: Option<Seq<char>>) -> Seq<char> {
    match o {
        Some(s) => s,
        None => ""@,
    }
}

/// What clients are shown of a track.
pub open spec fn playlist_entry(t: CollabTrackView) -> JsonView {
    let id = remote_track_id(t.owner_node, t.track_id);
    object().with("id"@, JsonView::Text(id)).with("title"@, JsonView::Text(t.title)).with(
        "artist"@,
        JsonView::Text(text_or_empty(t.artist)),
    ).with("album"@, JsonView::Text(text_or_empty(t.album))).with(
        "duration"@,
        integer(
            match t.duration {
                Some(d) => d as int,
                None => 0,
            },
        ),
    ).with("isDir"@, JsonView::Bool(false)).with("coverArt"@, JsonView::Text(id))
}

fn entry_of(t: &CollabTrack) -> (r: Json)
    ensures
        r@ == playlist_entry(t@),
{
    let id = encode_remote_track_id(t.owner_node.as_str(), t.track_id.as_str());
    let artist = match &t.artist {
        Some(a) => a.as_str(),
        None => "",
    };
    let album = match &t.album {
        Some(a) => a.as_str(),
        None => "",
    };
    let duration: i64 = match t.duration {
        Some(d) => d,
        None => 0,
    };
    Json::object().with_text("id", id.as_str()).with_text("title", t.title.as_str()).with_text(
        "artist",
        artist,
    ).with_text("album", album).with("duration", Json::integer(duration)).with(
        "isDir",
        Json::Bool(false),
    ).with_text("coverArt", id.as_str())
}

/// How long the tracks play together; unknown durations count nothing.
pub open spec fn total_duration(s: Seq<CollabTrackView>) -> int
    decreases s.len(),
{
    if s.len() == 0 {
        0
    } else {
        total_duration(s.drop_last()) + match s.last().duration {
            Some(d) => d as int,
            None => 0,
        }
    }
}

/// How long the tracks play together, if the sum stays a 64-bit number from
/// the first track to the last.
pub open spec fn running_duration(s: Seq<CollabTrackView>) -> Option<int>
    decreases s.len(),
{
    if s.len() == 0 {
        Some(0)
    } else {
        match running_duration(s.drop_last()) {
            Some(t) => {
                let sum = t + match s.last().duration {
                    Some(d) => d as int,
                    None => 0,
                };
                if i64::MIN <= sum <= i64::MAX {
                    Some(sum)
                } else {
                    None
                }
            },
            None => None,
        }
    }
}

proof fn lemma_running_duration(s: Seq<CollabTrackView>, n: int)
    requires
        0 <= n <= s.len(),
    ensures
        running_duration(s) matches Some(t) ==> t == total_duration(s) && i64::MIN <= t
            <= i64::MAX,
        running_duration(s.take(n)) is None ==> running_duration(s) is None,
    decreases s.len(),
{
    if n == s.len() {
        assert(s.take(n) =~= s);
    }
    if s.len() > 0 {
        let d = s.drop_last();
        if n < s.len() {
            assert(d.take(n) =~= s.take(n));
            lemma_running_duration(d, n);
        } else {
            lemma_running_duration(d, n - 1);
        }
    }
}

/// How long the tracks play together, if that can be said in 64 bits.
pub fn playing_time(tracks: &Vec<CollabTrack>) -> (r: Option<i64>)
    ensures
        match r {
            Some(t) => running_duration(views(tracks@)) == Some(t as int) && total_duration(
                views(tracks@),
            ) == t,
            None => running_duration(views(tracks@)) is None,
        },
{
    let ghost ts = views(tracks@);
    let mut total: i64 = 0;
    let mut i: usize = 0;
    assert(ts.take(0) =~= seq![]);
    while i < tracks.len()
        invariant
            i <= tracks@.len(),
            ts == views(tracks@),
            running_duration(ts.take(i as int)) == Some(total as int),
        decreases tracks@.len() - i,
    {
        proof {
            assert(ts.take(i + 1).drop_last() =~= ts.take(i as int));
            assert(ts.take(i + 1).last() == tracks@[i as int]@);
        }
        let d: i64 = match tracks[i].duration {
            Some(x) => x,
            None => 0,
        };
        match total.checked_add(d) {
            Some(t) => {
                total = t;
            },
            None => {
                proof {
                    assert(ts.len() == tracks@.len());
                    lemma_running_duration(ts, i + 1);
                }
                return None;
            },
        }
        i += 1;
    }
    proof {
        assert(ts.take(i as int) =~= ts);
        lemma_running_duration(ts, 0);
    }
    Some(total)
}

/// A stored collaborative playlist with its tracks.
#[derive(Debug)]
pub struct StoredPlaylist {
    pub playlist: CollabPlaylist,
    pub tracks: Vec<CollabTrack>,
}

impl View for StoredPlaylist {
    type V = (CollabPlaylistView, Seq<CollabTrackView>);

    open spec fn view(&self) -> (CollabPlaylistView, Seq<CollabTrackView>) {
        (self.playlist@, views(self.tracks@))
    }
}

/// What a playlist list says of a playlist, with the name that it is sorted by.
pub open spec fn listed_playlist(p: (CollabPlaylistView, Seq<CollabTrackView>)) -> (
    Seq<char>,
    JsonView,
) {
    (p.0.name, playlist_summary(p.0, p.1.len(), total_duration(p.1)))
}

/// What a playlist list says of the playlists: how many tracks each has and how
/// long they play, by name.
pub open spec fn listed_playlists(
    rows: Seq<(CollabPlaylistView, Seq<CollabTrackView>)>,
) -> Seq<JsonView> {
    by_name(
        rows.map_values(
            |p: (CollabPlaylistView, Seq<CollabTrackView>)| listed_playlist(p),
        ),
    )
}

/// What a playlist list says of all collaborative playlists. It fails when one
/// of them plays for longer than can be said in 64 bits.
pub fn list_playlists(rows: &Vec<StoredPlaylist>) -> (r: Result<Vec<Json>, FugueError>)
    ensures
        match r {
            Ok(list) => {
                &&& views(list@) == listed_playlists(views(rows@))
                &&& forall|i: int|
                    0 <= i < rows@.len() ==> running_duration(
                        (#[trigger] views(rows@)[i]).1,
                    ) is Some
            },
            Err(e) => {
                &&& e@ == FugueErrorView::Internal("integer overflow"@)
                &&& exists|i: int|
                    0 <= i < rows@.len() && running_duration(
                        (#[trigger] views(rows@)[i]).1,
                    ) is None
            },
        },
{
    let ghost s = views(rows@);
    let ghost f = |p: (CollabPlaylistView, Seq<CollabTrackView>)| listed_playlist(p);
    let ghost want = s.map_values(f);
    let mut keyed: Vec<TextKeyed> = Vec::new();
    let mut i: usize = 0;
    while i < rows.len()
        invariant
            i <= rows@.len(),
            s == views(rows@),
            f == (|p: (CollabPlaylistView, Seq<CollabTrackView>)| listed_playlist(p)),
            want == s.map_values(f),
            views(keyed@) == want.take(i as int),
            forall|j: int| 0 <= j < i ==> running_duration((#[trigger] s[j]).1) is Some,
        decreases rows@.len() - i,
    {
        let ghost before = keyed@;
        let row = &rows[i];
        assert(s[i as int] == row@);
        match playing_time(&row.tracks) {
            Some(t) => {
                let k = TextKeyed {
                    key: row.playlist.name.clone(),
                    item: summarize(&row.playlist, row.tracks.len(), t),
                };
                let ghost kv = k@;
                assert(views(row.tracks@).len() == row.tracks@.len());
                keyed.push(k);
                assert(views(keyed@) =~= views(before).push(kv));
                assert(want.take(i + 1) =~= want.take(i as int).push(kv));
            },
            None => {
                return Err(FugueError::Internal("integer overflow".to_owned()));
            },
        }
        i += 1;
    }
    assert(want.take(i as int) =~= want);
    Ok(sort_by_name(keyed))
}

/// What clients are shown of a playlist with its tracks.
pub open spec fn playlist_detail(p: CollabPlaylistView, tracks: Seq<CollabTrackView>) -> JsonView {
    object().with(
        "playlist"@,
        playlist_summary(p, tracks.len(), total_duration(tracks)).with(
            "entry"@,
            JsonView::Array(tracks.map_values(|t: CollabTrackView| playlist_entry(t))),
        ),
    )
}

/// A collaborative playlist with all tracks.
pub fn get_playlist(p: &CollabPlaylist, tracks: &Vec<CollabTrack>) -> (r: Json)
    requires
        i64::MIN <= total_duration(views(tracks@)) <= i64::MAX,
    ensures
        r@ == playlist_detail(p@, views(tracks@)),
{
    let ghost ts = views(tracks@);
    let ghost want = ts.map_values(|t: CollabTrackView| playlist_entry(t));
    let mut entries: Vec<Json> = Vec::new();
    let mut total: i128 = 0;
    let mut i: usize = 0;
    assert(ts.take(0) =~= seq![]);
    while i < tracks.len()
        invariant
            i <= tracks@.len(),
            ts == views(tracks@),
            want == ts.map_values(|t: CollabTrackView| playlist_entry(t)),
            views(entries@) == want.take(i as int),
            total == total_duration(ts.take(i as int)),
            -(i as int) * 9223372036854775808 <= total <= i * 9223372036854775808,
        decreases tracks@.len() - i,
    {
        let ghost before = entries@;
        proof {
            assert(ts.take(i + 1).drop_last() =~= ts.take(i as int));
            assert(ts.take(i + 1).last() == tracks@[i as int]@);
        }
        let e = entry_of(&tracks[i]);
        entries.push(e);
        assert(views(entries@) =~= views(before).push(e@));
        assert(want.take(i + 1) =~= want.take(i as int).push(e@));
        let d: i64 = match tracks[i].duration {
            Some(x) => x,
            None => 0,
        };
        total = total + d as i128;
        i += 1;
    }
    assert(ts.take(i as int) =~= ts);
    assert(want.take(i as int) =~= want);
    Json::object().with(
        "playlist",
        summarize(p, tracks.len(), total as i64).with("entry", Json::array(entries)),
    )
}

// ── Tracks of a playlist ────────────────────────────────────────

/// The playlist holds a track with this key.
pub open spec fn has_track(s: Seq<CollabTrackView>, key: (Seq<char>, Seq<char>)) -> bool {
    exists|i: int| 0 <= i < s.len() && (#[trigger] s[i]).key() == key
}

/// The tracks after one was added at the end; a track that is there already is
/// not added again.
pub open spec fn with_track(s: Seq<CollabTrackView>, t: CollabTrackView) -> Seq<CollabTrackView> {
    if has_track(s, t.key()) {
        s
    } else {
        s.push(t)
    }
}

/// The tracks without the one with this key.
pub open spec fn without_track(s: Seq<CollabTrackView>, key: (Seq<char>, Seq<char>)) -> Seq<
    CollabTrackView,
>
    decreases s.len(),
{
    if s.len() == 0 {
        seq![]
    } else {
        let rest = without_track(s.drop_last(), key);
        if s.last().key() == key {
            rest
        } else {
            rest.push(s.last())
        }
    }
}

/// Adds a track at the end of a playlist, unless it is there already.
pub fn add_track(tracks: &mut Vec<CollabTrack>, track: &CollabTrack)
    ensures
        views(final(tracks)@) == with_track(views(old(tracks)@), track@),
{
    let ghost s = views(tracks@);
    let mut i: usize = 0;
    while i < tracks.len()
        invariant
            i <= tracks@.len(),
            s == views(tracks@),
            s == views(old(tracks)@),
            forall|j: int| 0 <= j < i ==> (#[trigger] s[j]).key() != track@.key(),
        decreases tracks@.len() - i,
    {
        assert(s[i as int] == tracks@[i as int]@);
        if str_eq(tracks[i].track_id.as_str(), track.track_id.as_str()) && str_eq(
            tracks[i].owner_node.as_str(),
            track.owner_node.as_str(),
        ) {
            assert(s[i as int].key() == track@.key());
            return;
        }
        i += 1;
    }
    let c = track.clone();
    tracks.push(c);
    assert(views(tracks@) =~= s.push(track@));
}

/// Removes a track from a playlist; the tracks behind it move up.
pub fn remove_track(tracks: &mut Vec<CollabTrack>, track_id: &str, owner_node: &str)
    ensures
        views(final(tracks)@) == without_track(views(old(tracks)@), (track_id@, owner_node@)),
{
    let ghost s = views(tracks@);
    let mut out: Vec<CollabTrack> = Vec::new();
    let mut i: usize = 0;
    assert(s.take(0) =~= seq![]);
    assert(views(out@) =~= seq![]);
    while i < tracks.len()
        invariant
            i <= tracks@.len(),
            s == views(tracks@),
            views(out@) == without_track(s.take(i as int), (track_id@, owner_node@)),
        decreases tracks@.len() - i,
    {
        let ghost before = out@;
        proof {
            assert(s.take(i + 1).drop_last() =~= s.take(i as int));
            assert(s.take(i + 1).last() == tracks@[i as int]@);
        }
        if !(str_eq(tracks[i].track_id.as_str(), track_id) && str_eq(
            tracks[i].owner_node.as_str(),
            owner_node,
        )) {
            let c = tracks[i].clone();
            let ghost cv = c@;
            out.push(c);
            assert(views(out@) =~= views(before).push(cv));
        }
        i += 1;
    }
    assert(s.take(i as int) =~= s);
    *tracks = out;
}

/// Adding a track again changes nothing.
pub proof fn adding_again_changes_nothing(s: Seq<CollabTrackView>, t: CollabTrackView)
    ensures
        with_track(with_track(s, t), t) == with_track(s, t),
{
    if !has_track(s, t.key()) {
        assert(s.push(t)[s.len() as int].key() == t.key());
    }
}

/// A removed track is gone, and all others are there in their order.
pub proof fn removal_takes_one_track(s: Seq<CollabTrackView>, key: (Seq<char>, Seq<char>))
    ensures
        !has_track(without_track(s, key), key),
        !has_track(s, key) ==> without_track(s, key) == s,
    decreases s.len(),
{
    if s.len() > 0 {
        let d = s.drop_last();
        let rest = without_track(d, key);
        let all = without_track(s, key);
        removal_takes_one_track(d, key);
        if has_track(all, key) {
            let i = choose|i: int| 0 <= i < all.len() && (#[trigger] all[i]).key() == key;
            assert(i < rest.len() ==> rest[i].key() == key);
        }
        if !has_track(s, key) {
            if has_track(d, key) {
                let i = choose|i: int| 0 <= i < d.len() && (#[trigger] d[i]).key() == key;
                assert(s[i].key() == key);
            }
            assert(s[s.len() - 1].key() != key);
            assert(d.push(s.last()) =~= s);
        }
    }
}

// ── Laws of how collaborative playlists are shown ───────────────

/// Owners and collaborators may edit, viewers and strangers may not.
pub proof fn owners_and_collaborators_edit()
    ensures
        may_edit(Some(Role::Owner)),
        may_edit(Some(Role::Collab)),
        !may_edit(Some(Role::Viewer)),
        !may_edit(None),
        role_name(Role::Owner) == "owner"@,
        role_name(Role::Collab) == "collab"@,
        role_name(Role::Viewer) == "viewer"@,
{
}

/// A time that is written with a space is shown with a "T" in its place and a "Z"
/// at the end; one that has its "T" already is shown as it is.
pub proof fn times_are_shown_in_one_form(date: Seq<char>, time: Seq<char>)
    requires
        !date.contains('T'),
        !date.contains(' '),
        !time.contains('T'),
        !time.contains(' '),
    ensures
        iso8601(date + seq![' '] + time) == date + seq!['T'] + time + seq!['Z'],
        iso8601(date + seq!['T'] + time) == date + seq!['T'] + time,
{
    let spaced = date + seq![' '] + time;
    let joined = date + seq!['T'] + time;
    assert(joined[date.len() as int] == 'T');
    assert forall|i: int| 0 <= i < date.len() implies date[i] != 'T' && date[i] != ' ' by {
        assert(date.contains(date[i]));
    }
    assert forall|i: int| 0 <= i < time.len() implies time[i] != 'T' && time[i] != ' ' by {
        assert(time.contains(time[i]));
    }
    assert forall|i: int| 0 <= i < spaced.len() implies spaced[i] != 'T' by {
        if i < date.len() {
            assert(spaced[i] == date[i]);
        } else if i > date.len() {
            assert(spaced[i] == time[i - date.len() - 1]);
        }
    }
    assert(iso8601(spaced) =~= joined + seq!['Z']);
}

/// A collaborative playlist is shown under the identifier by which it is found
/// again, marked as such, with its creator, its number of songs, its duration
/// and its time of creation.
pub proof fn collaborative_playlists_are_shown(
    p: CollabPlaylistView,
    song_count: nat,
    duration: int,
)
    ensures
        ({
            let r = playlist_summary(p, song_count, duration);
            &&& r.get("id"@) == Some(JsonView::Text(collab_id(p.id)))
            &&& r.get("name"@) == Some(JsonView::Text("[Collab] "@ + p.name))
            &&& r.get("comment"@) == Some(JsonView::Text("Collaborative playlist (created by "@ + p.created_by + ")"@))
            &&& r.get("public"@) == Some(JsonView::Bool(true))
            &&& r.get("owner"@) == Some(JsonView::Text(p.created_by))
            &&& r.get("songCount"@) == Some(whole(song_count))
            &&& r.get("duration"@) == Some(integer(duration))
            &&& r.get("created"@) == Some(JsonView::Text(iso8601(p.created_at)))
            &&& r.get("changed"@) == Some(JsonView::Text(iso8601(p.created_at)))
        }),
{
    broadcast use reading_after_setting;

    reveal_strlit("id");
    reveal_strlit("name");
    reveal_strlit("comment");
    reveal_strlit("public");
    reveal_strlit("owner");
    reveal_strlit("songCount");
    reveal_strlit("duration");
    reveal_strlit("created");
    reveal_strlit("changed");
    assert("id"@.len() == 2 && "name"@.len() == 4 && "comment"@.len() == 7);
    assert("public"@.len() == 6 && "owner"@.len() == 5 && "songCount"@.len() == 9);
    assert("duration"@.len() == 8 && "created"@.len() == 7 && "changed"@.len() == 7);
    assert("comment"@[1] != "created"@[1]);
    assert("comment"@[1] != "changed"@[1]);
    assert("created"@[1] != "changed"@[1]);
}

/// A track of a collaborative playlist is shown under an identifier that leads to
/// its owner, with what is known of it.
pub proof fn collaborative_tracks_are_shown(t: CollabTrackView)
    ensures
        ({
            let r = playlist_entry(t);
            &&& r.get("id"@) == Some(JsonView::Text(remote_track_id(t.owner_node, t.track_id)))
            &&& r.get("coverArt"@) == Some(
                JsonView::Text(remote_track_id(t.owner_node, t.track_id)),
            )
            &&& r.get("title"@) == Some(JsonView::Text(t.title))
            &&& t.artist matches Some(a) ==> r.get("artist"@) == Some(JsonView::Text(a))
            &&& t.artist is None ==> r.get("artist"@) == Some(JsonView::Text(""@))
            &&& t.album matches Some(a) ==> r.get("album"@) == Some(JsonView::Text(a))
            &&& t.album is None ==> r.get("album"@) == Some(JsonView::Text(""@))
            &&& t.duration matches Some(d) ==> r.get("duration"@) == Some(integer(d as int))
            &&& t.duration is None ==> r.get("duration"@) == Some(integer(0))
            &&& r.get("isDir"@) == Some(JsonView::Bool(false))
        }),
{
    broadcast use reading_after_setting;

    reveal_strlit("id");
    reveal_strlit("title");
    reveal_strlit("artist");
    reveal_strlit("album");
    reveal_strlit("duration");
    reveal_strlit("isDir");
    reveal_strlit("coverArt");
    assert("id"@.len() == 2 && "title"@.len() == 5 && "artist"@.len() == 6);
    assert("album"@.len() == 5 && "duration"@.len() == 8 && "isDir"@.len() == 5);
    assert("coverArt"@.len() == 8);
    assert("title"@[0] != "album"@[0]);
    assert("title"@[0] != "isDir"@[0]);
    assert("album"@[0] != "isDir"@[0]);
    assert("duration"@[0] != "coverArt"@[0]);
}

/// The duration of tracks is the sum of theirs; one of unknown duration adds
/// nothing.
pub proof fn durations_add_up(a: Seq<CollabTrackView>, b: Seq<CollabTrackView>, t: CollabTrackView)
    ensures
        total_duration(a + b) == total_duration(a) + total_duration(b),
        t.duration matches Some(d) ==> total_duration(seq![t]) == d,
        t.duration is None ==> total_duration(seq![t]) == 0,
        total_duration(seq![]) == 0,
    decreases b.len(),
{
    assert(seq![t].drop_last() =~= seq![]);
    reveal_with_fuel(total_duration, 2);
    if b.len() == 0 {
        assert(a + b =~= a);
    } else {
        durations_add_up(a, b.drop_last(), t);
        assert((a + b).drop_last() =~= a + b.drop_last());
    }
}

/// While no sum along the way leaves the range, the running duration is the total.
pub proof fn running_duration_is_the_total(s: Seq<CollabTrackView>)
    ensures
        running_duration(s) matches Some(t) ==> t == total_duration(s) && i64::MIN <= t <= i64::MAX,
        (forall|n: int|
            0 <= n <= s.len() ==> i64::MIN <= #[trigger] total_duration(s.take(n)) <= i64::MAX)
            ==> running_duration(s) is Some,
    decreases s.len(),
{
    if s.len() > 0 {
        let d = s.drop_last();
        running_duration_is_the_total(d);
        if forall|n: int|
            0 <= n <= s.len() ==> i64::MIN <= #[trigger] total_duration(s.take(n)) <= i64::MAX {
            assert(s.take(s.len() as int) =~= s);
            assert(i64::MIN <= total_duration(s.take(s.len() as int)) <= i64::MAX);
            assert forall|n: int| 0 <= n <= d.len() implies i64::MIN <= #[trigger] total_duration(
                d.take(n),
            ) <= i64::MAX by {
                assert(d.take(n) =~= s.take(n));
            }
        }
    }
}

/// The playlists are listed by name, each with its number of songs and their
/// total duration.
pub proof fn collaborative_playlists_are_listed_by_name(
    rows: Seq<(CollabPlaylistView, Seq<CollabTrackView>)>,
) -> (t: Seq<(CollabPlaylistView, Seq<CollabTrackView>)>)
    ensures
        t.to_multiset() == rows.to_multiset(),
        listed_playlists(rows) == t.map_values(
            |p: (CollabPlaylistView, Seq<CollabTrackView>)|
                playlist_summary(p.0, p.1.len(), total_duration(p.1)),
        ),
        forall|i: int, j: int|
            0 <= i < j < t.len() ==> !text_less((#[trigger] t[j]).0.name, (#[trigger] t[i]).0.name),
{
    let key = |p: (CollabPlaylistView, Seq<CollabTrackView>)| listed_playlist(p);
    let leq = ranking::<TextKeyed>();
    ranking_is_total_preorder::<TextKeyed>();
    let t = sorting_keys_sorts_items(rows, key, leq);
    let sorted = stable_sort(rows.map_values(key), leq);
    assert(sorted == t.map_values(key));
    assert(listed_playlists(rows) =~= t.map_values(
        |p: (CollabPlaylistView, Seq<CollabTrackView>)|
            playlist_summary(p.0, p.1.len(), total_duration(p.1)),
    ));
    assert forall|i: int, j: int| 0 <= i < j < t.len() implies !text_less(
        (#[trigger] t[j]).0.name,
        (#[trigger] t[i]).0.name,
    ) by {
        assert(leq(sorted[i], sorted[j]));
    }
    t
}

/// A playlist is shown with all its tracks, in order.
pub proof fn details_show_all_tracks(p: CollabPlaylistView, tracks: Seq<CollabTrackView>, i: int)
    ensures
        ({
            let r = playlist_detail(p, tracks);
            let shown = r.items_in("playlist"@, "entry"@);
            &&& shown.len() == tracks.len()
            &&& 0 <= i < tracks.len() ==> shown[i] == playlist_entry(tracks[i])
            &&& r.get("playlist"@) matches Some(l) && l.get("name"@) == Some(
                JsonView::Text("[Collab] "@ + p.name),
            ) && l.get("songCount"@) == Some(whole(tracks.len())) && l.get("duration"@) == Some(
                integer(total_duration(tracks)),
            )
        }),
{
    broadcast use reading_after_setting;

    reveal_strlit("name");
    reveal_strlit("songCount");
    reveal_strlit("duration");
    reveal_strlit("entry");
    assert("name"@.len() == 4 && "songCount"@.len() == 9 && "duration"@.len() == 8);
    assert("entry"@.len() == 5);
    collaborative_playlists_are_shown(p, tracks.len(), total_duration(tracks));
}

/// Removing a track takes exactly the tracks with its key; adding one that is not
/// there puts it last.
pub proof fn tracks_come_and_go_by_key(
    s: Seq<CollabTrackView>,
    t: CollabTrackView,
    key: (Seq<char>, Seq<char>),
)
    ensures
        without_track(s, key) == s.filter(|t: CollabTrackView| t.key() != key),
        (forall|i: int| 0 <= i < s.len() ==> (#[trigger] s[i]).key() != t.key()) ==> with_track(s, t)
            == s.push(t),
        t.key() == (t.track_id, t.owner_node),
    decreases s.len(),
{
    lemma_filter_end(s, |t: CollabTrackView| t.key() != key);
    if s.len() > 0 {
        tracks_come_and_go_by_key(s.drop_last(), t, key);
    }
}

/// An operation is about the playlist that it names.
pub proof fn operations_name_their_playlist(id: String, name: String, track: CollabTrack)
    ensures
        (PlaylistOp::Create { playlist_id: id, name }).about() == id@,
        (PlaylistOp::AddTrack { playlist_id: id, track }).about() == id@,
        (PlaylistOp::Rename { playlist_id: id, name }).about() == id@,
        (PlaylistOp::Delete { playlist_id: id }).about() == id@,
{
}

} // verus!
