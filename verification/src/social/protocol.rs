//! Messages exchanged between Fugue nodes.

use crate::json::{object, reading_after_setting, whole, Json, JsonView, Number, NumberView};
use crate::social::collab_playlist::PlaylistOp;
use crate::social::crdt::CrdtOp;
use crate::strs::{opt_text, views};
use vstd::prelude::*;

verus! {

/// Playback state in a party session.
#[derive(Debug, Clone, Copy, PartialEq, Eq, Structural)]
pub enum PartyPlaybackState {
    Playing,
    Paused,
    Stopped,
}

/// Minimal track identity for cross-server matching in party mode.
#[derive(Debug)]
pub struct PartyTrack {
    /// Dedup fingerprint ("t::artist::album::title::track_no"): the primary match key.
    pub fingerprint: Option<String>,
    /// Subsonic song ID on the host's server (fallback / display).
    pub song_id: String,
    pub title: String,
    pub artist: String,
    pub album: String,
    pub track_number: Option<u32>,
    pub duration_secs: Option<Number>,
}

/// A party track, as characters and numbers.
pub struct PartyTrackView {
    pub fingerprint: Option<Seq<char>>,
    pub song_id: Seq<char>,
    pub title: Seq<char>,
    pub artist: Seq<char>,
    pub album: Seq<char>,
    pub track_number: Option<u32>,
    pub duration_secs: Option<NumberView>,
}

/// What an optional number holds.
pub open spec fn opt_number(n: Option<Number>) -> Option<NumberView> {
    match n {
        Some(x) => Some(x@),
        None => None,
    }
}

impl View for PartyTrack {
    type V = PartyTrackView;

    open spec fn view(&self) -> PartyTrackView {
        PartyTrackView {
            fingerprint: opt_text(self.fingerprint),
            song_id: self.song_id@,
            title: self.title@,
            artist: self.artist@,
            album: self.album@,
            track_number: self.track_number,
            duration_secs: opt_number(self.duration_secs),
        }
    }
}

impl Clone for PartyTrack {
    fn clone(&self) -> (r: Self)
        ensures
            r@ == self@,
    {
        PartyTrack {
            fingerprint: self.fingerprint.clone(),
            song_id: self.song_id.clone(),
            title: self.title.clone(),
            artist: self.artist.clone(),
            album: self.album.clone(),
            track_number: self.track_number,
            duration_secs: clone_number(&self.duration_secs),
        }
    }
}

fn clone_number(n: &Option<Number>) -> (r: Option<Number>)
    ensures
        opt_number(r) == opt_number(*n),
{
    match n {
        Some(x) => Some(x.clone()),
        None => None,
    }
}

/// Copies a list of tracks.
pub fn clone_tracks(tracks: &Vec<PartyTrack>) -> (r: Vec<PartyTrack>)
    ensures
        views(r@) == views(tracks@),
{
    let mut out: Vec<PartyTrack> = Vec::new();
    let mut i: usize = 0;
    while i < tracks.len()
        invariant
            i <= tracks@.len(),
            views(out@) == views(tracks@).take(i as int),
        decreases tracks@.len() - i,
    {
        let ghost before = out@;
        let c = tracks[i].clone();
        out.push(c);
        proof {
            assert(views(out@) =~= views(before).push(c@));
            assert(views(tracks@).take(i + 1) =~= views(tracks@).take(i as int).push(c@));
        }
        i += 1;
    }
    assert(views(tracks@).take(i as int) =~= views(tracks@));
    out
}

/// What an optional track holds.
pub open spec fn opt_track(t: Option<PartyTrack>) -> Option<PartyTrackView> {
    match t {
        Some(x) => Some(x@),
        None => None,
    }
}

/// Copies an optional track.
pub fn clone_track(t: &Option<PartyTrack>) -> (r: Option<PartyTrack>)
    ensures
        opt_track(r) == opt_track(*t),
{
    match t {
        Some(x) => Some(x.clone()),
        None => None,
    }
}

/// Zero seconds.
pub fn zero_secs() -> (r: Number)
    ensures
        r@ == NumberView::Float("0.0"@),
{
    Number::Float("0.0".to_owned())
}

/// A playback state as JSON.
pub open spec fn state_json(s: PartyPlaybackState) -> JsonView {
    match s {
        PartyPlaybackState::Playing => JsonView::Text("Playing"@),
        PartyPlaybackState::Paused => JsonView::Text("Paused"@),
        PartyPlaybackState::Stopped => JsonView::Text("Stopped"@),
    }
}

/// A playback state as JSON.
pub fn state_to_json(s: PartyPlaybackState) -> (r: Json)
    ensures
        r@ == state_json(s),
{
    match s {
        PartyPlaybackState::Playing => Json::text("Playing"),
        PartyPlaybackState::Paused => Json::text("Paused"),
        PartyPlaybackState::Stopped => Json::text("Stopped"),
    }
}

/// `o` with the member `key`, if there is a value for it.
pub open spec fn with_some(o: JsonView, key: Seq<char>, v: Option<JsonView>) -> JsonView {
    match v {
        Some(x) => o.with(key, x),
        None => o,
    }
}

/// A track as JSON; what it does not know is left out.
pub open spec fn track_json(t: PartyTrackView) -> JsonView {
    let o = object().with("song_id"@, JsonView::Text(t.song_id)).with(
        "title"@,
        JsonView::Text(t.title),
    ).with("artist"@, JsonView::Text(t.artist)).with("album"@, JsonView::Text(t.album));
    let o = with_some(
        o,
        "fingerprint"@,
        match t.fingerprint {
            Some(f) => Some(JsonView::Text(f)),
            None => None,
        },
    );
    let o = with_some(
        o,
        "track_number"@,
        match t.track_number {
            Some(n) => Some(whole(n as nat)),
            None => None,
        },
    );
    with_some(
        o,
        "duration_secs"@,
        match t.duration_secs {
            Some(d) => Some(JsonView::Number(d)),
            None => None,
        },
    )
}

/// A track as JSON; what it does not know is left out.
pub fn track_to_json(t: &PartyTrack) -> (r: Json)
    ensures
        r@ == track_json(t@),
{
    let mut o = Json::object().with_text("song_id", t.song_id.as_str()).with_text(
        "title",
        t.title.as_str(),
    ).with_text("artist", t.artist.as_str()).with_text("album", t.album.as_str());
    match &t.fingerprint {
        Some(f) => {
            o.set("fingerprint", Json::text(f.as_str()));
        },
        None => {},
    }
    match t.track_number {
        Some(n) => {
            o.set("track_number", Json::whole(n as u64));
        },
        None => {},
    }
    match &t.duration_secs {
        Some(d) => {
            o.set("duration_secs", Json::Number(d.clone()));
        },
        None => {},
    }
    o
}

/// An optional track as JSON: null if there is none.
pub open spec fn opt_track_json(t: Option<PartyTrackView>) -> JsonView {
    match t {
        Some(x) => track_json(x),
        None => JsonView::Null,
    }
}

/// An optional track as JSON: null if there is none.
pub fn opt_track_to_json(t: &Option<PartyTrack>) -> (r: Json)
    ensures
        r@ == opt_track_json(opt_track(*t)),
{
    match t {
        Some(x) => track_to_json(x),
        None => Json::Null,
    }
}

/// A list of tracks as JSON.
pub open spec fn tracks_json(s: Seq<PartyTrackView>) -> JsonView {
    JsonView::Array(s.map_values(|t: PartyTrackView| track_json(t)))
}

/// A list of tracks as JSON.
pub fn tracks_to_json(tracks: &Vec<PartyTrack>) -> (r: Json)
    ensures
        r@ == tracks_json(views(tracks@)),
{
    let mut out: Vec<Json> = Vec::new();
    let mut i: usize = 0;
    let ghost want = views(tracks@).map_values(|t: PartyTrackView| track_json(t));
    while i < tracks.len()
        invariant
            i <= tracks@.len(),
            want == views(tracks@).map_values(|t: PartyTrackView| track_json(t)),
            views(out@) == want.take(i as int),
        decreases tracks@.len() - i,
    {
        let ghost before = out@;
        let c = track_to_json(&tracks[i]);
        out.push(c);
        proof {
            assert(views(out@) =~= views(before).push(c@));
            assert(want.take(i + 1) =~= want.take(i as int).push(c@));
        }
        i += 1;
    }
    assert(want.take(i as int) =~= want);
    Json::array(out)
}

/// A member that may be left out or null: its text, or a fault if it is
/// something else.
pub open spec fn opt_member_text(v: JsonView, key: Seq<char>) -> Option<Option<Seq<char>>> {
    match v.get(key) {
        None => Some(None),
        Some(JsonView::Null) => Some(None),
        Some(JsonView::Text(s)) => Some(Some(s)),
        _ => None,
    }
}

/// A member that may be left out or null: a number of 32 bits, or a fault if
/// it is something else.
pub open spec fn opt_member_u32(v: JsonView, key: Seq<char>) -> Option<Option<u32>> {
    match v.get(key) {
        None => Some(None),
        Some(JsonView::Null) => Some(None),
        Some(JsonView::Number(NumberView::PosInt(n))) => if n <= u32::MAX {
            Some(Some(n as u32))
        } else {
            None
        },
        _ => None,
    }
}

/// A member that may be left out or null: a number, as a float is written, or a
/// fault if it is something else.
pub open spec fn opt_member_float(v: JsonView, key: Seq<char>) -> Option<Option<NumberView>> {
    match v.get(key) {
        None => Some(None),
        Some(JsonView::Null) => Some(None),
        Some(JsonView::Number(n)) => Some(Some(n.as_float())),
        _ => None,
    }
}

/// The track that a JSON value describes, if it describes one.
pub open spec fn described_track(v: JsonView) -> Option<PartyTrackView> {
    match (
        v.get_text("song_id"@),
        v.get_text("title"@),
        v.get_text("artist"@),
        v.get_text("album"@),
    ) {
        (Some(song_id), Some(title), Some(artist), Some(album)) => match (
            opt_member_text(v, "fingerprint"@),
            opt_member_u32(v, "track_number"@),
            opt_member_float(v, "duration_secs"@),
        ) {
            (Some(fingerprint), Some(track_number), Some(duration_secs)) => Some(
                PartyTrackView {
                    fingerprint,
                    song_id,
                    title,
                    artist,
                    album,
                    track_number,
                    duration_secs,
                },
            ),
            _ => None,
        },
        _ => None,
    }
}

/// Reads a track from JSON.
pub fn track_from_json(v: &Json) -> (r: Option<PartyTrack>)
    ensures
        opt_track(r) == described_track(v@),
{
    let song_id = match v.get_str("song_id") {
        Some(s) => s.clone(),
        None => {
            return None;
        },
    };
    let title = match v.get_str("title") {
        Some(s) => s.clone(),
        None => {
            return None;
        },
    };
    let artist = match v.get_str("artist") {
        Some(s) => s.clone(),
        None => {
            return None;
        },
    };
    let album = match v.get_str("album") {
        Some(s) => s.clone(),
        None => {
            return None;
        },
    };
    let fingerprint: Option<String> = match v.get("fingerprint") {
        None => None,
        Some(Json::Null) => None,
        Some(Json::Text(s)) => Some(s.clone()),
        _ => {
            return None;
        },
    };
    let track_number: Option<u32> = match v.get("track_number") {
        None => None,
        Some(Json::Null) => None,
        Some(Json::Number(Number::PosInt(n))) => if *n <= 4294967295 {
            Some(*n as u32)
        } else {
            return None;
        },
        _ => {
            return None;
        },
    };
    let duration_secs: Option<Number> = match v.get("duration_secs") {
        None => None,
        Some(Json::Null) => None,
        Some(Json::Number(n)) => Some(n.as_float()),
        _ => {
            return None;
        },
    };
    Some(
        PartyTrack { fingerprint, song_id, title, artist, album, track_number, duration_secs },
    )
}

/// The tracks that the items of a list describe, if each describes one.
pub open spec fn described_tracks(s: Seq<JsonView>) -> Option<Seq<PartyTrackView>>
    decreases s.len(),
{
    if s.len() == 0 {
        Some(seq![])
    } else {
        match (described_tracks(s.drop_last()), described_track(s.last())) {
            (Some(rest), Some(t)) => Some(rest.push(t)),
            _ => None,
        }
    }
}

proof fn lemma_undescribed(s: Seq<JsonView>, i: int)
    requires
        0 <= i < s.len(),
        described_track(s[i]) is None,
    ensures
        described_tracks(s) is None,
    decreases s.len(),
{
    if i < s.len() - 1 {
        lemma_undescribed(s.drop_last(), i);
    }
}

/// Reads a list of tracks from JSON; none if some item of it is no track, or if
/// there is no list.
pub fn tracks_from_json(v: Option<&Json>) -> (r: Vec<PartyTrack>)
    ensures
        ({
            let items = match v {
                Some(j) => j@.list(),
                None => None,
            };
            let want = match items {
                Some(s) => described_tracks(s),
                None => None,
            };
            views(r@) == match want {
                Some(tracks) => tracks,
                None => seq![],
            }
        }),
{
    let none: Vec<PartyTrack> = Vec::new();
    assert(views(none@) =~= seq![]);
    let items = match v {
        Some(j) => match j.as_array() {
            Some(a) => a,
            None => {
                return none;
            },
        },
        None => {
            return none;
        },
    };
    let ghost s = views(items@);
    let mut out: Vec<PartyTrack> = Vec::new();
    let mut i: usize = 0;
    assert(s.take(0) =~= seq![]);
    assert(views(out@) =~= seq![]);
    while i < items.len()
        invariant
            i <= items@.len(),
            s == views(items@),
            views(none@) == Seq::<PartyTrackView>::empty(),
            v matches Some(j) && j@.list() == Some(s),
            described_tracks(s.take(i as int)) == Some(views(out@)),
        decreases items@.len() - i,
    {
        let ghost before = out@;
        proof {
            assert(s.take(i + 1).drop_last() =~= s.take(i as int));
            assert(s.take(i + 1).last() == items@[i as int]@);
        }
        match track_from_json(&items[i]) {
            Some(t) => {
                let ghost tv = t@;
                out.push(t);
                assert(views(out@) =~= views(before).push(tv));
            },
            None => {
                proof {
                    assert(s[i as int] == items@[i as int]@);
                    lemma_undescribed(s, i as int);
                }
                return none;
            },
        }
        i += 1;
    }
    assert(s.take(i as int) =~= s);
    out
}

/// Messages sent over gossip between Fugue peers.
#[derive(Debug)]
#[allow(inconsistent_fields)]
pub enum GossipMessage {
    /// Announce what a user is currently playing.
    NowPlaying { display_name: String, track: Json },
    /// A user stopped playing.
    StoppedPlaying { display_name: String },
    /// Chat message.
    Chat { display_name: String, message: String },
    /// Library summary announcement.
    LibrarySummary { display_name: String, artist_count: i64, album_count: i64, track_count: i64 },
    /// Collaborative playlist operation.
    Playlist { op: PlaylistOp },
    /// CRDT sync: send operations for a collaborative playlist.
    CrdtSync { playlist_id: String, ops: Vec<CrdtOp> },
    /// Host created a new party session.
    PartyCreate { session_id: String, display_name: String, node_id: String },
    /// Host invites friends to join a session.
    PartyInvite { session_id: String, display_name: String, node_id: String },
    /// A follower joined the session.
    PartyJoin { session_id: String, display_name: String, node_id: String },
    /// A participant left the session.
    PartyLeave { session_id: String, display_name: String, node_id: String },
    /// Host ended the session.
    PartyEnd { session_id: String, display_name: String },
    /// Authoritative playback state from the host, sent on every state change
    /// and periodically as heartbeat.
    PartySync {
        session_id: String,
        /// Monotonically increasing; followers discard messages with seq <= last applied.
        seq: u64,
        /// Host wall-clock ms since UNIX epoch when this message was created.
        host_timestamp_ms: u64,
        state: PartyPlaybackState,
        track: Option<PartyTrack>,
        /// Playback position in seconds at `host_timestamp_ms`.
        position_secs: Number,
    },
    /// DJ's full playlist and queue state.
    PartyQueueSync {
        session_id: String,
        seq: u64,
        playlist: Vec<PartyTrack>,
        playlist_index: usize,
        queue: Vec<PartyTrack>,
        queue_index: usize,
        playing_from_queue: bool,
    },
}

/// Messages sent over direct QUIC streams for request/response.
#[derive(Debug)]
pub enum RequestMessage {
    /// Request the peer's full library index.
    GetLibrary,
    /// Request a specific album's tracks.
    GetAlbum { album_id: String },
    /// Request to stream a track (returns raw audio bytes).
    StreamTrack {
        track_id: String,
        /// Requested max bitrate in kbps. 0 = no preference (sender decides).
        max_bitrate: u32,
        /// Requested format. Empty = no preference.
        format: String,
    },
    /// Request cover art for a track (returns image bytes).
    StreamCoverArt { track_id: String },
    /// Query if this peer is hosting a party.
    GetPartyStatus,
    /// Request full party state (track, position, playlist) for follower polling.
    GetPartyFullState { session_id: String },
    /// NTP-style time ping for clock offset estimation.
    PartyTimePing { client_send_ms: u64 },
}

/// What a node answers to a direct request.
#[derive(Debug)]
pub enum ResponseMessage {
    /// Full library index.
    Library { data: Json },
    /// Album tracks.
    Album { data: Json },
    /// Party hosting status.
    PartyStatus { hosting: bool, session_id: Option<String>, host_name: Option<String> },
    /// Full party state for follower polling (bypasses gossip).
    PartyFullState {
        found: bool,
        seq: u64,
        state: Option<PartyPlaybackState>,
        track: Option<PartyTrack>,
        position_secs: Number,
        playlist: Vec<PartyTrack>,
        playlist_index: usize,
        queue: Vec<PartyTrack>,
        queue_index: usize,
        playing_from_queue: bool,
    },
    /// NTP-style time pong for clock offset estimation.
    PartyTimePong { client_send_ms: u64, server_recv_ms: u64, server_send_ms: u64 },
    /// Error response.
    Error { message: String },
}

/// A track that was written as JSON is read back as it was. Its length is a
/// float.
pub proof fn track_round_trip(t: PartyTrackView)
    requires
        t.duration_secs matches Some(d) ==> d is Float,
    ensures
        described_track(track_json(t)) == Some(t),
{
    lemma_names_differ();
    lemma_track_member(t, "song_id"@);
    lemma_track_member(t, "title"@);
    lemma_track_member(t, "artist"@);
    lemma_track_member(t, "album"@);
    lemma_track_member(t, "fingerprint"@);
    lemma_track_member(t, "track_number"@);
    lemma_track_member(t, "duration_secs"@);
}

proof fn lemma_names_differ()
    ensures
        "song_id"@ != "title"@,
        "song_id"@ != "artist"@,
        "song_id"@ != "album"@,
        "song_id"@ != "fingerprint"@,
        "song_id"@ != "track_number"@,
        "song_id"@ != "duration_secs"@,
        "title"@ != "artist"@,
        "title"@ != "album"@,
        "title"@ != "fingerprint"@,
        "title"@ != "track_number"@,
        "title"@ != "duration_secs"@,
        "artist"@ != "album"@,
        "artist"@ != "fingerprint"@,
        "artist"@ != "track_number"@,
        "artist"@ != "duration_secs"@,
        "album"@ != "fingerprint"@,
        "album"@ != "track_number"@,
        "album"@ != "duration_secs"@,
        "fingerprint"@ != "track_number"@,
        "fingerprint"@ != "duration_secs"@,
        "track_number"@ != "duration_secs"@,
{
    reveal_strlit("song_id");
    reveal_strlit("title");
    reveal_strlit("artist");
    reveal_strlit("album");
    reveal_strlit("fingerprint");
    reveal_strlit("track_number");
    reveal_strlit("duration_secs");
    assert("fingerprint"@.len() == 11);
    assert("track_number"@.len() == 12);
    assert("duration_secs"@.len() == 13);
    assert("song_id"@.len() == 7);
    assert("artist"@.len() == 6);
    assert("title"@[0] != "album"@[0]);
    assert("artist"@[1] != "album"@[1]);
}

/// What setting a member changes in what is read.
pub proof fn lemma_with_get(o: JsonView, key: Seq<char>, v: JsonView, other: Seq<char>)
    requires
        o is Object,
    ensures
        o.with(key, v) is Object,
        o.with(key, v).get(key) == Some(v),
        other != key ==> o.with(key, v).get(other) == o.get(other),
{
    crate::json::set_then_get(o->Object_0, key, v, other);
}

proof fn lemma_track_member(t: PartyTrackView, key: Seq<char>)
    ensures
        track_json(t).get(key) == if key == "duration_secs"@ {
            match t.duration_secs {
                Some(d) => Some(JsonView::Number(d)),
                None => None,
            }
        } else if key == "track_number"@ {
            match t.track_number {
                Some(n) => Some(whole(n as nat)),
                None => None,
            }
        } else if key == "fingerprint"@ {
            match t.fingerprint {
                Some(f) => Some(JsonView::Text(f)),
                None => None,
            }
        } else if key == "album"@ {
            Some(JsonView::Text(t.album))
        } else if key == "artist"@ {
            Some(JsonView::Text(t.artist))
        } else if key == "title"@ {
            Some(JsonView::Text(t.title))
        } else if key == "song_id"@ {
            Some(JsonView::Text(t.song_id))
        } else {
            None
        },
{
    lemma_names_differ();
    let o0 = object();
    let o1 = o0.with("song_id"@, JsonView::Text(t.song_id));
    let o2 = o1.with("title"@, JsonView::Text(t.title));
    let o3 = o2.with("artist"@, JsonView::Text(t.artist));
    let o4 = o3.with("album"@, JsonView::Text(t.album));
    lemma_with_get(o0, "song_id"@, JsonView::Text(t.song_id), key);
    lemma_with_get(o1, "title"@, JsonView::Text(t.title), key);
    lemma_with_get(o2, "artist"@, JsonView::Text(t.artist), key);
    lemma_with_get(o3, "album"@, JsonView::Text(t.album), key);
    let o5 = with_some(
        o4,
        "fingerprint"@,
        match t.fingerprint {
            Some(f) => Some(JsonView::Text(f)),
            None => None,
        },
    );
    if t.fingerprint is Some {
        lemma_with_get(o4, "fingerprint"@, JsonView::Text(t.fingerprint->0), key);
    }
    let o6 = with_some(
        o5,
        "track_number"@,
        match t.track_number {
            Some(n) => Some(whole(n as nat)),
            None => None,
        },
    );
    if t.track_number is Some {
        lemma_with_get(o5, "track_number"@, whole(t.track_number->0 as nat), key);
    }
    if t.duration_secs is Some {
        lemma_with_get(o6, "duration_secs"@, JsonView::Number(t.duration_secs->0), key);
    }
}

/// A playback state is written by its name.
pub proof fn states_are_written_by_name()
    ensures
        state_json(PartyPlaybackState::Playing) == JsonView::Text("Playing"@),
        state_json(PartyPlaybackState::Paused) == JsonView::Text("Paused"@),
        state_json(PartyPlaybackState::Stopped) == JsonView::Text("Stopped"@),
{
}

/// A track is written with what is known of it, each part under its own name, and
/// nothing is written of what is not known.
pub proof fn tracks_are_written_part_by_part(t: PartyTrackView)
    ensures
        ({
            let r = track_json(t);
            &&& r.get("song_id"@) == Some(JsonView::Text(t.song_id))
            &&& r.get("title"@) == Some(JsonView::Text(t.title))
            &&& r.get("artist"@) == Some(JsonView::Text(t.artist))
            &&& r.get("album"@) == Some(JsonView::Text(t.album))
            &&& t.fingerprint matches Some(f) ==> r.get("fingerprint"@) == Some(JsonView::Text(f))
            &&& t.fingerprint is None ==> r.get("fingerprint"@) is None
            &&& t.track_number matches Some(n) ==> r.get("track_number"@) == Some(
                JsonView::Number(NumberView::PosInt(n as u64)),
            )
            &&& t.track_number is None ==> r.get("track_number"@) is None
            &&& t.duration_secs matches Some(d) ==> r.get("duration_secs"@) == Some(
                JsonView::Number(d),
            )
            &&& t.duration_secs is None ==> r.get("duration_secs"@) is None
        }),
{
    broadcast use reading_after_setting;

    reveal_strlit("song_id");
    reveal_strlit("title");
    reveal_strlit("artist");
    reveal_strlit("album");
    reveal_strlit("fingerprint");
    reveal_strlit("track_number");
    reveal_strlit("duration_secs");
    assert("song_id"@.len() == 7 && "title"@.len() == 5 && "artist"@.len() == 6);
    assert("album"@.len() == 5 && "fingerprint"@.len() == 11 && "track_number"@.len() == 12);
    assert("duration_secs"@.len() == 13);
    assert("title"@[0] != "album"@[0]);
}

/// A list of tracks is read as it was written, track by track; one that holds
/// something else is not read.
pub proof fn lists_of_tracks_are_read_back(s: Seq<PartyTrackView>)
    requires
        forall|i: int|
            0 <= i < s.len() ==> ((#[trigger] s[i]).duration_secs matches Some(d) ==> d is Float),
    ensures
        tracks_json(s) is Array,
        described_tracks(tracks_json(s)->Array_0) == Some(s),
    decreases s.len(),
{
    let f = |t: PartyTrackView| track_json(t);
    if s.len() > 0 {
        let d = s.drop_last();
        assert forall|i: int| 0 <= i < d.len() implies ((#[trigger] d[i]).duration_secs matches Some(
            x,
        ) ==> x is Float) by {
            assert(d[i] == s[i]);
        }
        lists_of_tracks_are_read_back(d);
        assert(s[s.len() - 1] == s.last());
        track_round_trip(s.last());
        assert(s.map_values(f).drop_last() =~= d.map_values(f));
        assert(d.push(s.last()) =~= s);
    }
}

} // verus!
