//! Following a party by asking its host.
//!
//! Besides gossip, a follower listens to the host's event stream and polls the
//! host's state. The poll is slow while pushed events arrive and fast when they
//! may be missing.

use crate::codec::utf8_string;
use crate::json::{reading_after_setting, whole, Json, JsonView, Number, NumberView};
use crate::seqs::lemma_flat_end;
use crate::social::party::{PartySessionView, PartyState, PartyStateView};
use crate::social::protocol::{
    described_track, opt_track, state_json, state_to_json, track_from_json, track_json,
    track_round_trip, track_to_json, tracks_json, tracks_to_json, zero_secs, PartyPlaybackState,
    PartyTrack, PartyTrackView,
};
use crate::social::service::{
    make_party_end_event, make_sync_event, party_end_event, make_queue_event,
    queue_event, remap_party_tracks_remote, remap_track, remote_party_track,
    remote_party_tracks, sync_event,
};
use crate::strs::{contains_str, has_text, str_eq, views};
use crate::subsonic::system::{full_state, hosts_show_the_full_state};
use vstd::prelude::*;
use vstd::utf8::{decode_utf8, valid_utf8};

verus! {

/// What a host says of its party.
#[derive(Debug)]
pub struct PollResult {
    pub found: bool,
    pub seq: u64,
    pub state: Option<PartyPlaybackState>,
    pub track: Option<PartyTrack>,
    pub position_secs: Number,
    pub dj_timestamp_ms: u64,
    pub playlist: Vec<PartyTrack>,
    pub playlist_index: usize,
    pub queue: Vec<PartyTrack>,
    pub queue_index: usize,
    pub playing_from_queue: bool,
}

/// What a host says of its party, as characters, numbers and sequences.
pub struct PollView {
    pub found: bool,
    pub seq: u64,
    pub state: Option<PartyPlaybackState>,
    pub track: Option<PartyTrackView>,
    pub position_secs: NumberView,
    pub dj_timestamp_ms: u64,
    pub playlist: Seq<PartyTrackView>,
    pub playlist_index: usize,
    pub queue: Seq<PartyTrackView>,
    pub queue_index: usize,
    pub playing_from_queue: bool,
}

impl View for PollResult {
    type V = PollView;

    open spec fn view(&self) -> PollView {
        PollView {
            found: self.found,
            seq: self.seq,
            state: self.state,
            track: opt_track(self.track),
            position_secs: self.position_secs@,
            dj_timestamp_ms: self.dj_timestamp_ms,
            playlist: views(self.playlist@),
            playlist_index: self.playlist_index,
            queue: views(self.queue@),
            queue_index: self.queue_index,
            playing_from_queue: self.playing_from_queue,
        }
    }
}

/// The answer of a host that hosts no party.
pub open spec fn nothing_found() -> PollView {
    PollView {
        found: false,
        seq: 0,
        state: None,
        track: None,
        position_secs: NumberView::Float("0.0"@),
        dj_timestamp_ms: 0,
        playlist: seq![],
        playlist_index: 0,
        queue: seq![],
        queue_index: 0,
        playing_from_queue: false,
    }
}

/// The playback state that a JSON value names, if it names one.
pub open spec fn named_state(v: Option<JsonView>) -> Option<PartyPlaybackState> {
    match v {
        Some(JsonView::Text(s)) => if s == "Playing"@ {
            Some(PartyPlaybackState::Playing)
        } else if s == "Paused"@ {
            Some(PartyPlaybackState::Paused)
        } else if s == "Stopped"@ {
            Some(PartyPlaybackState::Stopped)
        } else {
            None
        },
        _ => None,
    }
}

fn state_from_json(v: Option<&Json>) -> (r: Option<PartyPlaybackState>)
    ensures
        r == named_state(
            match v {
                Some(j) => Some(j@),
                None => None,
            },
        ),
{
    match v {
        Some(Json::Text(s)) => if str_eq(s.as_str(), "Playing") {
            Some(PartyPlaybackState::Playing)
        } else if str_eq(s.as_str(), "Paused") {
            Some(PartyPlaybackState::Paused)
        } else if str_eq(s.as_str(), "Stopped") {
            Some(PartyPlaybackState::Stopped)
        } else {
            None
        },
        _ => None,
    }
}

/// The tracks among `items`, in their order.
pub open spec fn described_tracks(items: Seq<JsonView>) -> Seq<PartyTrackView>
    decreases items.len(),
{
    if items.len() == 0 {
        seq![]
    } else {
        match described_track(items.last()) {
            Some(t) => described_tracks(items.drop_last()).push(t),
            None => described_tracks(items.drop_last()),
        }
    }
}

/// The tracks that a member lists: none unless every item is a track.
pub open spec fn listed_tracks(v: JsonView, key: Seq<char>) -> Seq<PartyTrackView> {
    let items = v.items(key);
    if described_tracks(items).len() == items.len() {
        described_tracks(items)
    } else {
        seq![]
    }
}

fn read_tracks(items: &Vec<Json>) -> (r: Vec<PartyTrack>)
    ensures
        views(r@) == described_tracks(views(items@)),
{
    let ghost s = views(items@);
    let mut out: Vec<PartyTrack> = Vec::new();
    let mut i: usize = 0;
    assert(s.take(0) =~= seq![]);
    assert(views(out@) =~= seq![]);
    while i < items.len()
        invariant
            i <= items@.len(),
            s == views(items@),
            views(out@) == described_tracks(s.take(i as int)),
        decreases items@.len() - i,
    {
        let ghost before = out@;
        proof {
            assert(s.take(i + 1).drop_last() =~= s.take(i as int));
            assert(s.take(i + 1).last() == items@[i as int]@);
        }
        match track_from_json(&items[i]) {
            Some(t) => {
                let ghost tv = t@;
                out.push(t);
                assert(views(out@) =~= views(before).push(tv));
            },
            None => {},
        }
        i += 1;
    }
    assert(s.take(i as int) =~= s);
    out
}

fn list_tracks(v: &Json, key: &str) -> (r: Vec<PartyTrack>)
    ensures
        views(r@) == listed_tracks(v@, key@),
{
    let mut items: Vec<Json> = Vec::new();
    assert(views(items@) =~= seq![]);
    v.append_to(key, &mut items);
    assert(seq![] + v@.items(key@) =~= v@.items(key@));
    let tracks = read_tracks(&items);
    assert(views(tracks@).len() == tracks@.len() && views(items@).len() == items@.len());
    if tracks.len() == items.len() {
        tracks
    } else {
        let none: Vec<PartyTrack> = Vec::new();
        assert(views(none@) =~= seq![]);
        none
    }
}

/// The number under a name, zero if there is none.
pub open spec fn number_or_zero(v: JsonView, key: Seq<char>) -> u64 {
    match v.get(key) {
        Some(x) => match x.natural() {
            Some(n) => n,
            None => 0,
        },
        None => 0,
    }
}

/// The flag under a name, false if there is none.
pub open spec fn flag(v: JsonView, key: Seq<char>) -> bool {
    v.get(key) == Some(JsonView::Bool(true))
}

fn get_number(v: &Json, key: &str) -> (r: u64)
    ensures
        r == number_or_zero(v@, key@),
{
    match v.get(key) {
        Some(x) => match x.as_u64() {
            Some(n) => n,
            None => 0,
        },
        None => 0,
    }
}

fn get_flag(v: &Json, key: &str) -> (r: bool)
    ensures
        r == flag(v@, key@),
{
    match v.get(key) {
        Some(Json::Bool(b)) => *b,
        _ => false,
    }
}

/// What the body of a host's answer says.
pub open spec fn polled(body: JsonView) -> PollView {
    if !flag(body, "found"@) {
        nothing_found()
    } else {
        PollView {
            found: true,
            seq: number_or_zero(body, "seq"@),
            state: named_state(body.get("state"@)),
            track: match body.get("track"@) {
                Some(t) => described_track(t),
                None => None,
            },
            position_secs: match body.get("position_secs"@) {
                Some(JsonView::Number(n)) => n.as_float(),
                _ => NumberView::Float("0.0"@),
            },
            dj_timestamp_ms: number_or_zero(body, "dj_timestamp_ms"@),
            playlist: listed_tracks(body, "playlist"@),
            playlist_index: number_or_zero(body, "playlist_index"@) as usize,
            queue: listed_tracks(body, "queue"@),
            queue_index: number_or_zero(body, "queue_index"@) as usize,
            playing_from_queue: flag(body, "playing_from_queue"@),
        }
    }
}

/// Reads the body of a host's answer.
pub fn poll_result(body: &Json) -> (r: PollResult)
    ensures
        r@ == polled(body@),
{
    if !get_flag(body, "found") {
        let r = PollResult {
            found: false,
            seq: 0,
            state: None,
            track: None,
            position_secs: zero_secs(),
            dj_timestamp_ms: 0,
            playlist: Vec::new(),
            playlist_index: 0,
            queue: Vec::new(),
            queue_index: 0,
            playing_from_queue: false,
        };
        assert(views(r.playlist@) =~= seq![]);
        assert(views(r.queue@) =~= seq![]);
        return r;
    }
    PollResult {
        found: true,
        seq: get_number(body, "seq"),
        state: state_from_json(body.get("state")),
        track: match body.get("track") {
            Some(t) => track_from_json(t),
            None => None,
        },
        position_secs: match body.get("position_secs") {
            Some(Json::Number(n)) => n.as_float(),
            _ => zero_secs(),
        },
        dj_timestamp_ms: get_number(body, "dj_timestamp_ms"),
        playlist: list_tracks(body, "playlist"),
        playlist_index: get_number(body, "playlist_index") as usize,
        queue: list_tracks(body, "queue"),
        queue_index: get_number(body, "queue_index") as usize,
        playing_from_queue: get_flag(body, "playing_from_queue"),
    }
}

/// The status that the header of a host's answer gives, in sixteen bits.
pub fn header_status(header: &Json) -> (r: u16)
    ensures
        r == number_or_zero(header@, "status"@) as u16,
{
    get_number(header, "status") as u16
}

/// The four times of a ping that was sent at `t1` and answered with `body` by
/// `t4`.
pub fn ping_times(t1: u64, body: &Json, t4: u64) -> (r: (u64, u64, u64, u64))
    ensures
        r == (t1, number_or_zero(body@, "t2"@), number_or_zero(body@, "t3"@), t4),
{
    (t1, get_number(body, "t2"), get_number(body, "t3"), t4)
}

/// Bytes that arrive one by one, cut into lines.
#[derive(Debug)]
pub struct LineBuffer {
    pub buf: Vec<u8>,
}

impl LineBuffer {
    /// Nothing has arrived yet.
    pub fn new() -> (r: LineBuffer)
        ensures
            r.buf@ == Seq::<u8>::empty(),
    {
        LineBuffer { buf: Vec::new() }
    }

    /// Takes a byte. A line feed ends the line, which is given out if it is
    /// valid UTF-8.
    pub fn feed(&mut self, byte: u8) -> (r: Option<String>)
        ensures
            byte != 10 ==> r is None && final(self).buf@ == old(self).buf@.push(byte),
            byte == 10 ==> final(self).buf@ == Seq::<u8>::empty() && match r {
                Some(s) => valid_utf8(old(self).buf@) && s@ == decode_utf8(old(self).buf@),
                None => !valid_utf8(old(self).buf@),
            },
    {
        if byte == 10 {
            let mut line: Vec<u8> = Vec::new();
            line.append(&mut self.buf);
            match utf8_string(line) {
                Ok(s) => Some(s),
                Err(_) => None,
            }
        } else {
            self.buf.push(byte);
            None
        }
    }
}

// ── Pushed events ───────────────────────────────────────────────

/// `v` with the tracks of the member `key`, if it is an array, leading to the
/// host's node.
pub open spec fn remapped_list(v: JsonView, host: Seq<char>, key: Seq<char>) -> JsonView {
    match v.get(key) {
        Some(JsonView::Array(a)) => v.with(
            key,
            tracks_json(remote_party_tracks(host, described_tracks(a))),
        ),
        _ => v,
    }
}

/// A pushed event with all its tracks leading to the host's node.
pub open spec fn remapped_event(v: JsonView, host: Seq<char>) -> JsonView {
    let v = remapped_list(remapped_list(v, host, "playlist"@), host, "queue"@);
    match v.get("track"@) {
        Some(t) => match described_track(t) {
            Some(d) => v.with("track"@, track_json(remote_party_track(host, d))),
            None => v,
        },
        None => v,
    }
}

fn remap_list(v: Json, host: &str, key: &str) -> (r: Json)
    ensures
        r@ == remapped_list(v@, host@, key@),
{
    let new_list = match v.get(key) {
        Some(x) => match x.as_array() {
            Some(a) => Some(tracks_to_json(&remap_party_tracks_remote(host, &read_tracks(a)))),
            None => None,
        },
        None => None,
    };
    match new_list {
        Some(l) => v.with(key, l),
        None => v,
    }
}

fn remap_event(v: Json, host: &str) -> (r: Json)
    ensures
        r@ == remapped_event(v@, host@),
{
    let v = remap_list(remap_list(v, host, "playlist"), host, "queue");
    let new_track = match v.get("track") {
        Some(t) => match track_from_json(t) {
            Some(d) => Some(track_to_json(&remap_track(host, &d))),
            None => None,
        },
        None => None,
    };
    match new_track {
        Some(t) => v.with("track", t),
        None => v,
    }
}

/// A pushed event is about the party.
pub open spec fn is_party_event(text: Seq<char>) -> bool {
    has_text(text, "party_sync"@) || has_text(text, "party_queue_sync"@)
}

/// What becomes of a pushed event.
pub enum Pushed {
    /// It is not about the party.
    Ignored,
    /// It goes to connected clients.
    Event(Json),
    /// It is no JSON and goes to connected clients as it is.
    Raw(String),
}

/// What distinguishes one state of playlist and queue from another.
pub struct PlaylistMark {
    pub playlist: Vec<String>,
    pub playlist_index: usize,
    pub queue: Vec<String>,
    pub queue_index: usize,
    pub playing_from_queue: bool,
}

/// A mark, as characters, numbers and sequences.
pub struct PlaylistMarkView {
    pub playlist: Seq<Seq<char>>,
    pub playlist_index: usize,
    pub queue: Seq<Seq<char>>,
    pub queue_index: usize,
    pub playing_from_queue: bool,
}

impl View for PlaylistMark {
    type V = PlaylistMarkView;

    open spec fn view(&self) -> PlaylistMarkView {
        PlaylistMarkView {
            playlist: views(self.playlist@),
            playlist_index: self.playlist_index,
            queue: views(self.queue@),
            queue_index: self.queue_index,
            playing_from_queue: self.playing_from_queue,
        }
    }
}

/// The songs of a list.
pub open spec fn song_ids(s: Seq<PartyTrackView>) -> Seq<Seq<char>> {
    s.map_values(|t: PartyTrackView| t.song_id)
}

/// The mark of a polled state.
pub open spec fn mark_of(p: PollView) -> PlaylistMarkView {
    PlaylistMarkView {
        playlist: song_ids(p.playlist),
        playlist_index: p.playlist_index,
        queue: song_ids(p.queue),
        queue_index: p.queue_index,
        playing_from_queue: p.playing_from_queue,
    }
}

fn collect_ids(tracks: &Vec<PartyTrack>) -> (r: Vec<String>)
    ensures
        views(r@) == song_ids(views(tracks@)),
{
    let mut out: Vec<String> = Vec::new();
    let mut i: usize = 0;
    let ghost want = song_ids(views(tracks@));
    while i < tracks.len()
        invariant
            i <= tracks@.len(),
            want == song_ids(views(tracks@)),
            views(out@) == want.take(i as int),
        decreases tracks@.len() - i,
    {
        let ghost before = out@;
        let c = tracks[i].song_id.clone();
        out.push(c);
        proof {
            assert(views(out@) =~= views(before).push(c@));
            assert(want.take(i + 1) =~= want.take(i as int).push(c@));
        }
        i += 1;
    }
    assert(want.take(i as int) =~= want);
    out
}

fn same_ids(a: &Vec<String>, b: &Vec<String>) -> (r: bool)
    ensures
        r == (views(a@) == views(b@)),
{
    assert(views(a@).len() == a@.len() && views(b@).len() == b@.len());
    if a.len() != b.len() {
        return false;
    }
    let mut i: usize = 0;
    while i < a.len()
        invariant
            i <= a@.len(),
            a@.len() == b@.len(),
            forall|k: int| 0 <= k < i ==> views(a@)[k] == views(b@)[k],
        decreases a@.len() - i,
    {
        if !str_eq(a[i].as_str(), b[i].as_str()) {
            assert(views(a@)[i as int] != views(b@)[i as int]);
            return false;
        }
        i += 1;
    }
    assert(views(a@) =~= views(b@));
    true
}

fn same_mark(a: &PlaylistMark, b: &PlaylistMark) -> (r: bool)
    ensures
        r == (a@ == b@),
{
    same_ids(&a.playlist, &b.playlist) && a.playlist_index == b.playlist_index && same_ids(
        &a.queue,
        &b.queue,
    ) && a.queue_index == b.queue_index && a.playing_from_queue == b.playing_from_queue
}

/// The state of following one session of one host.
pub struct FollowPoll {
    pub session_id: String,
    pub host_node_id: String,
    pub last_seq: u64,
    pub last_mark: Option<PlaylistMark>,
    /// Seconds between two polls.
    pub poll_secs: u64,
    pub push_connected: bool,
    pub consecutive_push_events: u32,
}

/// The state of following, as characters and numbers.
pub struct FollowPollView {
    pub session_id: Seq<char>,
    pub host_node_id: Seq<char>,
    pub last_seq: u64,
    pub last_mark: Option<PlaylistMarkView>,
    pub poll_secs: u64,
    pub push_connected: bool,
    pub consecutive_push_events: u32,
}

/// What an optional mark holds.
pub open spec fn opt_mark(m: Option<PlaylistMark>) -> Option<PlaylistMarkView> {
    match m {
        Some(x) => Some(x@),
        None => None,
    }
}

impl View for FollowPoll {
    type V = FollowPollView;

    open spec fn view(&self) -> FollowPollView {
        FollowPollView {
            session_id: self.session_id@,
            host_node_id: self.host_node_id@,
            last_seq: self.last_seq,
            last_mark: opt_mark(self.last_mark),
            poll_secs: self.poll_secs,
            push_connected: self.push_connected,
            consecutive_push_events: self.consecutive_push_events,
        }
    }
}

/// One more, as far as 32 bits go.
pub open spec fn one_more(n: u32) -> u32 {
    if n < u32::MAX {
        (n + 1) as u32
    } else {
        n
    }
}

/// The state after a pushed event: once more than three have arrived in a row,
/// polls are only needed every ten seconds.
pub open spec fn after_push(s: FollowPollView, text: Seq<char>) -> FollowPollView {
    if is_party_event(text) {
        let count = one_more(s.consecutive_push_events);
        FollowPollView {
            push_connected: true,
            consecutive_push_events: count,
            poll_secs: if count > 3 && s.poll_secs < 10 {
                10
            } else {
                s.poll_secs
            },
            ..s
        }
    } else {
        s
    }
}

/// The state after a poll that failed: pushed events may be missing, so polls
/// come every three seconds again.
pub open spec fn after_failure(s: FollowPollView) -> FollowPollView {
    if s.poll_secs > 3 {
        FollowPollView { poll_secs: 3, push_connected: false, consecutive_push_events: 0, ..s }
    } else {
        s
    }
}

/// The state after the host told of its session.
pub open spec fn after_poll(s: FollowPollView, p: PollView) -> FollowPollView {
    if !p.found {
        s
    } else {
        FollowPollView {
            last_seq: if p.seq > s.last_seq {
                p.seq
            } else {
                s.last_seq
            },
            last_mark: if queue_changed(s, p) {
                Some(mark_of(p))
            } else {
                s.last_mark
            },
            ..s
        }
    }
}

/// Playlist or queue are not what the follower was told last.
pub open spec fn queue_changed(s: FollowPollView, p: PollView) -> bool {
    s.last_mark != Some(mark_of(p)) && p.playlist.len() > 0
}

/// The playback state as JSON, null if it is unknown.
pub open spec fn opt_state_json(s: Option<PartyPlaybackState>) -> JsonView {
    match s {
        Some(x) => state_json(x),
        None => JsonView::Null,
    }
}

/// The events that connected clients get after the host told of its session:
/// that it has ended; or the playback, if the host's sequence number has
/// advanced, and the queue, if it has changed.
pub open spec fn poll_events(
    s: FollowPollView,
    p: PollView,
    clock_offset_ms: i64,
    now: u64,
) -> Seq<JsonView> {
    if !p.found {
        seq![party_end_event(s.session_id, ""@)]
    } else {
        let sync = if p.seq > s.last_seq {
            seq![
                sync_event(
                    s.session_id,
                    p.seq,
                    now,
                    clock_offset_ms,
                    opt_state_json(p.state),
                    match p.track {
                        Some(t) => Some(remote_party_track(s.host_node_id, t)),
                        None => None,
                    },
                    p.position_secs,
                ).with("dj_timestamp_ms"@, whole(p.dj_timestamp_ms as nat)),
            ]
        } else {
            seq![]
        };
        if queue_changed(s, p) {
            sync.push(
                queue_event(
                    s.session_id,
                    p.seq,
                    remote_party_tracks(s.host_node_id, p.playlist),
                    p.playlist_index,
                    remote_party_tracks(s.host_node_id, p.queue),
                    p.queue_index,
                    p.playing_from_queue,
                ),
            )
        } else {
            sync
        }
    }
}

impl FollowPoll {
    /// Starts to follow: the first poll comes after three seconds.
    pub fn new(session_id: String, host_node_id: String) -> (r: FollowPoll)
        ensures
            r@ == (FollowPollView {
                session_id: session_id@,
                host_node_id: host_node_id@,
                last_seq: 0,
                last_mark: None,
                poll_secs: 3,
                push_connected: false,
                consecutive_push_events: 0,
            }),
    {
        FollowPoll {
            session_id,
            host_node_id,
            last_seq: 0,
            last_mark: None,
            poll_secs: 3,
            push_connected: false,
            consecutive_push_events: 0,
        }
    }

    /// An event arrived over the host's event stream; `parsed` is what it says
    /// if it is JSON.
    pub fn on_push(&mut self, text: String, parsed: Option<Json>) -> (r: Pushed)
        ensures
            final(self)@ == after_push(old(self)@, text@),
            if !is_party_event(text@) {
                r is Ignored
            } else {
                match parsed {
                    Some(v) => r matches Pushed::Event(e) && e@ == remapped_event(
                        v@,
                        old(self)@.host_node_id,
                    ),
                    None => r matches Pushed::Raw(t) && t@ == text@,
                }
            },
    {
        if !contains_str(text.as_str(), "party_sync") && !contains_str(
            text.as_str(),
            "party_queue_sync",
        ) {
            return Pushed::Ignored;
        }
        self.push_connected = true;
        if self.consecutive_push_events < u32::MAX {
            self.consecutive_push_events = self.consecutive_push_events + 1;
        }
        if self.consecutive_push_events > 3 && self.poll_secs < 10 {
            self.poll_secs = 10;
        }
        match parsed {
            Some(v) => Pushed::Event(remap_event(v, self.host_node_id.as_str())),
            None => Pushed::Raw(text),
        }
    }

    /// A poll failed.
    pub fn on_poll_failed(&mut self)
        ensures
            final(self)@ == after_failure(old(self)@),
    {
        if self.poll_secs > 3 {
            self.poll_secs = 3;
            self.push_connected = false;
            self.consecutive_push_events = 0;
        }
    }

    /// The host told of its session at `now`; gives the events for connected
    /// clients. The session has ended if the host did not find it.
    pub fn on_poll(&mut self, p: &PollResult, clock_offset_ms: i64, now: u64) -> (r: Vec<Json>)
        ensures
            final(self)@ == after_poll(old(self)@, p@),
            views(r@) == poll_events(old(self)@, p@, clock_offset_ms, now),
    {
        let ghost s = self@;
        let mut events: Vec<Json> = Vec::new();
        if !p.found {
            let e = make_party_end_event(self.session_id.as_str(), "");
            events.push(e);
            assert(views(events@) =~= seq![e@]);
            return events;
        }
        if p.seq > self.last_seq {
            self.last_seq = p.seq;
            let remote = match &p.track {
                Some(t) => Some(remap_track(self.host_node_id.as_str(), t)),
                None => None,
            };
            let state = match p.state {
                Some(x) => state_to_json(x),
                None => Json::Null,
            };
            let e = make_sync_event(
                self.session_id.as_str(),
                p.seq,
                now,
                clock_offset_ms,
                state,
                &remote,
                &p.position_secs,
            ).with("dj_timestamp_ms", Json::whole(p.dj_timestamp_ms));
            events.push(e);
            assert(views(events@) =~= seq![e@]);
        } else {
            assert(views(events@) =~= seq![]);
        }
        let mark = PlaylistMark {
            playlist: collect_ids(&p.playlist),
            playlist_index: p.playlist_index,
            queue: collect_ids(&p.queue),
            queue_index: p.queue_index,
            playing_from_queue: p.playing_from_queue,
        };
        assert(mark@ == mark_of(p@));
        let known = match &self.last_mark {
            Some(m) => same_mark(m, &mark),
            None => false,
        };
        assert(views(p.playlist@).len() == p.playlist@.len());
        if !known && p.playlist.len() > 0 {
            self.last_mark = Some(mark);
            let ghost before = events@;
            let remote_playlist = remap_party_tracks_remote(
                self.host_node_id.as_str(),
                &p.playlist,
            );
            let remote_queue = remap_party_tracks_remote(self.host_node_id.as_str(), &p.queue);
            let e = make_queue_event(
                self.session_id.as_str(),
                p.seq,
                &remote_playlist,
                p.playlist_index,
                &remote_queue,
                p.queue_index,
                p.playing_from_queue,
            );
            events.push(e);
            assert(views(events@) =~= views(before).push(e@));
        }
        events
    }
}

/// Whether a node still follows this session.
pub fn still_following(party: &PartyState, session_id: &str) -> (r: bool)
    ensures
        r == follows(party@, session_id@),
{
    match &party.following {
        Some(f) => str_eq(f.session_id.as_str(), session_id),
        None => false,
    }
}

/// The node follows this session.
pub open spec fn follows(s: PartyStateView, session_id: Seq<char>) -> bool {
    s.following matches Some(f) && f.session_id == session_id
}

/// Stops following this session, if the node follows it.
pub fn end_following(party: &mut PartyState, session_id: &str)
    ensures
        final(party)@ == if follows(old(party)@, session_id@) {
            PartyStateView { following: None, ..old(party)@ }
        } else {
            old(party)@
        },
{
    if still_following(&*party, session_id) {
        let _ = party.unfollow();
    }
}

/// The clock estimate for events, zero if the node follows nothing.
pub fn clock_offset(party: &PartyState) -> (r: i64)
    ensures
        r == match party@.following {
            Some(f) => f.clock_offset_ms,
            None => 0,
        },
{
    match &party.following {
        Some(f) => f.clock_offset_ms,
        None => 0,
    }
}

/// The poll interval is three or ten seconds, always.
pub proof fn poll_interval_is_three_or_ten(s: FollowPollView, text: Seq<char>, p: PollView)
    requires
        s.poll_secs == 3 || s.poll_secs == 10,
    ensures
        after_push(s, text).poll_secs == 3 || after_push(s, text).poll_secs == 10,
        after_failure(s).poll_secs == 3,
        after_poll(s, p).poll_secs == s.poll_secs,
{
}

/// A host that tells the same twice causes no second event.
pub proof fn polling_again_is_silent(s: FollowPollView, p: PollView, offset: i64, now: u64)
    requires
        p.found,
    ensures
        poll_events(after_poll(s, p), p, offset, now) == Seq::<JsonView>::empty(),
        after_poll(after_poll(s, p), p) == after_poll(s, p),
{
}

/// The sequence number that a follower has seen never goes back.
pub proof fn sequence_never_goes_back(s: FollowPollView, p: PollView, text: Seq<char>)
    ensures
        after_poll(s, p).last_seq >= s.last_seq,
        after_push(s, text).last_seq == s.last_seq,
        after_failure(s).last_seq == s.last_seq,
{
}

// ── Laws of polling ─────────────────────────────────────────────

/// A state is read by the name that it is written by; another name is none.
pub proof fn states_are_read_as_written(s: PartyPlaybackState, name: Seq<char>)
    ensures
        named_state(Some(state_json(s))) == Some(s),
        named_state(None) is None,
        name != "Playing"@ && name != "Paused"@ && name != "Stopped"@ ==> named_state(
            Some(JsonView::Text(name)),
        ) is None,
{
    reveal_strlit("Playing");
    reveal_strlit("Paused");
    reveal_strlit("Stopped");
    assert("Playing"@.len() == 7 && "Paused"@.len() == 6 && "Stopped"@.len() == 7);
    assert("Playing"@[0] != "Stopped"@[0]);
}

/// Of a list, the tracks are read, in order.
pub proof fn tracks_of_a_list_are_read(items: Seq<JsonView>)
    ensures
        described_tracks(items) == items.map_values(
            |v: JsonView|
                match described_track(v) {
                    Some(t) => seq![t],
                    None => seq![],
                },
        ).flatten(),
    decreases items.len(),
{
    lemma_flat_end(
        items,
        |v: JsonView|
            match described_track(v) {
                Some(t) => seq![t],
                None => seq![],
            },
    );
    if items.len() > 0 {
        tracks_of_a_list_are_read(items.drop_last());
    }
}

proof fn lemma_tracks_read(s: Seq<PartyTrackView>)
    requires
        forall|i: int|
            0 <= i < s.len() ==> ((#[trigger] s[i]).duration_secs matches Some(d) ==> d is Float),
    ensures
        described_tracks(s.map_values(|t: PartyTrackView| track_json(t))) == s,
    decreases s.len(),
{
    let f = |t: PartyTrackView| track_json(t);
    if s.len() > 0 {
        let d = s.drop_last();
        assert forall|i: int| 0 <= i < d.len() implies ((#[trigger] d[i]).duration_secs matches Some(
            x,
        ) ==> x is Float) by {
            assert(d[i] == s[i]);
        }
        lemma_tracks_read(d);
        assert(s[s.len() - 1] == s.last());
        track_round_trip(s.last());
        assert(s.map_values(f).drop_last() =~= d.map_values(f));
        assert(d.push(s.last()) =~= s);
    } else {
        assert(s.map_values(f) =~= seq![]);
        assert(s =~= seq![]);
    }
}

/// Who polls a host reads the state that the host shows.
pub proof fn polls_read_what_hosts_show(h: PartySessionView)
    requires
        h.position_secs is Float,
        h.track matches Some(t) ==> (t.duration_secs matches Some(d) ==> d is Float),
        forall|i: int|
            0 <= i < h.playlist.len() ==> ((#[trigger] h.playlist[i]).duration_secs matches Some(d)
                ==> d is Float),
        forall|i: int|
            0 <= i < h.queue.len() ==> ((#[trigger] h.queue[i]).duration_secs matches Some(d)
                ==> d is Float),
    ensures
        polled(full_state(Some(h))) == (PollView {
            found: true,
            seq: h.seq,
            state: Some(h.state),
            track: h.track,
            position_secs: h.position_secs,
            dj_timestamp_ms: h.dj_timestamp_ms,
            playlist: h.playlist,
            playlist_index: h.playlist_index,
            queue: h.queue,
            queue_index: h.queue_index,
            playing_from_queue: h.playing_from_queue,
        }),
        !polled(full_state(None)).found,
{
    let body = full_state(Some(h));
    hosts_show_the_full_state(h);
    states_are_read_as_written(h.state, seq![]);
    lemma_tracks_read(h.playlist);
    lemma_tracks_read(h.queue);
    match h.track {
        Some(t) => {
            track_round_trip(t);
        },
        None => {
            assert(body.get("track"@) == Some(JsonView::Null));
            assert(described_track(JsonView::Null) is None);
        },
    }
    assert(body.items("playlist"@).len() == h.playlist.len());
    assert(body.items("queue"@).len() == h.queue.len());
}

/// An event of the host is handed on with its tracks under identifiers that lead to
/// the host; all else of it stays.
pub proof fn events_lead_to_the_host(
    v: JsonView,
    host: Seq<char>,
    t: PartyTrackView,
    a: Seq<JsonView>,
    other: Seq<char>,
)
    requires
        v is Object,
    ensures
        ({
            let r = remapped_event(v, host);
            &&& v.get("track"@) matches Some(x) ==> {
                &&& described_track(x) == Some(t) ==> r.get("track"@) == Some(
                    track_json(remote_party_track(host, t)),
                )
                &&& described_track(x) is None ==> r.get("track"@) == Some(x)
            }
            &&& v.get("playlist"@) == Some(JsonView::Array(a)) ==> r.get("playlist"@) == Some(
                tracks_json(remote_party_tracks(host, described_tracks(a))),
            )
            &&& v.get("queue"@) == Some(JsonView::Array(a)) ==> r.get("queue"@) == Some(
                tracks_json(remote_party_tracks(host, described_tracks(a))),
            )
            &&& other != "track"@ && other != "playlist"@ && other != "queue"@ ==> r.get(other)
                == v.get(other)
        }),
{
    broadcast use reading_after_setting;

    reveal_strlit("track");
    reveal_strlit("playlist");
    reveal_strlit("queue");
    assert("track"@.len() == 5 && "playlist"@.len() == 8 && "queue"@.len() == 5);
    assert("track"@[0] != "queue"@[0]);
}

/// A push that tells of a party's sync or queue counts, and after more than three
/// in a row polls come every ten seconds; any other push changes nothing.
pub proof fn pushes_slow_the_polls(s: FollowPollView, a: Seq<char>, b: Seq<char>, text: Seq<char>)
    requires
        s.consecutive_push_events < u32::MAX,
    ensures
        text == a + "party_sync"@ + b || text == a + "party_queue_sync"@ + b ==> ({
            let r = after_push(s, text);
            &&& r.push_connected
            &&& r.consecutive_push_events == s.consecutive_push_events + 1
            &&& s.consecutive_push_events >= 3 && s.poll_secs < 10 ==> r.poll_secs == 10
            &&& s.consecutive_push_events < 3 || s.poll_secs >= 10 ==> r.poll_secs == s.poll_secs
            &&& r.session_id == s.session_id && r.host_node_id == s.host_node_id && r.last_seq
                == s.last_seq && r.last_mark == s.last_mark
        }),
        !has_text(text, "party_sync"@) && !has_text(text, "party_queue_sync"@) ==> after_push(
            s,
            text,
        ) == s,
{
    crate::strs::held_texts_stand_between_parts(a, "party_sync"@, b);
    crate::strs::held_texts_stand_between_parts(a, "party_queue_sync"@, b);
}

/// A lost connection brings the polls back to every three seconds.
pub proof fn failures_quicken_the_polls(s: FollowPollView)
    ensures
        s.poll_secs > 3 ==> after_failure(s) == (FollowPollView {
            poll_secs: 3,
            push_connected: false,
            consecutive_push_events: 0,
            ..s
        }),
        s.poll_secs <= 3 ==> after_failure(s) == s,
{
}

/// A poll that finds no party tells of its end. One that finds it tells of a sync if
/// it is later than what is known, and of the queue if that changed and there is a
/// playlist.
pub proof fn polls_tell_what_is_new(s: FollowPollView, p: PollView, offset: i64, now: u64)
    ensures
        !p.found ==> poll_events(s, p, offset, now) == seq![party_end_event(s.session_id, ""@)]
            && after_poll(s, p) == s,
        p.found ==> ({
            let mark = PlaylistMarkView {
                playlist: p.playlist.map_values(|t: PartyTrackView| t.song_id),
                playlist_index: p.playlist_index,
                queue: p.queue.map_values(|t: PartyTrackView| t.song_id),
                queue_index: p.queue_index,
                playing_from_queue: p.playing_from_queue,
            };
            let sync = sync_event(
                s.session_id,
                p.seq,
                now,
                offset,
                match p.state {
                    Some(x) => state_json(x),
                    None => JsonView::Null,
                },
                match p.track {
                    Some(t) => Some(remote_party_track(s.host_node_id, t)),
                    None => None,
                },
                p.position_secs,
            ).with("dj_timestamp_ms"@, whole(p.dj_timestamp_ms as nat));
            let queue = queue_event(
                s.session_id,
                p.seq,
                remote_party_tracks(s.host_node_id, p.playlist),
                p.playlist_index,
                remote_party_tracks(s.host_node_id, p.queue),
                p.queue_index,
                p.playing_from_queue,
            );
            let later = p.seq > s.last_seq;
            let moved = s.last_mark != Some(mark) && p.playlist.len() > 0;
            &&& poll_events(s, p, offset, now) == (if later {
                seq![sync]
            } else {
                seq![]
            }) + (if moved {
                seq![queue]
            } else {
                seq![]
            })
            &&& after_poll(s, p) == (FollowPollView {
                last_seq: if later {
                    p.seq
                } else {
                    s.last_seq
                },
                last_mark: if moved {
                    Some(mark)
                } else {
                    s.last_mark
                },
                ..s
            })
        }),
{
}

/// One follows the session that one has joined, and no other.
pub proof fn one_session_is_followed(s: PartyStateView, session_id: Seq<char>)
    ensures
        s.following is None ==> !follows(s, session_id),
        s.following matches Some(f) ==> (follows(s, session_id) <==> f.session_id == session_id),
{
}

} // verus!
