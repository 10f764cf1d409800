//! Activity: what is playing now, and chat messages between friends.

use crate::json::{object, reading_after_setting, Json, JsonView};
use crate::seqs::lemma_pick_end;
use crate::sorting::{
    ranking, ranking_is_total_preorder, sort, stable_sort, stable_sort_sorts, Ranked,
};
use crate::strs::{str_eq, views};
use crate::table::{
    found, remove, removed_key_is_gone, without, put, written, written_row_is_found, Row,
};
use vstd::prelude::*;

verus! {

/// After how many seconds an entry of what is playing is stale.
pub const STALE_SECS: u64 = 600;

/// An item with the number that it is sorted by.
pub struct Numbered {
    pub key: i128,
    pub item: Json,
}

impl View for Numbered {
    type V = (i128, JsonView);

    open spec fn view(&self) -> (i128, JsonView) {
        (self.key, self.item@)
    }
}

impl Ranked for Numbered {
    open spec fn leq(a: (i128, JsonView), b: (i128, JsonView)) -> bool {
        a.0 <= b.0
    }

    proof fn leq_total(a: (i128, JsonView), b: (i128, JsonView)) {
    }

    proof fn leq_transitive(a: (i128, JsonView), b: (i128, JsonView), c: (i128, JsonView)) {
    }

    fn may_precede(&self, other: &Self) -> (r: bool) {
        self.key <= other.key
    }
}

/// The items in the order of their numbers.
pub open spec fn in_order(s: Seq<(i128, JsonView)>) -> Seq<JsonView> {
    stable_sort(s, ranking::<Numbered>()).map_values(|t: (i128, JsonView)| t.1)
}

fn sort_numbered(items: Vec<Numbered>) -> (r: Vec<Json>)
    ensures
        views(r@) == in_order(views(items@)),
{
    let sorted = sort(items);
    let ghost want = views(sorted@).map_values(|t: (i128, JsonView)| t.1);
    let mut out: Vec<Json> = Vec::new();
    let mut k: usize = 0;
    while k < sorted.len()
        invariant
            k <= sorted@.len(),
            want == views(sorted@).map_values(|t: (i128, JsonView)| t.1),
            views(out@) == want.take(k as int),
        decreases sorted@.len() - k,
    {
        let ghost before = out@;
        let c = sorted[k].item.clone();
        out.push(c);
        assert(views(out@) =~= views(before).push(c@));
        assert(want.take(k + 1) =~= want.take(k as int).push(c@));
        k += 1;
    }
    assert(want.take(k as int) =~= want);
    out
}

/// What a user is playing, and when that was told, in seconds since 1970.
#[derive(Debug)]
pub struct NowPlaying {
    pub node_id: String,
    pub user_name: String,
    pub track: Json,
    pub updated_at: u64,
}

/// What a user is playing, as characters and numbers.
pub struct NowPlayingView {
    pub node_id: Seq<char>,
    pub user_name: Seq<char>,
    pub track: JsonView,
    pub updated_at: u64,
}

impl View for NowPlaying {
    type V = NowPlayingView;

    open spec fn view(&self) -> NowPlayingView {
        NowPlayingView {
            node_id: self.node_id@,
            user_name: self.user_name@,
            track: self.track@,
            updated_at: self.updated_at,
        }
    }
}

impl Row for NowPlaying {
    open spec fn key(v: NowPlayingView) -> Seq<Seq<char>> {
        seq![v.node_id, v.user_name]
    }

    open spec fn over(stored: NowPlayingView, new: NowPlayingView) -> NowPlayingView {
        new
    }

    proof fn over_keeps_key(stored: NowPlayingView, new: NowPlayingView) {
    }

    fn same_key(&self, other: &Self) -> (r: bool) {
        proof {
            let a = seq![self.node_id@, self.user_name@];
            let b = seq![other.node_id@, other.user_name@];
            if a == b {
                assert(a[0] == b[0] && a[1] == b[1]);
            }
        }
        str_eq(self.node_id.as_str(), other.node_id.as_str()) && str_eq(
            self.user_name.as_str(),
            other.user_name.as_str(),
        )
    }

    fn put_over(&self, new: Self) -> (r: Self) {
        new
    }

    fn copy(&self) -> (r: Self) {
        NowPlaying {
            node_id: self.node_id.clone(),
            user_name: self.user_name.clone(),
            track: self.track.clone(),
            updated_at: self.updated_at,
        }
    }
}

/// Records what a user is playing now, here or at a friend's; each user of a
/// node plays one thing.
pub fn set_now_playing(
    rows: &mut Vec<NowPlaying>,
    node_id: &str,
    user_name: &str,
    track: &Json,
    now: u64,
)
    ensures
        views(final(rows)@) == written::<NowPlaying>(
            views(old(rows)@),
            (NowPlayingView {
                node_id: node_id@,
                user_name: user_name@,
                track: track@,
                updated_at: now,
            }),
        ),
{
    put(
        rows,
        NowPlaying {
            node_id: node_id.to_owned(),
            user_name: user_name.to_owned(),
            track: track.clone(),
            updated_at: now,
        },
    );
}

/// Forgets what a user is playing.
pub fn clear_now_playing(rows: &mut Vec<NowPlaying>, node_id: &str, user_name: &str)
    ensures
        views(final(rows)@) == without::<NowPlaying>(
            views(old(rows)@),
            seq![node_id@, user_name@],
        ),
{
    let probe = NowPlaying {
        node_id: node_id.to_owned(),
        user_name: user_name.to_owned(),
        track: Json::Null,
        updated_at: 0,
    };
    remove(rows, &probe);
}

/// What others are shown of what a user is playing.
pub open spec fn playing_entry(p: NowPlayingView) -> JsonView {
    p.track.with("username"@, JsonView::Text(p.user_name)).with(
        "nodeId"@,
        JsonView::Text(p.node_id),
    )
}

/// What was told at `at` is not stale at `now`.
pub open spec fn is_fresh(at: u64, now: u64) -> bool {
    at + STALE_SECS > now
}

/// What is playing and not stale, the latest with the lowest number.
pub open spec fn playing_entries(rows: Seq<NowPlayingView>, now: u64) -> Seq<(i128, JsonView)>
    decreases rows.len(),
{
    if rows.len() == 0 {
        seq![]
    } else {
        let rest = playing_entries(rows.drop_last(), now);
        if is_fresh(rows.last().updated_at, now) {
            rest.push((-(rows.last().updated_at) as i128, playing_entry(rows.last())))
        } else {
            rest
        }
    }
}

/// All that is playing now, here and at friends', the latest first. What was
/// told ten minutes ago or before is left out.
pub fn get_now_playing(rows: &Vec<NowPlaying>, now: u64) -> (r: Vec<Json>)
    ensures
        views(r@) == in_order(playing_entries(views(rows@), now)),
{
    let ghost s = views(rows@);
    let mut items: Vec<Numbered> = Vec::new();
    let mut i: usize = 0;
    assert(s.take(0) =~= seq![]);
    assert(views(items@) =~= seq![]);
    while i < rows.len()
        invariant
            i <= rows@.len(),
            s == views(rows@),
            views(items@) == playing_entries(s.take(i as int), now),
        decreases rows@.len() - i,
    {
        let ghost before = items@;
        proof {
            assert(s.take(i + 1).drop_last() =~= s.take(i as int));
            assert(s.take(i + 1).last() == rows@[i as int]@);
        }
        if rows[i].updated_at as u128 + STALE_SECS as u128 > now as u128 {
            let n = Numbered {
                key: -(rows[i].updated_at as i128),
                item: rows[i].track.clone().with_text(
                    "username",
                    rows[i].user_name.as_str(),
                ).with_text("nodeId", rows[i].node_id.as_str()),
            };
            let ghost nv = n@;
            items.push(n);
            assert(views(items@) =~= views(before).push(nv));
        }
        i += 1;
    }
    assert(s.take(i as int) =~= s);
    sort_numbered(items)
}

/// A chat message, with the time of its arrival as text and in seconds since
/// 1970.
#[derive(Debug)]
pub struct ChatMessage {
    pub node_id: String,
    pub user_name: String,
    pub message: String,
    pub time: String,
    pub created_at: u64,
}

/// A chat message, as characters and numbers.
pub struct ChatMessageView {
    pub node_id: Seq<char>,
    pub user_name: Seq<char>,
    pub message: Seq<char>,
    pub time: Seq<char>,
    pub created_at: u64,
}

impl View for ChatMessage {
    type V = ChatMessageView;

    open spec fn view(&self) -> ChatMessageView {
        ChatMessageView {
            node_id: self.node_id@,
            user_name: self.user_name@,
            message: self.message@,
            time: self.time@,
            created_at: self.created_at,
        }
    }
}

/// Adds a chat message.
pub fn add_chat_message(
    rows: &mut Vec<ChatMessage>,
    node_id: &str,
    user_name: &str,
    message: &str,
    time: &str,
    created_at: u64,
)
    ensures
        views(final(rows)@) == views(old(rows)@).push(
            (ChatMessageView {
                node_id: node_id@,
                user_name: user_name@,
                message: message@,
                time: time@,
                created_at,
            }),
        ),
{
    let ghost before = rows@;
    let m = ChatMessage {
        node_id: node_id.to_owned(),
        user_name: user_name.to_owned(),
        message: message.to_owned(),
        time: time.to_owned(),
        created_at,
    };
    let ghost mv = m@;
    rows.push(m);
    assert(views(rows@) =~= views(before).push(mv));
}

/// A chat message as JSON.
pub open spec fn message_entry(m: ChatMessageView) -> JsonView {
    object().with("username"@, JsonView::Text(m.user_name)).with(
        "nodeId"@,
        JsonView::Text(m.node_id),
    ).with("message"@, JsonView::Text(m.message)).with("time"@, JsonView::Text(m.time))
}

/// The messages of the last seconds, the oldest with the lowest number.
pub open spec fn recent_messages(rows: Seq<ChatMessageView>, since_secs: u64, now: u64) -> Seq<
    (i128, JsonView),
>
    decreases rows.len(),
{
    if rows.len() == 0 {
        seq![]
    } else {
        let rest = recent_messages(rows.drop_last(), since_secs, now);
        if rows.last().created_at + since_secs > now {
            rest.push((rows.last().created_at as i128, message_entry(rows.last())))
        } else {
            rest
        }
    }
}

/// The chat messages of the last `since_secs` seconds, the oldest first.
pub fn get_chat_messages(rows: &Vec<ChatMessage>, since_secs: u64, now: u64) -> (r: Vec<Json>)
    ensures
        views(r@) == in_order(recent_messages(views(rows@), since_secs, now)),
{
    let ghost s = views(rows@);
    let mut items: Vec<Numbered> = Vec::new();
    let mut i: usize = 0;
    assert(s.take(0) =~= seq![]);
    assert(views(items@) =~= seq![]);
    while i < rows.len()
        invariant
            i <= rows@.len(),
            s == views(rows@),
            views(items@) == recent_messages(s.take(i as int), since_secs, now),
        decreases rows@.len() - i,
    {
        let ghost before = items@;
        proof {
            assert(s.take(i + 1).drop_last() =~= s.take(i as int));
            assert(s.take(i + 1).last() == rows@[i as int]@);
        }
        if rows[i].created_at as u128 + since_secs as u128 > now as u128 {
            let n = Numbered {
                key: rows[i].created_at as i128,
                item: Json::object().with_text("username", rows[i].user_name.as_str()).with_text(
                    "nodeId",
                    rows[i].node_id.as_str(),
                ).with_text("message", rows[i].message.as_str()).with_text(
                    "time",
                    rows[i].time.as_str(),
                ),
            };
            let ghost nv = n@;
            items.push(n);
            assert(views(items@) =~= views(before).push(nv));
        }
        i += 1;
    }
    assert(s.take(i as int) =~= s);
    sort_numbered(items)
}

/// Nothing stale is shown as playing.
pub proof fn nothing_stale_is_playing(rows: Seq<NowPlayingView>, now: u64, i: int)
    requires
        0 <= i < playing_entries(rows, now).len(),
    ensures
        STALE_SECS - playing_entries(rows, now)[i].0 > now,
    decreases rows.len(),
{
    let rest = playing_entries(rows.drop_last(), now);
    if i < rest.len() {
        nothing_stale_is_playing(rows.drop_last(), now, i);
    }
}

/// What a user was said to play is what the table holds of them; of other users
/// it holds what it held.
pub proof fn set_track_is_held(rows: Seq<NowPlayingView>, p: NowPlayingView, other: Seq<Seq<char>>)
    ensures
        found::<NowPlaying>(written::<NowPlaying>(rows, p), seq![p.node_id, p.user_name]) == Some(p),
        other != seq![p.node_id, p.user_name] ==> found::<NowPlaying>(
            written::<NowPlaying>(rows, p),
            other,
        ) == found::<NowPlaying>(rows, other),
{
    written_row_is_found::<NowPlaying>(rows, p, other);
}

/// Of a user who stopped playing nothing is held.
pub proof fn cleared_track_is_gone(
    rows: Seq<NowPlayingView>,
    node_id: Seq<char>,
    user_name: Seq<char>,
)
    ensures
        found::<NowPlaying>(
            without::<NowPlaying>(rows, seq![node_id, user_name]),
            seq![node_id, user_name],
        ) is None,
{
    removed_key_is_gone::<NowPlaying>(rows, seq![node_id, user_name], seq![node_id, user_name]);
}

/// What is kept in the order of its numbers, with nothing lost.
pub proof fn smaller_numbers_come_first(s: Seq<(i128, JsonView)>) -> (t: Seq<(i128, JsonView)>)
    ensures
        t.to_multiset() == s.to_multiset(),
        in_order(s) == t.map_values(|x: (i128, JsonView)| x.1),
        forall|i: int, j: int| 0 <= i < j < t.len() ==> (#[trigger] t[i]).0 <= (#[trigger] t[j]).0,
{
    let leq = ranking::<Numbered>();
    ranking_is_total_preorder::<Numbered>();
    stable_sort_sorts(s, leq);
    let t = stable_sort(s, leq);
    assert forall|i: int, j: int| 0 <= i < j < t.len() implies (#[trigger] t[i]).0 <= (
    #[trigger] t[j]).0 by {
        assert(leq(t[i], t[j]));
    }
    t
}

/// All tracks that were set in the last ten minutes are playing, the latest
/// numbered lowest.
pub proof fn tracks_of_the_last_ten_minutes_play(rows: Seq<NowPlayingView>, now: u64)
    ensures
        playing_entries(rows, now) == rows.filter(
            |p: NowPlayingView| p.updated_at + 600 > now,
        ).map_values(|p: NowPlayingView| (-(p.updated_at) as i128, playing_entry(p))),
    decreases rows.len(),
{
    lemma_pick_end(
        rows,
        |p: NowPlayingView| p.updated_at + 600 > now,
        |p: NowPlayingView| (-(p.updated_at) as i128, playing_entry(p)),
    );
    if rows.len() > 0 {
        tracks_of_the_last_ten_minutes_play(rows.drop_last(), now);
    }
}

/// What plays is shown with the user and the node, all else as the track says.
pub proof fn playing_tracks_name_user_and_node(p: NowPlayingView, other: Seq<char>)
    requires
        p.track is Object,
    ensures
        playing_entry(p).get("username"@) == Some(JsonView::Text(p.user_name)),
        playing_entry(p).get("nodeId"@) == Some(JsonView::Text(p.node_id)),
        other != "username"@ && other != "nodeId"@ ==> playing_entry(p).get(other) == p.track.get(
            other,
        ),
{
    broadcast use reading_after_setting;

    reveal_strlit("username");
    reveal_strlit("nodeId");
    assert("username"@.len() == 8 && "nodeId"@.len() == 6);
}

/// All messages that are younger than asked for are shown, the oldest numbered
/// lowest.
pub proof fn recent_messages_are_picked(rows: Seq<ChatMessageView>, since_secs: u64, now: u64)
    ensures
        recent_messages(rows, since_secs, now) == rows.filter(
            |m: ChatMessageView| m.created_at + since_secs > now,
        ).map_values(|m: ChatMessageView| (m.created_at as i128, message_entry(m))),
    decreases rows.len(),
{
    lemma_pick_end(
        rows,
        |m: ChatMessageView| m.created_at + since_secs > now,
        |m: ChatMessageView| (m.created_at as i128, message_entry(m)),
    );
    if rows.len() > 0 {
        recent_messages_are_picked(rows.drop_last(), since_secs, now);
    }
}

/// A message is shown with user, node, text and time.
pub proof fn messages_are_shown_with_their_writers(m: ChatMessageView)
    ensures
        ({
            let r = message_entry(m);
            &&& r.get("username"@) == Some(JsonView::Text(m.user_name))
            &&& r.get("nodeId"@) == Some(JsonView::Text(m.node_id))
            &&& r.get("message"@) == Some(JsonView::Text(m.message))
            &&& r.get("time"@) == Some(JsonView::Text(m.time))
        }),
{
    broadcast use reading_after_setting;

    reveal_strlit("username");
    reveal_strlit("nodeId");
    reveal_strlit("message");
    reveal_strlit("time");
    assert("username"@.len() == 8 && "nodeId"@.len() == 6 && "message"@.len() == 7);
    assert("time"@.len() == 4);
}

} // verus!
