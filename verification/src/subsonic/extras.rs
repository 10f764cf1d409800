//! More endpoints that clients may call. They are passed on to backends, or
//! answered with sensible empty answers.

use crate::codec::pair_views;
use crate::error::{missing_param, FugueError};
use crate::id::namespaced_id;
use crate::json::{integer, object, reading_after_setting, Json, JsonView, NumberView};
use crate::proxy::router::{ids_lead_back, route, route_to_backend};
use crate::seqs::lemma_flat_end;
use crate::strs::{decimal, decimal_string, in_i64, integer_value, parse_i64, views};
use crate::subsonic::media::{Attempt, AttemptView};
use crate::subsonic::models::{first_n, namespaced, namespaced_copy, responses_view, take_page};
use crate::subsonic::params::{field_value, number_or, value_or, Params};
use crate::subsonic::playlist_db::answer_view;
use vstd::prelude::*;

verus! {

/// An answer with an empty list.
pub open spec fn no_items(outer: Seq<char>, inner: Seq<char>) -> JsonView {
    object().with(outer, object().with(inner, JsonView::Array(seq![])))
}

/// An answer with an empty section.
pub open spec fn no_section(name: Seq<char>) -> JsonView {
    object().with(name, object())
}

fn empty_list(outer: &str, inner: &str) -> (r: Json)
    ensures
        r@ == no_items(outer@, inner@),
{
    let none: Vec<Json> = Vec::new();
    assert(views(none@) =~= seq![]);
    Json::object().with(outer, Json::object().with(inner, Json::array(none)))
}

fn empty_section(name: &str) -> (r: Json)
    ensures
        r@ == no_section(name@),
{
    Json::object().with(name, Json::object())
}

/// What a backend answered, its identifiers namespaced, else `fallback`.
pub open spec fn answered_or(answer: Option<(usize, JsonView)>, fallback: JsonView) -> JsonView {
    match answer {
        Some((backend, resp)) => namespaced(resp, backend as nat),
        None => fallback,
    }
}

/// What a backend answered, as it is, else `fallback`.
pub open spec fn plain_or(answer: Option<Json>, fallback: JsonView) -> JsonView {
    match answer {
        Some(resp) => resp@,
        None => fallback,
    }
}

fn answer_or(answer: &Option<(usize, Json)>, fallback: Json) -> (r: Json)
    ensures
        r@ == answered_or(answer_view(*answer), fallback@),
{
    match answer {
        Some((backend, resp)) => namespaced_copy(resp, *backend),
        None => fallback,
    }
}

/// What is asked of the backend that keeps the item named by `id`. Nothing is
/// asked if there is no such backend.
pub open spec fn item_request(
    id: Seq<char>,
    backends: nat,
    more: Seq<(Seq<char>, Seq<char>)>,
) -> Option<AttemptView> {
    match route(id, backends) {
        Ok((backend, original)) => Some(
            AttemptView { backend: backend as usize, params: seq![("id"@, original)] + more },
        ),
        Err(_) => None,
    }
}

/// An optional request, as characters and numbers.
pub open spec fn opt_attempt(a: Option<Attempt>) -> Option<AttemptView> {
    match a {
        Some(a) => Some(a@),
        None => None,
    }
}

/// What is asked for lyrics, and for what is known of an artist or album.
pub fn info_request(params: &Params, backends: usize) -> (r: Result<Option<Attempt>, FugueError>)
    ensures
        match field_value(params@, "id"@) {
            None => r matches Err(e) && e@ == missing_param("id"@),
            Some(id) => r matches Ok(a) && opt_attempt(a) == item_request(
                id,
                backends as nat,
                seq![],
            ),
        },
{
    match params.required("id") {
        Err(e) => Err(e),
        Ok(id) => match route_to_backend(backends, id.as_str()) {
            Ok((backend, original)) => {
                let mut list: Vec<(String, String)> = Vec::new();
                list.push(("id".to_owned(), original));
                assert(pair_views(list@) =~= seq![("id"@, original@)] + seq![]);
                Ok(Some(Attempt { backend, params: list }))
            },
            Err(_) => Ok(None),
        },
    }
}

/// What is asked for similar songs: fifty, if the request does not say
/// otherwise.
pub fn similar_songs_request(params: &Params, backends: usize) -> (r: Result<
    Option<Attempt>,
    FugueError,
>)
    ensures
        match field_value(params@, "id"@) {
            None => r matches Err(e) && e@ == missing_param("id"@),
            Some(id) => r matches Ok(a) && opt_attempt(a) == item_request(
                id,
                backends as nat,
                seq![
                    ("count"@, decimal(number_or(params@, "count"@, 50, usize::MAX as nat))),
                ],
            ),
        },
{
    match info_request(params, backends) {
        Err(e) => Err(e),
        Ok(None) => Ok(None),
        Ok(Some(a)) => {
            let ghost before = a.params@;
            let ghost n = number_or(params@, "count"@, 50, usize::MAX as nat);
            let mut list = a.params;
            let count = decimal_string(params.number("count", 50) as u128);
            list.push(("count".to_owned(), count));
            assert(pair_views(before) == seq![("id"@, pair_views(before)[0].1)] + seq![]);
            assert(pair_views(list@) =~= seq![("id"@, pair_views(before)[0].1)] + seq![
                ("count"@, decimal(n)),
            ]);
            Ok(Some(Attempt { backend: a.backend, params: list }))
        },
    }
}

/// The answer with similar songs.
pub fn get_similar_songs(answer: &Option<(usize, Json)>) -> (r: Json)
    ensures
        r@ == answered_or(answer_view(*answer), no_items("similarSongs"@, "song"@)),
{
    answer_or(answer, empty_list("similarSongs", "song"))
}

/// The newer answer with similar songs.
pub fn get_similar_songs2(answer: &Option<(usize, Json)>) -> (r: Json)
    ensures
        r@ == answered_or(answer_view(*answer), no_items("similarSongs2"@, "song"@)),
{
    answer_or(answer, empty_list("similarSongs2", "song"))
}

/// What is known of an artist.
pub fn get_artist_info(answer: &Option<(usize, Json)>) -> (r: Json)
    ensures
        r@ == answered_or(answer_view(*answer), no_section("artistInfo"@)),
{
    answer_or(answer, empty_section("artistInfo"))
}

/// What is known of an artist, the newer answer.
pub fn get_artist_info2(answer: &Option<(usize, Json)>) -> (r: Json)
    ensures
        r@ == answered_or(answer_view(*answer), no_section("artistInfo2"@)),
{
    answer_or(answer, empty_section("artistInfo2"))
}

/// What is known of an album.
pub fn get_album_info(answer: Option<Json>) -> (r: Json)
    ensures
        r@ == plain_or(answer, no_section("albumInfo"@)),
{
    match answer {
        Some(resp) => resp,
        None => empty_section("albumInfo"),
    }
}

/// The lyrics of a song.
pub fn get_lyrics_by_song_id(answer: Option<Json>) -> (r: Json)
    ensures
        r@ == plain_or(answer, no_items("lyricsList"@, "structuredLyrics"@)),
{
    match answer {
        Some(resp) => resp,
        None => empty_list("lyricsList", "structuredLyrics"),
    }
}

/// The first answer that has lyrics.
pub open spec fn first_lyrics(answers: Seq<JsonView>) -> Option<JsonView>
    decreases answers.len(),
{
    if answers.len() == 0 {
        None
    } else if answers[0].get("lyrics"@) is Some {
        Some(answers[0])
    } else {
        first_lyrics(answers.skip(1))
    }
}

/// Lyrics, from the first backend that has any.
pub fn get_lyrics(answers: &Vec<Json>) -> (r: Json)
    ensures
        r@ == match first_lyrics(views(answers@)) {
            Some(j) => j,
            None => no_section("lyrics"@),
        },
{
    let ghost s = views(answers@);
    let mut i: usize = 0;
    assert(s.skip(0) =~= s);
    while i < answers.len()
        invariant
            i <= answers@.len(),
            s == views(answers@),
            first_lyrics(s) == first_lyrics(s.skip(i as int)),
        decreases answers@.len() - i,
    {
        proof {
            assert(s.skip(i as int)[0] == answers@[i as int]@);
            assert(s.skip(i as int).skip(1) =~= s.skip(i + 1));
        }
        match answers[i].get("lyrics") {
            Some(_) => {
                return answers[i].clone();
            },
            None => {},
        }
        i += 1;
    }
    empty_section("lyrics")
}

/// Whether an answer has lyrics, so that no other backend is to be asked.
pub fn lyrics_found(answer: &Json) -> (r: bool)
    ensures
        r == (answer@.get("lyrics"@) is Some),
{
    match answer.get("lyrics") {
        Some(_) => true,
        None => false,
    }
}

/// Once a backend has answered with lyrics, what others would answer does not
/// matter.
pub proof fn found_lyrics_end_the_search(answers: Seq<JsonView>, k: int)
    requires
        0 <= k < answers.len(),
        answers[k].get("lyrics"@) is Some,
    ensures
        first_lyrics(answers) == first_lyrics(answers.take(k + 1)),
    decreases answers.len(),
{
    if answers[0].get("lyrics"@) is None {
        found_lyrics_end_the_search(answers.skip(1), k - 1);
        assert(answers.take(k + 1).skip(1) =~= answers.skip(1).take(k));
    }
}

/// What the backends are asked for top songs.
pub fn top_songs_params(params: &Params) -> (r: Vec<(String, String)>)
    ensures
        pair_views(r@) == seq![
            ("artist"@, value_or(params@, "artist"@, ""@)),
            ("count"@, decimal(number_or(params@, "count"@, 50, usize::MAX as nat))),
        ],
{
    let mut out: Vec<(String, String)> = Vec::new();
    out.push(("artist".to_owned(), params.get_or("artist", "")));
    out.push(("count".to_owned(), decimal_string(params.number("count", 50) as u128)));
    assert(pair_views(out@) =~= seq![
        ("artist"@, value_or(params@, "artist"@, ""@)),
        ("count"@, decimal(number_or(params@, "count"@, 50, usize::MAX as nat))),
    ]);
    out
}

/// The top songs of all answers, in the order of the answers.
pub open spec fn top_songs(rs: Seq<(usize, JsonView)>) -> Seq<JsonView>
    decreases rs.len(),
{
    if rs.len() == 0 {
        seq![]
    } else {
        let (idx, resp) = rs.last();
        top_songs(rs.drop_last()) + namespaced(resp, idx as nat).items_in("topSongs"@, "song"@)
    }
}

/// Merges top songs from several backends. That no backend answers is no
/// error.
pub fn get_top_songs(results: Result<Vec<(usize, Json)>, FugueError>, count: usize) -> (r: Json)
    ensures
        r@ == match results {
            Ok(rs) => object().with(
                "topSongs"@,
                object().with(
                    "song"@,
                    JsonView::Array(first_n(top_songs(responses_view(rs@)), count as nat)),
                ),
            ),
            Err(_) => no_items("topSongs"@, "song"@),
        },
{
    match results {
        Err(_) => empty_list("topSongs", "song"),
        Ok(responses) => {
            let ghost rs = responses_view(responses@);
            let mut all: Vec<Json> = Vec::new();
            let mut i: usize = 0;
            assert(views(all@) =~= seq![]);
            assert(rs.take(0) =~= seq![]);
            while i < responses.len()
                invariant
                    i <= responses@.len(),
                    rs == responses_view(responses@),
                    views(all@) == top_songs(rs.take(i as int)),
                decreases responses@.len() - i,
            {
                let ghost before = views(all@);
                proof {
                    assert(rs.take(i + 1).drop_last() =~= rs.take(i as int));
                    assert(rs.take(i + 1).last() == (
                        responses@[i as int].0,
                        responses@[i as int].1@,
                    ));
                }
                let n = namespaced_copy(&responses[i].1, responses[i].0);
                match n.get("topSongs") {
                    Some(t) => {
                        t.append_to("song", &mut all);
                    },
                    None => {
                        assert(before + seq![] =~= before);
                    },
                }
                i += 1;
            }
            assert(rs.take(i as int) =~= rs);
            Json::object().with(
                "topSongs",
                Json::object().with("song", Json::array(take_page(&all, 0, count))),
            )
        },
    }
}

// ── What is playing ─────────────────────────────────────────────

/// Where the reported position of an entry is found: by node, user and song.
pub open spec fn report_key(entry: JsonView) -> Option<(Seq<char>, Seq<char>, Seq<char>)> {
    match entry.get_text("id"@) {
        Some(id) => Some((entry.text_or("nodeId"@, ""@), entry.text_or("username"@, ""@), id)),
        None => None,
    }
}

/// Where the reported position of an entry is found.
pub fn find_report(entry: &Json) -> (r: Option<(String, String, String)>)
    ensures
        match r {
            Some((n, u, id)) => report_key(entry@) == Some((n@, u@, id@)),
            None => report_key(entry@) is None,
        },
{
    match entry.get_str("id") {
        Some(id) => Some(
            (
                entry.str_or("nodeId", "").to_owned(),
                entry.str_or("username", "").to_owned(),
                id.clone(),
            ),
        ),
        None => None,
    }
}

/// An entry with the position and the state that were reported for it.
pub open spec fn with_report(entry: JsonView, report: Option<(i64, String)>) -> JsonView {
    match report {
        Some((pos, state)) => entry.with("playerPosition"@, integer(pos as int)).with(
            "playbackState"@,
            JsonView::Text(state@),
        ),
        None => entry,
    }
}

/// The answer that lists what is playing. `reports` holds for each entry what
/// was reported for it, if anything was.
pub fn get_now_playing(entries: &Vec<Json>, reports: &Vec<Option<(i64, String)>>) -> (r: Json)
    requires
        entries@.len() == reports@.len(),
    ensures
        r@ == object().with(
            "nowPlaying"@,
            object().with(
                "entry"@,
                JsonView::Array(
                    Seq::new(entries@.len(), |i: int| with_report(entries@[i]@, reports@[i])),
                ),
            ),
        ),
{
    let ghost want = Seq::new(
        entries@.len(),
        |i: int| with_report(entries@[i]@, reports@[i]),
    );
    let mut out: Vec<Json> = Vec::new();
    let mut i: usize = 0;
    while i < entries.len()
        invariant
            i <= entries@.len(),
            entries@.len() == reports@.len(),
            want == Seq::new(entries@.len(), |i: int| with_report(entries@[i]@, reports@[i])),
            views(out@) == want.take(i as int),
        decreases entries@.len() - i,
    {
        let ghost before = out@;
        let e = match &reports[i] {
            Some((pos, state)) => entries[i].clone().with(
                "playerPosition",
                Json::integer(*pos),
            ).with_text("playbackState", state.as_str()),
            None => entries[i].clone(),
        };
        let ghost ev = e@;
        out.push(e);
        assert(want[i as int] == ev);
        assert(views(out@) =~= views(before).push(ev));
        assert(want.take(i + 1) =~= want.take(i as int).push(ev));
        i += 1;
    }
    assert(want.take(i as int) =~= want);
    Json::object().with("nowPlaying", Json::object().with("entry", Json::array(out)))
}

/// What a client reports of its playback.
#[derive(Debug)]
pub struct PlaybackReport {
    pub media_id: String,
    pub position_ms: i64,
    pub state: String,
    /// Whether friends are told.
    pub announce: bool,
}

/// Reads what a client reports of its playback.
pub fn report_playback(params: &Params) -> (r: Result<PlaybackReport, FugueError>)
    ensures
        ({
            let media = match field_value(params@, "mediaId"@) {
                Some(m) => Some(m),
                None => field_value(params@, "id"@),
            };
            match media {
                None => r matches Err(e) && e@ == missing_param("mediaId"@),
                Some(m) => r matches Ok(p) && p.media_id@ == m && p.position_ms == (
                match field_value(params@, "positionMs"@) {
                    Some(t) => match in_i64(integer_value(t)) {
                        Some(i) => i,
                        None => 0,
                    },
                    None => 0,
                }) && p.state@ == value_or(params@, "state"@, "playing"@) && p.announce == (
                field_value(params@, "ignoreScrobble"@) != Some("true"@)),
            }
        }),
{
    let media = match params.get("mediaId") {
        Some(m) => Some(m),
        None => params.get("id"),
    };
    match media {
        None => Err(FugueError::missing("mediaId")),
        Some(m) => Ok(
            PlaybackReport {
                media_id: m.clone(),
                position_ms: match params.get("positionMs") {
                    Some(t) => match parse_i64(t.as_str()) {
                        Some(i) => i,
                        None => 0,
                    },
                    None => 0,
                },
                state: params.get_or("state", "playing"),
                announce: !params.has("ignoreScrobble", "true"),
            },
        ),
    }
}

/// What friends are told of a song that is playing here.
pub fn announced_track(answer: &Json, backend: usize, position_ms: Option<i64>) -> (r: Option<Json>)
    ensures
        match namespaced(answer@, backend as nat).get("song"@) {
            Some(song) => r matches Some(j) && j@ == (match position_ms {
                Some(p) => song.with("playerPosition"@, integer(p as int)),
                None => song,
            }),
            None => r is None,
        },
{
    let n = namespaced_copy(answer, backend);
    match n.get("song") {
        Some(song) => match position_ms {
            Some(p) => Some(song.clone().with("playerPosition", Json::integer(p))),
            None => Some(song.clone()),
        },
        None => None,
    }
}

// ── Chat ────────────────────────────────────────────────────────

/// How many seconds of chat a request asks for: an hour, if it does not say
/// otherwise.
pub fn chat_window(params: &Params) -> (r: u64)
    ensures
        r == number_or(params@, "since"@, 3600, u64::MAX as nat),
{
    params.number_u64("since", 3600)
}

/// A chat message as clients are shown it.
pub open spec fn shown_message(m: JsonView) -> JsonView {
    object().with("username"@, JsonView::Text(m.text_or("username"@, ""@))).with(
        "time"@,
        JsonView::Text(m.text_or("time"@, ""@)),
    ).with("message"@, JsonView::Text(m.text_or("message"@, ""@)))
}

/// The answer with chat messages.
pub fn get_chat_messages(messages: &Vec<Json>) -> (r: Json)
    ensures
        r@ == object().with(
            "chatMessages"@,
            object().with(
                "chatMessage"@,
                JsonView::Array(views(messages@).map_values(|m: JsonView| shown_message(m))),
            ),
        ),
{
    let ghost want = views(messages@).map_values(|m: JsonView| shown_message(m));
    let mut out: Vec<Json> = Vec::new();
    let mut i: usize = 0;
    while i < messages.len()
        invariant
            i <= messages@.len(),
            want == views(messages@).map_values(|m: JsonView| shown_message(m)),
            views(out@) == want.take(i as int),
        decreases messages@.len() - i,
    {
        let ghost before = out@;
        let m = &messages[i];
        let c = Json::object().with_text("username", m.str_or("username", "")).with_text(
            "time",
            m.str_or("time", ""),
        ).with_text("message", m.str_or("message", ""));
        out.push(c);
        assert(views(out@) =~= views(before).push(c@));
        assert(want.take(i + 1) =~= want.take(i as int).push(c@));
        i += 1;
    }
    assert(want.take(i as int) =~= want);
    Json::object().with("chatMessages", Json::object().with("chatMessage", Json::array(out)))
}

// ── Fixed answers ───────────────────────────────────────────────

/// There are no bookmarks.
pub fn get_bookmarks() -> (r: Json)
    ensures
        r@ == no_items("bookmarks"@, "bookmark"@),
{
    empty_list("bookmarks", "bookmark")
}

/// There are no radio stations.
pub fn get_internet_radio_stations() -> (r: Json)
    ensures
        r@ == no_items("internetRadioStations"@, "internetRadioStation"@),
{
    empty_list("internetRadioStations", "internetRadioStation")
}

/// The play queue is kept by the client.
pub fn get_play_queue() -> (r: Json)
    ensures
        r@ == object(),
{
    Json::object()
}

// ── Laws of what is passed on ───────────────────────────────────

/// What a backend answers is shown namespaced by that backend; where none
/// answers, the fallback is shown.
pub proof fn answers_are_shown_or_replaced(
    backend: usize,
    resp: JsonView,
    fallback: JsonView,
    outer: Seq<char>,
    inner: Seq<char>,
)
    ensures
        answered_or(Some((backend, resp)), fallback) == namespaced(resp, backend as nat),
        answered_or(None, fallback) == fallback,
        plain_or(None, fallback) == fallback,
        no_items(outer, inner).items_in(outer, inner) == Seq::<JsonView>::empty(),
        no_items(outer, inner).get(outer) is Some,
        no_section(outer).get(outer) == Some(object()),
{
    broadcast use reading_after_setting;

}

/// A request about an item of a backend goes there, under the identifier that the
/// item has there.
pub proof fn requests_go_to_the_owner(
    backend: nat,
    original: Seq<char>,
    backends: nat,
    more: Seq<(Seq<char>, Seq<char>)>,
)
    requires
        backend < backends <= usize::MAX,
    ensures
        item_request(namespaced_id(backend, original), backends, more) == Some(
            (AttemptView { backend: backend as usize, params: seq![("id"@, original)] + more }),
        ),
{
    ids_lead_back(backend, original, backends);
}

/// The top songs are those of all backends, namespaced, backend after backend.
pub proof fn top_songs_are_those_of_all_backends(rs: Seq<(usize, JsonView)>)
    ensures
        top_songs(rs) == rs.map_values(
            |p: (usize, JsonView)|
                namespaced(p.1, p.0 as nat).items_in("topSongs"@, "song"@),
        ).flatten(),
    decreases rs.len(),
{
    lemma_flat_end(
        rs,
        |p: (usize, JsonView)| namespaced(p.1, p.0 as nat).items_in("topSongs"@, "song"@),
    );
    if rs.len() > 0 {
        top_songs_are_those_of_all_backends(rs.drop_last());
    }
}

/// A report is looked up by node, user and song; an entry without a song has none.
pub proof fn reports_belong_to_node_user_and_song(
    entry: JsonView,
    node: Seq<char>,
    user: Seq<char>,
    song: Seq<char>,
)
    requires
        entry.get("nodeId"@) == Some(JsonView::Text(node)),
        entry.get("username"@) == Some(JsonView::Text(user)),
    ensures
        entry.get("id"@) == Some(JsonView::Text(song)) ==> report_key(entry) == Some(
            (node, user, song),
        ),
        entry.get("id"@) is None ==> report_key(entry) is None,
{
}

/// A report adds position and playback state to an entry and changes nothing else.
pub proof fn reports_add_position_and_state(
    entry: JsonView,
    position: i64,
    state: String,
    other: Seq<char>,
)
    requires
        entry is Object,
    ensures
        with_report(entry, None) == entry,
        ({
            let r = with_report(entry, Some((position, state)));
            &&& position >= 0 ==> r.get("playerPosition"@) == Some(
                JsonView::Number(NumberView::PosInt(position as u64)),
            )
            &&& position < 0 ==> r.get("playerPosition"@) == Some(
                JsonView::Number(NumberView::NegInt(position)),
            )
            &&& r.get("playbackState"@) == Some(JsonView::Text(state@))
            &&& other != "playerPosition"@ && other != "playbackState"@ ==> r.get(other)
                == entry.get(other)
        }),
{
    broadcast use reading_after_setting;

    reveal_strlit("playerPosition");
    reveal_strlit("playbackState");
}

/// A message is shown with who wrote it, when, and what.
pub proof fn messages_show_user_time_and_text(
    m: JsonView,
    user: Seq<char>,
    time: Seq<char>,
    text: Seq<char>,
)
    requires
        m.get("username"@) == Some(JsonView::Text(user)),
        m.get("time"@) == Some(JsonView::Text(time)),
        m.get("message"@) == Some(JsonView::Text(text)),
    ensures
        ({
            let r = shown_message(m);
            &&& r.get("username"@) == Some(JsonView::Text(user))
            &&& r.get("time"@) == Some(JsonView::Text(time))
            &&& r.get("message"@) == Some(JsonView::Text(text))
        }),
{
    broadcast use reading_after_setting;

    reveal_strlit("username");
    reveal_strlit("time");
    reveal_strlit("message");
}

} // verus!
