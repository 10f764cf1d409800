//! Stars, ratings and scrobbles.

use crate::codec::pair_views;
use crate::error::{missing_param, FugueError, FugueErrorView};
use crate::id::{encode_id, namespaced_id};
use crate::json::{object, reading_after_setting, Json, JsonView};
use crate::proxy::router::{ids_lead_back, route, route_to_backend};
use crate::seqs::lemma_layout_end;
use crate::strs::{opt_text, str_eq, views};
use crate::subsonic::favorites_db::dated;
use crate::subsonic::media::{Attempt, AttemptView};
use crate::subsonic::models::{namespaced, namespaced_copy, page};
use crate::subsonic::params::{field_value, pass_on, passed_on, value_or, Params};
use crate::subsonic::playlist_db::answer_view;
use vstd::prelude::*;

verus! {

// ── Starring ────────────────────────────────────────────────────

/// What became of asking a backend for a song.
#[derive(Debug)]
pub enum SongAnswer {
    /// The backend at this position answered.
    Answered { backend: usize, resp: Json },
    /// The backend failed.
    Failed,
    /// No backend is responsible.
    Unrouted,
}

/// The album that is starred along with a song, so that it is among the
/// starred albums. If the backend knows no such song, the identifier may be
/// that of an album.
pub open spec fn album_to_star(id: Seq<char>, answer: SongAnswer) -> Option<Seq<char>> {
    match answer {
        SongAnswer::Answered { backend, resp } => match resp@.get("song"@) {
            Some(song) => match song.get_text("albumId"@) {
                Some(album) => Some(namespaced_id(backend as nat, album)),
                None => None,
            },
            None => None,
        },
        SongAnswer::Failed => Some(id),
        SongAnswer::Unrouted => None,
    }
}

/// The album that is starred along with a song.
pub fn star(id: &str, answer: &SongAnswer) -> (r: Option<String>)
    ensures
        opt_text(r) == album_to_star(id@, *answer),
{
    match answer {
        SongAnswer::Answered { backend, resp } => match resp.get("song") {
            Some(song) => match song.get_str("albumId") {
                Some(album) => Some(encode_id(*backend, album.as_str())),
                None => None,
            },
            None => None,
        },
        SongAnswer::Failed => Some(id.to_owned()),
        SongAnswer::Unrouted => None,
    }
}

/// `list` with the value of a parameter as an item of this kind, if the request
/// gives it.
pub open spec fn with_item(
    list: Seq<(Seq<char>, Seq<char>)>,
    fields: Seq<(Seq<char>, Seq<char>)>,
    key: Seq<char>,
    kind: Seq<char>,
) -> Seq<(Seq<char>, Seq<char>)> {
    match field_value(fields, key) {
        Some(id) => list.push((id, kind)),
        None => list,
    }
}

/// The items that a request stars, each with its kind: a song and the album
/// that is starred along with it, an album and an artist.
pub open spec fn items_to_star(fields: Seq<(Seq<char>, Seq<char>)>, answer: SongAnswer) -> Seq<
    (Seq<char>, Seq<char>),
> {
    let song = with_item(seq![], fields, "id"@, "song"@);
    let along = match field_value(fields, "id"@) {
        Some(id) => match album_to_star(id, answer) {
            Some(album) => song.push((album, "album"@)),
            None => song,
        },
        None => song,
    };
    with_item(
        with_item(along, fields, "albumId"@, "album"@),
        fields,
        "artistId"@,
        "artist"@,
    )
}

fn add_item(out: &mut Vec<(String, String)>, id: &str, kind: &str)
    ensures
        pair_views(final(out)@) == pair_views(old(out)@).push((id@, kind@)),
{
    let ghost before = out@;
    out.push((id.to_owned(), kind.to_owned()));
    assert(pair_views(out@) =~= pair_views(before).push((id@, kind@)));
}

/// The items that a request stars, each with its kind. `answer` is what was
/// learned of the song, if the request names one.
pub fn starred_by(params: &Params, answer: &SongAnswer) -> (r: Vec<(String, String)>)
    ensures
        pair_views(r@) == items_to_star(params@, *answer),
{
    let mut out: Vec<(String, String)> = Vec::new();
    assert(pair_views(out@) =~= seq![]);
    match params.get("id") {
        Some(id) => {
            add_item(&mut out, id.as_str(), "song");
            match star(id.as_str(), answer) {
                Some(album) => {
                    add_item(&mut out, album.as_str(), "album");
                },
                None => {},
            }
        },
        None => {},
    }
    match params.get("albumId") {
        Some(id) => {
            add_item(&mut out, id.as_str(), "album");
        },
        None => {},
    }
    match params.get("artistId") {
        Some(id) => {
            add_item(&mut out, id.as_str(), "artist");
        },
        None => {},
    }
    out
}

/// `list` with the value of a parameter, if the request gives it.
pub open spec fn with_value(
    list: Seq<Seq<char>>,
    fields: Seq<(Seq<char>, Seq<char>)>,
    key: Seq<char>,
) -> Seq<Seq<char>> {
    match field_value(fields, key) {
        Some(v) => list.push(v),
        None => list,
    }
}

fn add_value(out: &mut Vec<String>, params: &Params, key: &str)
    ensures
        views(final(out)@) == with_value(views(old(out)@), params@, key@),
{
    let ghost before = out@;
    match params.get(key) {
        Some(v) => {
            let c = v.clone();
            out.push(c);
            assert(views(out@) =~= views(before).push(c@));
        },
        None => {},
    }
}

/// The items that a request takes the stars from.
pub fn unstar(params: &Params) -> (r: Vec<String>)
    ensures
        views(r@) == with_value(
            with_value(with_value(seq![], params@, "id"@), params@, "albumId"@),
            params@,
            "artistId"@,
        ),
{
    let mut out: Vec<String> = Vec::new();
    assert(views(out@) =~= seq![]);
    add_value(&mut out, params, "id");
    add_value(&mut out, params, "albumId");
    add_value(&mut out, params, "artistId");
    out
}

// ── Starred items ───────────────────────────────────────────────

/// What a backend says of a starred item, with the time of the star.
pub open spec fn starred_item(
    answer: Option<(usize, JsonView)>,
    key: Seq<char>,
    starred_at: Seq<char>,
) -> Option<JsonView> {
    match answer {
        Some((backend, resp)) => match namespaced(resp, backend as nat).get(key) {
            Some(item) => Some(item.with("starred"@, JsonView::Text(starred_at))),
            None => None,
        },
        None => None,
    }
}

/// What the backends say of the starred items; items of which they say nothing
/// are left out.
pub open spec fn starred_items(
    items: Seq<(Seq<char>, Seq<char>)>,
    answers: Seq<Option<(usize, JsonView)>>,
    key: Seq<char>,
    n: nat,
) -> Seq<JsonView>
    decreases n,
{
    if n == 0 {
        seq![]
    } else {
        let rest = starred_items(items, answers, key, (n - 1) as nat);
        match starred_item(answers[n - 1], key, items[n - 1].1) {
            Some(item) => rest.push(item),
            None => rest,
        }
    }
}

/// Resolves starred items to what their backends say of them. `answers` holds
/// for each item what its backend answered, if it did.
pub fn resolve_items(
    items: &Vec<(String, String)>,
    answers: &Vec<Option<(usize, Json)>>,
    response_key: &str,
) -> (r: Vec<Json>)
    requires
        items@.len() == answers@.len(),
    ensures
        views(r@) == starred_items(
            dated(items@),
            answers@.map_values(|a: Option<(usize, Json)>| answer_view(a)),
            response_key@,
            items@.len(),
        ),
{
    let ghost its = dated(items@);
    let ghost ans = answers@.map_values(|a: Option<(usize, Json)>| answer_view(a));
    let mut out: Vec<Json> = Vec::new();
    let mut i: usize = 0;
    assert(views(out@) =~= seq![]);
    while i < items.len()
        invariant
            i <= items@.len(),
            items@.len() == answers@.len(),
            its == dated(items@),
            ans == answers@.map_values(|a: Option<(usize, Json)>| answer_view(a)),
            views(out@) == starred_items(its, ans, response_key@, i as nat),
        decreases items@.len() - i,
    {
        let ghost before = out@;
        assert(ans[i as int] == answer_view(answers@[i as int]));
        assert(its[i as int].1 == items@[i as int].1@);
        match &answers[i] {
            Some((backend, resp)) => {
                let n = namespaced_copy(resp, *backend);
                match n.get(response_key) {
                    Some(item) => {
                        let c = item.clone().with_text("starred", items[i].1.as_str());
                        out.push(c);
                        assert(views(out@) =~= views(before).push(c@));
                    },
                    None => {},
                }
            },
            None => {},
        }
        i += 1;
    }
    out
}

/// The part of the starred albums that a list shows.
pub fn resolve_starred_albums(starred: &Vec<(String, String)>, size: usize, offset: usize) -> (r:
    Vec<(String, String)>)
    ensures
        dated(r@) == page(dated(starred@), offset as nat, size as nat),
{
    let ghost s = dated(starred@);
    let n: usize = starred.len();
    let from: usize = if offset < n {
        offset
    } else {
        n
    };
    let to: usize = if size < n - from {
        from + size
    } else {
        n
    };
    let mut out: Vec<(String, String)> = Vec::new();
    let mut i: usize = from;
    assert(dated(out@) =~= s.subrange(from as int, from as int));
    while i < to
        invariant
            from <= i <= to <= starred@.len(),
            s == dated(starred@),
            dated(out@) == s.subrange(from as int, i as int),
        decreases to - i,
    {
        let ghost before = out@;
        let t = (starred[i].0.clone(), starred[i].1.clone());
        out.push(t);
        proof {
            assert(dated(out@) =~= dated(before).push((t.0@, t.1@)));
            assert(s.subrange(from as int, i + 1) =~= s.subrange(from as int, i as int).push(
                s[i as int],
            ));
        }
        i += 1;
    }
    out
}

/// The answer that lists starred items, under `name`.
pub open spec fn starred_under(
    name: Seq<char>,
    artists: Seq<JsonView>,
    albums: Seq<JsonView>,
    songs: Seq<JsonView>,
) -> JsonView {
    object().with(
        name,
        object().with("artist"@, JsonView::Array(artists)).with(
            "album"@,
            JsonView::Array(albums),
        ).with("song"@, JsonView::Array(songs)),
    )
}

/// The answer that lists starred items.
pub fn get_starred2(artists: Vec<Json>, albums: Vec<Json>, songs: Vec<Json>) -> (r: Json)
    ensures
        r@ == starred_under("starred2"@, views(artists@), views(albums@), views(songs@)),
{
    Json::object().with(
        "starred2",
        Json::object().with("artist", Json::array(artists)).with(
            "album",
            Json::array(albums),
        ).with("song", Json::array(songs)),
    )
}

/// The answer of the older kind that lists starred items, which is named
/// otherwise.
pub fn get_starred(artists: Vec<Json>, albums: Vec<Json>, songs: Vec<Json>) -> (r: Json)
    ensures
        r@ == starred_under("starred"@, views(artists@), views(albums@), views(songs@)),
{
    let ghost inner = object().with("artist"@, JsonView::Array(views(artists@))).with(
        "album"@,
        JsonView::Array(views(albums@)),
    ).with("song"@, JsonView::Array(views(songs@)));
    let all = get_starred2(artists, albums, songs);
    proof {
        crate::json::renamed_only_member("starred2"@, "starred"@, inner);
    }
    all.rename("starred2", "starred")
}

// ── Ratings and scrobbles ───────────────────────────────────────

/// The request to the backend that keeps the item named by `id`.
pub open spec fn owner_request(
    fields: Seq<(Seq<char>, Seq<char>)>,
    backends: nat,
    more: Seq<(Seq<char>, Seq<char>)>,
) -> Result<AttemptView, FugueErrorView> {
    match field_value(fields, "id"@) {
        None => Err(missing_param("id"@)),
        Some(id) => match route(id, backends) {
            Ok((backend, original)) => Ok(
                AttemptView {
                    backend: backend as usize,
                    params: seq![("id"@, original)] + more,
                },
            ),
            Err(e) => Err(e),
        },
    }
}

/// The request to the backend that keeps the item named by `id`, without
/// anything more.
pub fn ask_owner(params: &Params, backends: usize) -> (r: Result<Attempt, FugueError>)
    ensures
        match r {
            Ok(a) => owner_request(params@, backends as nat, seq![]) == Ok::<
                AttemptView,
                FugueErrorView,
            >(a@) && a.params@.len() == 1,
            Err(e) => forall|more: Seq<(Seq<char>, Seq<char>)>|
                #[trigger] owner_request(params@, backends as nat, more) == Err::<
                    AttemptView,
                    FugueErrorView,
                >(e@),
        },
{
    match params.required("id") {
        Err(e) => Err(e),
        Ok(id) => match route_to_backend(backends, id.as_str()) {
            Ok((backend, original)) => {
                let mut list: Vec<(String, String)> = Vec::new();
                list.push(("id".to_owned(), original));
                assert(pair_views(list@) =~= seq![("id"@, original@)] + seq![]);
                Ok(Attempt { backend, params: list })
            },
            Err(e) => Err(e),
        },
    }
}

/// What the backend that keeps an item is asked for a rating.
pub fn set_rating(params: &Params, backends: usize) -> (r: Result<Attempt, FugueError>)
    ensures
        ({
            let want = owner_request(
                params@,
                backends as nat,
                seq![("rating"@, value_or(params@, "rating"@, "0"@))],
            );
            match r {
                Ok(a) => want == Ok::<AttemptView, FugueErrorView>(a@),
                Err(e) => want == Err::<AttemptView, FugueErrorView>(e@),
            }
        }),
{
    match ask_owner(params, backends) {
        Err(e) => Err(e),
        Ok(a) => {
            let ghost before = a.params@;
            let mut list = a.params;
            let v = params.get_or("rating", "0");
            list.push(("rating".to_owned(), v));
            assert(pair_views(list@) =~= pair_views(before) + seq![("rating"@, v@)]);
            Ok(Attempt { backend: a.backend, params: list })
        },
    }
}

/// What the backend that keeps a song is told of its being played.
pub fn scrobble(params: &Params, backends: usize) -> (r: Result<Attempt, FugueError>)
    ensures
        ({
            let want = owner_request(
                params@,
                backends as nat,
                passed_on(passed_on(seq![], params@, "time"@), params@, "submission"@),
            );
            match r {
                Ok(a) => want == Ok::<AttemptView, FugueErrorView>(a@),
                Err(e) => want == Err::<AttemptView, FugueErrorView>(e@),
            }
        }),
{
    match ask_owner(params, backends) {
        Err(e) => Err(e),
        Ok(a) => {
            let ghost before = pair_views(a.params@);
            let mut list = a.params;
            pass_on(&mut list, params, "time");
            pass_on(&mut list, params, "submission");
            proof {
                let more = passed_on(passed_on(seq![], params@, "time"@), params@, "submission"@);
                assert(passed_on(before, params@, "time"@) =~= before + passed_on(
                    seq![],
                    params@,
                    "time"@,
                ));
                assert(pair_views(list@) =~= before + more);
            }
            Ok(Attempt { backend: a.backend, params: list })
        },
    }
}

/// Whether a scrobble only says what is playing now, which friends are told.
pub fn is_now_playing(params: &Params) -> (r: bool)
    ensures
        r == (field_value(params@, "submission"@) matches Some(v) && v != "true"@),
{
    match params.get("submission") {
        Some(v) => !str_eq(v.as_str(), "true"),
        None => false,
    }
}

/// Starring a song by `id` stars the song and the album that its backend says it
/// is on; `albumId` and `artistId` star what they name. Songs come first, then
/// albums, then artists.
pub proof fn stars_go_to_what_is_named(
    fields: Seq<(Seq<char>, Seq<char>)>,
    answer: SongAnswer,
)
    ensures
        items_to_star(fields, answer) == (match field_value(fields, "id"@) {
            Some(id) => seq![(id, "song"@)] + (match answer {
                SongAnswer::Answered { backend, resp } => match resp@.get("song"@) {
                    Some(song) => match song.get("albumId"@) {
                        Some(JsonView::Text(album)) => seq![
                            (namespaced_id(backend as nat, album), "album"@),
                        ],
                        _ => seq![],
                    },
                    None => seq![],
                },
                SongAnswer::Failed => seq![(id, "album"@)],
                SongAnswer::Unrouted => seq![],
            }),
            None => seq![],
        }) + (match field_value(fields, "albumId"@) {
            Some(album) => seq![(album, "album"@)],
            None => seq![],
        }) + (match field_value(fields, "artistId"@) {
            Some(artist) => seq![(artist, "artist"@)],
            None => seq![],
        }),
{
}

/// What is starred is shown as its backend describes it, namespaced, with the
/// time at which it was starred; what no backend knows is left out.
pub proof fn starred_items_are_shown_with_their_times(
    items: Seq<(Seq<char>, Seq<char>)>,
    answers: Seq<Option<(usize, JsonView)>>,
    key: Seq<char>,
    n: nat,
)
    ensures
        starred_items(items, answers, key, n) == Seq::new(
            n,
            |i: int|
                match answers[i] {
                    Some((backend, resp)) => match namespaced(resp, backend as nat).get(key) {
                        Some(item) => seq![item.with("starred"@, JsonView::Text(items[i].1))],
                        None => seq![],
                    },
                    None => seq![],
                },
        ).flatten(),
    decreases n,
{
    let f = |i: int|
        match answers[i] {
            Some((backend, resp)) => match namespaced(resp, backend as nat).get(key) {
                Some(item) => seq![item.with("starred"@, JsonView::Text(items[i].1))],
                None => seq![],
            },
            None => seq![],
        };
    let all = Seq::new(n, f);
    lemma_layout_end(all);
    if n > 0 {
        starred_items_are_shown_with_their_times(items, answers, key, (n - 1) as nat);
        assert(all.drop_last() =~= Seq::new((n - 1) as nat, f));
    }
}

/// The starred artists, albums and songs are each shown under their own name.
pub proof fn starred_kinds_are_shown_apart(
    name: Seq<char>,
    artists: Seq<JsonView>,
    albums: Seq<JsonView>,
    songs: Seq<JsonView>,
)
    ensures
        starred_under(name, artists, albums, songs).items_in(name, "artist"@) == artists,
        starred_under(name, artists, albums, songs).items_in(name, "album"@) == albums,
        starred_under(name, artists, albums, songs).items_in(name, "song"@) == songs,
{
    broadcast use reading_after_setting;

    reveal_strlit("artist");
    reveal_strlit("album");
    reveal_strlit("song");
}

/// What is asked about an item goes to the backend that owns it, under the
/// identifier that the item has there, with all that is to be told besides.
pub proof fn owners_are_asked_about_their_items(
    fields: Seq<(Seq<char>, Seq<char>)>,
    backend: nat,
    original: Seq<char>,
    backends: nat,
    more: Seq<(Seq<char>, Seq<char>)>,
)
    requires
        backend < backends <= usize::MAX,
    ensures
        field_value(fields, "id"@) == Some(namespaced_id(backend, original)) ==> owner_request(
            fields,
            backends,
            more,
        ) == Ok::<AttemptView, FugueErrorView>(
            (AttemptView { backend: backend as usize, params: seq![("id"@, original)] + more }),
        ),
        field_value(fields, "id"@) is None ==> owner_request(fields, backends, more) == Err::<
            AttemptView,
            FugueErrorView,
        >(missing_param("id"@)),
{
    ids_lead_back(backend, original, backends);
}

/// The values of a repeated or single parameter are taken up behind the others.
pub proof fn given_values_are_taken_up(
    list: Seq<Seq<char>>,
    fields: Seq<(Seq<char>, Seq<char>)>,
    key: Seq<char>,
)
    ensures
        with_value(list, fields, key) == list + (match field_value(fields, key) {
            Some(v) => seq![v],
            None => seq![],
        }),
{
}

} // verus!
