//! Sharing libraries: what friends are told of the library here.

use crate::cache::db::{name_norm, normalize_name};
use crate::cache::meta::{
    get_cache_meta, modified_name, remembered, remembered_value_is_read, set_cache_meta, sync_name,
    Meta, MetaView,
};
use crate::error::{FugueError, FugueErrorView};
use crate::json::{integer, object, reading_after_setting, Json, JsonView, NumberView};
use crate::sorting::{ranking, ranking_is_total_preorder, sort, stable_sort};
use crate::strs::{concat2, opt_text, text_less, views};
use crate::subsonic::models::TextKeyed;
use crate::table::written;
use vstd::prelude::*;

verus! {

/// A text as JSON, null if there is none.
pub open spec fn text_or_null(o: Option<Seq<char>>) -> JsonView {
    match o {
        Some(s) => JsonView::Text(s),
        None => JsonView::Null,
    }
}

/// A text as JSON, null if there is none.
pub fn opt_text_json(o: &Option<String>) -> (r: Json)
    ensures
        r@ == text_or_null(opt_text(*o)),
{
    match o {
        Some(s) => Json::text(s.as_str()),
        None => Json::Null,
    }
}

/// An album, as a summary lists it.
#[derive(Debug)]
pub struct AlbumSummary {
    pub id: String,
    pub name: String,
    pub artist: Option<String>,
    pub year: Option<i64>,
}

/// An artist of a summary, sorted by name.
pub open spec fn artist_summary(a: (String, String)) -> (Seq<char>, JsonView) {
    (
        name_norm(a.1@),
        object().with("id"@, JsonView::Text(a.0@)).with("name"@, JsonView::Text(a.1@)),
    )
}

/// An album of a summary, sorted by name.
pub open spec fn album_summary(a: AlbumSummary) -> (Seq<char>, JsonView) {
    (
        name_norm(a.name@),
        object().with("id"@, JsonView::Text(a.id@)).with("name"@, JsonView::Text(a.name@)).with(
            "artist"@,
            text_or_null(opt_text(a.artist)),
        ).with(
            "year"@,
            match a.year {
                Some(y) => integer(y as int),
                None => JsonView::Null,
            },
        ),
    )
}

/// Items in the order of their names.
pub open spec fn by_name(s: Seq<(Seq<char>, JsonView)>) -> Seq<JsonView> {
    stable_sort(s, ranking::<TextKeyed>()).map_values(|t: (Seq<char>, JsonView)| t.1)
}

pub(crate) fn sort_by_name(items: Vec<TextKeyed>) -> (r: Vec<Json>)
    ensures
        views(r@) == by_name(views(items@)),
{
    let sorted = sort(items);
    let ghost want = views(sorted@).map_values(|t: (Seq<char>, JsonView)| t.1);
    let mut out: Vec<Json> = Vec::new();
    let mut k: usize = 0;
    while k < sorted.len()
        invariant
            k <= sorted@.len(),
            want == views(sorted@).map_values(|t: (Seq<char>, JsonView)| t.1),
            views(out@) == want.take(k as int),
        decreases sorted@.len() - k,
    {
        let ghost before = out@;
        let c = sorted[k].item.clone();
        out.push(c);
        assert(views(out@) =~= views(before).push(c@));
        assert(want.take(k + 1) =~= want.take(k as int).push(c@));
        k += 1;
    }
    assert(want.take(k as int) =~= want);
    out
}

/// What friends are told of a library.
pub open spec fn library_summary(
    stats: (i64, i64, i64),
    artists: Seq<(String, String)>,
    albums: Seq<AlbumSummary>,
) -> JsonView {
    object().with("version"@, integer(1)).with(
        "stats"@,
        object().with("artists"@, integer(stats.0 as int)).with(
            "albums"@,
            integer(stats.1 as int),
        ).with("tracks"@, integer(stats.2 as int)),
    ).with(
        "artists"@,
        JsonView::Array(by_name(artists.map_values(|a: (String, String)| artist_summary(a)))),
    ).with(
        "albums"@,
        JsonView::Array(by_name(albums.map_values(|a: AlbumSummary| album_summary(a)))),
    )
}

/// Builds what friends are told of this library: the numbers of artists,
/// albums and tracks, and all artists and albums by name.
pub fn build_library_summary(
    stats: (i64, i64, i64),
    artists: &Vec<(String, String)>,
    albums: &Vec<AlbumSummary>,
) -> (r: Json)
    ensures
        r@ == library_summary(stats, artists@, albums@),
{
    let ghost want = artists@.map_values(|a: (String, String)| artist_summary(a));
    let mut keyed: Vec<TextKeyed> = Vec::new();
    let mut i: usize = 0;
    while i < artists.len()
        invariant
            i <= artists@.len(),
            want == artists@.map_values(|a: (String, String)| artist_summary(a)),
            views(keyed@) == want.take(i as int),
        decreases artists@.len() - i,
    {
        let ghost before = keyed@;
        let a = &artists[i];
        let k = TextKeyed {
            key: normalize_name(a.1.as_str()),
            item: Json::object().with_text("id", a.0.as_str()).with_text("name", a.1.as_str()),
        };
        let ghost kv = k@;
        keyed.push(k);
        assert(views(keyed@) =~= views(before).push(kv));
        assert(want.take(i + 1) =~= want.take(i as int).push(kv));
        i += 1;
    }
    assert(want.take(i as int) =~= want);
    let artist_list = sort_by_name(keyed);
    let ghost wanted = albums@.map_values(|a: AlbumSummary| album_summary(a));
    let mut album_keys: Vec<TextKeyed> = Vec::new();
    let mut j: usize = 0;
    while j < albums.len()
        invariant
            j <= albums@.len(),
            wanted == albums@.map_values(|a: AlbumSummary| album_summary(a)),
            views(album_keys@) == wanted.take(j as int),
        decreases albums@.len() - j,
    {
        let ghost before = album_keys@;
        let a = &albums[j];
        let year = match a.year {
            Some(y) => Json::integer(y),
            None => Json::Null,
        };
        let k = TextKeyed {
            key: normalize_name(a.name.as_str()),
            item: Json::object().with_text("id", a.id.as_str()).with_text(
                "name",
                a.name.as_str(),
            ).with("artist", opt_text_json(&a.artist)).with("year", year),
        };
        let ghost kv = k@;
        album_keys.push(k);
        assert(views(album_keys@) =~= views(before).push(kv));
        assert(wanted.take(j + 1) =~= wanted.take(j as int).push(kv));
        j += 1;
    }
    assert(wanted.take(j as int) =~= wanted);
    let album_list = sort_by_name(album_keys);
    Json::object().with("version", Json::integer(1)).with(
        "stats",
        Json::object().with("artists", Json::integer(stats.0)).with(
            "albums",
            Json::integer(stats.1),
        ).with("tracks", Json::integer(stats.2)),
    ).with("artists", Json::array(artist_list)).with("albums", Json::array(album_list))
}

/// Under which name a friend's library is kept.
pub open spec fn library_name(friend_node_id: Seq<char>) -> Seq<char> {
    "friend_library_"@ + friend_node_id
}

/// Under which name a friend's library is kept.
pub fn friend_library_key(friend_node_id: &str) -> (r: String)
    ensures
        r@ == library_name(friend_node_id@),
{
    concat2("friend_library_", friend_node_id)
}

/// Keeps what a friend told of their library, as text.
pub fn store_friend_library(
    rows: &mut Vec<Meta>,
    friend_node_id: &str,
    summary: &str,
    now: &str,
)
    ensures
        views(final(rows)@) == written::<Meta>(
            views(old(rows)@),
            (MetaView {
                key: library_name(friend_node_id@),
                value: summary@,
                updated_at: now@,
            }),
        ),
{
    set_cache_meta(rows, friend_library_key(friend_node_id).as_str(), summary, now);
}

/// What a friend told of their library, as text, if it is kept.
pub fn get_friend_library(rows: &Vec<Meta>, friend_node_id: &str) -> (r: Option<String>)
    ensures
        opt_text(r) == remembered(views(rows@), library_name(friend_node_id@)),
{
    get_cache_meta(rows, friend_library_key(friend_node_id).as_str())
}

/// A friend's library that was kept is read back. The libraries of others and
/// what is remembered of backends stay as they were.
pub proof fn kept_library_is_read(
    rows: Seq<MetaView>,
    friend: Seq<char>,
    summary: Seq<char>,
    updated_at: Seq<char>,
    other: Seq<char>,
    backend: nat,
)
    requires
        other != friend,
    ensures
        ({
            let after = written::<Meta>(
                rows,
                (MetaView { key: library_name(friend), value: summary, updated_at }),
            );
            &&& remembered(after, library_name(friend)) == Some(summary)
            &&& remembered(after, library_name(other)) == remembered(rows, library_name(other))
            &&& remembered(after, sync_name(backend)) == remembered(rows, sync_name(backend))
            &&& remembered(after, modified_name(backend)) == remembered(
                rows,
                modified_name(backend),
            )
        }),
{
    reveal_strlit("friend_library_");
    reveal_strlit("backend_");
    let new = MetaView { key: library_name(friend), value: summary, updated_at };
    if library_name(other) == library_name(friend) {
        let n = "friend_library_"@.len() as int;
        assert(library_name(other).skip(n) =~= other);
        assert(library_name(friend).skip(n) =~= friend);
    }
    assert(library_name(friend)[0] == 'f');
    assert(sync_name(backend)[0] == 'b');
    assert(modified_name(backend)[0] == 'b');
    remembered_value_is_read(rows, new, library_name(other));
    remembered_value_is_read(rows, new, sync_name(backend));
    remembered_value_is_read(rows, new, modified_name(backend));
}

/// The error for a friend's library that cannot be read.
pub fn friend_library_error(fault: &str) -> (r: FugueError)
    ensures
        r@ == FugueErrorView::Internal("parse friend library: "@ + fault@),
{
    FugueError::Internal(concat2("parse friend library: ", fault))
}

/// Texts that are known are shown as they are.
pub proof fn known_texts_are_shown(s: Seq<char>)
    ensures
        text_or_null(Some(s)) == JsonView::Text(s),
        text_or_null(None) == JsonView::Null,
{
}

/// Items are listed by the names that they are filed under, and none is lost.
pub proof fn items_are_listed_by_name(s: Seq<(Seq<char>, JsonView)>) -> (t: Seq<
    (Seq<char>, JsonView),
>)
    ensures
        t.to_multiset() == s.to_multiset(),
        by_name(s) == t.map_values(|x: (Seq<char>, JsonView)| x.1),
        forall|i: int, j: int|
            0 <= i < j < t.len() ==> !text_less((#[trigger] t[j]).0, (#[trigger] t[i]).0),
{
    let leq = ranking::<TextKeyed>();
    ranking_is_total_preorder::<TextKeyed>();
    crate::sorting::stable_sort_sorts(s, leq);
    let t = stable_sort(s, leq);
    assert forall|i: int, j: int| 0 <= i < j < t.len() implies !text_less(
        (#[trigger] t[j]).0,
        (#[trigger] t[i]).0,
    ) by {
        assert(leq(t[i], t[j]));
    }
    t
}

proof fn lemma_album_shown(a: AlbumSummary)
    ensures
        ({
            let r = album_summary(a).1;
            &&& r.get("id"@) == Some(JsonView::Text(a.id@))
            &&& r.get("name"@) == Some(JsonView::Text(a.name@))
            &&& a.artist matches Some(x) ==> r.get("artist"@) == Some(JsonView::Text(x@))
            &&& a.artist is None ==> r.get("artist"@) == Some(JsonView::Null)
            &&& a.year matches Some(y) ==> r.get("year"@) == Some(integer(y as int))
            &&& a.year is None ==> r.get("year"@) == Some(JsonView::Null)
        }),
{
    broadcast use reading_after_setting;

    reveal_strlit("id");
    reveal_strlit("name");
    reveal_strlit("artist");
    reveal_strlit("year");
    assert("id"@.len() == 2 && "name"@.len() == 4 && "artist"@.len() == 6 && "year"@.len() == 4);
    assert("name"@[0] != "year"@[0]);
}

/// An artist is summed up by identifier and name, an album by these, its artist
/// and its year; both are filed under their normalized names.
pub proof fn summaries_show_the_essentials(artist: (String, String), album: AlbumSummary)
    ensures
        artist_summary(artist).0 == name_norm(artist.1@),
        artist_summary(artist).1.get("id"@) == Some(JsonView::Text(artist.0@)),
        artist_summary(artist).1.get("name"@) == Some(JsonView::Text(artist.1@)),
        ({
            let r = album_summary(album).1;
            &&& album_summary(album).0 == name_norm(album.name@)
            &&& r.get("id"@) == Some(JsonView::Text(album.id@))
            &&& r.get("name"@) == Some(JsonView::Text(album.name@))
            &&& album.artist matches Some(x) ==> r.get("artist"@) == Some(JsonView::Text(x@))
            &&& album.artist is None ==> r.get("artist"@) == Some(JsonView::Null)
            &&& album.year matches Some(y) ==> r.get("year"@) == Some(integer(y as int))
            &&& album.year is None ==> r.get("year"@) == Some(JsonView::Null)
        }),
{
    broadcast use reading_after_setting;

    reveal_strlit("id");
    reveal_strlit("name");
    assert("id"@.len() == 2 && "name"@.len() == 4);
    lemma_album_shown(album);
}

/// A library is summed up by its counts and by all its artists and albums.
pub proof fn summaries_hold_counts_artists_and_albums(
    stats: (i64, i64, i64),
    artists: Seq<(String, String)>,
    albums: Seq<AlbumSummary>,
)
    requires
        stats.0 >= 0,
        stats.1 >= 0,
        stats.2 >= 0,
    ensures
        ({
            let r = library_summary(stats, artists, albums);
            &&& r.get("version"@) == Some(JsonView::Number(NumberView::PosInt(1)))
            &&& r.items("artists"@) == by_name(
                artists.map_values(|a: (String, String)| artist_summary(a)),
            )
            &&& r.items("albums"@) == by_name(
                albums.map_values(|a: AlbumSummary| album_summary(a)),
            )
            &&& r.get("stats"@) matches Some(s) && s.get("artists"@) == Some(
                JsonView::Number(NumberView::PosInt(stats.0 as u64)),
            ) && s.get("albums"@) == Some(JsonView::Number(NumberView::PosInt(stats.1 as u64)))
                && s.get("tracks"@) == Some(JsonView::Number(NumberView::PosInt(stats.2 as u64)))
        }),
{
    broadcast use reading_after_setting;

    reveal_strlit("version");
    reveal_strlit("stats");
    reveal_strlit("artists");
    reveal_strlit("albums");
    reveal_strlit("tracks");
    assert("version"@.len() == 7 && "stats"@.len() == 5 && "artists"@.len() == 7);
    assert("albums"@.len() == 6 && "tracks"@.len() == 6);
    assert("version"@[0] != "artists"@[0]);
    assert("albums"@[0] != "tracks"@[0]);
}

} // verus!
