use fugue::cache::db::{
    any_cache_fresh, count_unique_albums, find_artist_ids_by_name, get_albums_by_artist,
    get_all_albums, get_all_albums_deduped, get_all_artists, get_all_artists_deduped,
    is_cache_fresh, is_hidden, last_modified_key, last_sync_key, normalize_name, search_cached,
    AlbumEntry, ArtistEntry, MemberEntry, TrackEntry,
};
use fugue::cache::meta::{get_cache_meta, set_cache_meta};
use fugue::cache::refresh::{
    after_indexes, album_tracks, any_changed, batch_params, cache_album, check_new_albums,
    epoch_now_str, full_sync, incremental_sync, is_incremental, last_modified, refresh_backend,
    stale_albums, sync_artists, Crawl, RefreshCause, RefreshStep,
};
use fugue::id::encode_id;
use fugue::json::Json;
use fugue::random::random_order;
use fugue::subsonic::annotation::{
    get_starred, get_starred2, is_now_playing, resolve_items, resolve_starred_albums, scrobble,
    set_rating, star, starred_by, unstar, SongAnswer,
};
use fugue::subsonic::browsing::{
    ask_siblings, build_artist_index, get_artist, get_artists, get_genres, get_indexes,
    get_music_folders, namespaced_answer,
};
use fugue::subsonic::extras;
use fugue::subsonic::favorites_db;
use fugue::subsonic::lists::{
    cached_list, get_album_list, get_album_list2_source, get_album_list_source, list_params,
    ListQuery, ListSource,
};
use fugue::subsonic::models::{
    merge_album_lists, merge_artist_indexes, merge_playlists, merge_random_songs,
    merge_search_results, merge_songs_in_order, merge_starred, namespaced_copy,
};
use fugue::subsonic::params::Params;
use fugue::subsonic::search::{cached_search, search2, search3, SearchQuery};

fn params(list: &[(&str, &str)]) -> Params {
    Params {
        fields: list.iter().map(|(k, v)| (k.to_string(), v.to_string())).collect(),
    }
}

fn named(id: &str, name: &str) -> Json {
    Json::object().with_text("id", id).with_text("name", name)
}

fn under(outer: &str, inner: &str, items: Vec<Json>) -> Json {
    Json::object().with(outer, Json::object().with(inner, Json::array(items)))
}

fn items<'a>(j: &'a Json, outer: &str, inner: &str) -> &'a Vec<Json> {
    j.get(outer).unwrap().get(inner).unwrap().as_array().unwrap()
}

fn names(list: &[Json]) -> Vec<&str> {
    list.iter().map(|j| j.str_or("name", "?")).collect()
}

// ── Merging ─────────────────────────────────────────────────────

#[test]
fn ids_are_namespaced_everywhere() {
    let song = Json::object()
        .with_text("id", "s")
        .with_text("albumId", "al")
        .with_text("title", "id")
        .with("nested", Json::array(vec![Json::object().with_text("parent", "p")]));
    let n = namespaced_copy(&song, 3);
    assert_eq!(n.str_or("id", ""), encode_id(3, "s"));
    assert_eq!(n.str_or("albumId", ""), encode_id(3, "al"));
    assert_eq!(n.str_or("title", ""), "id");
    let nested = n.get("nested").unwrap().as_array().unwrap();
    assert_eq!(nested[0].str_or("parent", ""), encode_id(3, "p"));
}

#[test]
fn album_lists_are_sorted_and_paged() {
    let a = under("albumList2", "album", vec![named("1", "b"), named("2", "D")]);
    let b = under("albumList2", "album", vec![named("1", "A"), named("2", "c")]);
    let m = merge_album_lists(vec![(0, a.clone()), (1, b.clone())], "alphabeticalByName", 2, 1);
    assert_eq!(names(items(&m, "albumList2", "album")), vec!["b", "c"]);
    let m = merge_album_lists(vec![(0, a.clone()), (1, b.clone())], "frequent", 10, 0);
    assert_eq!(names(items(&m, "albumList2", "album")), vec!["b", "D", "A", "c"]);
    let m = merge_album_lists(vec![(0, a.clone()), (1, b.clone())], "random", 10, 0);
    assert_eq!(items(&m, "albumList2", "album").len(), 4);
    let m = get_album_list(vec![(0, a), (1, b)], "alphabeticalByName", 9, 0);
    assert!(m.get("albumList2").is_none());
    assert_eq!(names(items(&m, "albumList", "album")), vec!["A", "b", "c", "D"]);
}

#[test]
fn pages_make_up_the_album_list() {
    let a = under("albumList2", "album", vec![named("1", "b"), named("2", "D"), named("3", "e")]);
    let b = under("albumList2", "album", vec![named("1", "A"), named("2", "c")]);
    let mut shown = vec![];
    for offset in [0, 2, 4, 6] {
        let both = vec![(0, a.clone()), (1, b.clone())];
        let m = merge_album_lists(both, "alphabeticalByName", 2, offset);
        shown.extend(names(items(&m, "albumList2", "album")).iter().map(|n| n.to_string()));
    }
    assert_eq!(shown, vec!["A", "b", "c", "D", "e"]);
}

#[test]
fn newest_albums_come_first() {
    let album = |n: &str, c: &str| named("x", n).with_text("created", c);
    let a = under("albumList2", "album", vec![album("old", "2001"), album("new", "2020")]);
    let m = merge_album_lists(vec![(0, a)], "newest", 10, 0);
    assert_eq!(names(items(&m, "albumList2", "album")), vec!["new", "old"]);
}

#[test]
fn searches_are_cut_to_their_counts() {
    let r = Json::object().with(
        "searchResult3",
        Json::object()
            .with("artist", Json::array(vec![named("1", "a"), named("2", "b")]))
            .with("song", Json::array(vec![named("1", "s")])),
    );
    let m = merge_search_results(vec![(0, r.clone()), (1, r.clone())], 3, 5, 0);
    assert_eq!(items(&m, "searchResult3", "artist").len(), 3);
    assert_eq!(items(&m, "searchResult3", "album").len(), 0);
    assert_eq!(items(&m, "searchResult3", "song").len(), 0);
    let q = SearchQuery::from_params(&params(&[("query", "x"), ("artistCount", "1")]));
    let s2 = search2(vec![(0, r.clone())], &q);
    assert_eq!(items(&s2, "searchResult2", "artist").len(), 1);
    assert!(s2.get("searchResult3").is_none());
    assert_eq!(items(&search3(vec![(0, r)], &q), "searchResult3", "song").len(), 1);
}

#[test]
fn playlists_and_stars_are_gathered() {
    let p = under("playlists", "playlist", vec![named("1", "p")]);
    let m = merge_playlists(vec![(0, p.clone()), (1, p)]);
    assert_eq!(items(&m, "playlists", "playlist").len(), 2);
    let s = under("starred2", "song", vec![named("1", "s")]);
    let m = merge_starred(vec![(0, s)]);
    assert_eq!(items(&m, "starred2", "song").len(), 1);
    assert_eq!(items(&m, "starred2", "artist").len(), 0);
}

#[test]
fn random_songs_follow_the_order() {
    let r = under("randomSongs", "song", vec![named("1", "a"), named("2", "b"), named("3", "c")]);
    let m = merge_songs_in_order(&vec![(0, r.clone())], 2, &vec![2, 0, 1]);
    assert_eq!(names(items(&m, "randomSongs", "song")), vec!["c", "a"]);
    let m = merge_random_songs(vec![(0, r)], 10);
    let mut n = names(items(&m, "randomSongs", "song"));
    n.sort();
    assert_eq!(n, vec!["a", "b", "c"]);
}

#[test]
fn random_orders_are_orders() {
    let mut o = random_order(50);
    assert_ne!(o, (0..50).collect::<Vec<usize>>());
    o.sort();
    assert_eq!(o, (0..50).collect::<Vec<usize>>());
}

#[test]
fn artist_indexes_merge_by_letter() {
    let index = |l: &str, list: Vec<Json>| Json::object().with_text("name", l).with("artist", Json::array(list));
    let a = under("artists", "index", vec![index("B", vec![named("1", "Beck")])]);
    let b = under("artists", "index", vec![index("A", vec![named("1", "Air")]), index("B", vec![named("2", "ABBA b")])]);
    let m = merge_artist_indexes(vec![(0, a), (1, b)]);
    let idx = items(&m, "artists", "index");
    assert_eq!(names(idx), vec!["A", "B"]);
    assert_eq!(idx[1].get("artist").unwrap().as_array().unwrap().len(), 2);
}

#[test]
fn flat_lists_are_indexed_by_their_first_letter() {
    let m = build_artist_index(&vec![named("1", "élan"), named("2", "2Pac"), named("3", "Eels")]);
    assert_eq!(names(items(&m, "artists", "index")), vec!["#", "E", "É"]);
    let i = get_indexes(m);
    assert!(i.get("indexes").is_some());
    assert!(i.get("artists").is_none());
    assert!(get_artists(&vec![named("1", "x")], false).is_none());
    assert!(get_artists(&vec![], true).is_none());
    assert!(get_artists(&vec![named("1", "x")], true).is_some());
    assert!(get_music_folders().get("musicFolders").is_some());
}

#[test]
fn a_discography_is_merged_from_all_backends() {
    let album = |id: &str, n: &str, y: i64| named(id, n).with("year", Json::integer(y));
    let own = Json::object().with(
        "artist",
        named("x", "X").with("album", Json::array(vec![album("1", "B", 2000), album("2", "A", 1990)])),
    );
    let other = Json::object().with(
        "artist",
        named("y", "X").with("album", Json::array(vec![album("1", "b", 2000), album("2", "C", 1995)])),
    );
    let m = get_artist(0, &own, &vec![(1, other)]);
    let albums = m.get("artist").unwrap().get("album").unwrap().as_array().unwrap();
    assert_eq!(names(albums), vec!["A", "C", "B"]);
    assert_eq!(albums[1].str_or("id", ""), encode_id(1, "2"));
    let plain = namespaced_answer(0, &own);
    assert_eq!(plain.get("artist").unwrap().str_or("id", ""), encode_id(0, "x"));
}

#[test]
fn siblings_are_asked_on_their_backends() {
    let me = encode_id(0, "a");
    let list = vec![(me.clone(), 0), (encode_id(1, "b"), 1), (encode_id(9, "c"), 9)];
    assert_eq!(ask_siblings(&me, &list, 2), vec![(1, "b".to_string())]);
    assert!(ask_siblings(&me, &vec![(encode_id(1, "b"), 1)], 2).is_empty());
}

#[test]
fn genres_are_counted_together() {
    let g = |n: i64| under("genres", "genre", vec![Json::object().with_text("value", "Rock").with("songCount", Json::integer(n)).with("albumCount", Json::integer(1))]);
    let m = get_genres(vec![(0, g(3)), (1, g(4))]);
    let list = items(&m, "genres", "genre");
    assert_eq!(list.len(), 1);
    assert_eq!(list[0].get_i64("songCount"), Some(7));
    assert_eq!(list[0].get_i64("albumCount"), Some(2));
}

// ── The cache ───────────────────────────────────────────────────

#[test]
fn freshness_lasts_twice_the_interval() {
    let at = "1000".to_string();
    assert!(is_cache_fresh(Some(&at), 1099, 100));
    assert!(!is_cache_fresh(Some(&at), 1100, 100));
    assert!(!is_cache_fresh(None, 0, 100));
    assert!(!is_cache_fresh(Some(&"x".to_string()), 0, 100));
    let all = vec![None, Some(at)];
    assert!(any_cache_fresh(&all, 1199, 100));
    assert!(!any_cache_fresh(&all, 1200, 100));
    assert_eq!(last_sync_key(2), "backend_2_last_sync");
    assert_eq!(last_modified_key(2), "backend_2_last_modified");
    let now: u64 = epoch_now_str().parse().unwrap();
    assert!(now > 1_600_000_000);
    assert!(is_cache_fresh(Some(&epoch_now_str()), now, 100));
}

fn member(print: &str, id: &str, score: i128) -> MemberEntry {
    MemberEntry {
        fingerprint: print.to_string(),
        entity_type: "album".to_string(),
        namespaced_id: id.to_string(),
        score,
    }
}

fn album(id: &str, name: &str, artist_id: &str, year: Option<i64>, updated: &str) -> AlbumEntry {
    AlbumEntry {
        id: id.to_string(),
        name_norm: normalize_name(name),
        artist: Some("Z".to_string()),
        artist_id: Some(artist_id.to_string()),
        year,
        updated_at: updated.to_string(),
        data: named(id, name),
    }
}

#[test]
fn the_best_of_a_group_is_shown() {
    let ms = vec![member("f", "a", 10), member("f", "b", 20), member("f", "c", 20), member("g", "d", 1)];
    assert!(is_hidden(&ms, "album", "a"));
    assert!(!is_hidden(&ms, "album", "b"));
    assert!(is_hidden(&ms, "album", "c"));
    assert!(!is_hidden(&ms, "album", "d"));
    assert!(!is_hidden(&ms, "track", "a"));
    let rows = vec![album("a", "One", "x", None, "1"), album("b", "one", "y", None, "2"), album("e", "Two", "x", None, "3")];
    let shown = get_all_albums_deduped(&rows, &ms, "newest", 10, 0);
    assert_eq!(names(&shown), vec!["Two", "one"]);
    assert_eq!(get_all_albums(&rows, "newest", 10, 0).len(), 3);
    assert_eq!(get_all_albums_deduped(&rows, &ms, "newest", 10, 1).len(), 1);
}

#[test]
fn cached_albums_sort_by_year_and_artist() {
    let mut rows = vec![album("a", "B", "x", Some(2000), "1"), album("b", "A", "x", Some(2000), "1"), album("c", "C", "x", None, "1")];
    assert_eq!(names(&get_all_albums(&rows, "byYear", 9, 0)), vec!["C", "A", "B"]);
    rows[0].artist = Some("AA".to_string());
    rows[1].artist = Some("b".to_string());
    rows[2].artist = None;
    assert_eq!(names(&get_all_albums(&rows, "alphabeticalByArtist", 9, 0)), vec!["C", "B", "A"]);
    assert_eq!(names(&get_all_albums(&rows, "other", 9, 0)), vec!["A", "B", "C"]);
    assert_eq!(names(&get_albums_by_artist(&rows, "x")), vec!["C", "A", "B"]);
    assert!(get_albums_by_artist(&rows, "none").is_empty());
}

fn artist(id: &str, backend: usize, name: &str, count: i64) -> ArtistEntry {
    ArtistEntry {
        id: id.to_string(),
        backend_idx: backend,
        name_norm: normalize_name(name),
        album_count: count,
        data: named(id, name),
    }
}

#[test]
fn artists_of_one_name_are_one() {
    let artists = vec![artist("x0", 0, "Xavier", 3), artist("x1", 1, " xavier ", 4), artist("b", 0, "Bo", 1)];
    let albums = vec![
        album("a", "One", "x0", None, ""),
        album("b", "One", "x1", None, ""),
        album("c", "Two", "x1", None, ""),
    ];
    let ms = vec![member("f", "a", 1), member("f", "b", 2)];
    assert_eq!(count_unique_albums(&albums, &artists, &ms, "xavier"), 2);
    let list = get_all_artists_deduped(&artists, &albums, &ms);
    assert_eq!(names(&list), vec!["Bo", " xavier "]);
    assert_eq!(list[1].get_i64("albumCount"), Some(2));
    assert_eq!(get_all_artists(&artists).len(), 3);
    assert_eq!(
        find_artist_ids_by_name(&artists, "x1"),
        vec![("x0".to_string(), 0), ("x1".to_string(), 1)]
    );
    assert!(find_artist_ids_by_name(&artists, "?").is_empty());
}

#[test]
fn searches_find_no_duplicates() {
    let artists = vec![artist("x0", 0, "X", 3), artist("x1", 1, "x", 3)];
    let albums = vec![album("a", "One", "x0", None, ""), album("b", "One", "x1", None, "")];
    let mut ms = vec![member("f", "a", 1), member("f", "b", 2)];
    ms.push(MemberEntry {
        fingerprint: "t".into(),
        entity_type: "track".into(),
        namespaced_id: "t1".into(),
        score: 5,
    });
    ms.push(MemberEntry {
        fingerprint: "t".into(),
        entity_type: "track".into(),
        namespaced_id: "t2".into(),
        score: 9,
    });
    let tracks = vec![
        TrackEntry { id: "t1".into(), title_norm: "one".into(), data: named("t1", "T") },
        TrackEntry { id: "t2".into(), title_norm: "one".into(), data: named("t2", "T") },
    ];
    let x = search_cached(&artists, &albums, &tracks, &ms, "X", 5, 5, 5);
    assert_eq!((x.artists.len(), x.albums.len(), x.songs.len()), (1, 0, 0));
    let f = search_cached(&artists, &albums, &tracks, &ms, "%", 5, 5, 5);
    assert_eq!(f.artists.len(), 1);
    assert_eq!(f.artists[0].str_or("id", ""), "x0");
    assert_eq!(f.albums[0].str_or("id", ""), "b");
    assert_eq!(f.songs.len(), 1);
    assert_eq!(f.songs[0].str_or("id", ""), "t2");
    let n = search_cached(&artists, &albums, &tracks, &ms, "N", 5, 5, 5);
    assert_eq!((n.artists.len(), n.albums.len(), n.songs.len()), (0, 1, 1));
    let j = cached_search("searchResult2", f).unwrap();
    assert!(j.get("searchResult2").is_some());
    let none = search_cached(&vec![], &vec![], &vec![], &ms, "x", 5, 5, 5);
    assert!(cached_search("searchResult2", none).is_none());
}

// ── Refreshing ──────────────────────────────────────────────────

#[test]
fn refreshes_start_where_they_can() {
    assert!(matches!(refresh_backend(true, Some(&"77".to_string())), RefreshStep::AskIndexes { since: 77 }));
    assert!(matches!(refresh_backend(false, Some(&"77".to_string())), RefreshStep::FullSync));
    assert!(matches!(refresh_backend(true, None), RefreshStep::FullSync));
    assert!(matches!(refresh_backend(true, Some(&"x".to_string())), RefreshStep::FullSync));
}

#[test]
fn an_unchanged_index_leads_to_the_albums() {
    let resp = |v: Json| Json::object().with("indexes", Json::object().with("lastModified", v));
    assert!(matches!(after_indexes(&resp(Json::integer(5)), 5), RefreshStep::AskNewest));
    assert!(matches!(after_indexes(&resp(Json::text("5")), 5), RefreshStep::AskNewest));
    assert!(matches!(after_indexes(&resp(Json::integer(6)), 5), RefreshStep::IncrementalSync));
    assert!(matches!(after_indexes(&Json::object(), 5), RefreshStep::IncrementalSync));
    assert_eq!(last_modified(&resp(Json::integer(5))), Some(5));
    assert_eq!(last_modified(&resp(Json::text("5"))), None);
}

#[test]
fn newer_albums_make_a_change() {
    let resp = under("albumList2", "album", vec![named("1", "a").with_text("created", "2020")]);
    let old = "2019".to_string();
    let new = "2020".to_string();
    assert!(matches!(check_new_albums(Some(&old), &resp), RefreshStep::IncrementalSync));
    assert!(matches!(check_new_albums(Some(&new), &resp), RefreshStep::Skip));
    assert!(matches!(check_new_albums(None, &resp), RefreshStep::IncrementalSync));
    assert!(matches!(check_new_albums(Some(&new), &Json::object()), RefreshStep::IncrementalSync));
    assert!(any_changed(&vec![None, Some(true)]));
    assert!(!any_changed(&vec![None, Some(false)]));
}

#[test]
fn full_batches_ask_for_more() {
    let many: Vec<Json> = (0..500).map(|i| named(&i.to_string(), "x")).collect();
    let b = full_sync(&under("albumList2", "album", many), 0);
    assert!(b.more);
    assert_eq!(b.albums.len(), 500);
    let b = full_sync(&under("albumList2", "album", vec![named("1", "x")]), 0);
    assert!(!b.more);
    let p = batch_params("newest", 50, 100);
    assert_eq!(p[2], ("offset".to_string(), "100".to_string()));
}

#[test]
fn a_crawl_asks_until_a_batch_is_not_full() {
    let all: Vec<Json> = (0..501).map(|i| named(&i.to_string(), "x")).collect();
    let mut crawl = Crawl::new(false);
    assert_eq!(crawl.ask()[0].1, "alphabeticalByName");
    let b = crawl.take(&under("albumList2", "album", all[..500].to_vec()), &vec![], 0);
    assert!(b.more);
    assert_eq!(crawl.ask()[2].1, "500");
    let b = crawl.take(&under("albumList2", "album", all[500..].to_vec()), &vec![], 0);
    assert!(!b.more);
    assert_eq!(crawl.albums, 501);
    assert!(crawl.changed());
    let mut news = Crawl::new(true);
    assert_eq!(news.ask()[1].1, "50");
    let known = vec![encode_id(0, "1")];
    let resp = under("albumList2", "album", vec![named("0", "x"), named("1", "x")]);
    assert_eq!(news.take(&resp, &known, 0).albums.len(), 1);
    assert!(news.changed());
    let mut none = Crawl::new(true);
    none.take(&Json::object(), &known, 0);
    assert!(!none.changed());
    none.count_tracks(2);
    assert!(none.changed());
}

#[test]
fn albums_that_are_no_longer_listed_go() {
    let ids = |list: &[&str]| list.iter().map(|s| s.to_string()).collect::<Vec<_>>();
    assert_eq!(stale_albums(&ids(&["a", "b", "c"]), &ids(&["c", "d", "a"])), ids(&["b"]));
    assert_eq!(stale_albums(&ids(&["a", "b"]), &vec![]), ids(&["a", "b"]));
    assert!(stale_albums(&vec![], &ids(&["a"])).is_empty());
}

#[test]
fn startup_fetches_only_what_is_new() {
    assert!(is_incremental(RefreshCause::Startup));
    assert!(is_incremental(RefreshCause::Interval));
    assert!(!is_incremental(RefreshCause::Command));
    let at = "7".to_string();
    let step = refresh_backend(is_incremental(RefreshCause::Startup), Some(&at));
    assert!(matches!(step, RefreshStep::AskIndexes { since: 7 }));
    let step = refresh_backend(is_incremental(RefreshCause::Startup), None);
    assert!(matches!(step, RefreshStep::FullSync));
}

#[test]
fn known_albums_end_an_incremental_sync() {
    let many: Vec<Json> = (0..50).map(|i| named(&i.to_string(), "x")).collect();
    let resp = under("albumList2", "album", many);
    let b = incremental_sync(&resp, &vec![], 1);
    assert!(b.more);
    assert_eq!(b.albums.len(), 50);
    let b = incremental_sync(&resp, &vec![encode_id(1, "7")], 1);
    assert!(!b.more);
    assert_eq!(b.albums.len(), 49);
    let twice = under("albumList2", "album", vec![named("1", "x"), named("1", "x")]);
    assert_eq!(incremental_sync(&twice, &vec![], 1).albums.len(), 1);
}

#[test]
fn rows_hold_what_the_backend_said() {
    let a = cache_album(&named("al", " Name ").with_text("artistId", "ar").with("year", Json::integer(1999)), 2);
    assert_eq!(a.id, encode_id(2, "al"));
    assert_eq!(a.name_norm, "name");
    assert_eq!(a.artist_id, Some(encode_id(2, "ar")));
    assert_eq!((a.year, a.song_count), (Some(1999), 0));
    let song = Json::object().with_text("id", "s").with_text("title", "T").with("bitRate", Json::integer(320));
    let t = album_tracks(&under("album", "song", vec![song]), 2, "ALB");
    assert_eq!(t.len(), 1);
    assert_eq!((t[0].album_id.as_str(), t[0].bitrate), ("ALB", Some(320)));
    let index = Json::object().with("artist", Json::array(vec![named("1", "A"), named("2", "B")]));
    let list = sync_artists(&under("artists", "index", vec![index]), 2);
    assert_eq!(list.len(), 2);
    assert_eq!(list[1].id, encode_id(2, "2"));
}

// ── Lists, stars, extras ────────────────────────────────────────

#[test]
fn lists_come_from_the_right_source() {
    let q = ListQuery::from_params(&params(&[]));
    assert_eq!((q.list_type.as_str(), q.size, q.offset), ("newest", 10, 0));
    let q = ListQuery::from_params(&params(&[("size", "x"), ("offset", "5")]));
    assert_eq!((q.size, q.offset), (10, 5));
    assert!(matches!(get_album_list_source("starred"), ListSource::Starred));
    assert!(matches!(get_album_list_source("newest"), ListSource::Backends));
    assert!(matches!(get_album_list2_source("newest", true), ListSource::Cache));
    assert!(matches!(get_album_list2_source("newest", false), ListSource::Backends));
    assert!(matches!(get_album_list2_source("random", true), ListSource::Backends));
    assert!(matches!(get_album_list2_source("starred2", true), ListSource::Starred));
    assert!(cached_list(vec![]).is_none());
    assert!(cached_list(vec![named("1", "x")]).is_some());
    assert_eq!(list_params("byYear"), vec![("type".to_string(), "byYear".to_string())]);
}

#[test]
fn stars_are_given_once_and_taken_away() {
    let mut f = Vec::new();
    assert!(favorites_db::star(&mut f, "me", "a", "song", "1"));
    assert!(!favorites_db::star(&mut f, "me", "a", "song", "2"));
    assert!(favorites_db::star(&mut f, "me", "a", "album", "3"));
    assert!(favorites_db::star(&mut f, "me", "b", "song", "4"));
    assert!(favorites_db::star(&mut f, "you", "a", "song", "5"));
    let ids = favorites_db::get_starred_ids(&f, "me", "song");
    assert_eq!(ids, vec![("b".to_string(), "4".to_string()), ("a".to_string(), "1".to_string())]);
    favorites_db::unstar(&mut f, "me", "a");
    assert!(!favorites_db::is_starred(&f, "me", "a"));
    assert!(favorites_db::is_starred(&f, "you", "a"));
    assert!(favorites_db::is_starred(&f, "me", "b"));
}

#[test]
fn starring_a_song_stars_its_album() {
    let resp = Json::object().with("song", Json::object().with_text("albumId", "al"));
    assert_eq!(star("x", &SongAnswer::Answered { backend: 1, resp }), Some(encode_id(1, "al")));
    assert_eq!(star("x", &SongAnswer::Answered { backend: 1, resp: Json::object() }), None);
    assert_eq!(star("x", &SongAnswer::Failed), Some("x".to_string()));
    assert_eq!(star("x", &SongAnswer::Unrouted), None);
    assert_eq!(unstar(&params(&[("artistId", "r"), ("id", "i")])), vec!["i".to_string(), "r".to_string()]);
}

#[test]
fn requests_star_items_by_their_kind() {
    let pair = |a: &str, b: &str| (a.to_string(), b.to_string());
    let all = params(&[("artistId", "r"), ("albumId", "l"), ("id", "i")]);
    assert_eq!(
        starred_by(&all, &SongAnswer::Failed),
        vec![pair("i", "song"), pair("i", "album"), pair("l", "album"), pair("r", "artist")]
    );
    assert_eq!(starred_by(&params(&[("id", "i")]), &SongAnswer::Unrouted), vec![pair("i", "song")]);
    assert_eq!(starred_by(&params(&[("albumId", "l")]), &SongAnswer::Failed), vec![pair("l", "album")]);
}

#[test]
fn starred_items_carry_the_time() {
    let list = vec![("a".to_string(), "t1".to_string()), ("b".to_string(), "t2".to_string())];
    let resp = Json::object().with("album", named("x", "X"));
    let r = resolve_items(&list, &vec![None, Some((1, resp))], "album");
    assert_eq!(r.len(), 1);
    assert_eq!(r[0].str_or("starred", ""), "t2");
    assert_eq!(r[0].str_or("id", ""), encode_id(1, "x"));
    assert_eq!(resolve_starred_albums(&list, 5, 1).len(), 1);
    assert!(get_starred2(vec![], vec![], r).get("starred2").is_some());
    assert!(get_starred(vec![], vec![], vec![]).get("starred").is_some());
}

#[test]
fn ratings_and_scrobbles_go_to_the_owner() {
    let id = encode_id(1, "s");
    let a = set_rating(&params(&[("id", id.as_str())]), 2).unwrap();
    assert_eq!(a.backend, 1);
    assert_eq!(a.params, vec![("id".into(), "s".into()), ("rating".into(), "0".into())]);
    assert!(set_rating(&params(&[]), 2).is_err());
    assert!(scrobble(&params(&[("id", id.as_str())]), 1).is_err());
    let p = params(&[("id", id.as_str()), ("submission", "false"), ("time", "9")]);
    let a = scrobble(&p, 2).unwrap();
    assert_eq!(a.params.len(), 3);
    assert_eq!(a.params[1], ("time".to_string(), "9".to_string()));
    assert!(is_now_playing(&p));
    assert!(!is_now_playing(&params(&[])));
    assert!(!is_now_playing(&params(&[("submission", "true")])));
}

#[test]
fn silent_backends_give_empty_answers() {
    assert_eq!(items(&extras::get_similar_songs(&None), "similarSongs", "song").len(), 0);
    assert_eq!(items(&extras::get_similar_songs2(&None), "similarSongs2", "song").len(), 0);
    let resp = Json::object().with("artistInfo", Json::object().with_text("id", "a"));
    let r = extras::get_artist_info(&Some((2, resp)));
    assert_eq!(r.get("artistInfo").unwrap().str_or("id", ""), encode_id(2, "a"));
    assert!(extras::get_artist_info2(&None).get("artistInfo2").is_some());
    assert!(extras::get_album_info(None).get("albumInfo").is_some());
    assert!(extras::get_lyrics_by_song_id(None).get("lyricsList").is_some());
    assert!(extras::get_bookmarks().get("bookmarks").is_some());
    assert!(extras::get_internet_radio_stations().get("internetRadioStations").is_some());
}

#[test]
fn the_first_lyrics_win() {
    let some = Json::object().with("lyrics", Json::object().with_text("value", "la"));
    assert!(extras::lyrics_found(&some));
    assert!(!extras::lyrics_found(&Json::object()));
    let r = extras::get_lyrics(&vec![Json::object(), some]);
    assert_eq!(r.get("lyrics").unwrap().str_or("value", ""), "la");
    assert!(extras::get_lyrics(&vec![]).get("lyrics").is_some());
}

#[test]
fn top_songs_are_cut() {
    let r = under("topSongs", "song", vec![named("1", "a"), named("2", "b")]);
    let m = extras::get_top_songs(Ok(vec![(0, r.clone()), (1, r)]), 3);
    let list = items(&m, "topSongs", "song");
    assert_eq!(list.len(), 3);
    assert_eq!(list[2].str_or("id", ""), encode_id(1, "1"));
}

#[test]
fn info_requests_need_an_id() {
    assert!(extras::info_request(&params(&[]), 1).is_err());
    assert!(extras::info_request(&params(&[("id", "??")]), 1).unwrap().is_none());
    let id = encode_id(0, "x");
    let a = extras::similar_songs_request(&params(&[("id", id.as_str())]), 1).unwrap().unwrap();
    assert_eq!(a.params[1], ("count".to_string(), "50".to_string()));
    assert_eq!(extras::top_songs_params(&params(&[("count", "7")]))[1].1, "7");
}

#[test]
fn playback_reports_are_read() {
    assert!(extras::report_playback(&params(&[])).is_err());
    let r = extras::report_playback(&params(&[("id", "x"), ("positionMs", "-5"), ("ignoreScrobble", "true")])).unwrap();
    assert_eq!((r.media_id.as_str(), r.position_ms, r.state.as_str(), r.announce), ("x", -5, "playing", false));
    let song = Json::object().with("song", named("s", "S"));
    let t = extras::announced_track(&song, 1, Some(9)).unwrap();
    assert_eq!(t.get_i64("playerPosition"), Some(9));
    assert_eq!(t.str_or("id", ""), encode_id(1, "s"));
    assert!(extras::announced_track(&Json::object(), 1, None).is_none());
}

#[test]
fn entries_get_their_reports() {
    let e = named("m", "x").with_text("nodeId", "n").with_text("username", "u");
    assert_eq!(extras::find_report(&e), Some(("n".into(), "u".into(), "m".into())));
    let r = extras::get_now_playing(&vec![e.clone(), e], &vec![Some((7, "paused".into())), None]);
    let list = items(&r, "nowPlaying", "entry");
    assert_eq!(list[0].get_i64("playerPosition"), Some(7));
    assert!(list[1].get("playerPosition").is_none());
    assert_eq!(extras::chat_window(&params(&[])), 3600);
}

#[test]
fn what_is_remembered_is_read_back() {
    let mut rows = Vec::new();
    set_cache_meta(&mut rows, &last_sync_key(0), "100", "a");
    set_cache_meta(&mut rows, &last_sync_key(1), "200", "b");
    set_cache_meta(&mut rows, &last_sync_key(0), "300", "c");
    assert_eq!(get_cache_meta(&rows, &last_sync_key(0)).as_deref(), Some("300"));
    assert_eq!(get_cache_meta(&rows, &last_sync_key(1)).as_deref(), Some("200"));
    assert_eq!(get_cache_meta(&rows, &last_modified_key(0)), None);
    assert_eq!(rows[0].updated_at, "c");
    let synced = get_cache_meta(&rows, &last_sync_key(0));
    assert!(is_cache_fresh(synced.as_ref(), 309, 10));
    assert!(!is_cache_fresh(synced.as_ref(), 310, 10));
}
