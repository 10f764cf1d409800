use fugue::dedup::matcher::{
    album_fingerprint, canonical_id, find_duplicate_albums, find_duplicate_tracks, normalize,
    track_fingerprint, AlbumRow, TrackRow,
};
use fugue::dedup::resolver::{
    compute_score, resolve_best_source, resolve_best_sources, update_scores, ScoreRow, SourceRow,
};
use fugue::id::decode_dedup_id;

#[test]
fn test_track_fingerprint() {
    let fp1 = track_fingerprint("Red Hot Chili Peppers", "The Getaway", "Dark Necessities", Some(1));
    let fp2 = track_fingerprint("red hot chili peppers", "the getaway", "dark necessities", Some(1));
    assert_eq!(fp1, fp2);
}

#[test]
fn test_fingerprint_strips_remaster() {
    let fp1 = album_fingerprint("Pink Floyd", "The Wall");
    let fp2 = album_fingerprint("Pink Floyd", "The Wall (Remastered 2011)");
    assert_eq!(fp1, fp2);
}

#[test]
fn test_fingerprint_strips_brackets() {
    let fp1 = album_fingerprint("Radiohead", "OK Computer");
    let fp2 = album_fingerprint("Radiohead", "OK Computer [Deluxe Edition]");
    assert_eq!(fp1, fp2);
}

#[test]
fn test_different_albums_different_fingerprints() {
    let fp1 = album_fingerprint("Pink Floyd", "The Wall");
    let fp2 = album_fingerprint("Pink Floyd", "Wish You Were Here");
    assert_ne!(fp1, fp2);
}

#[test]
fn fingerprints_have_a_fixed_shape() {
    assert_eq!(
        track_fingerprint("A  B", "C", "D (live)", Some(7)),
        "t::a b::c::d::7"
    );
    assert_eq!(track_fingerprint("A", "B", "C", None), "t::a::b::c::");
    assert_eq!(album_fingerprint("A", "B"), "a::a::b");
}

#[test]
fn normalizing_collapses_white_space() {
    assert_eq!(normalize("  The \t WALL  "), "the wall");
    assert_eq!(normalize("ÄÖ (x) [y] z"), "äö z");
    assert_eq!(normalize(" A (b (c) d)  E"), "a e");
    assert_eq!(normalize("a\u{a0}\u{3000}\u{85}B"), "a b");
    for text in [" A (b (c) d)  E", "x ) y [ z", "ÄÖ (x) [y] Σ", ""] {
        let once = normalize(text);
        assert_eq!(normalize(&once), once);
    }
}

fn track(id: &str, backend: usize, title: &str) -> TrackRow {
    TrackRow {
        namespaced_id: id.to_string(),
        artist: "Artist".to_string(),
        backend_idx: backend,
        album: "Album".to_string(),
        title: Some(title.to_string()),
        track_number: Some(1),
        bitrate: Some(320),
        suffix: Some("mp3".to_string()),
    }
}

#[test]
fn only_shared_fingerprints_make_groups() {
    let rows = vec![
        track("a", 0, "One"),
        track("b", 1, "Two"),
        track("c", 1, "ONE"),
    ];
    let groups = find_duplicate_tracks(&rows);
    assert_eq!(groups.len(), 1);
    assert_eq!(groups[0].fingerprint, "t::artist::album::one::1");
    let ids: Vec<&str> = groups[0].members.iter().map(|m| m.namespaced_id.as_str()).collect();
    assert_eq!(ids, vec!["a", "c"]);
}

#[test]
fn duplicate_albums_make_groups() {
    let row = |id: &str, name: &str| AlbumRow {
        namespaced_id: id.to_string(),
        artist: "X".to_string(),
        backend_idx: 0,
        name: name.to_string(),
    };
    let groups = find_duplicate_albums(&vec![row("a", "B (Deluxe)"), row("b", "b"), row("c", "C")]);
    assert_eq!(groups.len(), 1);
    assert_eq!(groups[0].members.len(), 2);
}

#[test]
fn canonical_ids_name_the_fingerprint() {
    assert_eq!(decode_dedup_id(&canonical_id("a::x::y")).unwrap(), "a::x::y");
}

#[test]
fn scores_are_bitrate_times_format() {
    let flac = "flac".to_string();
    let m4a = "m4a".to_string();
    let odd = "odd".to_string();
    assert_eq!(compute_score(Some(320), Some(&flac)), 6400);
    assert_eq!(compute_score(Some(100), Some(&m4a)), 1100);
    assert_eq!(compute_score(Some(100), Some(&odd)), 1000);
    assert_eq!(compute_score(None, None), 1280);
}

fn source(id: &str, bitrate: Option<i64>, format: &str, score: i128) -> SourceRow {
    SourceRow {
        namespaced_id: id.to_string(),
        backend_idx: 0,
        bitrate,
        format: Some(format.to_string()),
        score,
    }
}

#[test]
fn the_best_source_comes_first() {
    let rows = vec![
        source("mp3", Some(320), "mp3", 0),
        source("flac", Some(900), "flac", 0),
        source("stored", Some(64), "mp3", 50000),
    ];
    let ids: Vec<String> = resolve_best_sources(&rows).into_iter().map(|s| s.namespaced_id).collect();
    assert_eq!(ids, vec!["stored", "flac", "mp3"]);
    assert_eq!(resolve_best_source(&rows).unwrap().score, 50000);
    assert!(resolve_best_source(&vec![]).is_none());
}

#[test]
fn weights_add_to_scores() {
    let row = |id: i64, backend: usize| ScoreRow {
        id,
        backend_idx: backend,
        bitrate: Some(100),
        format: Some("mp3".to_string()),
    };
    let rows = vec![row(1, 0), row(2, 1), row(3, 2)];
    assert_eq!(
        update_scores(&rows, &vec![(0, 10), (1, -5)]),
        vec![(1, 1100), (2, 950)]
    );
}
