use fugue::config::{BackendConfig, CacheConfig, ServerConfig, SocialConfig, StreamingConfig};
use fugue::dedup::matcher::{find_dedup_canonical, run_dedup, AlbumRow, TrackRow};
use fugue::dedup::resolver::source_fingerprint;
use fugue::health::probe::{record_probe, HealthRegistry};
use fugue::id::{decode_dedup_id, encode_dedup_id, encode_id};
use fugue::json::Json;
use fugue::proxy::backend::BackendClient;
use fugue::social::collab_playlist::{CollabTrack, PlaylistOp};
use fugue::social::follow_poll::clock_offset;
use fugue::social::friends::Friend;
use fugue::social::library::friend_library_error;
use fugue::social::node::ticket_format_error;
use fugue::social::party::{ActiveParty, PartyState};
use fugue::social::protocol::{GossipMessage, PartyTrack};
use fugue::social::service::SocialHandle;
use fugue::subsonic::browsing::{get_album, get_song};
use fugue::subsonic::extras::get_play_queue;
use fugue::subsonic::lists::get_random_songs;
use fugue::subsonic::media::invalid_friend;
use fugue::subsonic::params::Params;
use fugue::subsonic::playlists::node_name;
use fugue::subsonic::search::SearchQuery;
use fugue::subsonic::system::{
    admin_friends, admin_party_beacon, admin_party_create, admin_party_discover, admin_party_end,
    admin_party_leave, admin_party_resolve_track, admin_playlist_sync, admin_refresh_friends,
    admin_status_text, backend_status, sync_answer,
};

fn params(list: &[(&str, &str)]) -> Params {
    Params {
        fields: list.iter().map(|(k, v)| (k.to_string(), v.to_string())).collect(),
    }
}

fn client() -> BackendClient {
    BackendClient::new(2, "home".into(), "http://h/".into(), "u".into(), "p".into(), 1)
}

#[test]
fn items_are_asked_of_their_backend() {
    let id = encode_id(1, "x");
    let a = get_album(&params(&[("id", id.as_str())]), 2).unwrap();
    assert_eq!((a.backend, a.params), (1, vec![("id".to_string(), "x".to_string())]));
    assert!(get_song(&params(&[("id", id.as_str())]), 1).is_err());
    let e = get_song(&params(&[]), 2).unwrap_err();
    assert_eq!(e.subsonic_code(), 10);
    assert_eq!(e.subsonic_message(), "Missing required parameter: id");
}

#[test]
fn backend_errors_name_the_backend() {
    assert!(client().request_error("down").subsonic_message().contains("home"));
    assert!(client().status_error("500").subsonic_message().contains("500"));
    assert!(client().parse_error("eof").subsonic_message().contains("eof"));
}

#[test]
fn backends_report_their_health() {
    let mut h = HealthRegistry::new();
    record_probe(&mut h, 2, Some(12));
    let j = backend_status(&client(), &h.get(2));
    assert_eq!(j.str_or("name", ""), "home");
    assert_eq!(j.get_i64("latency_ms"), Some(12));
    assert!(j.is_true("available"));
}

#[test]
fn parties_are_announced_again() {
    let mut party = PartyState::default();
    let me = SocialHandle { display_name: "Ann".into() };
    let (msg, answer) = admin_party_beacon(&party, &me, "n");
    assert!(msg.is_none());
    assert_eq!(answer.str_or("error", ""), "Not hosting a party");
    party.create_session_with_id("s".into(), "Ann".into(), "n".into());
    let (msg, answer) = admin_party_beacon(&party, &me, "n");
    assert!(matches!(msg, Some(GossipMessage::PartyCreate { ref session_id, .. }) if session_id == "s"));
    assert!(answer.is_true("ok"));
}

#[test]
fn parties_are_discovered_through_the_clock() {
    let mut party = PartyState::default();
    party.touch_active_party("s", "Ann", "n");
    party.prune_stale_parties();
    let found = party.discover_parties();
    assert_eq!(found.len(), 1);
    let j = admin_party_discover(&found);
    let list = j.get("parties").unwrap().as_array().unwrap();
    assert_eq!(list[0].str_or("host_name", ""), "Ann");
    let none: Vec<ActiveParty> = vec![];
    assert!(admin_party_discover(&none).get("parties").unwrap().as_array().unwrap().is_empty());
    assert_eq!(clock_offset(&party), 0);
    party.follow("s".into(), "n".into(), "Ann".into());
    let f = party.following.as_mut().unwrap();
    f.update_clock_offset(fugue::clock::now_ms() + 60_000);
    assert!(f.clock_offset_ms > 50_000);
    assert!(clock_offset(&party) > 50_000);
}

#[test]
fn party_requests_are_answered() {
    assert_eq!(admin_party_create("s", "Ann").str_or("session_id", ""), "s");
    assert_eq!(admin_party_leave(Some("s".into())).str_or("left_session", ""), "s");
    assert_eq!(admin_party_leave(None).str_or("error", ""), "Not in a party session");
    assert_eq!(admin_party_end(Some("s".into())).str_or("ended_session", ""), "s");
    assert_eq!(admin_party_end(None).str_or("error", ""), "Not hosting a party");
    assert_eq!(sync_answer(Some(3)).get_i64("seq"), Some(3));
    assert_eq!(sync_answer(None).str_or("error", ""), "Not hosting a party");
    let t = PartyTrack {
        fingerprint: None,
        song_id: "x".into(),
        title: "T".into(),
        artist: "A".into(),
        album: "".into(),
        track_number: None,
        duration_secs: None,
    };
    assert_eq!(admin_party_resolve_track(Some("y".into()), &t).str_or("song_id", ""), "y");
    let none = admin_party_resolve_track(None, &t);
    assert_eq!(none.str_or("error", ""), "Track not found");
    assert_eq!(none.str_or("title", ""), "T");
}

#[test]
fn friends_are_reported() {
    let f = Friend {
        id: 1,
        name: "Bob".into(),
        public_key: "k".into(),
        ticket: "t".into(),
        added_at: "now".into(),
        last_seen: Some("then".into()),
    };
    let j = admin_friends(&vec![f]);
    let list = j.get("friends").unwrap().as_array().unwrap();
    assert_eq!(list[0].str_or("node_id", ""), "k");
    assert_eq!(list[0].str_or("last_seen", ""), "then");
    assert_eq!(admin_refresh_friends(4).get_i64("friends_registered"), Some(4));
    assert_eq!(admin_status_text("sync started").str_or("status", ""), "sync started");
}

#[test]
fn a_playlist_is_sent_whole() {
    let tracks: Vec<CollabTrack> = vec![];
    assert!(matches!(admin_playlist_sync("p", None, tracks), PlaylistOp::FullSync { ref name, .. } if name == "Unknown"));
}

#[test]
fn a_dedup_pass_groups_tracks_and_albums() {
    let track = |id: &str, b: usize, title: &str| TrackRow {
        namespaced_id: id.into(),
        artist: "A".into(),
        backend_idx: b,
        album: "B".into(),
        title: Some(title.into()),
        track_number: Some(1),
        bitrate: Some(320),
        suffix: Some("mp3".into()),
    };
    let album = |id: &str, b: usize, name: &str| AlbumRow {
        namespaced_id: id.into(),
        artist: "A".into(),
        backend_idx: b,
        name: name.into(),
    };
    let groups = run_dedup(
        &vec![track("1", 0, "T"), track("2", 1, "t (Live)"), track("3", 0, "U")],
        &vec![album("4", 0, "B"), album("5", 1, "b [Deluxe]")],
    );
    assert_eq!(groups.len(), 2);
    assert_eq!(groups[0].entity_type, "track");
    assert_eq!(groups[0].group.members.len(), 2);
    assert_eq!(groups[1].entity_type, "album");
    assert_eq!(decode_dedup_id(&groups[1].canonical_id).unwrap(), groups[1].group.fingerprint);
    assert_eq!(find_dedup_canonical(&groups, "2"), Some(groups[0].canonical_id.clone()));
    assert_eq!(find_dedup_canonical(&groups, "5"), Some(groups[1].canonical_id.clone()));
    assert_eq!(find_dedup_canonical(&groups, "3"), None);
    assert_eq!(source_fingerprint(&encode_dedup_id("f")).unwrap(), "f");
    assert!(source_fingerprint(&encode_id(0, "f")).is_err());
}

#[test]
fn faults_are_reported() {
    assert!(ticket_format_error("eof").to_text().contains("eof"));
    assert!(friend_library_error("eof").to_text().contains("eof"));
    assert!(invalid_friend("n").to_text().contains("n"));
    assert_eq!(node_name(None), "local");
    assert_eq!(node_name(Some("n".into())), "n");
}

#[test]
fn requests_have_defaults() {
    assert_eq!(get_random_songs(&params(&[])), 10);
    assert_eq!(get_random_songs(&params(&[("size", "3")])), 3);
    assert!(SearchQuery::from_params(&params(&[("query", "x")])).asks_cache());
    assert!(!SearchQuery::from_params(&params(&[("query", "")])).asks_cache());
    assert!(matches!(get_play_queue(), Json::Object(ref m) if m.is_empty()));
}

#[test]
fn settings_have_defaults() {
    let s = ServerConfig { host: "h".into(), port: 1, log_level: "info".into() };
    assert_eq!(s.listen_address(), "h:1");
    assert_eq!(CacheConfig::default().db_path, "fugue.db");
    assert!(!SocialConfig::default().enabled);
    assert_eq!(StreamingConfig::default().max_serve_bitrate, 0);
    let b = BackendConfig { name: "n".into(), url: "u".into(), username: "a".into(), password: "b".into(), weight: 0 };
    assert_eq!(b.weight, 0);
}
