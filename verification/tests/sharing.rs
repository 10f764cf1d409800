use fugue::error::FugueError;
use fugue::id::encode_id;
use fugue::json::{Json, Number};
use fugue::social::activity::{
    add_chat_message, clear_now_playing, get_chat_messages, get_now_playing, set_now_playing,
};
use fugue::social::collab_playlist::{
    add_track, decode_collab_id, decode_remote_track_id, encode_collab_id, encode_remote_track_id,
    generate_invite, get_playlist, is_remote_track_id, list_playlists,
    parse_invite, playing_time, playlist_topic, remove_track, to_iso8601, CollabPlaylist,
    CollabTrack, PlaylistOp, Role, StoredPlaylist,
};
use fugue::social::collab_state::{
    add_member, can_edit, create_playlist as create_collab, get_member_role, handle_playlist_op,
    join_playlist, list_members, merge, receive_ops, remove_member, rename_playlist, Member, PlaylistState,
};
use fugue::social::crdt::{
    get_all_ops, merge_ops, next_timestamp, rebuild_playlist, store_op, CrdtOp, CrdtOpKind, OpLog,
};
use fugue::social::follow_poll::{
    end_following, header_status, ping_times, poll_result, still_following, FollowPoll, LineBuffer,
    Pushed,
};
use fugue::social::friends::{
    add_friend, get_friend_by_key, list_friends, remove_friend, update_last_seen,
};
use fugue::social::library::{
    build_library_summary, friend_library_key, get_friend_library, store_friend_library,
    AlbumSummary,
};
use fugue::social::node::{fugue_alpn, generate_ticket, load_or_create_secret_key, parse_ticket};
use fugue::social::party::PartyState;
use fugue::social::protocol::{GossipMessage, PartyPlaybackState, PartyTrack, RequestMessage, ResponseMessage};
use fugue::social::service::{
    album_response, bootstrap_peers, friend_offline_event, friend_online_event, fugue_topic,
    handle_connection, handle_gossip_message, library_response, on_gossip,
    remap_party_tracks_remote, route_connection, stream_from_backend_for_peer, sync_message,
    PeerStreamError, RequestPlan, Route, SocialHandle, StoreAction,
};
use fugue::social::subsonic_bridge::{is_event_subscription, make_header, request_uri};
use fugue::subsonic::params::Params;
use fugue::subsonic::playlist_db;
use fugue::subsonic::playlists::{
    create_playlist, created_collab, find_playlist, get_playlists, local_change, new_playlist_id,
    playlist_to_update, remote_change, resolve_track_for_collab, stamp_op, start_collab,
    try_start_collab, try_update_playlist, update_playlist, NewPlaylist, PlaylistPlace,
};

fn params(list: &[(&str, &str)]) -> Params {
    Params {
        fields: list.iter().map(|(k, v)| (k.to_string(), v.to_string())).collect(),
    }
}

fn track(id: &str) -> CollabTrack {
    CollabTrack {
        track_id: id.to_string(),
        owner_node: "n".to_string(),
        title: id.to_uppercase(),
        artist: None,
        album: None,
        duration: Some(10),
        added_by: "n".to_string(),
    }
}

fn add(node: &str, ts: u64, id: &str) -> CrdtOp {
    CrdtOp {
        op_id: format!("{}:{}", node, ts),
        timestamp: ts,
        origin_node: node.to_string(),
        kind: CrdtOpKind::AddTrack { track: track(id) },
    }
}

fn remove(node: &str, ts: u64, id: &str) -> CrdtOp {
    CrdtOp {
        op_id: format!("{}:{}", node, ts),
        timestamp: ts,
        origin_node: node.to_string(),
        kind: CrdtOpKind::RemoveTrack { track_id: id.to_string(), owner_node: "n".to_string() },
    }
}

fn titles(log: &OpLog) -> Vec<String> {
    rebuild_playlist(log).0.into_iter().map(|t| t.title).collect()
}

#[test]
fn logs_converge_in_any_order() {
    let mut a = OpLog::new();
    let mut b = OpLog::new();
    let ops = vec![add("p", 1, "x"), add("q", 1, "y"), remove("p", 2, "x")];
    assert_eq!(merge_ops(&mut a, &ops), 3);
    let back: Vec<CrdtOp> = ops.iter().rev().map(|o| o.clone()).collect();
    assert_eq!(merge_ops(&mut b, &back), 3);
    assert_eq!(merge_ops(&mut b, &back), 0);
    assert_eq!(titles(&a), vec!["Y"]);
    assert_eq!(titles(&a), titles(&b));
    assert_eq!(next_timestamp(&a), 3);
    assert_eq!(get_all_ops(&b)[0].op_id, "p:1");
}

#[test]
fn a_later_add_brings_a_track_back() {
    let mut log = OpLog::new();
    store_op(&mut log, &add("p", 1, "x"));
    store_op(&mut log, &remove("p", 2, "x"));
    assert!(titles(&log).is_empty());
    store_op(&mut log, &add("q", 3, "x"));
    assert_eq!(titles(&log), vec!["X"]);
    assert!(!store_op(&mut log, &add("q", 3, "z")));
}

#[test]
fn a_concurrent_add_wins() {
    let mut log = OpLog::new();
    store_op(&mut log, &remove("a", 5, "x"));
    store_op(&mut log, &add("b", 5, "x"));
    assert_eq!(titles(&log), vec!["X"]);
}

#[test]
fn updates_are_stamped_and_take_effect() {
    let mut st = PlaylistState::new();
    let op = start_collab(&mut st, "p", "Mix", "me", "now");
    assert_eq!((op.op_id.as_str(), op.timestamp), ("me:1", 1));
    assert_eq!(st.playlist.as_ref().unwrap().created_by, "me");
    let ops = update_playlist(&mut st, "me", Some("Neu".into()), Some(track("x")), None);
    assert_eq!(ops.len(), 2);
    assert_eq!(ops[1].op_id, "me:3");
    assert_eq!(st.playlist.as_ref().unwrap().name, "Neu");
    let index = "0".to_string();
    let ops = update_playlist(&mut st, "me", None, Some(track("y")), Some(&index));
    assert_eq!(ops.len(), 2);
    assert_eq!(titles(&st.log), vec!["Y"]);
    assert_eq!(st.tracks[0].title, "Y");
    let bad = "-1".to_string();
    assert!(update_playlist(&mut st, "me", None, None, Some(&bad)).is_empty());
    let op = stamp_op(&mut st.log, "you", CrdtOpKind::SetName { name: "Z".into() });
    assert_eq!(op.op_id, "you:6");
}

#[test]
fn used_up_timestamps_stop_updates() {
    let mut st = PlaylistState::new();
    assert_eq!(try_start_collab(&mut st, "p", "Mix", "me", "now").unwrap().op_id, "me:1");
    let ops = try_update_playlist(&mut st, "me", None, Some(track("x")), None).unwrap();
    assert_eq!(ops[0].op_id, "me:2");
    store_op(&mut st.log, &add("far", u64::MAX - 2, "y"));
    assert!(try_update_playlist(&mut st, "me", Some("Neu".into()), None, None).is_none());
    assert_eq!(st.log.ops.len(), 3);
    assert!(try_start_collab(&mut st, "p", "Mix", "me", "now").is_some());
    store_op(&mut st.log, &add("far", u64::MAX, "z"));
    assert!(try_start_collab(&mut st, "p", "Mix", "me", "now").is_none());
}

#[test]
fn operations_name_their_playlist() {
    let ops = vec![
        PlaylistOp::Create { playlist_id: "p".into(), name: "x".into() },
        PlaylistOp::AddTrack { playlist_id: "p".into(), track: track("x") },
        PlaylistOp::RemoveTrack { playlist_id: "p".into(), track_id: "x".into(), owner_node: "n".into() },
        PlaylistOp::Rename { playlist_id: "p".into(), name: "x".into() },
        PlaylistOp::Delete { playlist_id: "p".into() },
        PlaylistOp::FullSync { playlist_id: "p".into(), name: "x".into(), tracks: vec![] },
    ];
    assert!(ops.iter().all(|op| op.playlist_id() == "p"));
}

#[test]
fn an_invite_makes_a_member() {
    let mut st = PlaylistState::new();
    let (id, role, name) = parse_invite(&generate_invite("p", Role::Collab, "Mix")).unwrap();
    join_playlist(&mut st, &id, role, &name, "me", "Me", "now");
    assert_eq!(st.playlist.as_ref().unwrap().created_by, "friend");
    assert_eq!(get_member_role(&st.members, "me"), Some(Role::Collab));
    join_playlist(&mut st, &id, Role::Viewer, "Other", "me", "Me", "now");
    assert_eq!(st.playlist.as_ref().unwrap().name, "Other");
    assert_eq!(get_member_role(&st.members, "me"), Some(Role::Viewer));
}

#[test]
fn collab_ids_round_trip() {
    assert_eq!(encode_collab_id("u"), "Yzp1");
    assert_eq!(decode_collab_id("Yzp1"), Some("u".to_string()));
    assert_eq!(decode_collab_id(&playlist_db::encode_local_playlist_id("u")), None);
    let r = encode_remote_track_id("node", "a:b");
    assert_eq!(decode_remote_track_id(&r), Some(("node".to_string(), "a:b".to_string())));
    assert!(is_remote_track_id(&r));
    assert!(!is_remote_track_id("Yzp1"));
    let i = generate_invite("p", Role::Viewer, "a:b");
    assert_eq!(parse_invite(&i), Some(("p".to_string(), Role::Viewer, "a:b".to_string())));
    assert_eq!(parse_invite("Yzp1"), None);
}

#[test]
fn topics_are_digests() {
    // BLAKE3 of "fugue-playlist-x" differs from that of another playlist.
    assert_eq!(playlist_topic("x").len(), 32);
    assert_ne!(playlist_topic("x"), playlist_topic("y"));
    assert_eq!(playlist_topic("x"), blake3::hash(b"fugue-playlist-x").as_bytes().to_vec());
    assert_eq!(fugue_topic().len(), 32);
}

#[test]
fn roles_decide_who_edits() {
    assert!(Role::Owner.can_edit());
    assert!(Role::Collab.can_edit());
    assert!(!Role::Viewer.can_edit());
    let mut members: Vec<Member> = Vec::new();
    add_member(&mut members, "v", "Vic", Role::Viewer);
    add_member(&mut members, "o", "Olga", Role::Owner);
    add_member(&mut members, "c", "Cy", Role::Collab);
    members.push(Member { node_id: "x".into(), name: "X".into(), role: "odd".into() });
    assert_eq!(get_member_role(&members, "v"), Some(Role::Viewer));
    assert_eq!(get_member_role(&members, "x"), None);
    assert_eq!(get_member_role(&members, "nobody"), None);
    assert!(can_edit(&members, "c"));
    assert!(!can_edit(&members, "v"));
    let listed: Vec<String> = list_members(&members).into_iter().map(|m| m.1).collect();
    assert_eq!(listed, vec!["Cy", "Olga", "Vic"]);
    add_member(&mut members, "v", "Vic", Role::Collab);
    assert_eq!(members.len(), 4);
    assert!(can_edit(&members, "v"));
    remove_member(&mut members, "v");
    assert_eq!(get_member_role(&members, "v"), None);
}

#[test]
fn operations_are_carried_out_for_those_who_may() {
    let mut st = PlaylistState::new();
    let create = PlaylistOp::Create { playlist_id: "p".into(), name: "Mix".into() };
    assert!(handle_playlist_op(&mut st, "o", &create, "now"));
    assert_eq!(st.playlist.as_ref().unwrap().created_by, "o");
    let put = PlaylistOp::AddTrack { playlist_id: "p".into(), track: track("x") };
    assert!(handle_playlist_op(&mut st, "anybody", &put, "now"));
    assert_eq!(st.tracks.len(), 1);
    add_member(&mut st.members, "o", "Olga", Role::Owner);
    add_member(&mut st.members, "c", "Cy", Role::Collab);
    add_member(&mut st.members, "v", "Vic", Role::Viewer);
    let put = PlaylistOp::AddTrack { playlist_id: "p".into(), track: track("y") };
    assert!(!handle_playlist_op(&mut st, "v", &put, "now"));
    assert!(handle_playlist_op(&mut st, "c", &put, "now"));
    let take = PlaylistOp::RemoveTrack { playlist_id: "p".into(), track_id: "x".into(), owner_node: "n".into() };
    assert!(!handle_playlist_op(&mut st, "v", &take, "now"));
    assert!(handle_playlist_op(&mut st, "c", &take, "now"));
    assert_eq!(st.tracks[0].track_id, "y");
    let rename = PlaylistOp::Rename { playlist_id: "p".into(), name: "New".into() };
    assert!(!handle_playlist_op(&mut st, "v", &rename, "now"));
    assert!(handle_playlist_op(&mut st, "c", &rename, "now"));
    assert_eq!(st.playlist.as_ref().unwrap().name, "New");
    let full = PlaylistOp::FullSync { playlist_id: "p".into(), name: "Mine".into(), tracks: vec![track("z")] };
    assert!(!handle_playlist_op(&mut st, "v", &full, "now"));
    assert!(!handle_playlist_op(&mut st, "stranger", &full, "now"));
    assert!(st.log.ops.is_empty());
    assert_eq!(st.tracks[0].track_id, "y");
    assert!(handle_playlist_op(&mut st, "c", &full, "now"));
    assert_eq!(st.log.ops.len(), 2);
    assert_eq!(st.tracks[0].track_id, "z");
    assert_eq!(st.playlist.as_ref().unwrap().name, "Mine");
    let delete = PlaylistOp::Delete { playlist_id: "p".into() };
    assert!(!handle_playlist_op(&mut st, "c", &delete, "now"));
    assert!(handle_playlist_op(&mut st, "o", &delete, "now"));
    assert!(st.playlist.is_none());
    assert!(st.tracks.is_empty());
}

#[test]
fn a_full_sync_brings_all_tracks() {
    let mut st = PlaylistState::new();
    let full = PlaylistOp::FullSync {
        playlist_id: "p".into(),
        name: "Mix".into(),
        tracks: vec![track("x"), track("y")],
    };
    handle_playlist_op(&mut st, "o", &full, "now");
    let ids: Vec<&str> = st.tracks.iter().map(|t| t.track_id.as_str()).collect();
    assert_eq!(ids, vec!["x", "y"]);
    assert_eq!(st.log.ops.len(), 3);
    assert_eq!(st.log.ops[0].op_id, "fullsync:o:0");
    assert_eq!(st.playlist.as_ref().unwrap().name, "Mix");
}

#[test]
fn synced_playlists_agree() {
    let mut a = PlaylistState::new();
    let mut b = PlaylistState::new();
    create_collab(&mut a, "p", "Mix", "a", "now");
    merge(&mut a, &vec![add("a", 1, "x")]);
    merge(&mut b, &vec![add("b", 1, "y")]);
    let from_a = get_all_ops(&a.log);
    let from_b = get_all_ops(&b.log);
    assert_eq!(receive_ops(&mut a, "p", "b", &from_b, "now"), 1);
    assert_eq!(receive_ops(&mut b, "p", "a", &from_a, "now"), 1);
    assert_eq!(receive_ops(&mut b, "p", "a", &from_a, "now"), 0);
    let ids = |s: &PlaylistState| s.tracks.iter().map(|t| t.track_id.clone()).collect::<Vec<_>>();
    assert_eq!(ids(&a), vec!["x", "y"]);
    assert_eq!(ids(&a), ids(&b));
    assert_eq!(a.playlist.as_ref().unwrap().name, "Mix");
    assert_eq!(b.playlist.as_ref().unwrap().name, "(syncing...)");
    rename_playlist(&mut b, "Ours");
    assert_eq!(b.playlist.as_ref().unwrap().name, "Ours");
}

#[test]
fn playlists_are_shown_with_their_tracks() {
    let p = CollabPlaylist {
        id: "u".into(),
        name: "Mix".into(),
        created_by: "me".into(),
        created_at: "2024-01-02 03:04:05".into(),
    };
    assert_eq!(to_iso8601("2024-01-02 03:04:05"), "2024-01-02T03:04:05Z");
    let j = get_playlist(&p, &vec![track("a"), track("b")]);
    let pl = j.get("playlist").unwrap();
    assert_eq!(pl.str_or("name", ""), "[Collab] Mix");
    assert_eq!(pl.get_i64("duration"), Some(20));
    let late = CollabPlaylist {
        id: "v".into(),
        name: "A".into(),
        created_by: "me".into(),
        created_at: "".into(),
    };
    let mut rows = vec![
        StoredPlaylist { playlist: p, tracks: vec![track("a"), track("b")] },
        StoredPlaylist { playlist: late, tracks: vec![] },
    ];
    let l = list_playlists(&rows).unwrap();
    assert_eq!(l[0].str_or("name", ""), "[Collab] A");
    assert_eq!(l[0].get_i64("duration"), Some(0));
    assert_eq!(l[1].get_i64("duration"), Some(20));
    assert_eq!(l[1].get_i64("songCount"), Some(2));
    rows[0].tracks[0].duration = Some(i64::MAX);
    assert_eq!(playing_time(&rows[0].tracks), None);
    assert!(list_playlists(&rows).is_err());
    let mut list = vec![track("a")];
    add_track(&mut list, &track("b"));
    add_track(&mut list, &track("a"));
    assert_eq!(list.len(), 2);
    remove_track(&mut list, "a", "n");
    assert_eq!(list[0].track_id, "b");
}

#[test]
fn playlist_requests_find_their_place() {
    assert!(matches!(find_playlist(&encode_collab_id("u"), 1), Ok(PlaylistPlace::Collab { ref uuid }) if uuid == "u"));
    let local = playlist_db::encode_local_playlist_id("u");
    assert!(playlist_db::is_local_playlist_id(&local));
    assert!(matches!(find_playlist(&local, 1), Ok(PlaylistPlace::Local { .. })));
    assert!(matches!(find_playlist(&encode_id(0, "p"), 1), Ok(PlaylistPlace::Remote { backend: 0, .. })));
    assert!(find_playlist(&encode_id(1, "p"), 1).is_err());
    assert!(playlist_to_update(&params(&[]), 1).is_err());
}

#[test]
fn new_playlists_are_local_or_shared() {
    assert!(matches!(create_playlist(&params(&[("name", "collab: Mix ")])), NewPlaylist::Collab { ref name } if name == "Mix"));
    assert!(matches!(create_playlist(&params(&[("name", "M"), ("collaborative", "true")])), NewPlaylist::Collab { ref name } if name == "M"));
    assert!(matches!(create_playlist(&params(&[])), NewPlaylist::Local { ref name, song_id: None } if name == "New Playlist"));
    let id = new_playlist_id();
    assert_eq!(id.len(), 32);
    assert!(id.chars().all(|c| c.is_ascii_hexdigit()));
    let j = created_collab("u", "Mix", "me");
    assert_eq!(j.get("playlist").unwrap().str_or("name", ""), "[Collab] Mix");
}

#[test]
fn tracks_are_described_for_friends() {
    let song = Json::object().with("song", Json::object().with_text("artist", "A").with("duration", Json::integer(9)));
    let t = resolve_track_for_collab("t", "n", Some(&song));
    assert_eq!((t.title.as_str(), t.artist.as_deref(), t.duration), ("Unknown", Some("A"), Some(9)));
    assert_eq!(resolve_track_for_collab("t", "n", None).title, "Unknown Track");
}

#[test]
fn local_playlists_keep_their_positions() {
    let mut tracks = Vec::new();
    playlist_db::add_tracks_to_playlist(&mut tracks, &vec!["a".into(), "b".into(), "c".into()]);
    assert_eq!(tracks[2].position, 2);
    playlist_db::remove_tracks_from_playlist(&mut tracks, &vec![1]);
    assert_eq!(tracks.len(), 2);
    assert_eq!((tracks[1].position, tracks[1].track_id.as_str()), (1, "c"));
    assert!(playlist_db::try_add_tracks_to_playlist(&mut tracks, &vec!["d".into()]));
    assert_eq!((tracks[2].position, tracks[2].track_id.as_str()), (2, "d"));
    assert!(playlist_db::try_remove_tracks_from_playlist(&mut tracks, &vec![0]));
    assert_eq!((tracks[0].position, tracks[0].track_id.as_str()), (0, "c"));
    tracks[1].position = i64::MAX - 1;
    assert!(!playlist_db::try_add_tracks_to_playlist(&mut tracks, &vec!["e".into()]));
    assert_eq!(tracks.len(), 2);
}

#[test]
fn local_playlists_are_seen_by_owner_or_all() {
    let mut row = playlist_db::create_playlist("P", "me", "now");
    assert_eq!(row.id.len(), 36);
    playlist_db::update_playlist(&mut row, None, Some("c".into()), Some(true));
    assert_eq!((row.name.as_str(), row.comment.as_str(), row.public), ("P", "c", true));
    let hidden = playlist_db::create_playlist("Q", "me", "now");
    let rows = vec![(row, 4), (hidden, 0)];
    assert_eq!(playlist_db::get_playlists_for_user(&rows, "me").len(), 2);
    let seen = playlist_db::get_playlists_for_user(&rows, "you");
    assert_eq!(seen.len(), 1);
    assert_eq!(seen[0].get_i64("songCount"), Some(4));
    let song = Json::object().with("song", Json::object().with_text("id", "s"));
    let j = playlist_db::get_playlist(Some(&rows[0].0), &vec!["a".into(), "b".into()], &vec![Some((1, song)), None]).unwrap();
    let entries = j.get("playlist").unwrap().get("entry").unwrap().as_array().unwrap();
    assert_eq!(entries[0].str_or("id", ""), encode_id(1, "s"));
    assert_eq!(entries[1].str_or("id", ""), "b");
    assert!(playlist_db::get_playlist(None, &vec![], &vec![]).is_err());
}

#[test]
fn changes_are_read_from_requests() {
    let c = local_change(&params(&[("public", "false"), ("songIndexToRemove", "3")]));
    assert_eq!((c.name, c.public, c.index_to_remove), (None, Some(false), Some(3)));
    let c = local_change(&params(&[("songIndexToRemove", "x")]));
    assert_eq!((c.public, c.index_to_remove), (None, None));
    let r = remote_change("p", &params(&[("comment", "c"), ("name", "n")]));
    assert_eq!(r[1], ("name".to_string(), "n".to_string()));
    let all = get_playlists(Ok(vec![]), &vec![Json::object()], &vec![Json::object()]);
    let list = all.get("playlists").unwrap().get("playlist").unwrap().as_array().unwrap();
    assert_eq!(list.len(), 2);
}

#[test]
fn friends_are_known_by_their_keys() {
    let mut f = Vec::new();
    add_friend(&mut f, "Zoe", "k1", "t1", 1, "now");
    add_friend(&mut f, "Amy", "k2", "t2", 2, "now");
    add_friend(&mut f, "Zoë", "k1", "t3", 3, "later");
    assert_eq!(f.len(), 2);
    let z = get_friend_by_key(&f, "k1").unwrap();
    assert_eq!((z.name.as_str(), z.ticket.as_str(), z.id), ("Zoë", "t3", 1));
    assert_eq!(list_friends(&f)[0].name, "Amy");
    update_last_seen(&mut f, "k2", "today");
    assert_eq!(get_friend_by_key(&f, "k2").unwrap().last_seen.as_deref(), Some("today"));
    assert_eq!(get_friend_by_key(&f, "k1").unwrap().last_seen, None);
    assert!(!remove_friend(&mut f, "Zoe"));
    assert!(remove_friend(&mut f, "Zoë"));
    assert!(get_friend_by_key(&f, "k1").is_none());
}

#[test]
fn tickets_round_trip() {
    let t = generate_ticket("{\"id\":\"x\"}");
    assert_eq!(parse_ticket(&t).unwrap(), "{\"id\":\"x\"}");
    assert!(parse_ticket("!!").unwrap_err().to_text().contains("Invalid ticket encoding: "));
    assert!(parse_ticket("_w").unwrap_err().to_text().contains("Invalid ticket UTF-8: "));
    assert_eq!(fugue_alpn(), "fugue/social/0");
}

#[test]
fn identities_are_thirty_two_bytes() {
    assert_eq!(load_or_create_secret_key(Some(vec![7; 32])).unwrap(), vec![7; 32]);
    let e = load_or_create_secret_key(Some(vec![7; 31])).unwrap_err();
    assert!(e.to_text().contains("Invalid stored secret key"));
    let a = load_or_create_secret_key(None).unwrap();
    assert_eq!(a.len(), 32);
    assert_ne!(a, load_or_create_secret_key(None).unwrap());
}

#[test]
fn libraries_are_summarized_by_name() {
    let artists = vec![("1".to_string(), "zz".to_string()), ("2".to_string(), " Aa".to_string())];
    let albums = vec![AlbumSummary { id: "3".into(), name: "N".into(), artist: None, year: Some(1) }];
    let s = build_library_summary((2, 1, 0), &artists, &albums);
    let list = s.get("artists").unwrap().as_array().unwrap();
    assert_eq!(list[0].str_or("id", ""), "2");
    assert!(matches!(s.get("albums").unwrap().as_array().unwrap()[0].get("artist"), Some(Json::Null)));
    assert_eq!(friend_library_key("k"), "friend_library_k");
    let mut rows = Vec::new();
    store_friend_library(&mut rows, "k", "{}", "2024");
    store_friend_library(&mut rows, "l", "[]", "2024");
    store_friend_library(&mut rows, "k", "{\"version\":1}", "2025");
    assert_eq!(get_friend_library(&rows, "k").as_deref(), Some("{\"version\":1}"));
    assert_eq!(get_friend_library(&rows, "l").as_deref(), Some("[]"));
    assert_eq!(get_friend_library(&rows, "m"), None);
    assert_eq!(rows.len(), 2);
}

#[test]
fn bridged_requests_become_uris() {
    let p = vec![("q".to_string(), "a b".to_string())];
    assert_eq!(request_uri("ping", &p), "/rest/ping?q=a+b");
    assert_eq!(request_uri("admin/status", &vec![]), "/admin/status?");
    assert!(is_event_subscription("admin/events"));
    let h = make_header(200, None, Some(&"12".to_string()));
    assert_eq!(header_status(&h), 200);
    assert_eq!(h.str_or("content_type", ""), "application/octet-stream");
    assert_eq!(h.get_i64("content_length"), Some(12));
    let h = make_header(404, Some(&"text/xml".to_string()), Some(&"x".to_string()));
    assert!(matches!(h.get("content_length"), Some(Json::Null)));
}

#[test]
fn what_is_playing_gets_stale() {
    let song = Json::object().with_text("title", "t");
    let mut rows = Vec::new();
    set_now_playing(&mut rows, "n", "a", &song, 401);
    set_now_playing(&mut rows, "n", "b", &song, 400);
    set_now_playing(&mut rows, "n", "c", &song, 300);
    set_now_playing(&mut rows, "n", "c", &song, 990);
    assert_eq!(rows.len(), 3);
    let r = get_now_playing(&rows, 1000);
    assert_eq!(r.len(), 2);
    assert_eq!(r[0].str_or("username", ""), "c");
    assert_eq!(r[0].str_or("nodeId", ""), "n");
    clear_now_playing(&mut rows, "n", "c");
    assert_eq!(get_now_playing(&rows, 1000).len(), 1);
}

#[test]
fn chat_is_shown_oldest_first() {
    let mut rows = Vec::new();
    add_chat_message(&mut rows, "n", "u", "new", "12:01", 999);
    add_chat_message(&mut rows, "n", "u", "old", "12:00", 950);
    add_chat_message(&mut rows, "n", "u", "gone", "11:00", 940);
    let r = get_chat_messages(&rows, 60, 1000);
    assert_eq!(r.len(), 2);
    assert_eq!(r[0].str_or("message", ""), "old");
    assert_eq!(r[0].str_or("time", ""), "12:00");
}

fn party_track(id: &str) -> PartyTrack {
    PartyTrack {
        fingerprint: None,
        song_id: id.into(),
        title: "T".into(),
        artist: "A".into(),
        album: "B".into(),
        track_number: None,
        duration_secs: None,
    }
}

#[test]
fn gossip_moves_the_party() {
    let mut host = PartyState::default();
    host.create_session_with_id("s".into(), "Alice".into(), "a".into());
    let me = SocialHandle { display_name: "Bob".into() };
    let r = on_gossip(&mut host, "b", &me.broadcast_party_join("s", "b"), 5);
    assert_eq!(host.hosting.as_ref().unwrap().members.len(), 1);
    assert_eq!(r.event.unwrap().str_or("type", ""), "party_join");
    let sync = r.broadcast.unwrap();
    let mut follower = PartyState::default();
    follower.follow("s".into(), "a".into(), "Alice".into());
    let r = on_gossip(&mut follower, "a", &sync, 9);
    assert_eq!(follower.following.as_ref().unwrap().last_seq, 1);
    assert!(r.event.is_some());
    // The same message again is old news.
    assert!(on_gossip(&mut follower, "a", &sync, 9).event.is_none());
    let end = SocialHandle { display_name: "Alice".into() }.broadcast_party_end("s");
    on_gossip(&mut follower, "a", &end, 10);
    assert!(follower.following.is_none());
}

#[test]
fn tracks_of_the_host_are_remote() {
    let r = remap_party_tracks_remote("dj", &vec![party_track("x")]);
    assert_eq!(decode_remote_track_id(&r[0].song_id), Some(("dj".to_string(), "x".to_string())));
    let again = remap_party_tracks_remote("dj", &r);
    assert_eq!(again[0].song_id, r[0].song_id);
}

#[test]
fn gossip_is_stored() {
    let me = SocialHandle { display_name: "Bob".into() };
    assert!(matches!(handle_gossip_message("n", me.broadcast_chat("hi")), StoreAction::AddChat { ref message, .. } if message == "hi"));
    assert!(matches!(handle_gossip_message("n", me.broadcast_stopped_playing()), StoreAction::ClearNowPlaying { .. }));
    assert!(matches!(handle_gossip_message("n", me.broadcast_now_playing(&Json::object())), StoreAction::SetNowPlaying { .. }));
    assert!(matches!(handle_gossip_message("n", me.broadcast_party_create("s", "n")), StoreAction::Nothing));
    let m = GossipMessage::CrdtSync { playlist_id: "p".into(), ops: vec![add("a", 1, "x")] };
    assert!(matches!(handle_gossip_message("n", m), StoreAction::MergeOps { .. }));
    assert!(sync_message("p", "Mix", &OpLog::new(), vec![]).is_none());
    assert!(matches!(sync_message("p", "Mix", &OpLog::new(), vec![track("x")]), Some(GossipMessage::Playlist { .. })));
}

#[test]
fn connections_are_routed_by_protocol() {
    let r = |alpn: &[u8], serves: bool| route_connection(alpn, b"gossip", b"fugue", b"sub", serves);
    assert!(matches!(r(b"gossip", true), Route::Gossip));
    assert!(matches!(r(b"fugue", true), Route::Fugue));
    assert!(matches!(r(b"sub", true), Route::Subsonic));
    assert!(matches!(r(b"sub", false), Route::NotConfigured));
    assert!(matches!(r(b"x", true), Route::Unknown));
    let peers = bootstrap_peers(&vec![(Some("a".into()), None), (None, Some("b".into())), (None, None)]);
    assert_eq!(peers, vec!["a".to_string(), "b".to_string()]);
}

#[test]
fn requests_of_friends_are_answered() {
    let party = PartyState::default();
    let plan = handle_connection(RequestMessage::PartyTimePing { client_send_ms: 1 }, &party, 2, 3);
    assert!(matches!(plan, RequestPlan::Respond(ResponseMessage::PartyTimePong { client_send_ms: 1, server_recv_ms: 2, server_send_ms: 3 })));
    assert!(matches!(handle_connection(RequestMessage::GetLibrary, &party, 0, 0), RequestPlan::Library));
    let (backend, p) = stream_from_backend_for_peer(&vec![0, 1], &encode_id(1, "s"), 128, "mp3").ok().unwrap();
    assert_eq!(backend, 1);
    assert!(p.contains(&("id".to_string(), "s".to_string())));
    assert!(p.contains(&("maxBitRate".to_string(), "128".to_string())));
    assert!(matches!(stream_from_backend_for_peer(&vec![0], &encode_id(1, "s"), 0, ""), Err(PeerStreamError::NoBackend(_))));
    assert!(matches!(stream_from_backend_for_peer(&vec![0], "?", 0, ""), Err(PeerStreamError::BadId(_))));
}

#[test]
fn hosts_are_polled() {
    let body = Json::object()
        .with("found", Json::Bool(true))
        .with("seq", Json::integer(4))
        .with("position_secs", Json::integer(5))
        .with_text("state", "Playing");
    let p = poll_result(&body);
    assert!(matches!(p.position_secs, Number::Float(ref t) if t == "5.0"));
    let none = poll_result(&Json::object().with("found", Json::Bool(true)));
    assert!(matches!(none.position_secs, Number::Float(ref t) if t == "0.0"));
    assert!(p.found);
    assert_eq!((p.seq, p.state), (4, Some(PartyPlaybackState::Playing)));
    let mut f = FollowPoll::new("s".into(), "h".into());
    let events = f.on_poll(&p, 0, 1);
    assert_eq!(events.len(), 1);
    assert_eq!(f.last_seq, 4);
    assert!(f.on_poll(&p, 0, 1).is_empty());
    assert!(matches!(f.on_push("x".into(), None), Pushed::Ignored));
    assert!(matches!(f.on_push("party_sync".into(), None), Pushed::Raw(_)));
    f.on_poll_failed();
    assert!(f.poll_secs == 3 || f.poll_secs == 10);
    assert_eq!(ping_times(1, &Json::object().with("t2", Json::integer(2)).with("t3", Json::integer(3)), 4), (1, 2, 3, 4));
}

#[test]
fn event_lines_are_cut_at_newlines() {
    let mut b = LineBuffer::new();
    for c in b"ab" {
        assert!(b.feed(*c).is_none());
    }
    assert_eq!(b.feed(b'\n'), Some("ab".to_string()));
    assert!(b.feed(b'c').is_none());
}

#[test]
fn following_ends_with_its_session() {
    let mut party = PartyState::default();
    party.follow("s".into(), "h".into(), "H".into());
    assert!(still_following(&party, "s"));
    assert!(!still_following(&party, "t"));
    end_following(&mut party, "t");
    assert!(party.following.is_some());
    end_following(&mut party, "s");
    assert!(party.following.is_none());
}

#[test]
fn hosts_say_what_they_play() {
    let mut state = PartyState::default();
    state.create_session_with_id("s".into(), "A".into(), "a".into());
    let me = SocialHandle { display_name: "A".into() };
    let h = state.hosting.as_ref().unwrap();
    let sync = me.broadcast_party_sync("s", h.seq, h.state, None, h.position_secs.clone(), 7);
    assert!(matches!(sync, GossipMessage::PartySync { host_timestamp_ms: 7, seq: 0, .. }));
    let queue = me.broadcast_party_queue_sync("s", 4, vec![party_track("x")], 0, vec![], 2, true);
    assert!(matches!(queue, GossipMessage::PartyQueueSync { seq: 4, queue_index: 2, playing_from_queue: true, .. }));
    let event = me.push_party_sync_event("s", 5, PartyPlaybackState::Paused, &None, &Number::PosInt(3), 8, 9);
    assert_eq!(event.str_or("type", ""), "party_sync");
    assert_eq!(event.str_or("state", ""), "Paused");
    assert_eq!(event.get_i64("dj_timestamp_ms"), Some(8));
    assert_eq!(event.get_i64("host_timestamp_ms"), Some(9));
    let event = me.push_party_queue_sync_event("s", 5, &vec![party_track("x")], 0, &vec![], 0, false);
    assert_eq!(event.get("playlist").unwrap().as_array().unwrap().len(), 1);
    assert!(matches!(me.broadcast_party_invite("s", "n"), GossipMessage::PartyInvite { .. }));
    assert!(matches!(me.broadcast_party_leave("s", "n"), GossipMessage::PartyLeave { .. }));
    let op = PlaylistOp::Delete { playlist_id: "p".into() };
    assert!(matches!(me.broadcast_playlist_op(op), GossipMessage::Playlist { .. }));
}

#[test]
fn friends_come_and_go() {
    assert_eq!(friend_online_event("n").str_or("type", ""), "friend_online");
    assert_eq!(friend_offline_event("n").str_or("type", ""), "friend_offline");
    assert_eq!(friend_offline_event("n").str_or("node_id", ""), "n");
}

#[test]
fn friends_are_told_what_there_is() {
    assert!(matches!(library_response(Ok(Json::object())), ResponseMessage::Library { .. }));
    let e = FugueError::Internal("x".into());
    assert!(matches!(library_response(Err(e)), ResponseMessage::Error { ref message } if message == "Internal error: x"));
    assert!(matches!(album_response(Some(Json::object())), ResponseMessage::Album { .. }));
    assert!(matches!(album_response(None), ResponseMessage::Error { ref message } if message == "Album not found"));
}
