use fugue::json::{Json, Number};
use fugue::social::party::{
    resolve_track, uuid_from_bytes, uuid_v4, weighted_median, ClockSample, FollowingSession,
    LocalTrack, PartyState, PartyStatus,
};
use fugue::social::protocol::{
    track_from_json, track_to_json, tracks_from_json, PartyPlaybackState, PartyTrack,
};
use fugue::subsonic::params::Params;
use fugue::subsonic::system::{
    admin_party_advertise_direct, admin_party_full_state, admin_party_join, admin_party_peer_addr,
    admin_party_queue_sync, admin_party_status, admin_party_sync, admin_party_time_ping,
    asks_for_party, query_friend_party_status,
};
use std::collections::VecDeque;

#[test]
fn test_weighted_median() {
    let mut samples = VecDeque::new();
    // Empty → 0
    assert_eq!(weighted_median(&samples), 0);
    // Single sample
    samples.push_back(ClockSample { offset_ms: 100, rtt_ms: 10 });
    assert_eq!(weighted_median(&samples), 100);
    // Low-RTT sample should be preferred
    samples.push_back(ClockSample { offset_ms: 50, rtt_ms: 1 });
    samples.push_back(ClockSample { offset_ms: 200, rtt_ms: 100 });
    assert_eq!(weighted_median(&samples), 50);
}

#[test]
fn test_ntp_clock_offset() {
    let mut session = FollowingSession::new("test".into(), "node1".into(), "Alice".into());
    assert_eq!(session.clock_offset_ms, 0);
    // The host's clock is 50 ms ahead; each way takes 10 ms, the answer 1 ms.
    session.add_clock_sample(1000, 1060, 1061, 1021);
    assert_eq!(session.clock_offset_ms, 50);
    assert_eq!(session.rtt_ms, 20);
}

#[test]
fn test_party_state_lifecycle() {
    let mut state = PartyState::default();
    assert!(state.hosting.is_none());
    assert!(state.following.is_none());

    // Create session
    let session = state.create_session("Alice".into(), "node_a".into());
    assert_eq!(session.host_name, "Alice");

    // Add members
    state.add_member("node_b", "Bob");
    state.add_member("node_c", "Carol");
    assert_eq!(state.hosting.as_ref().unwrap().members.len(), 2);

    // No duplicates
    state.add_member("node_b", "Bob");
    assert_eq!(state.hosting.as_ref().unwrap().members.len(), 2);

    // Remove member
    state.remove_member("node_b");
    assert_eq!(state.hosting.as_ref().unwrap().members.len(), 1);

    // End session
    let sid = state.end_session();
    assert!(sid.is_some());
    assert!(state.hosting.is_none());

    // Follow
    state.follow("sess1".into(), "node_x".into(), "Xavier".into());
    assert!(state.following.is_some());
    assert_eq!(state.following.as_ref().unwrap().host_name, "Xavier");

    // Unfollow
    let sid = state.unfollow();
    assert_eq!(sid.unwrap(), "sess1");
    assert!(state.following.is_none());
}

#[test]
fn equal_halves_take_the_lower_offset() {
    let mut samples = VecDeque::new();
    samples.push_back(ClockSample { offset_ms: 30, rtt_ms: 5 });
    samples.push_back(ClockSample { offset_ms: -10, rtt_ms: 5 });
    assert_eq!(weighted_median(&samples), -10);
}

#[test]
fn large_round_trip_times_weigh_little_but_exactly() {
    let mut samples = VecDeque::new();
    samples.push_back(ClockSample { offset_ms: 1, rtt_ms: u64::MAX });
    samples.push_back(ClockSample { offset_ms: 2, rtt_ms: u64::MAX });
    samples.push_back(ClockSample { offset_ms: 3, rtt_ms: u64::MAX });
    assert_eq!(weighted_median(&samples), 2);
}

#[test]
fn impossible_samples_are_refused() {
    let mut session = FollowingSession::new("s".into(), "n".into(), "A".into());
    assert!(session.try_add_clock_sample(1000, 1060, 1061, 1021));
    assert!(!session.try_add_clock_sample(1, 5, 5, 1 << 63));
    assert_eq!(session.clock_offset_ms, 50);
}

#[test]
fn the_last_samples_count() {
    let mut session = FollowingSession::new("s".into(), "n".into(), "A".into());
    for _ in 0..30 {
        assert!(session.try_add_clock_sample(1000, 1060, 1061, 1021));
    }
    assert!(session.clock_samples.len() == 10, "{}", session.clock_samples.len());
}

#[test]
fn only_the_ten_latest_pings_count() {
    let pings: Vec<(u64, u64)> = (0..25).map(|i| (1000 + 7 * i, 5 + i % 4)).collect();
    let feed = |list: &[(u64, u64)]| {
        let mut f = FollowingSession::new("s".into(), "n".into(), "A".into());
        for (shift, delay) in list {
            let t1 = 100_000;
            let t2 = t1 + delay + shift;
            assert!(f.try_add_clock_sample(t1, t2, t2 + 1, t1 + 1 + 2 * delay));
        }
        f.clock_offset_ms
    };
    assert_eq!(feed(&pings), feed(&pings[15..]));
    assert_ne!(feed(&pings), feed(&pings[..15]));
}

#[test]
fn one_way_estimates_yield_to_a_better_ping() {
    let mut f = FollowingSession::new("s".into(), "n".into(), "A".into());
    f.add_clock_sample(1000, 1060, 1061, 1021);
    f.update_clock_offset_at(9_000, 1_000);
    assert_eq!((f.clock_offset_ms, f.rtt_ms, f.last_seq), (50, 20, 0));
    let mut f = FollowingSession::new("s".into(), "n".into(), "A".into());
    f.add_clock_sample(1000, 1060, 1061, 1021);
    f.update_clock_offset_at(1_000, 9_000);
    assert_eq!(f.clock_offset_ms, 50);
}

#[test]
fn hosting_ends_following() {
    let mut state = PartyState::default();
    state.follow("s".into(), "n".into(), "H".into());
    state.create_session("Alice".into(), "a".into());
    assert!(state.following.is_none());
    state.follow("s".into(), "n".into(), "H".into());
    assert!(state.hosting.is_none());
}

#[test]
fn uuids_are_version_four() {
    let zero = vec![0u8; 16];
    assert_eq!(uuid_from_bytes(&zero), "00000000-0000-4000-8000-000000000000");
    let full = vec![255u8; 16];
    assert_eq!(uuid_from_bytes(&full), "ffffffff-ffff-4fff-bfff-ffffffffffff");
    let u = uuid_v4();
    assert_eq!(u.len(), 36);
    assert_eq!(u.as_bytes()[14], b'4');
    assert_ne!(u, uuid_v4());
}

#[test]
fn silent_parties_are_forgotten() {
    let mut state = PartyState::default();
    state.touch_active_party_at("s1", "Host", "n1", 1_000);
    state.touch_active_party_at("s2", "Other", "n2", 50_000);
    state.touch_active_party_at("s1", "Renamed", "n9", 2_000);
    assert_eq!(state.active_parties.len(), 2);
    assert_eq!(state.active_parties[0].host_name, "Renamed");
    assert_eq!(state.active_parties[0].host_node_id, "n1");
    let found = state.discover_parties_at(70_000);
    assert_eq!(found.len(), 1);
    assert_eq!(found[0].session_id, "s2");
    assert!(!asks_for_party(&found, "n2"));
    assert!(asks_for_party(&found, "n1"));
}

fn params(list: &[(&str, &str)]) -> Params {
    Params {
        fields: list.iter().map(|(k, v)| (k.to_string(), v.to_string())).collect(),
    }
}

#[test]
fn a_sync_raises_the_sequence_number() {
    let mut state = PartyState::default();
    let nothing = params(&[]);
    assert!(admin_party_sync(&mut state, &nothing, Number::PosInt(0), None).is_none());
    state.create_session_with_id("s".into(), "Alice".into(), "a".into());
    let p = params(&[
        ("state", "Playing"),
        ("song_id", "x1"),
        ("title", "T"),
        ("track_number", "4"),
        ("dj_timestamp_ms", "77"),
    ]);
    let seq = admin_party_sync(&mut state, &p, Number::Float("1.5".into()), None);
    assert_eq!(seq, Some(1));
    {
        let h = state.hosting.as_ref().unwrap();
        assert_eq!(h.state, PartyPlaybackState::Playing);
        assert_eq!(h.dj_timestamp_ms, 77);
        let t = h.track.as_ref().unwrap();
        assert_eq!((t.song_id.as_str(), t.title.as_str(), t.track_number), ("x1", "T", Some(4)));
    }
    let q = params(&[("queue_index", "2"), ("playing_from_queue", "true")]);
    assert_eq!(admin_party_queue_sync(&mut state, &q, vec![], vec![]), Some(2));
    let h = state.hosting.as_ref().unwrap();
    assert_eq!((h.queue_index, h.playing_from_queue), (2, true));
}

#[test]
fn status_tells_who_hosts() {
    let mut state = PartyState::default();
    let off = admin_party_status(&state);
    assert_eq!(off.str_or("mode", ""), "off");
    assert!(query_friend_party_status(&off).is_none());
    state.create_session_with_id("s".into(), "Alice".into(), "a".into());
    let status = admin_party_status(&state);
    assert_eq!(
        query_friend_party_status(&status),
        Some(("s".to_string(), "Alice".to_string()))
    );
    assert!(status.get("track").is_none());
    assert_eq!(PartyStatus::from_state(&state).mode, "hosting");
    state.follow("t".into(), "b".into(), "Bob".into());
    assert_eq!(admin_party_status(&state).str_or("mode", ""), "following");
}

#[test]
fn joining_needs_a_session() {
    let mut state = PartyState::default();
    let r = admin_party_join(&mut state, &params(&[]));
    assert_eq!(r.str_or("error", ""), "Missing session_id");
    assert!(state.following.is_none());
    let r = admin_party_join(&mut state, &params(&[("session_id", "s"), ("host_name", "H")]));
    assert_eq!(r.str_or("host_name", ""), "H");
    assert_eq!(state.following.as_ref().unwrap().session_id, "s");
}

#[test]
fn direct_addresses_are_kept_with_the_session() {
    let mut state = PartyState::default();
    let p = params(&[("addr", "abc")]);
    let r = admin_party_advertise_direct(&mut state, &params(&[]));
    assert_eq!(r.str_or("error", ""), "Missing addr parameter");
    let r = admin_party_advertise_direct(&mut state, &p);
    assert_eq!(r.str_or("error", ""), "Not hosting a party");
    state.create_session_with_id("s".into(), "A".into(), "a".into());
    admin_party_advertise_direct(&mut state, &p);
    let r = admin_party_peer_addr(&state, &params(&[("session_id", "s")]));
    assert_eq!(r.str_or("addr", ""), "abc");
    let r = admin_party_peer_addr(&state, &params(&[("session_id", "other")]));
    assert!(matches!(r.get("addr"), Some(Json::Null)));
    let full = admin_party_full_state(&state);
    assert!(full.is_true("found"));
    assert_eq!(full.str_or("dj_endpoint_addr", ""), "abc");
}

#[test]
fn time_pings_echo_the_client() {
    let r = admin_party_time_ping(&params(&[("t1", "5")]), 10, 11);
    let n = |k: &str| r.get(k).unwrap().as_u64();
    assert_eq!((n("t1"), n("t2"), n("t3")), (Some(5), Some(10), Some(11)));
    let r = admin_party_time_ping(&params(&[("t1", "x")]), 10, 11);
    assert_eq!(r.get("t1").unwrap().as_u64(), Some(0));
}

fn track(song_id: &str) -> PartyTrack {
    PartyTrack {
        fingerprint: None,
        song_id: song_id.to_string(),
        title: "Song".to_string(),
        artist: "Band".to_string(),
        album: "Album".to_string(),
        track_number: Some(3),
        duration_secs: Some(Number::Float("12.5".to_string())),
    }
}

#[test]
fn tracks_survive_json() {
    let t = track("abc");
    let back = track_from_json(&track_to_json(&t)).unwrap();
    assert_eq!(back.song_id, "abc");
    assert_eq!(back.track_number, Some(3));
    assert!(matches!(back.duration_secs, Some(Number::Float(ref s)) if s == "12.5"));
}

#[test]
fn seconds_are_floats() {
    let mut t = track("abc");
    t.duration_secs = Some(Number::PosInt(180));
    let back = track_from_json(&track_to_json(&t)).unwrap();
    assert!(matches!(back.duration_secs, Some(Number::Float(ref s)) if s == "180.0"));
    assert!(matches!(Number::NegInt(-3).as_float(), Number::Float(ref s) if s == "-3.0"));
}

#[test]
fn one_bad_track_spoils_the_list() {
    let good = track_to_json(&track("a"));
    let list = Json::array(vec![good.clone(), track_to_json(&track("b"))]);
    assert_eq!(tracks_from_json(Some(&list)).len(), 2);
    let list = Json::array(vec![good, Json::text("x")]);
    assert_eq!(tracks_from_json(Some(&list)).len(), 0);
    assert_eq!(tracks_from_json(None).len(), 0);
}

#[test]
fn tracks_are_found_by_group_or_by_name() {
    let local = |id: &str, title: &str, artist: Option<&str>| LocalTrack {
        id: id.to_string(),
        title: title.to_string(),
        artist: artist.map(|a| a.to_string()),
    };
    let tracks = vec![
        local("1", "SONG", None),
        local("2", "SONG", Some("band")),
        local("3", "song", Some("Band")),
    ];
    let mut t = track("x");
    assert_eq!(resolve_track(&t, Some("c".into()), &tracks).unwrap(), "2");
    t.fingerprint = Some("t::x".into());
    assert_eq!(resolve_track(&t, Some("c".into()), &tracks).unwrap(), "c");
    assert_eq!(resolve_track(&t, None, &tracks).unwrap(), "2");
    assert!(resolve_track(&t, None, &vec![]).is_none());
}

#[test]
fn sequence_numbers_run_out() {
    let mut state = PartyState::default();
    assert!(state.has_numbers_left());
    state.create_session("Alice".into(), "a".into());
    assert!(state.has_numbers_left());
    state.hosting.as_mut().unwrap().seq = u64::MAX;
    assert!(!state.has_numbers_left());
}
