use fugue::cache::db::MemberEntry;
use fugue::config::StreamingConfig;
use fugue::dedup::resolver::ResolvedSource;
use fugue::error::FugueError;
use fugue::health::probe::{record_probe, HealthRegistry};
use fugue::id::{encode_dedup_id, encode_id};
use fugue::social::collab_playlist::encode_remote_track_id;
use fugue::social::protocol::RequestMessage;
use fugue::subsonic::media::{
    after_attempt, all_sources_failed, build_stream_params, dedup_attempts, fallback_attempts,
    find_dedup_siblings, first_attempt, friend_content_type, get_cover_art, serve_quality, stream,
    stream_from_friend, stream_with_fallback, StreamPlan, WalkStep,
};
use fugue::subsonic::params::Params;

fn params(list: &[(&str, &str)]) -> Params {
    Params {
        fields: list.iter().map(|(k, v)| (k.to_string(), v.to_string())).collect(),
    }
}

fn down(h: &mut HealthRegistry, idx: usize) {
    for _ in 0..3 {
        record_probe(h, idx, None);
    }
}

#[test]
fn transcoding_parameters_are_passed_on() {
    let p = params(&[("format", "mp3"), ("maxBitRate", "128"), ("x", "y")]);
    let extra = stream(&p);
    assert_eq!(
        extra,
        vec![("maxBitRate".to_string(), "128".to_string()), ("format".to_string(), "mp3".to_string())]
    );
    assert_eq!(build_stream_params("s", &extra)[0], ("id".to_string(), "s".to_string()));
    assert_eq!(get_cover_art(&params(&[("size", "9")])).len(), 1);
}

#[test]
fn streams_come_from_where_they_are() {
    let none = vec![];
    assert!(matches!(stream_with_fallback(&encode_id(1, "s"), "me", 2, &none), StreamPlan::Backend(ref a) if a.backend == 1));
    assert!(matches!(stream_with_fallback(&encode_id(2, "s"), "me", 2, &none), StreamPlan::Refused(_)));
    assert!(matches!(stream_with_fallback(&encode_dedup_id("f"), "me", 2, &none), StreamPlan::Sources { ref fingerprint } if fingerprint == "f"));
    let remote = encode_remote_track_id("you", "t");
    assert!(matches!(stream_with_fallback(&remote, "me", 2, &none), StreamPlan::Friend { ref owner_node, .. } if owner_node == "you"));
    let own = encode_remote_track_id("me", &encode_id(0, "s"));
    assert!(matches!(stream_with_fallback(&own, "me", 2, &none), StreamPlan::Own(ref a) if a.backend == 0));
}

fn source(backend: usize, score: i128) -> ResolvedSource {
    ResolvedSource { namespaced_id: encode_id(backend, "s"), backend_idx: backend, score }
}

#[test]
fn healthy_sources_are_tried_first() {
    let mut h = HealthRegistry::new();
    down(&mut h, 0);
    record_probe(&mut h, 2, Some(500));
    let list = vec![source(0, 9000), source(1, 1000), source(2, 1200), source(9, 1)];
    let a = dedup_attempts(&list, &h, 3, &vec![]).unwrap();
    let order: Vec<usize> = a.iter().map(|x| x.backend).collect();
    assert_eq!(order, vec![1, 2, 0]);
    let e = dedup_attempts(&vec![], &h, 3, &vec![]).unwrap_err();
    assert_eq!(e.subsonic_message(), "No sources for dedup track");
    assert_eq!(all_sources_failed(None).subsonic_message(), "All dedup sources failed");
    let last = all_sources_failed(Some(FugueError::Backend("x".into())));
    assert_eq!(last.subsonic_message(), "Backend error: x");
}

#[test]
fn fallbacks_skip_unavailable_backends() {
    let mut h = HealthRegistry::new();
    down(&mut h, 1);
    let me = encode_id(0, "s");
    let siblings = vec![me.clone(), encode_id(1, "t"), encode_id(2, "u"), "bad".to_string()];
    let a = fallback_attempts(&me, &siblings, &h, 3, &vec![]);
    assert_eq!(a.len(), 1);
    assert_eq!(a[0].backend, 2);
    assert!(fallback_attempts(&me, &vec![encode_id(2, "u")], &h, 3, &vec![]).is_empty());
}

#[test]
fn copies_are_found_best_first() {
    let m = |f: &str, id: &str, score: i128| MemberEntry {
        fingerprint: f.into(),
        entity_type: "track".into(),
        namespaced_id: id.into(),
        score,
    };
    let ms = vec![m("f", "a", 1), m("f", "b", 5), m("g", "c", 9)];
    assert_eq!(find_dedup_siblings(&ms, "a"), vec!["b".to_string(), "a".to_string()]);
    assert!(find_dedup_siblings(&ms, "z").is_empty());
}

#[test]
fn friends_agree_on_a_quality() {
    let mut c = StreamingConfig::default();
    assert!(matches!(stream_from_friend("getCoverArt", "t", 100, &c), RequestMessage::StreamCoverArt { .. }));
    assert!(matches!(stream_from_friend("stream", "t", 100, &c), RequestMessage::StreamTrack { max_bitrate: 128, ref format, .. } if format == "mp3"));
    assert!(matches!(stream_from_friend("stream", "t", 5000, &c), RequestMessage::StreamTrack { max_bitrate: 0, ref format, .. } if format.is_empty()));
    c.max_serve_bitrate = 192;
    c.serve_format = "opus".into();
    assert_eq!(serve_quality(0, "", &c), (192, "opus".to_string()));
    assert_eq!(serve_quality(320, "mp3", &c), (192, "mp3".to_string()));
    assert_eq!(serve_quality(96, "mp3", &c), (96, "mp3".to_string()));
    assert_eq!(friend_content_type("getCoverArt"), "image/jpeg");
    assert_eq!(friend_content_type("stream"), "audio/mpeg");
}

/// Makes the attempts, of which those that give no error answer: which were
/// made, and the error at the end.
fn walk(errors: &[Option<&str>], before: Option<&str>) -> (Vec<usize>, Option<String>) {
    let error = |e: &str| FugueError::Backend(e.to_string());
    let first = before.map(error);
    let mut made = vec![];
    let mut step = first_attempt(errors.len(), first.clone());
    loop {
        step = match step {
            WalkStep::Try(i) => {
                made.push(i);
                let outcome = match errors[i] {
                    Some(e) => Err(error(e)),
                    None => Ok(()),
                };
                after_attempt(i, errors.len(), first.clone(), outcome)
            }
            WalkStep::Done => return (made, None),
            WalkStep::Failed(e) => return (made, Some(e.subsonic_message())),
        };
    }
}

#[test]
fn the_first_answer_is_taken() {
    assert_eq!(walk(&[None, None], None), (vec![0], None));
    assert_eq!(walk(&[Some("a"), None, None], None), (vec![0, 1], None));
    assert_eq!(walk(&[Some("a"), None], Some("own")), (vec![0, 1], None));
}

#[test]
fn failed_walks_give_an_error() {
    let last = Some("Backend error: b".to_string());
    assert_eq!(walk(&[Some("a"), Some("b")], None), (vec![0, 1], last));
    let own = Some("Backend error: own".to_string());
    assert_eq!(walk(&[Some("a"), Some("b")], Some("own")), (vec![0, 1], own.clone()));
    assert_eq!(walk(&[], Some("own")), (vec![], own));
    assert_eq!(walk(&[], None), (vec![], Some("All dedup sources failed".to_string())));
    let e = FugueError::Subsonic { code: 70, message: "gone".into() };
    assert_eq!(e.clone().subsonic_message(), "gone");
    assert!(matches!(FugueError::AuthFailed.clone(), FugueError::AuthFailed));
}
