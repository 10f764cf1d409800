use fugue::social::bandwidth::{
    is_stale_at, select_quality, throughput_kbps, BandwidthTracker,
};

#[test]
fn test_auto_quality_slow() {
    let (br, fmt) = select_quality(100, 0, "raw", 0, "auto");
    assert_eq!(br, Some(128));
    assert_eq!(fmt, Some("mp3".into()));
}

#[test]
fn test_auto_quality_fast() {
    let (br, fmt) = select_quality(2000, 0, "raw", 0, "auto");
    assert_eq!(br, None);
    assert_eq!(fmt, None);
}

#[test]
fn test_sender_cap() {
    let (br, fmt) = select_quality(2000, 320, "mp3", 0, "auto");
    assert_eq!(br, Some(320));
    assert_eq!(fmt, Some("mp3".into()));
}

#[test]
fn test_receiver_fixed() {
    let (br, fmt) = select_quality(2000, 0, "raw", 192, "mp3");
    assert_eq!(br, Some(192));
    assert_eq!(fmt, Some("mp3".into()));
}

#[test]
fn test_sender_cap_limits_receiver() {
    let (br, fmt) = select_quality(2000, 128, "mp3", 320, "mp3");
    assert_eq!(br, Some(128));
    assert_eq!(fmt, Some("mp3".into()));
}

#[test]
fn unknown_peers_get_the_default() {
    let t = BandwidthTracker::new();
    assert!(t.get("nobody").is_none());
    assert_eq!(t.effective_kbps("nobody"), 192);
}

#[test]
fn throughput_is_bits_per_millisecond() {
    // A million bytes in one second.
    assert_eq!(throughput_kbps(1_000_000, 1_000_000_000), 8000);
    assert_eq!(throughput_kbps(0, 1), 0);
}

#[test]
fn measurements_are_remembered() {
    let mut t = BandwidthTracker::new();
    t.update_from_probe("n", 500);
    assert_eq!(t.get("n").unwrap().kbps, 500);
    assert_eq!(t.effective_kbps("n"), 500);
    assert!(!t.is_stale("n"));
    assert!(t.is_stale("other"));
    t.update_from_stream("m", 1_000_000, std::time::Duration::from_secs(1));
    assert_eq!(t.get("m").unwrap().kbps, 8000);
    t.update_from_stream("k", 1_000_000, std::time::Duration::from_micros(10));
    assert!(t.get("k").is_none());
}

#[test]
fn measurements_are_stale_after_an_hour() {
    assert!(is_stale_at(None));
    assert!(!is_stale_at(Some(0)));
    assert!(!is_stale_at(Some(3599)));
    assert!(is_stale_at(Some(3600)));
}

#[test]
fn samples_are_counted_for_each_peer() {
    let second = std::time::Duration::from_secs(1);
    let mut t = BandwidthTracker::new();
    t.update_from_probe("n", 500);
    t.update_from_stream("n", 1_000_000, second);
    t.update_from_stream("n", 1_000_000, std::time::Duration::from_micros(999));
    t.update_from_probe("m", 9);
    assert_eq!(t.get("n").unwrap().sample_count, 2);
    assert_eq!(t.get("n").unwrap().kbps, 2750);
    assert_eq!(t.get("m").unwrap().sample_count, 1);
    t.update_from_probe("n", 600);
    assert_eq!(t.get("n").unwrap().kbps, 600);
    assert_eq!(t.get("n").unwrap().sample_count, 3);
    assert_eq!(t.get("m").unwrap().kbps, 9);
    assert!(!t.is_stale("n"));
}
