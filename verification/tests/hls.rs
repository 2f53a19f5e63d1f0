use peerlink::hls::{
    access_granted, bind_address, get_client_ip, is_segment, local_url, playlist_content_type,
    playlist_verdict, request_name, segment_content_type, segment_file_name, segment_verdict,
    status_code, FileOutcome, Verdict, ViewerTable, PRUNE_INTERVAL_SECS, STREAM_PORT,
    VIEWER_TIMEOUT,
};

#[test]
fn access_needs_the_exact_code() {
    assert!(access_granted("ABC123", Some("ABC123"), None));
    assert!(access_granted("ABC123", None, Some("ABC123")));
    assert!(access_granted("ABC123", Some("ABC123"), Some("wrong")));
    assert!(!access_granted("ABC123", Some("wrong"), Some("ABC123")));
    assert!(!access_granted("ABC123", Some("abc123"), None));
    assert!(!access_granted("ABC123", None, None));
    assert!(!access_granted("ABC123", Some(""), None));
    assert!(access_granted("", Some(""), None));
}

#[test]
fn client_address_from_headers() {
    assert_eq!(get_client_ip(Some("203.0.113.7, 10.0.0.1"), Some("10.0.0.2")), "203.0.113.7");
    assert_eq!(get_client_ip(Some("  203.0.113.7  "), None), "203.0.113.7");
    assert_eq!(get_client_ip(Some(""), Some("10.0.0.2")), "");
    assert_eq!(get_client_ip(Some(",10.0.0.1"), None), "");
    assert_eq!(get_client_ip(None, Some("10.0.0.2")), "10.0.0.2");
    assert_eq!(get_client_ip(None, Some(" 10.0.0.2 ")), " 10.0.0.2 ");
    assert_eq!(get_client_ip(None, None), "unknown");
}

#[test]
fn request_names_and_segments() {
    assert_eq!(request_name("/segment_001.ts"), "segment_001.ts");
    assert_eq!(request_name("///a/b"), "a/b");
    assert_eq!(request_name("plain"), "plain");
    assert_eq!(request_name("/"), "");
    assert!(is_segment("segment_001.ts"));
    assert!(is_segment("segment_.ts"));
    assert!(is_segment("segment_/../x.ts"));
    assert!(!is_segment("segment_001.m3u8"));
    assert!(!is_segment("Segment_001.ts"));
    assert!(!is_segment("stream.m3u8"));
    assert!(!is_segment(".ts"));
    assert!(!is_segment(""));
    assert_eq!(segment_file_name("012.ts"), "segment_012.ts");
}

#[test]
fn verdicts() {
    assert_eq!(playlist_verdict("C", Some("C"), None), Verdict::Serve);
    assert_eq!(playlist_verdict("C", None, None), Verdict::Forbidden);
    assert_eq!(segment_verdict("segment_1.ts", "C", None, Some("C")), Verdict::Serve);
    assert_eq!(segment_verdict("segment_1.ts", "C", None, Some("D")), Verdict::Forbidden);
    assert_eq!(segment_verdict("secret.txt", "C", Some("C"), None), Verdict::NotFound);
    assert_eq!(segment_verdict("secret.txt", "C", None, None), Verdict::NotFound);
}

#[test]
fn statuses() {
    assert_eq!(status_code(Verdict::NotFound, FileOutcome::Read), 404);
    assert_eq!(status_code(Verdict::Forbidden, FileOutcome::Read), 403);
    assert_eq!(status_code(Verdict::Serve, FileOutcome::Read), 200);
    assert_eq!(status_code(Verdict::Serve, FileOutcome::Missing), 404);
    assert_eq!(status_code(Verdict::Serve, FileOutcome::Unreadable), 500);
}

#[test]
fn addresses_and_content_types() {
    assert_eq!(STREAM_PORT, 3000);
    assert_eq!(PRUNE_INTERVAL_SECS, 10);
    assert_eq!(local_url(STREAM_PORT), "http://localhost:3000");
    assert_eq!(local_url(0), "http://localhost:0");
    assert_eq!(bind_address(65535), "127.0.0.1:65535");
    assert_eq!(playlist_content_type(), "application/vnd.apple.mpegurl");
    assert_eq!(segment_content_type(), "video/mp2t");
}

#[test]
fn viewers_are_counted_once_per_address() {
    let mut t = ViewerTable::new();
    assert_eq!(t.count(), 0);
    assert_eq!(t.track("a".to_string(), 1), 1);
    assert_eq!(t.track("b".to_string(), 2), 2);
    assert_eq!(t.track("a".to_string(), 3), 2);
    assert_eq!(t.count(), 2);
}

#[test]
fn viewers_leave_after_thirty_seconds() {
    let second: u128 = 1_000_000_000;
    assert_eq!(VIEWER_TIMEOUT, 30 * second);
    let mut t = ViewerTable::new();
    t.track("old".to_string(), 0);
    t.track("edge".to_string(), 10 * second);
    t.track("fresh".to_string(), 25 * second);
    t.track("future".to_string(), 100 * second);
    // at 40 s: old is 40 s ago, edge 30 s ago (gone), fresh 15 s ago, future not yet
    assert_eq!(t.prune(40 * second), 3);
    assert_eq!(t.count(), 1);
    assert_eq!(t.track("fresh".to_string(), 41 * second), 1);
    assert_eq!(t.prune(40 * second + 30 * second - 1), 0);
    assert_eq!(t.prune(41 * second + 30 * second), 1);
    assert_eq!(t.count(), 0);
}

#[test]
fn viewer_seen_just_under_thirty_seconds_ago_stays() {
    let mut t = ViewerTable::new();
    t.track("v".to_string(), 5);
    assert_eq!(t.prune(5 + VIEWER_TIMEOUT - 1), 0);
    assert_eq!(t.prune(5 + VIEWER_TIMEOUT), 1);
}
