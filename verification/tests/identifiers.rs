use fugue::error::FugueError;
use fugue::id::{decode_dedup_id, decode_id, encode_dedup_id, encode_id, is_dedup_id};
use fugue::proxy::router::route_to_backend;

#[test]
fn test_roundtrip() {
    let encoded = encode_id(2, "abc123");
    let (idx, original) = decode_id(&encoded).unwrap();
    assert_eq!(idx, 2);
    assert_eq!(original, "abc123");
}

#[test]
fn test_dedup_id() {
    let encoded = encode_dedup_id("sha256hash");
    assert!(is_dedup_id(&encoded));
    let hash = decode_dedup_id(&encoded).unwrap();
    assert_eq!(hash, "sha256hash");
}

#[test]
fn test_regular_id_not_dedup() {
    let encoded = encode_id(0, "song1");
    assert!(!is_dedup_id(&encoded));
}

#[test]
fn ids_are_unpadded_base64url() {
    assert_eq!(encode_id(0, "song1"), "MDpzb25nMQ");
    assert_eq!(encode_id(12, "a:b"), "MTI6YTpi");
    assert_eq!(encode_dedup_id("x"), "ZDp4");
}

#[test]
fn a_colon_in_the_original_id_survives() {
    let (idx, original) = decode_id(&encode_id(3, "al:12:x")).unwrap();
    assert_eq!((idx, original.as_str()), (3, "al:12:x"));
}

#[test]
fn non_ascii_ids_survive() {
    let (idx, original) = decode_id(&encode_id(1, "žluťoučký")).unwrap();
    assert_eq!((idx, original.as_str()), (1, "žluťoučký"));
}

fn text_of(e: FugueError) -> String {
    e.to_text()
}

#[test]
fn bad_base64_is_an_error() {
    let e = text_of(decode_id("not base64!").unwrap_err());
    assert!(e.contains("Invalid ID encoding: "), "{}", e);
}

#[test]
fn bad_utf8_is_an_error() {
    // "_w" decodes to the single byte 255.
    let e = text_of(decode_id("_w").unwrap_err());
    assert!(e.contains("Invalid ID UTF-8: "), "{}", e);
}

#[test]
fn id_without_colon_is_an_error() {
    // "YWJj" is "abc".
    assert!(decode_id("YWJj").is_err());
}

#[test]
fn id_without_number_is_an_error() {
    // "eDp5" is "x:y".
    assert!(decode_id("eDp5").is_err());
}

#[test]
fn dedup_id_of_a_backend_item_is_an_error() {
    assert!(decode_dedup_id(&encode_id(0, "x")).is_err());
    assert!(decode_dedup_id("%%%").is_err());
}

#[test]
fn routes_lead_back() {
    let (idx, original) = route_to_backend(3, &encode_id(2, "song")).unwrap();
    assert_eq!((idx, original.as_str()), (2, "song"));
}

#[test]
fn route_out_of_range_is_an_error() {
    let e = text_of(route_to_backend(2, &encode_id(2, "song")).unwrap_err());
    assert!(e.contains("Backend index 2 out of range"), "{}", e);
}
