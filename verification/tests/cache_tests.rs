use std::io::Write;

use ghtodep::cache::{
    decode_frame, get_cache_path, is_cache_valid, read_from_cache, should_use_cached,
    write_to_cache, CachedResponse,
};
use ghtodep::error::AppError;

#[test]
fn test_cache_path_generation() {
    let url = "https://github.com/test/repo";
    let path = get_cache_path(url);

    // a digest plus the extension, and deterministic in the address
    assert_eq!(path.len(), 32 + ".json".len());
    assert!(path.ends_with(".json"));
    assert_eq!(path, get_cache_path(url));

    // different addresses map to different files
    let url2 = "https://github.com/test/repo2";
    let path2 = get_cache_path(url2);
    assert_ne!(path, path2);
}

#[test]
fn test_cache_write_read() {
    let test_content = "Test content";
    let bytes = write_to_cache(test_content, 1_700_000_000);
    let content = read_from_cache(&bytes).unwrap();
    assert_eq!(content, test_content);
}

#[test]
fn test_cache_validity() {
    // an entry that cannot be read is invalid
    assert!(!is_cache_valid(1_700_000_000, None));

    // an entry written now is valid
    assert!(is_cache_valid(1_700_000_000, Some(1_700_000_000)));

    // an entry from 25 hours ago is stale
    let now = 1_700_000_000;
    assert!(!is_cache_valid(now, Some(now - 25 * 3600)));

    // the window is 24 hours, exclusive at the edge
    assert!(is_cache_valid(now, Some(now - 24 * 3600 + 1)));
    assert!(!is_cache_valid(now, Some(now - 24 * 3600)));

    // a modification time in the future is invalid
    assert!(!is_cache_valid(now, Some(now + 10)));
}

#[test]
fn lookup_rule_needs_both_flag_and_freshness() {
    let now = 1_700_000_000;
    assert!(should_use_cached(true, now, Some(now)));
    assert!(!should_use_cached(false, now, Some(now)));
    assert!(!should_use_cached(true, now, None));
    assert!(!should_use_cached(true, now, Some(now - 25 * 3600)));
}

#[test]
fn round_trip_keeps_multibyte_text() {
    let text = "héllo wörld — 日本語 🎉 \n line two";
    let bytes = write_to_cache(text, u64::MAX);
    assert_eq!(read_from_cache(&bytes).unwrap(), text);
}

#[test]
fn unreadable_bytes_are_a_decode_error() {
    assert_eq!(read_from_cache(b"junk"), Err(AppError::Decode));
    assert_eq!(read_from_cache(&[]), Err(AppError::Decode));
}

#[test]
fn a_compressed_nonframe_is_a_decode_error() {
    // valid gzip, but no frame inside
    let mut enc = flate2::write::GzEncoder::new(Vec::new(), flate2::Compression::default());
    enc.write_all("no newline in sight".as_bytes()).unwrap();
    let bytes = enc.finish().unwrap();
    assert_eq!(read_from_cache(&bytes), Err(AppError::Decode));
}

#[test]
fn a_compressed_frame_from_elsewhere_reads_back() {
    // bytes produced by gzip directly, not by write_to_cache
    let mut enc = flate2::write::GzEncoder::new(Vec::new(), flate2::Compression::default());
    enc.write_all("123\nsome body".as_bytes()).unwrap();
    let bytes = enc.finish().unwrap();
    assert_eq!(read_from_cache(&bytes), Ok("some body".to_string()));
}

#[test]
fn frames_parse_exactly() {
    assert_eq!(
        decode_frame("12\nhello"),
        Some(CachedResponse {
            timestamp: 12,
            content: "hello".to_string()
        })
    );
    // the body may hold newlines of its own
    assert_eq!(
        decode_frame("0\na\nb"),
        Some(CachedResponse {
            timestamp: 0,
            content: "a\nb".to_string()
        })
    );
    // no newline, no digits, or a capture time too large: no frame
    assert_eq!(decode_frame("123"), None);
    assert_eq!(decode_frame("\nbody"), None);
    assert_eq!(decode_frame("12x\nbody"), None);
    assert_eq!(decode_frame("99999999999999999999999\nbody"), None);
    // the largest valid capture time still parses
    assert_eq!(
        decode_frame("18446744073709551615\nx"),
        Some(CachedResponse {
            timestamp: u64::MAX,
            content: "x".to_string()
        })
    );
}
