use kuriume::server::parse_range;

#[test]
fn test_parse_range_full() {
    assert_eq!(parse_range("bytes=0-499", 1000), Some((0, 499)));
}

#[test]
fn test_parse_range_open_end() {
    assert_eq!(parse_range("bytes=500-", 1000), Some((500, 999)));
}

#[test]
fn test_parse_range_suffix() {
    assert_eq!(parse_range("bytes=-200", 1000), Some((800, 999)));
}

#[test]
fn test_parse_range_invalid() {
    assert_eq!(parse_range("bytes=1000-", 1000), None);
    assert_eq!(parse_range("bytes=500-200", 1000), None);
    assert_eq!(parse_range("invalid", 1000), None);
}

#[test]
fn test_parse_range_clamp() {
    // end > total should be clamped
    assert_eq!(parse_range("bytes=0-9999", 1000), Some((0, 999)));
}
