use archive_list::headers::{detect_rate_limits, has_rate_limit_headers, normalize_header_name};

fn make_headers(pairs: &[(&str, &str)]) -> Vec<(Vec<u8>, Vec<u8>)> {
    pairs
        .iter()
        .map(|(k, v)| (k.as_bytes().to_vec(), v.as_bytes().to_vec()))
        .collect()
}

const NOW: i64 = 1_700_000_000;

#[test]
fn test_github_style_headers() {
    let headers = make_headers(&[
        ("x-ratelimit-remaining", "4999"),
        ("x-ratelimit-limit", "5000"),
        ("x-ratelimit-reset", "1704067200"),
    ]);

    let info = detect_rate_limits(&headers, NOW);
    assert_eq!(info.remaining, 4999);
    assert_eq!(info.limit, 5000);
    assert!(info.reset_at.is_some());
    assert_eq!(info.reset_at, Some(1704067200));
}

#[test]
fn test_gitlab_style_headers() {
    let headers = make_headers(&[
        ("ratelimit-remaining", "1999"),
        ("ratelimit-limit", "2000"),
        ("ratelimit-reset", "1704067200"),
    ]);

    let info = detect_rate_limits(&headers, NOW);
    assert_eq!(info.remaining, 1999);
    assert_eq!(info.limit, 2000);
}

#[test]
fn test_no_headers_uses_defaults() {
    let headers: Vec<(Vec<u8>, Vec<u8>)> = Vec::new();
    let info = detect_rate_limits(&headers, NOW);

    assert_eq!(info.remaining, 60);
    assert_eq!(info.limit, 60);
    assert!(info.reset_at.is_none());
}

#[test]
fn test_retry_after_seconds() {
    let headers = make_headers(&[("retry-after", "60")]);
    let info = detect_rate_limits(&headers, NOW);

    // retry-after as remaining means we're at 0
    assert_eq!(info.remaining, 60);  // Actually parses as remaining
    assert!(info.reset_at.is_some());
    assert_eq!(info.reset_at, Some(NOW + 60));
}

#[test]
fn test_case_insensitive() {
    let headers = make_headers(&[
        ("X-RateLimit-Remaining", "100"),
        ("X-RATELIMIT-LIMIT", "200"),
    ]);

    let info = detect_rate_limits(&headers, NOW);
    assert_eq!(info.remaining, 100);
    assert_eq!(info.limit, 200);
}

#[test]
fn test_reset_rfc3339() {
    let headers = make_headers(&[("x-ratelimit-reset", "2024-01-01T00:00:00+00:00")]);
    let info = detect_rate_limits(&headers, NOW);
    assert_eq!(info.reset_at, Some(1704067200));
}

#[test]
fn test_reset_http_date() {
    let headers = make_headers(&[("x-ratelimit-reset", "Mon, 01 Jan 2024 00:00:00 +0000")]);
    let info = detect_rate_limits(&headers, NOW);
    assert_eq!(info.reset_at, Some(1704067200));
}

#[test]
fn test_has_rate_limit_headers() {
    let with = make_headers(&[("x-ratelimit-remaining", "1")]);
    let without = make_headers(&[("content-type", "text/html")]);
    assert!(has_rate_limit_headers(&with));
    assert!(!has_rate_limit_headers(&without));
}

#[test]
fn test_normalize_header_name() {
    assert_eq!(
        normalize_header_name(b"X-RateLimit-Remaining"),
        b"ratelimit_remaining".to_vec()
    );
    assert_eq!(
        normalize_header_name(b"ratelimit-remaining"),
        b"ratelimit_remaining".to_vec()
    );
    assert_eq!(normalize_header_name(b"Retry-After"), b"retry_after".to_vec());
}
