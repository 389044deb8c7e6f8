use failover_proxy::headers::{
    bounded_header_value, format_headers, is_safe_diagnostic_header,
    strip_entity_headers_for_rebuilt_body, strip_hop_by_hop_response_headers,
};
use http::header::{HeaderMap, HeaderName, HeaderValue};

#[test]
fn format_headers_keeps_only_allowlisted_diagnostic_values() {
    let mut headers = HeaderMap::new();
    headers.insert("authorization", "Bearer super-secret".parse().unwrap());
    headers.insert("set-cookie", "session=cookie-secret".parse().unwrap());
    headers.insert("retry-after", "30".parse().unwrap());
    headers.insert("x-ratelimit-remaining", "2".parse().unwrap());
    headers.insert("cf-ray", "abc123-SJC".parse().unwrap());

    let formatted = format_headers(&headers);
    assert!(formatted.contains("authorization"), "{formatted}");
    assert!(formatted.contains("set-cookie"), "{formatted}");
    assert!(formatted.contains("retry-after=30"), "{formatted}");
    assert!(formatted.contains("x-ratelimit-remaining=2"), "{formatted}");
    assert!(formatted.contains("cf-ray=abc123-SJC"), "{formatted}");
    assert!(!formatted.contains("super-secret"), "{formatted}");
    assert!(!formatted.contains("cookie-secret"), "{formatted}");
    assert_eq!(
        formatted,
        "[authorization, cf-ray=abc123-SJC, retry-after=30, set-cookie, x-ratelimit-remaining=2]"
    );
}

#[test]
fn test_strip_hop_by_hop_response_headers_removes_standard_headers() {
    let mut headers = HeaderMap::new();
    headers.insert(
        http::header::CONNECTION,
        HeaderValue::from_static("keep-alive"),
    );
    headers.insert(
        HeaderName::from_static("keep-alive"),
        HeaderValue::from_static("timeout=5"),
    );
    headers.insert(
        http::header::TRANSFER_ENCODING,
        HeaderValue::from_static("chunked"),
    );
    headers.insert(
        HeaderName::from_static("proxy-connection"),
        HeaderValue::from_static("keep-alive"),
    );
    headers.insert(
        http::header::CONTENT_TYPE,
        HeaderValue::from_static("application/json"),
    );
    headers.insert(
        http::header::CONTENT_LENGTH,
        HeaderValue::from_static("12"),
    );

    strip_hop_by_hop_response_headers(&mut headers);

    assert!(!headers.contains_key(http::header::CONNECTION));
    assert!(!headers.contains_key("keep-alive"));
    assert!(!headers.contains_key(http::header::TRANSFER_ENCODING));
    assert!(!headers.contains_key("proxy-connection"));
    assert_eq!(
        headers.get(http::header::CONTENT_TYPE),
        Some(&HeaderValue::from_static("application/json"))
    );
    assert_eq!(
        headers.get(http::header::CONTENT_LENGTH),
        Some(&HeaderValue::from_static("12"))
    );
}

#[test]
fn test_strip_hop_by_hop_response_headers_removes_connection_listed_extensions() {
    let mut headers = HeaderMap::new();
    headers.append(
        http::header::CONNECTION,
        HeaderValue::from_static("x-trace-hop, x-debug-hop"),
    );
    headers.append(
        http::header::CONNECTION,
        HeaderValue::from_static("upgrade"),
    );
    headers.insert(
        HeaderName::from_static("x-trace-hop"),
        HeaderValue::from_static("trace"),
    );
    headers.insert(
        HeaderName::from_static("x-debug-hop"),
        HeaderValue::from_static("debug"),
    );
    headers.insert(
        http::header::UPGRADE,
        HeaderValue::from_static("websocket"),
    );
    headers.insert(
        http::header::CONTENT_TYPE,
        HeaderValue::from_static("text/event-stream"),
    );

    strip_hop_by_hop_response_headers(&mut headers);

    assert!(!headers.contains_key(http::header::CONNECTION));
    assert!(!headers.contains_key("x-trace-hop"));
    assert!(!headers.contains_key("x-debug-hop"));
    assert!(!headers.contains_key(http::header::UPGRADE));
    assert_eq!(
        headers.get(http::header::CONTENT_TYPE),
        Some(&HeaderValue::from_static("text/event-stream"))
    );
}

#[test]
fn a_connection_header_lists_names_in_any_case_and_skips_what_is_no_name() {
    let mut headers = HeaderMap::new();
    headers.append("connection", HeaderValue::from_static(" X-Trace-Hop ,, a b ,x_y"));
    headers.append("connection", HeaderValue::from_bytes(b"x-kept\xff").unwrap());
    for name in ["x-trace-hop", "x_y", "x-kept", "a"] {
        headers.append(HeaderName::from_static(name), HeaderValue::from_static("1"));
        headers.append(HeaderName::from_static(name), HeaderValue::from_static("2"));
    }
    strip_hop_by_hop_response_headers(&mut headers);
    assert!(!headers.contains_key("x-trace-hop"));
    assert!(!headers.contains_key("x_y"));
    assert_eq!(headers.get_all("x-kept").iter().count(), 2);
    assert_eq!(headers.get_all("a").iter().count(), 2);
    let before = headers.clone();
    strip_hop_by_hop_response_headers(&mut headers);
    assert_eq!(headers, before);
}

#[test]
fn a_decoded_body_loses_the_headers_of_its_encoding() {
    let mut headers = HeaderMap::new();
    for name in [
        "content-encoding",
        "content-length",
        "transfer-encoding",
        "content-type",
    ] {
        headers.insert(HeaderName::from_static(name), HeaderValue::from_static("x"));
    }
    strip_entity_headers_for_rebuilt_body(&mut headers);
    assert_eq!(headers.len(), 1);
    assert!(headers.contains_key("content-type"));
}

#[test]
fn long_and_repeated_values_are_shown_in_short() {
    assert_eq!(bounded_header_value(&"é".repeat(160)), "é".repeat(160));
    assert_eq!(
        bounded_header_value(&"é".repeat(161)),
        format!("{}…", "é".repeat(160))
    );
    let mut headers = HeaderMap::new();
    headers.append("request-id", HeaderValue::from_static("one"));
    headers.append("request-id", HeaderValue::from_bytes(b"\xff").unwrap());
    headers.append("request-id", HeaderValue::from_static("two"));
    headers.append("cf-ray", HeaderValue::from_bytes(b"\xff").unwrap());
    assert_eq!(format_headers(&headers), "[cf-ray, request-id=one|two]");
    assert_eq!(format_headers(&HeaderMap::new()), "[]");
}

#[test]
fn safe_names_are_exact_or_of_a_rate_limit() {
    for name in [
        "content-type",
        "content-encoding",
        "content-length",
        "retry-after",
        "cf-ray",
        "x-request-id",
        "request-id",
        "x-correlation-id",
        "x-ratelimit-limit",
        "ratelimit-reset",
    ] {
        assert!(is_safe_diagnostic_header(name), "{name}");
    }
    for name in ["authorization", "x-ratelimit", "cookie", "my-request-id", ""] {
        assert!(!is_safe_diagnostic_header(name), "{name}");
    }
}

#[test]
fn the_order_of_insertion_does_not_show() {
    let mut one = HeaderMap::new();
    one.insert("x-request-id", "7".parse().unwrap());
    one.insert("server", "secret".parse().unwrap());
    let mut other = HeaderMap::new();
    other.insert("server", "secret".parse().unwrap());
    other.insert("x-request-id", "7".parse().unwrap());
    assert_eq!(format_headers(&one), "[server, x-request-id=7]");
    assert_eq!(format_headers(&other), format_headers(&one));
}

#[test]
fn stripping_twice_is_stripping_once() {
    let mut headers = HeaderMap::new();
    headers.insert("connection", "x-hop".parse().unwrap());
    headers.insert("x-hop", "1".parse().unwrap());
    headers.insert("x-end", "2".parse().unwrap());
    strip_hop_by_hop_response_headers(&mut headers);
    let once = headers.clone();
    strip_hop_by_hop_response_headers(&mut headers);
    assert_eq!(headers, once);
    assert_eq!(headers.len(), 1);
    assert!(headers.contains_key("x-end"));
}

#[test]
fn a_name_that_no_lookup_by_text_finds_shows_its_value() {
    let mut headers = HeaderMap::new();
    let name = HeaderName::from_lowercase(b"x-ratelimit-\"a").unwrap();
    headers.insert(name, HeaderValue::from_static("5"));
    assert_eq!(format_headers(&headers), "[x-ratelimit-\"a=5]");
}
