use hl_capture::egress::EgressError;
use hl_capture::info_rest::{parse_http_response, split_https_host_path};

#[test]
fn host_path_splits_official_info() {
    let (host, path) = split_https_host_path("https://api.hyperliquid.xyz/info").expect("url");
    assert_eq!(host, "api.hyperliquid.xyz");
    assert_eq!(path, "/info");
}

#[test]
fn compressed_body_is_rejected() {
    let raw = b"HTTP/1.1 200 OK\r\nContent-Encoding: gzip\r\nContent-Length: 1\r\n\r\nx";
    let error = parse_http_response(raw, 1024).expect_err("gzip");
    assert!(matches!(error, EgressError::CompressedBody));
}

#[test]
fn chunked_body_is_rejected() {
    let raw = b"HTTP/1.1 200 OK\r\nTransfer-Encoding: chunked\r\n\r\n1\r\nx\r\n0\r\n\r\n";
    let error = parse_http_response(raw, 1024).expect_err("chunked");
    assert!(matches!(error, EgressError::CompressedBody));
}

#[test]
fn oversized_body_is_rejected() {
    let raw = b"HTTP/1.1 200 OK\r\nContent-Length: 32\r\n\r\nxxxxxxxx";
    let error = parse_http_response(raw, 4).expect_err("limit");
    assert!(matches!(error, EgressError::BodyTooLarge));
}
