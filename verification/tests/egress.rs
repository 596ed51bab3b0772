use hl_capture::egress::{forbids_exchange_request, is_exchange_http_path, type_member_is_exchange, EgressError};
use hl_capture::info_rest::{archive_ref_for, checkpoint_file_name, default_info_request_url, InfoCaptureError};
use hl_capture::public_ws::{
    guard_ws_url, ws_archive_ref_for, ws_checkpoint_file_name, ws_plan_status_path, ws_request_hash, WsCaptureError,
};

#[test]
fn exchange_paths_are_recognised() {
    assert!(is_exchange_http_path("https://api.hyperliquid.xyz/exchange"));
    assert!(is_exchange_http_path("https://api.hyperliquid.xyz/exchange?x=1"));
    assert!(is_exchange_http_path("/exchange/order"));
    assert!(is_exchange_http_path("exchange"));
    assert!(!is_exchange_http_path("https://api.hyperliquid.xyz/info"));
    assert!(!is_exchange_http_path("https://api.hyperliquid.xyz/info?path=/exchange"));
}

#[test]
fn exchange_actions_in_bodies_are_forbidden() {
    assert!(type_member_is_exchange("order"));
    assert!(type_member_is_exchange("updateLeverage"));
    assert!(!type_member_is_exchange("l2Book"));
    let info = "https://api.hyperliquid.xyz/info";
    assert!(forbids_exchange_request("l2Book", br#"{"type":"order"}"#, info));
    assert!(forbids_exchange_request("exchange", b"{}", info));
    assert!(forbids_exchange_request("l2Book", b"{}", "https://api.hyperliquid.xyz/exchange"));
    assert!(!forbids_exchange_request("l2Book", br#"{"type":"l2Book","coin":"BTC"}"#, info));
    assert!(!forbids_exchange_request("l2Book", b"not json", info));
    assert!(!forbids_exchange_request("l2Book", br#"{"type":3}"#, info));
}

#[test]
fn egress_errors_have_stable_codes() {
    assert_eq!(EgressError::ExchangeForbidden.reason_code(), "capture_info.exchange_forbidden");
    assert_eq!(EgressError::HttpStatus(503).reason_code(), "capture_info.http_status");
    assert_eq!(EgressError::TlsRequired.reason_code(), "capture_info.tls_required");
}

#[test]
fn archive_references_name_the_body_digest() {
    let reference = archive_ref_for(b"abc");
    assert_eq!(reference, format!("info-{}", blake3::hash(b"abc").to_hex()));
    assert_ne!(archive_ref_for(b"abc"), archive_ref_for(b"abd"));
    let ws = ws_archive_ref_for(b"abc");
    assert_eq!(ws, format!("ws-{}", blake3::hash(b"abc").to_hex()));
}

#[test]
fn job_checkpoint_names_refuse_paths() {
    assert_eq!(checkpoint_file_name("job-1").expect("name"), "job-1.json");
    for bad in ["", "a/b", "a\\b", "..", "x..y"] {
        assert!(matches!(checkpoint_file_name(bad), Err(InfoCaptureError::Checkpoint)), "{bad}");
    }
    assert_eq!(default_info_request_url(), "https://api.hyperliquid.xyz/info");
}

#[test]
fn websocket_urls_must_be_official_and_encrypted() {
    assert_eq!(guard_ws_url("wss://api.hyperliquid.xyz/ws").expect("ok"), "wss://api.hyperliquid.xyz/ws");
    assert_eq!(guard_ws_url("wss://api.hyperliquid.xyz/ws/").expect("ok"), "wss://api.hyperliquid.xyz/ws");
    assert_eq!(guard_ws_url("wss://api.hyperliquid.xyz").expect("ok"), "wss://api.hyperliquid.xyz/ws");
    assert_eq!(
        guard_ws_url("wss://api.hyperliquid-testnet.xyz/ws").expect("ok"),
        "wss://api.hyperliquid-testnet.xyz/ws"
    );
    assert_eq!(guard_ws_url("ws://api.hyperliquid.xyz/ws"), Err(WsCaptureError::TlsRequired));
    assert_eq!(guard_ws_url("wss://evil.example/ws"), Err(WsCaptureError::HostNotAllowlisted));
    assert_eq!(guard_ws_url("wss://user@api.hyperliquid.xyz/ws"), Err(WsCaptureError::HostNotAllowlisted));
    assert_eq!(guard_ws_url("wss://api.hyperliquid.xyz/exchange"), Err(WsCaptureError::ExchangeForbidden));
    assert_eq!(WsCaptureError::TlsRequired.reason_code(), "capture_ws.tls_required");
}

#[test]
fn websocket_file_names_and_paths() {
    assert_eq!(ws_checkpoint_file_name(3), "ws-slot-3.json");
    assert_eq!(ws_checkpoint_file_name(255), "ws-slot-255.json");
    assert_eq!(ws_plan_status_path("/var/lib/capture/status.json"), "/var/lib/capture/ws-plan.json");
}

#[test]
fn request_hashes_identify_each_message() {
    let a = ws_request_hash([1; 32], 0, 1, 1_000);
    let b = ws_request_hash([1; 32], 0, 2, 1_000);
    let c = ws_request_hash([1; 32], 1, 1, 1_000);
    assert_ne!(a, b);
    assert_ne!(a, c);
    assert_eq!(a, ws_request_hash([1; 32], 0, 1, 1_000));
    let mut pre = b"hl.ws-request.v1\0".to_vec();
    pre.extend_from_slice(&[1; 32]);
    pre.push(0);
    pre.extend_from_slice(&1u64.to_be_bytes());
    pre.extend_from_slice(&1_000u64.to_be_bytes());
    assert_eq!(a, *blake3::hash(&pre).as_bytes());
}
