use base64::Engine;
use pocketbase_sdk::jwt::{get_token_payload, is_token_expired};
use pocketbase_sdk::refresh::{needs_refresh, reset_auto_refresh, AutoRefreshConfig, AutoRefreshState};

#[test]
fn test_get_token_payload_empty() {
    let payload = get_token_payload("");
    assert!(payload.exp.is_none());
}

#[test]
fn test_get_token_payload_invalid() {
    let payload = get_token_payload("invalid.token");
    assert!(payload.exp.is_none());
}

#[test]
fn test_is_token_expired_empty() {
    assert!(is_token_expired("", 0));
}

fn make_token(payload_json: &str) -> String {
    let engine = base64::engine::general_purpose::URL_SAFE_NO_PAD;
    let header = engine.encode(b"{\"alg\":\"HS256\",\"typ\":\"JWT\"}");
    let payload = engine.encode(payload_json.as_bytes());
    format!("{}.{}.signature", header, payload)
}

#[test]
fn test_get_token_payload_fields() {
    let token = make_token("{\"type\":\"auth\",\"exp\":9999999999,\"id\":\"rec1\",\"collectionId\":\"c1\"}");
    let payload = get_token_payload(&token);
    assert_eq!(payload.token_type.as_deref(), Some("auth"));
    assert_eq!(payload.exp, Some(9999999999));
    assert_eq!(payload.id.as_deref(), Some("rec1"));
    assert_eq!(payload.collection_id.as_deref(), Some("c1"));
}

#[test]
fn test_is_token_expired_future_and_past() {
    let future = make_token("{\"exp\":9999999999,\"id\":\"x\"}");
    assert!(!is_token_expired(&future, 0));
    let past = make_token("{\"exp\":1000,\"id\":\"x\"}");
    assert!(is_token_expired(&past, 0));
}

#[test]
fn test_token_without_exp_never_expires() {
    let token = make_token("{\"id\":\"x\",\"type\":\"auth\"}");
    assert!(!is_token_expired(&token, 0));
}

#[test]
fn test_needs_refresh_empty_token() {
    assert!(!needs_refresh("", 300));
}

#[test]
fn test_needs_refresh_soon_to_expire() {
    let now = std::time::SystemTime::now()
        .duration_since(std::time::UNIX_EPOCH)
        .unwrap()
        .as_secs();
    let soon = format!("{{\"exp\":{},\"id\":\"x\"}}", now + 100);
    let token = make_token(&soon);
    assert!(needs_refresh(&token, 300));
    assert!(!needs_refresh(&token, 10));
}

#[test]
fn test_reset_auto_refresh() {
    let mut state = AutoRefreshState {
        original_model_id: Some("test".to_string()),
        original_collection_id: Some("users".to_string()),
        is_active: true,
    };
    reset_auto_refresh(&mut state);
    assert!(!state.is_active);
    assert!(state.original_model_id.is_none());
    assert!(state.original_collection_id.is_none());
}

#[test]
fn test_auto_refresh_state_default() {
    let state = AutoRefreshState::default();
    assert!(!state.is_active);
    assert!(state.original_model_id.is_none());
    assert!(state.original_collection_id.is_none());
}

#[test]
fn test_auto_refresh_config_default() {
    let config = AutoRefreshConfig::default();
    assert_eq!(config.threshold, 300);
}
