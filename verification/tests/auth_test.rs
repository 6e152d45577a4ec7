//! Tests of the API key authentication decision.

use generative_img_serving::{AuthDecision, AuthLayer};

#[test]
fn test_auth_layer_creation() {
    let layer = AuthLayer::new(vec!["test-key".to_string()]);
    assert!(layer.api_keys.contains(&"test-key".to_string()));
}

#[test]
fn test_auth_bearer_token() {
    let layer = AuthLayer::new(vec!["valid-key-1".to_string(), "valid-key-2".to_string()]);
    assert_eq!(layer.authorize("/test", Some("Bearer valid-key-1")), AuthDecision::Allow);
    assert_eq!(layer.authorize("/test", Some("valid-key-1")), AuthDecision::Allow);
    assert_eq!(layer.authorize("/test", Some("Bearer valid-key-2")), AuthDecision::Allow);
    assert_eq!(layer.authorize("/test", Some("Bearer invalid-key")), AuthDecision::InvalidKey);
    assert_eq!(layer.authorize("/test", None), AuthDecision::MissingKey);
}

#[test]
fn test_auth_health_and_metrics_bypass() {
    let layer = AuthLayer::new(vec!["valid-key".to_string()]);
    assert_eq!(layer.authorize("/health", None), AuthDecision::Allow);
    assert_eq!(layer.authorize("/metrics", None), AuthDecision::Allow);
    assert_eq!(layer.authorize("/test", None), AuthDecision::MissingKey);
}

#[test]
fn test_auth_empty_keys_allows_all() {
    let layer = AuthLayer::new(vec![]);
    assert_eq!(layer.authorize("/test", None), AuthDecision::Allow);
    assert_eq!(layer.authorize("/test", Some("anything")), AuthDecision::Allow);
}
