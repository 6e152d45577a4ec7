//! Tests of the backend model: endpoint health, internal round-robin,
//! the HTTP driver's per-attempt decisions and response merging.

use generative_img_serving::{
    merge_api_response, status_is_success, ApiGenerateResponse, ApiImageData, AppError, Backend,
    BackendConfig, BackendEndpoint, HttpAttemptOutcome, HttpStep, Protocol,
};

fn api_image(b64: Option<&str>, base64: Option<&str>) -> ApiImageData {
    ApiImageData {
        b64_json: b64.map(|s| s.to_string()),
        base64: base64.map(|s| s.to_string()),
        url: None,
        revised_prompt: None,
        seed: None,
    }
}

fn backend(urls: &[&str]) -> Backend {
    let config = BackendConfig {
        name: "alpha".to_string(),
        protocol: "http".to_string(),
        endpoints: urls.iter().map(|u| u.to_string()).collect(),
        health_check_path: "/health".to_string(),
        health_check_interval_secs: 30,
        timeout_ms: 60000,
        weight: 1,
        enabled: true,
    };
    Backend::from_config(&config, Protocol::Http)
}

#[test]
fn test_endpoint_threshold() {
    let mut e = BackendEndpoint::new("http://one".to_string());
    assert!(e.healthy);
    e.mark_unhealthy(1);
    e.mark_unhealthy(2);
    assert!(e.healthy);
    e.mark_unhealthy(3);
    assert!(!e.healthy);
    assert_eq!(e.consecutive_failures, 3);
    e.mark_healthy(4);
    assert!(e.healthy);
    assert_eq!(e.consecutive_failures, 0);
    assert_eq!(e.last_check, Some(4));
}

#[test]
fn test_backend_round_robin_skips_unhealthy() {
    let mut b = backend(&["http://a", "http://b", "http://c"]);
    for now in 1..=3u64 {
        b.mark_endpoint_unhealthy(1, now);
    }
    let mut seen = Vec::new();
    for _ in 0..4 {
        seen.push(b.next_healthy_index().unwrap());
    }
    assert!(!seen.contains(&1));
    assert!(seen.contains(&0));
    assert!(seen.contains(&2));
}

#[test]
fn test_data_path_demotion() {
    // Three consecutive connect errors on the data path demote the
    // endpoint without any probe cycle; the next generate call finds
    // no healthy endpoint and the caller fails over.
    let mut b = backend(&["http://only"]);
    for now in 1..=3u64 {
        let index = b.begin_generate().unwrap();
        let step = b.on_attempt(
            index,
            HttpAttemptOutcome::Transport(format!("connect refused at {}", now)),
            now,
        );
        assert!(matches!(step, HttpStep::Abort(AppError::TransportFailed(_))));
    }
    let fourth = b.begin_generate();
    assert!(matches!(fourth, Err(AppError::NoHealthyBackends(_))));
}

#[test]
fn test_attempt_outcomes() {
    let mut b = backend(&["http://only"]);
    let index = b.begin_generate().unwrap();
    let retry = b.on_attempt(index, HttpAttemptOutcome::Failure("500: boom".to_string()), 1);
    assert!(matches!(retry, HttpStep::Retry(AppError::BackendError(_))));
    let retry = b.on_attempt(index, HttpAttemptOutcome::Unparseable("bad json".to_string()), 2);
    assert!(matches!(retry, HttpStep::Retry(AppError::BackendError(_))));
    let api = ApiGenerateResponse {
        images: vec![api_image(Some("payload"), None)],
        data: vec![],
        model: Some("m".to_string()),
    };
    let done = b.on_attempt(index, HttpAttemptOutcome::Success(api), 3);
    match done {
        HttpStep::Done(resp) => {
            assert_eq!(resp.images.len(), 1);
            assert_eq!(resp.images[0].b64_json.as_deref(), Some("payload"));
        },
        _ => panic!("expected a completed response"),
    }
    assert!(b.endpoints[0].healthy);
    assert_eq!(b.endpoints[0].consecutive_failures, 0);
}

#[test]
fn test_finish_generate_failed() {
    let mut b = backend(&["http://only"]);
    let e = b.finish_generate_failed(0, Some(AppError::BackendError("last".to_string())), 1);
    assert_eq!(e, AppError::BackendError("last".to_string()));
    let e = b.finish_generate_failed(0, None, 2);
    assert!(matches!(e, AppError::BackendError(_)));
    assert_eq!(b.endpoints[0].consecutive_failures, 2);
}

#[test]
fn test_candidate_urls() {
    let b = backend(&["http://host:9"]);
    let urls = b.candidate_urls(0);
    assert_eq!(
        urls,
        vec![
            "http://host:9/v1/images/generations".to_string(),
            "http://host:9/generate".to_string(),
            "http://host:9/api/generate".to_string(),
            "http://host:9/sdapi/v1/txt2img".to_string(),
        ]
    );
    assert_eq!(b.probe_url(0), "http://host:9/health");
}

#[test]
fn test_merge_api_response() {
    // `images` come before `data`, and `b64_json` wins over `base64`.
    let api = ApiGenerateResponse {
        images: vec![api_image(Some("one"), Some("shadowed"))],
        data: vec![api_image(None, Some("two")), api_image(None, None)],
        model: Some("m".to_string()),
    };
    let merged = merge_api_response(api);
    assert_eq!(merged.images.len(), 3);
    assert_eq!(merged.images[0].b64_json.as_deref(), Some("one"));
    assert_eq!(merged.images[1].b64_json.as_deref(), Some("two"));
    assert_eq!(merged.images[2].b64_json, None);
    assert_eq!(merged.model.as_deref(), Some("m"));
}

#[test]
fn test_record_probe_results() {
    let mut b = backend(&["http://a", "http://b"]);
    let any = b.record_probe_results(&vec![false, true], 5);
    assert!(any);
    assert_eq!(b.endpoints[0].consecutive_failures, 1);
    assert!(b.endpoints[0].healthy);
    assert!(b.endpoints[1].healthy);
    let none = b.record_probe_results(&vec![false, false], 6);
    assert!(!none);
}

#[test]
fn test_status_is_success() {
    assert!(status_is_success(200));
    assert!(status_is_success(299));
    assert!(!status_is_success(199));
    assert!(!status_is_success(300));
    assert!(!status_is_success(500));
}

#[test]
fn test_backend_status() {
    let b = backend(&["http://a"]);
    let status = b.status();
    assert_eq!(status.name, "alpha");
    assert_eq!(status.protocol, "http");
    assert_eq!(status.endpoints, vec!["http://a".to_string()]);
    assert!(status.healthy);
    assert_eq!(status.weight, 1);
    assert!(status.enabled);
}
