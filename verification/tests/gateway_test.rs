//! Tests of the gateway components: registry, health monitoring, load
//! balancing and routing.

use generative_img_serving::{
    gcd, AppError, BackendConfig, BackendRegistry, HealthCheckManager, LoadBalancer,
    LoadBalancingStrategy, Router, RouterConfig, Settings,
};

fn config(name: &str, weight: u32) -> BackendConfig {
    BackendConfig {
        name: name.to_string(),
        protocol: "http".to_string(),
        endpoints: vec![format!("http://{}:8000", name)],
        health_check_path: "/health".to_string(),
        health_check_interval_secs: 30,
        timeout_ms: 60000,
        weight,
        enabled: true,
    }
}

fn two_backend_registry() -> BackendRegistry {
    let mut registry = BackendRegistry::new();
    registry.initialize_from_config(&vec![config("alpha", 1), config("beta", 1)]).unwrap();
    registry
}

#[test]
fn test_gcd() {
    assert_eq!(gcd(12, 8), 4);
    assert_eq!(gcd(100, 25), 25);
    assert_eq!(gcd(7, 3), 1);
}

#[test]
fn test_registry_lookup_and_remove() {
    let mut registry = two_backend_registry();
    assert!(registry.get("alpha").is_some());
    assert!(registry.get("gamma").is_none());
    assert_eq!(registry.get_all().len(), 2);
    registry.remove("alpha");
    assert!(registry.get("alpha").is_none());
    assert_eq!(registry.get_all().len(), 1);
}

#[test]
fn test_registry_rejects_duplicates() {
    let mut registry = BackendRegistry::new();
    let result = registry.initialize_from_config(&vec![config("same", 1), config("same", 2)]);
    assert!(matches!(result, Err(AppError::Config(_))));
    assert_eq!(registry.get_all().len(), 0);
}

#[test]
fn test_registry_rejects_bad_protocol() {
    let mut registry = BackendRegistry::new();
    let mut bad = config("x", 1);
    bad.protocol = "carrier-pigeon".to_string();
    assert!(matches!(registry.initialize_from_config(&vec![bad]), Err(AppError::Config(_))));
}

#[test]
fn test_health_monitor_thresholds() {
    // Failover on probe: three failed probes demote a backend, and it
    // recovers only after two consecutive successes.
    let mut health = HealthCheckManager::new();
    assert!(health.is_healthy("alpha"));
    health.record_probe("alpha", false, 1);
    health.record_probe("alpha", false, 2);
    assert!(health.is_healthy("alpha"));
    health.record_probe("alpha", false, 3);
    assert!(!health.is_healthy("alpha"));
    health.record_probe("alpha", true, 4);
    assert!(!health.is_healthy("alpha"));
    health.record_probe("alpha", true, 5);
    assert!(health.is_healthy("alpha"));
    let status = health.get_status("alpha").unwrap();
    assert_eq!(status.consecutive_successes, 2);
    assert_eq!(status.consecutive_failures, 0);
}

#[test]
fn test_failover_on_probe() {
    // With alpha demoted by three failed probes, every selection goes
    // to beta until alpha recovers.
    let registry = two_backend_registry();
    let mut health = HealthCheckManager::new();
    for t in 0..3u64 {
        health.record_probe("alpha", false, t);
    }
    let mut lb = LoadBalancer::new();
    for k in 0..6u64 {
        let picked = lb.select_backend(&registry, &health, None, k).unwrap();
        assert_eq!(registry.get_all()[picked].name(), "beta");
    }
    health.record_probe("alpha", true, 10);
    health.record_probe("alpha", true, 11);
    let mut saw_alpha = false;
    for k in 0..4u64 {
        let picked = lb.select_backend(&registry, &health, None, k).unwrap();
        if registry.get_all()[picked].name() == "alpha" {
            saw_alpha = true;
        }
    }
    assert!(saw_alpha);
}

#[test]
fn test_force_probe_idempotent_on_health() {
    let mut health = HealthCheckManager::new();
    health.check_now("alpha", false, 1);
    let first = health.get_status("alpha").unwrap();
    health.check_now("alpha", false, 2);
    let second = health.get_status("alpha").unwrap();
    assert_eq!(first.healthy, second.healthy);
    assert_eq!(second.consecutive_failures, first.consecutive_failures + 1);
}

#[test]
fn test_health_event_counters() {
    // Each health event moves exactly one streak counter up by one and
    // resets the other.
    let mut health = HealthCheckManager::new();
    health.record_probe("a", true, 1);
    health.record_probe("a", true, 2);
    let s = health.get_status("a").unwrap();
    assert_eq!((s.consecutive_failures, s.consecutive_successes), (0, 2));
    health.record_probe("a", false, 3);
    let s = health.get_status("a").unwrap();
    assert_eq!((s.consecutive_failures, s.consecutive_successes), (1, 0));
}

#[test]
fn test_health_summary_and_unhealthy_list() {
    let registry = two_backend_registry();
    let mut health = HealthCheckManager::new();
    for t in 0..3u64 {
        health.record_probe("alpha", false, t);
    }
    health.record_probe("beta", true, 0);
    let (total, healthy, unhealthy) = health.get_health_summary(&registry);
    assert_eq!((total, healthy, unhealthy), (2, 1, 1));
    let names = health.get_unhealthy_backends();
    assert_eq!(names, vec!["alpha".to_string()]);
}

#[test]
fn test_round_robin_fairness() {
    // Two healthy backends of equal weight: ten requests split five
    // and five.
    let registry = two_backend_registry();
    let health = HealthCheckManager::new();
    let mut lb = LoadBalancer::new();
    let mut counts = [0usize; 2];
    for k in 0..10u64 {
        let picked = lb.select_backend(&registry, &health, None, k).unwrap();
        counts[picked] += 1;
    }
    assert_eq!(counts[0], 5);
    assert_eq!(counts[1], 5);
}

#[test]
fn test_weighted_distribution() {
    // Weights 3 and 1: of 400 requests, about 300 go to the heavy
    // backend and about 100 to the light one.
    let mut registry = BackendRegistry::new();
    registry.initialize_from_config(&vec![config("heavy", 3), config("light", 1)]).unwrap();
    let health = HealthCheckManager::new();
    let mut lb = LoadBalancer::new();
    lb.set_strategy(LoadBalancingStrategy::WeightedRoundRobin);
    let mut counts = [0usize; 2];
    for k in 0..400u64 {
        let picked = lb.select_backend(&registry, &health, None, k).unwrap();
        counts[picked] += 1;
    }
    assert!(counts[0] >= 295 && counts[0] <= 305, "heavy got {}", counts[0]);
    assert!(counts[1] >= 95 && counts[1] <= 105, "light got {}", counts[1]);
}

#[test]
fn test_select_backend_explicit_name() {
    let registry = two_backend_registry();
    let health = HealthCheckManager::new();
    let mut lb = LoadBalancer::new();
    let picked = lb.select_backend(&registry, &health, Some("beta"), 0).unwrap();
    assert_eq!(registry.get_all()[picked].name(), "beta");
    let missing = lb.select_backend(&registry, &health, Some("gamma"), 0);
    assert!(matches!(missing, Err(AppError::BackendNotFound(_))));
}

#[test]
fn test_select_backend_no_healthy() {
    let registry = two_backend_registry();
    let mut health = HealthCheckManager::new();
    for name in ["alpha", "beta"] {
        for t in 0..3u64 {
            health.record_probe(name, false, t);
        }
    }
    let mut lb = LoadBalancer::new();
    let r = lb.select_backend(&registry, &health, None, 0);
    assert!(matches!(r, Err(AppError::NoHealthyBackends(_))));
}

#[test]
fn test_router_priorities() {
    let mut registry = BackendRegistry::new();
    registry
        .initialize_from_config(&vec![config("stable-diffusion", 1), config("openai-img", 1)])
        .unwrap();
    let health = HealthCheckManager::new();

    // Priority 1: an explicit name wins over everything.
    let router = Router::new();
    let r = router.route(&registry, &health, Some("openai-img"), Some("stable-xl")).unwrap();
    assert_eq!(registry.get_all()[r].name(), "openai-img");

    // Priority 2: the model heuristic picks a matching backend.
    let r = router.route(&registry, &health, None, Some("stable-xl")).unwrap();
    assert_eq!(registry.get_all()[r].name(), "stable-diffusion");
    let r = router.route(&registry, &health, None, Some("dall-e-3")).unwrap();
    assert_eq!(registry.get_all()[r].name(), "openai-img");

    // Priority 3: the configured default.
    let router = Router::with_config(RouterConfig {
        default_backend: Some("openai-img".to_string()),
        fallback_enabled: true,
    });
    let r = router.route(&registry, &health, None, None).unwrap();
    assert_eq!(registry.get_all()[r].name(), "openai-img");

    // Priority 4: fallback to the first healthy backend.
    let router = Router::new();
    let r = router.route(&registry, &health, None, None).unwrap();
    assert_eq!(registry.get_all()[r].name(), "stable-diffusion");
}

#[test]
fn test_router_errors() {
    let registry = two_backend_registry();
    let mut health = HealthCheckManager::new();
    let router = Router::new();
    let missing = router.route(&registry, &health, Some("gamma"), None);
    assert!(matches!(missing, Err(AppError::BackendNotFound(_))));
    for t in 0..3u64 {
        health.record_probe("alpha", false, t);
    }
    let unhealthy = router.route(&registry, &health, Some("alpha"), None);
    assert!(matches!(unhealthy, Err(AppError::NoHealthyBackends(_))));
    let mut no_fallback = Router::new();
    no_fallback.set_fallback_enabled(false);
    for t in 0..3u64 {
        health.record_probe("beta", false, t);
    }
    let nothing = no_fallback.route(&registry, &health, None, None);
    assert!(matches!(nothing, Err(AppError::NoHealthyBackends(_))));
}

#[test]
fn test_error_status_codes() {
    assert_eq!(AppError::QueueFull.status_code(), 503);
    assert_eq!(AppError::RateLimitExceeded.status_code(), 429);
    assert_eq!(AppError::BackendNotFound("x".to_string()).status_code(), 404);
    assert_eq!(AppError::NoHealthyBackends("x".to_string()).status_code(), 503);
    assert_eq!(AppError::Timeout("x".to_string()).status_code(), 504);
    assert_eq!(AppError::TransportFailed("x".to_string()).status_code(), 502);
    assert_eq!(AppError::InvalidRequest("x".to_string()).status_code(), 400);
    assert_eq!(AppError::Internal("x".to_string()).status_code(), 500);
    assert_eq!(AppError::QueueFull.error_kind(), "server_error");
    assert_eq!(AppError::RateLimitExceeded.error_kind(), "rate_limit_error");
    assert_eq!(AppError::BackendNotFound("x".to_string()).error_kind(), "not_found_error");
    assert_eq!(AppError::Timeout("x".to_string()).error_kind(), "timeout_error");
    assert_eq!(AppError::BackendError("x".to_string()).error_kind(), "backend_error");
}

#[test]
fn test_default_settings() {
    let settings = Settings::default();
    assert_eq!(settings.server.host, "0.0.0.0");
    assert_eq!(settings.server.port, 8080);
    assert!(settings.auth.enabled);
    assert!(settings.rate_limit.enabled);
}

#[test]
fn test_settings_validate() {
    let mut settings = Settings::default();
    assert!(settings.validate().is_ok());
    settings.server.port = 0;
    assert!(matches!(settings.validate(), Err(AppError::Config(_))));
    settings.server.port = 8080;
    let mut bad = config("x", 1);
    bad.endpoints = vec![];
    settings.backends = vec![bad];
    assert!(matches!(settings.validate(), Err(AppError::Config(_))));
}
