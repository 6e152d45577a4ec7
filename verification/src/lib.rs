//! Request-dispatch core of a multi-backend image-generation gateway.
//!
//! The crate models the dispatch pipeline — backend registry, health
//! monitoring, load balancing, routing, bounded queueing and batching —
//! as verified state machines over plain values. Transport drivers,
//! timers and file storage live outside the library and feed it events.

mod auth;
mod backend;
mod base64;
mod batcher;
mod endpoint;
mod error;
mod health;
mod load_balancer;
mod queue;
mod registry;
mod response;
mod router;
mod settings;
mod text;
mod types;

pub use auth::{holds_key, spec_authorize, strip_bearer, AuthDecision, AuthLayer};
pub use backend::{
    healthy_indices, merge_api_response, merge_image, status_is_success, ApiGenerateResponse,
    ApiImageData, Backend, HttpAttemptOutcome, HttpStep, Protocol,
};
pub use base64::{create_data_url, decode, encode, get_format_from_data_url, is_valid};
pub use batcher::{
    clip, lemma_prefix_n_all, lemma_prefix_n_mono, lemma_prefix_n_step, opt_str_like, prefix_n,
    total_n, BatchConfig, Batcher,
};
pub use queue::{lemma_caps_hold, QueueConfig, QueueStats, RequestQueue, SubmitWait};
pub use endpoint::{BackendEndpoint, ENDPOINT_FAILURE_THRESHOLD};
pub use error::{AppError, ErrorDetail, ErrorResponse};
pub use health::{
    force_probe_step, fresh_status, lemma_force_probe_idempotent_health,
    lemma_health_event_counters, lemma_steps_preserve_one_sided,
    lemma_unhealthy_flip_needs_threshold, one_sided, probe_step, unhealthy_names, find_entry,
    HealthCheckManager, HealthStatus, StatusEntry, DEFAULT_FAILURE_THRESHOLD,
    DEFAULT_RECOVERY_THRESHOLD,
};
pub use load_balancer::{
    clamp_weight, eligible_indices, eligible_weights, gcd, gcd_spec, lemma_eligible_indices,
    lemma_round_robin_fairness, lemma_wrr_uniform_fairness, lemma_wrr_uniform_step, rr_delay,
    rr_hits, rr_hits_closed, weights_gcd, weights_max, wrr_advance, wrr_fuel, wrr_select,
    wrr_uniform_hits, LoadBalancer, LoadBalancingStrategy,
};
pub use registry::{built_matches, find_index, BackendRegistry};
pub use response::{
    detect_image_format, parse_format, spec_basename, spec_detect_format, spec_joined_path,
    FileHandler, ResponseFormat, ResponseHandler,
};
pub use router::{
    explicit_choice, first_eligible, lemma_route_priority_explicit, lemma_route_priority_model,
    model_matches, model_pick, route_choice, RouteChoice, Router, RouterConfig,
};
pub use settings::{
    default_burst, default_health_check_interval, default_health_check_path, default_host,
    default_log_format, default_log_level, default_port, default_protocol, default_rps,
    default_storage_path, default_timeout, default_true, default_url_prefix, default_weight,
    AuthConfig, BackendConfig, LoggingConfig, RateLimitConfig, ServerConfig, Settings,
    StorageConfig,
};
pub use types::{BackendStatus, GenerateRequest, GenerateResponse, GeneratedImage};
