//! Application settings consumed by the dispatch core, with their
//! defaults and validation. Loading from files and the environment
//! happens outside the library; the records here are plain values.

use vstd::prelude::*;
use vstd::string::*;

use crate::error::AppError;
use crate::text::str_eq;

verus! {

/// Root configuration structure.
#[derive(Debug, Clone)]
pub struct Settings {
    pub server: ServerConfig,
    pub auth: AuthConfig,
    pub rate_limit: RateLimitConfig,
    pub storage: StorageConfig,
    pub logging: LoggingConfig,
    pub backends: Vec<BackendConfig>,
}

/// Server configuration.
#[derive(Debug, Clone)]
pub struct ServerConfig {
    pub host: String,
    pub port: u16,
}

/// Authentication configuration.
#[derive(Debug, Clone)]
pub struct AuthConfig {
    pub enabled: bool,
    pub api_keys: Vec<String>,
}

/// Rate limiting configuration.
#[derive(Debug, Clone)]
pub struct RateLimitConfig {
    pub enabled: bool,
    pub requests_per_second: u32,
    pub burst_size: u32,
}

/// Storage configuration.
#[derive(Debug, Clone)]
pub struct StorageConfig {
    pub base_path: String,
    pub url_prefix: String,
}

/// Logging configuration.
#[derive(Debug, Clone)]
pub struct LoggingConfig {
    pub level: String,
    pub format: String,
}

/// Backend configuration.
#[derive(Debug, Clone)]
pub struct BackendConfig {
    pub name: String,
    pub protocol: String,
    pub endpoints: Vec<String>,
    pub health_check_path: String,
    pub health_check_interval_secs: u64,
    pub timeout_ms: u64,
    pub weight: u32,
    pub enabled: bool,
}

pub fn default_host() -> (r: String)
    ensures
        r@ == "0.0.0.0"@,
{
    String::from_str("0.0.0.0")
}

pub fn default_port() -> (r: u16)
    ensures
        r == 8080,
{
    8080
}

pub fn default_true() -> (r: bool)
    ensures
        r,
{
    true
}

pub fn default_rps() -> (r: u32)
    ensures
        r == 100,
{
    100
}

pub fn default_burst() -> (r: u32)
    ensures
        r == 200,
{
    200
}

pub fn default_storage_path() -> (r: String)
    ensures
        r@ == "./generated_images"@,
{
    String::from_str("./generated_images")
}

pub fn default_url_prefix() -> (r: String)
    ensures
        r@ == "http://localhost:8080/images"@,
{
    String::from_str("http://localhost:8080/images")
}

pub fn default_log_level() -> (r: String)
    ensures
        r@ == "info"@,
{
    String::from_str("info")
}

pub fn default_log_format() -> (r: String)
    ensures
        r@ == "json"@,
{
    String::from_str("json")
}

pub fn default_protocol() -> (r: String)
    ensures
        r@ == "http"@,
{
    String::from_str("http")
}

pub fn default_health_check_path() -> (r: String)
    ensures
        r@ == "/health"@,
{
    String::from_str("/health")
}

pub fn default_health_check_interval() -> (r: u64)
    ensures
        r == 30,
{
    30
}

pub fn default_timeout() -> (r: u64)
    ensures
        r == 60000,
{
    60000
}

pub fn default_weight() -> (r: u32)
    ensures
        r == 1,
{
    1
}

impl BackendConfig {
    /// One backend entry passes validation: a name, at least one
    /// endpoint, and a known protocol.
    pub open spec fn spec_valid(&self) -> bool {
        &&& self.name@.len() > 0
        &&& self.endpoints@.len() > 0
        &&& (self.protocol@ == "http"@ || self.protocol@ == "grpc"@)
    }
}

impl Settings {
    /// The whole configuration passes validation.
    pub open spec fn spec_valid(&self) -> bool {
        &&& self.server.port != 0
        &&& forall|i: int| 0 <= i < self.backends@.len() ==> self.backends@[i].spec_valid()
    }

    /// Validate the configuration: a non-zero port, and for each
    /// backend a name, at least one endpoint and a known protocol.
    pub fn validate(&self) -> (r: Result<(), AppError>)
        ensures
            r is Ok <==> self.spec_valid(),
            r is Err ==> r.get_Err_0() is Config,
    {
        if self.server.port == 0 {
            return Err(AppError::Config(String::from_str("server port cannot be 0")));
        }
        let n: usize = self.backends.len();
        let mut i: usize = 0;
        while i < n
            invariant
                i <= n,
                n == self.backends@.len(),
                forall|j: int| 0 <= j < i ==> self.backends@[j].spec_valid(),
            decreases n - i,
        {
            let b: &BackendConfig = &self.backends[i];
            if b.name.as_str().is_empty() {
                return Err(AppError::Config(String::from_str("backend name cannot be empty")));
            }
            if b.endpoints.len() == 0 {
                return Err(
                    AppError::Config(
                        String::from_str("backend must have at least one endpoint"),
                    ),
                );
            }
            if !(str_eq(b.protocol.as_str(), "http") || str_eq(b.protocol.as_str(), "grpc")) {
                return Err(
                    AppError::Config(String::from_str("backend protocol must be http or grpc")),
                );
            }
            i = i + 1;
        }
        Ok(())
    }
}

impl Default for Settings {
    /// The built-in defaults: serve on 0.0.0.0:8080, auth and rate
    /// limiting enabled with no keys and 100 rps / 200 burst, local
    /// storage, JSON logging at info level, no backends.
    fn default() -> (s: Self)
        ensures
            s.server.host@ == "0.0.0.0"@,
            s.server.port == 8080,
            s.auth.enabled,
            s.auth.api_keys@.len() == 0,
            s.rate_limit.enabled,
            s.rate_limit.requests_per_second == 100,
            s.rate_limit.burst_size == 200,
            s.storage.base_path@ == "./generated_images"@,
            s.storage.url_prefix@ == "http://localhost:8080/images"@,
            s.logging.level@ == "info"@,
            s.logging.format@ == "json"@,
            s.backends@.len() == 0,
    {
        Settings {
            server: ServerConfig { host: default_host(), port: default_port() },
            auth: AuthConfig { enabled: true, api_keys: Vec::new() },
            rate_limit: RateLimitConfig {
                enabled: true,
                requests_per_second: default_rps(),
                burst_size: default_burst(),
            },
            storage: StorageConfig {
                base_path: default_storage_path(),
                url_prefix: default_url_prefix(),
            },
            logging: LoggingConfig { level: default_log_level(), format: default_log_format() },
            backends: Vec::new(),
        }
    }
}

} // verus!
