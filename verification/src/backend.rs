//! A named group of endpoints behind one protocol driver, with the
//! driver-independent dispatch logic: endpoint selection, health
//! marking, and the HTTP driver's per-attempt decisions.
//!
//! The transports themselves (HTTP requests, RPC channels) run outside
//! the library and report each attempt's outcome back as an event.

use vstd::prelude::*;
use vstd::string::*;

use crate::endpoint::BackendEndpoint;
use crate::error::AppError;
use crate::settings::BackendConfig;
use crate::types::{BackendStatus, GenerateResponse, GeneratedImage};

verus! {

/// Protocol driver of a backend.
#[derive(Debug, Clone, Copy, PartialEq, Eq, Structural)]
pub enum Protocol {
    Http,
    Grpc,
}

impl Protocol {
    /// Protocol of a configuration string, if it names one.
    pub fn from_config_str(s: &str) -> (r: Option<Protocol>)
        ensures
            r == (if s@ == "http"@ {
                Some(Protocol::Http)
            } else if s@ == "grpc"@ {
                Some(Protocol::Grpc)
            } else {
                None::<Protocol>
            }),
    {
        if crate::text::str_eq(s, "http") {
            Some(Protocol::Http)
        } else if crate::text::str_eq(s, "grpc") {
            Some(Protocol::Grpc)
        } else {
            None
        }
    }

    /// The configuration string of this protocol.
    pub fn as_str(&self) -> (r: &'static str)
        ensures
            self is Http ==> r@ == "http"@,
            self is Grpc ==> r@ == "grpc"@,
    {
        match self {
            Protocol::Http => "http",
            Protocol::Grpc => "grpc",
        }
    }
}

/// Indices of the healthy endpoints, in order.
pub open spec fn healthy_indices(eps: Seq<BackendEndpoint>) -> Seq<usize>
    decreases eps.len(),
{
    if eps.len() == 0 {
        Seq::empty()
    } else {
        let pre = healthy_indices(eps.drop_last());
        if eps.last().healthy {
            pre.push((eps.len() - 1) as usize)
        } else {
            pre
        }
    }
}

/// Every healthy index is in bounds and names a healthy endpoint, and
/// there are no more of them than endpoints.
pub proof fn lemma_healthy_indices(eps: Seq<BackendEndpoint>)
    requires
        eps.len() <= usize::MAX,
    ensures
        healthy_indices(eps).len() <= eps.len(),
        forall|k: int|
            0 <= k < healthy_indices(eps).len() ==> healthy_indices(eps)[k] < eps.len()
                && eps[healthy_indices(eps)[k] as int].healthy,
    decreases eps.len(),
{
    if eps.len() > 0 {
        lemma_healthy_indices(eps.drop_last());
        let pre = healthy_indices(eps.drop_last());
        assert(forall|j: int| 0 <= j < eps.len() - 1 ==> eps.drop_last()[j] == eps[j]);
        if eps.last().healthy {
            assert(healthy_indices(eps) == pre.push((eps.len() - 1) as usize));
            assert forall|k: int| 0 <= k < healthy_indices(eps).len() implies healthy_indices(
                eps,
            )[k] < eps.len() && eps[healthy_indices(eps)[k] as int].healthy by {
                if k < pre.len() {
                    assert(healthy_indices(eps)[k] == pre[k]);
                    assert(pre[k] < eps.drop_last().len());
                    assert(eps.drop_last()[pre[k] as int].healthy);
                    assert(eps.drop_last()[pre[k] as int] == eps[pre[k] as int]);
                } else {
                    assert((eps.len() - 1) as usize == eps.len() - 1);
                    assert(healthy_indices(eps)[k] == (eps.len() - 1) as usize);
                }
            }
        } else {
            assert(healthy_indices(eps) == pre);
        }
    }
}

/// One backend: a named, weighted group of endpoints sharing a
/// protocol driver. The cursor drives round-robin selection across the
/// currently healthy endpoints.
#[derive(Debug, Clone)]
pub struct Backend {
    pub name: String,
    pub protocol: Protocol,
    pub endpoints: Vec<BackendEndpoint>,
    pub health_check_path: String,
    pub timeout_ms: u64,
    pub weight: u32,
    pub enabled: bool,
    pub cursor: usize,
}

/// One image record as HTTP backends return it; `b64_json` and
/// `base64` are alternative keys for the same payload.
#[derive(Debug, Clone)]
pub struct ApiImageData {
    pub b64_json: Option<String>,
    pub base64: Option<String>,
    pub url: Option<String>,
    pub revised_prompt: Option<String>,
    pub seed: Option<i64>,
}

/// Response body of an HTTP backend; `images` and `data` are
/// alternative containers and both are honoured, in that order.
#[derive(Debug, Clone)]
pub struct ApiGenerateResponse {
    pub images: Vec<ApiImageData>,
    pub data: Vec<ApiImageData>,
    pub model: Option<String>,
}

/// The canonical image record of an API image record: `b64_json`
/// wins over `base64` when both are present.
pub open spec fn merge_image(a: ApiImageData) -> GeneratedImage {
    GeneratedImage {
        b64_json: if a.b64_json is Some {
            a.b64_json
        } else {
            a.base64
        },
        url: a.url,
        revised_prompt: a.revised_prompt,
        seed: a.seed,
    }
}

/// Outcome of one HTTP attempt against one candidate URL, as the
/// transport reports it. Messages arrive already rendered.
#[derive(Debug)]
pub enum HttpAttemptOutcome {
    /// Connect-or-timeout failure at the socket layer.
    Transport(String),
    /// Non-2xx response; the message carries the body.
    Failure(String),
    /// 2xx response whose body did not parse.
    Unparseable(String),
    /// 2xx response with a parsed body.
    Success(ApiGenerateResponse),
}

/// What the driver must do after one attempt.
#[derive(Debug)]
pub enum HttpStep {
    /// Return this response; the endpoint was marked healthy.
    Done(GenerateResponse),
    /// Stop trying URLs on this endpoint; it was marked unhealthy.
    Abort(AppError),
    /// Record this as the tentative last error and try the next URL.
    Retry(AppError),
}

impl Backend {
    /// Non-empty endpoints, a cursor in bounds, and well-formed
    /// endpoint health states.
    pub open spec fn wf(&self) -> bool {
        &&& self.endpoints@.len() > 0
        &&& self.cursor < self.endpoints@.len()
        &&& forall|i: int| 0 <= i < self.endpoints@.len() ==> self.endpoints@[i].wf()
    }

    /// Everything but the endpoint states and the cursor is unchanged.
    pub open spec fn same_identity(&self, other: &Backend) -> bool {
        &&& self.name == other.name
        &&& self.protocol == other.protocol
        &&& self.health_check_path == other.health_check_path
        &&& self.timeout_ms == other.timeout_ms
        &&& self.weight == other.weight
        &&& self.enabled == other.enabled
        &&& self.endpoints@.len() == other.endpoints@.len()
        &&& forall|i: int|
            0 <= i < self.endpoints@.len() ==> self.endpoints@[i].url == other.endpoints@[i].url
    }

    /// Build a backend from one configuration entry. All endpoints
    /// start healthy; the cursor starts at zero.
    pub fn from_config(config: &BackendConfig, protocol: Protocol) -> (b: Backend)
        ensures
            b.name@ == config.name@,
            b.protocol == protocol,
            b.health_check_path@ == config.health_check_path@,
            b.timeout_ms == config.timeout_ms,
            b.weight == config.weight,
            b.enabled == config.enabled,
            b.cursor == 0,
            b.endpoints@.len() == config.endpoints@.len(),
            forall|i: int|
                0 <= i < b.endpoints@.len() ==> b.endpoints@[i].url@ == config.endpoints@[i]@
                    && b.endpoints@[i].healthy && b.endpoints@[i].consecutive_failures == 0
                    && b.endpoints@[i].wf(),
            config.endpoints@.len() > 0 ==> b.wf(),
    {
        let n: usize = config.endpoints.len();
        let mut endpoints: Vec<BackendEndpoint> = Vec::new();
        let mut i: usize = 0;
        while i < n
            invariant
                i <= n,
                n == config.endpoints@.len(),
                endpoints@.len() == i,
                forall|j: int|
                    0 <= j < i ==> endpoints@[j].url@ == config.endpoints@[j]@
                        && endpoints@[j].healthy && endpoints@[j].consecutive_failures == 0
                        && endpoints@[j].last_check is None,
            decreases n - i,
        {
            let url = String::from_str(config.endpoints[i].as_str());
            endpoints.push(BackendEndpoint::new(url));
            i = i + 1;
        }
        Backend {
            name: String::from_str(config.name.as_str()),
            protocol,
            endpoints,
            health_check_path: String::from_str(config.health_check_path.as_str()),
            timeout_ms: config.timeout_ms,
            weight: config.weight,
            enabled: config.enabled,
            cursor: 0,
        }
    }

    pub fn name(&self) -> (r: &str)
        ensures
            r@ == self.name@,
    {
        self.name.as_str()
    }

    pub fn protocol(&self) -> (r: Protocol)
        ensures
            r == self.protocol,
    {
        self.protocol
    }

    pub fn weight(&self) -> (r: u32)
        ensures
            r == self.weight,
    {
        self.weight
    }

    pub fn is_enabled(&self) -> (r: bool)
        ensures
            r == self.enabled,
    {
        self.enabled
    }

    /// The endpoint URLs, in order.
    pub fn endpoints(&self) -> (r: Vec<String>)
        ensures
            r@.len() == self.endpoints@.len(),
            forall|i: int| 0 <= i < r@.len() ==> r@[i]@ == self.endpoints@[i].url@,
    {
        let n: usize = self.endpoints.len();
        let mut out: Vec<String> = Vec::new();
        let mut i: usize = 0;
        while i < n
            invariant
                i <= n,
                n == self.endpoints@.len(),
                out@.len() == i,
                forall|j: int| 0 <= j < i ==> out@[j]@ == self.endpoints@[j].url@,
            decreases n - i,
        {
            out.push(String::from_str(self.endpoints[i].url.as_str()));
            i = i + 1;
        }
        out
    }

    /// Current status record. Health here is the optimistic default;
    /// the health monitor owns the live value.
    pub fn status(&self) -> (r: BackendStatus)
        ensures
            r.name@ == self.name@,
            self.protocol is Http ==> r.protocol@ == "http"@,
            self.protocol is Grpc ==> r.protocol@ == "grpc"@,
            r.endpoints@.len() == self.endpoints@.len(),
            forall|i: int| 0 <= i < r.endpoints@.len() ==> r.endpoints@[i]@ == self.endpoints@[i].url@,
            r.healthy,
            r.weight == self.weight,
            r.enabled == self.enabled,
    {
        BackendStatus {
            name: String::from_str(self.name.as_str()),
            protocol: String::from_str(self.protocol.as_str()),
            endpoints: self.endpoints(),
            healthy: true,
            weight: self.weight,
            enabled: self.enabled,
        }
    }

    /// Advance the round-robin cursor over the healthy subset of this
    /// backend's endpoints and return the chosen endpoint's index;
    /// `None` with nothing changed when no endpoint is healthy.
    pub fn next_healthy_index(&mut self) -> (r: Option<usize>)
        requires
            old(self).wf(),
        ensures
            final(self).wf(),
            final(self).same_identity(&*old(self)),
            final(self).endpoints@ == old(self).endpoints@,
            ({
                let h = healthy_indices(old(self).endpoints@);
                if h.len() == 0 {
                    r is None && final(self).cursor == old(self).cursor
                } else {
                    final(self).cursor == (old(self).cursor + 1) % (h.len() as int) && r == Some(
                        h[final(self).cursor as int],
                    )
                }
            }),
            r is Some ==> r.unwrap() < old(self).endpoints@.len()
                && old(self).endpoints@[r.unwrap() as int].healthy,
    {
        let n: usize = self.endpoints.len();
        let mut hv: Vec<usize> = Vec::new();
        let mut i: usize = 0;
        while i < n
            invariant
                i <= n,
                n == self.endpoints@.len(),
                hv@ == healthy_indices(self.endpoints@.subrange(0, i as int)),
            decreases n - i,
        {
            proof {
                assert(self.endpoints@.subrange(0, i + 1).drop_last() =~= self.endpoints@.subrange(
                    0,
                    i as int,
                ));
            }
            if self.endpoints[i].healthy {
                hv.push(i);
            }
            i = i + 1;
        }
        proof {
            assert(self.endpoints@.subrange(0, n as int) =~= self.endpoints@);
            lemma_healthy_indices(self.endpoints@);
        }
        if hv.len() == 0 {
            return None;
        }
        let nc: usize = (self.cursor + 1) % hv.len();
        self.cursor = nc;
        Some(hv[nc])
    }

    /// Mark one endpoint healthy: its failure streak resets and it is
    /// available again at once.
    pub fn mark_endpoint_healthy(&mut self, index: usize, now: u64)
        requires
            old(self).wf(),
            index < old(self).endpoints@.len(),
        ensures
            final(self).wf(),
            final(self).same_identity(&*old(self)),
            final(self).cursor == old(self).cursor,
            final(self).endpoints@ == old(self).endpoints@.update(
                index as int,
                final(self).endpoints@[index as int],
            ),
            final(self).endpoints@[index as int].healthy,
            final(self).endpoints@[index as int].consecutive_failures == 0,
            final(self).endpoints@[index as int].last_check == Some(now),
            final(self).endpoints@[index as int].url == old(self).endpoints@[index as int].url,
    {
        let e = vstd::std_specs::vec::vec_index_mut(&mut self.endpoints, index);
        e.mark_healthy(now);
    }

    /// Mark one endpoint unhealthy: its failure streak lengthens and
    /// health flips exactly at the failure threshold.
    pub fn mark_endpoint_unhealthy(&mut self, index: usize, now: u64)
        requires
            old(self).wf(),
            index < old(self).endpoints@.len(),
            old(self).endpoints@[index as int].consecutive_failures < u32::MAX,
        ensures
            final(self).wf(),
            final(self).same_identity(&*old(self)),
            final(self).cursor == old(self).cursor,
            final(self).endpoints@ == old(self).endpoints@.update(
                index as int,
                final(self).endpoints@[index as int],
            ),
            final(self).endpoints@[index as int].consecutive_failures == old(self).endpoints@[index as int].consecutive_failures + 1,
            final(self).endpoints@[index as int].healthy == (old(self).endpoints@[index as int].healthy && final(self).endpoints@[index as int].consecutive_failures
                < crate::endpoint::ENDPOINT_FAILURE_THRESHOLD),
            final(self).endpoints@[index as int].last_check == Some(now),
            final(self).endpoints@[index as int].url == old(self).endpoints@[index as int].url,
    {
        let e = vstd::std_specs::vec::vec_index_mut(&mut self.endpoints, index);
        e.mark_unhealthy(now);
    }

    /// The four vendor-API paths to try on an endpoint, in order.
    pub fn candidate_urls(&self, index: usize) -> (urls: Vec<String>)
        requires
            index < self.endpoints@.len(),
        ensures
            urls@.len() == 4,
            urls@[0]@ == self.endpoints@[index as int].url@ + "/v1/images/generations"@,
            urls@[1]@ == self.endpoints@[index as int].url@ + "/generate"@,
            urls@[2]@ == self.endpoints@[index as int].url@ + "/api/generate"@,
            urls@[3]@ == self.endpoints@[index as int].url@ + "/sdapi/v1/txt2img"@,
    {
        let base: &str = self.endpoints[index].url.as_str();
        let mut u0 = String::from_str(base);
        u0.append("/v1/images/generations");
        let mut u1 = String::from_str(base);
        u1.append("/generate");
        let mut u2 = String::from_str(base);
        u2.append("/api/generate");
        let mut u3 = String::from_str(base);
        u3.append("/sdapi/v1/txt2img");
        let mut urls: Vec<String> = Vec::new();
        urls.push(u0);
        urls.push(u1);
        urls.push(u2);
        urls.push(u3);
        urls
    }

    /// The probe URL of one endpoint: its address plus the health path.
    pub fn probe_url(&self, index: usize) -> (r: String)
        requires
            index < self.endpoints@.len(),
        ensures
            r@ == self.endpoints@[index as int].url@ + self.health_check_path@,
    {
        let mut u = String::from_str(self.endpoints[index].url.as_str());
        u.append(self.health_check_path.as_str());
        u
    }

    /// Pick the endpoint for one generate call, or report that none is
    /// healthy.
    pub fn begin_generate(&mut self) -> (r: Result<usize, AppError>)
        requires
            old(self).wf(),
        ensures
            final(self).wf(),
            final(self).same_identity(&*old(self)),
            final(self).endpoints@ == old(self).endpoints@,
            ({
                let h = healthy_indices(old(self).endpoints@);
                if h.len() == 0 {
                    r matches Err(e) && e matches AppError::NoHealthyBackends(m) && m@ == old(self).name@ && final(self).cursor == old(self).cursor
                } else {
                    final(self).cursor == (old(self).cursor + 1) % (h.len() as int) && r == Ok::<
                        usize,
                        AppError,
                    >(h[final(self).cursor as int])
                }
            }),
            r matches Ok(i) ==> i < old(self).endpoints@.len()
                && old(self).endpoints@[i as int].healthy,
    {
        match self.next_healthy_index() {
            Some(i) => Ok(i),
            None => Err(AppError::NoHealthyBackends(String::from_str(self.name.as_str()))),
        }
    }

    /// Apply one HTTP attempt's outcome: a success marks the endpoint
    /// healthy and finishes; a transport failure marks it unhealthy
    /// and aborts the URL loop; a logical failure only records a
    /// tentative error and moves to the next URL.
    pub fn on_attempt(&mut self, index: usize, outcome: HttpAttemptOutcome, now: u64) -> (r:
        HttpStep)
        requires
            old(self).wf(),
            index < old(self).endpoints@.len(),
            old(self).endpoints@[index as int].consecutive_failures < u32::MAX,
        ensures
            final(self).wf(),
            final(self).same_identity(&*old(self)),
            final(self).cursor == old(self).cursor,
            match outcome {
                HttpAttemptOutcome::Success(api) => {
                    &&& r matches HttpStep::Done(g) && g.model == api.model && g.images@
                        == api.images@.map_values(|a: ApiImageData| merge_image(a))
                        + api.data@.map_values(|a: ApiImageData| merge_image(a))
                    &&& final(self).endpoints@[index as int].healthy
                    &&& final(self).endpoints@[index as int].consecutive_failures == 0
                    &&& final(self).endpoints@ == old(self).endpoints@.update(
                        index as int,
                        final(self).endpoints@[index as int],
                    )
                },
                HttpAttemptOutcome::Transport(m) => {
                    &&& r matches HttpStep::Abort(e) && e matches AppError::TransportFailed(em)
                        && em == m
                    &&& final(self).endpoints@[index as int].consecutive_failures == old(self).endpoints@[index as int].consecutive_failures + 1
                    &&& final(self).endpoints@ == old(self).endpoints@.update(
                        index as int,
                        final(self).endpoints@[index as int],
                    )
                },
                HttpAttemptOutcome::Failure(m) => {
                    &&& r matches HttpStep::Retry(e) && e matches AppError::BackendError(em) && em
                        == m
                    &&& final(self).endpoints@ == old(self).endpoints@
                },
                HttpAttemptOutcome::Unparseable(m) => {
                    &&& r matches HttpStep::Retry(e) && e matches AppError::BackendError(em) && em
                        == m
                    &&& final(self).endpoints@ == old(self).endpoints@
                },
            },
    {
        match outcome {
            HttpAttemptOutcome::Success(api) => {
                self.mark_endpoint_healthy(index, now);
                HttpStep::Done(merge_api_response(api))
            },
            HttpAttemptOutcome::Transport(m) => {
                self.mark_endpoint_unhealthy(index, now);
                HttpStep::Abort(AppError::TransportFailed(m))
            },
            HttpAttemptOutcome::Failure(m) => HttpStep::Retry(AppError::BackendError(m)),
            HttpAttemptOutcome::Unparseable(m) => HttpStep::Retry(AppError::BackendError(m)),
        }
    }

    /// All candidate URLs failed without a transport error: the
    /// endpoint is marked unhealthy and the last recorded error (or a
    /// generic one) is surfaced.
    pub fn finish_generate_failed(&mut self, index: usize, last_error: Option<AppError>, now: u64)
        -> (e: AppError)
        requires
            old(self).wf(),
            index < old(self).endpoints@.len(),
            old(self).endpoints@[index as int].consecutive_failures < u32::MAX,
        ensures
            final(self).wf(),
            final(self).same_identity(&*old(self)),
            final(self).cursor == old(self).cursor,
            final(self).endpoints@[index as int].consecutive_failures == old(self).endpoints@[index as int].consecutive_failures + 1,
            final(self).endpoints@ == old(self).endpoints@.update(
                index as int,
                final(self).endpoints@[index as int],
            ),
            match last_error {
                Some(le) => e == le,
                None => e matches AppError::BackendError(m) && m@ == "Unknown error"@,
            },
    {
        self.mark_endpoint_unhealthy(index, now);
        match last_error {
            Some(le) => le,
            None => AppError::BackendError(String::from_str("Unknown error")),
        }
    }

    /// Record one probe sweep over all endpoints: each success marks
    /// its endpoint healthy, each failure marks it unhealthy. Returns
    /// whether any endpoint probed healthy.
    pub fn record_probe_results(&mut self, results: &Vec<bool>, now: u64) -> (any: bool)
        requires
            old(self).wf(),
            results@.len() == old(self).endpoints@.len(),
            forall|i: int|
                0 <= i < results@.len() ==> (!results@[i]
                    ==> old(self).endpoints@[i].consecutive_failures < u32::MAX),
        ensures
            final(self).wf(),
            final(self).same_identity(&*old(self)),
            final(self).cursor == old(self).cursor,
            forall|i: int|
                0 <= i < results@.len() ==> (results@[i] ==> {
                    &&& final(self).endpoints@[i].healthy
                    &&& final(self).endpoints@[i].consecutive_failures == 0
                    &&& final(self).endpoints@[i].last_check == Some(now)
                }),
            forall|i: int|
                0 <= i < results@.len() ==> (!results@[i] ==> {
                    &&& final(self).endpoints@[i].consecutive_failures == old(self).endpoints@[i].consecutive_failures + 1
                    &&& final(self).endpoints@[i].healthy == (old(self).endpoints@[i].healthy
                        && final(self).endpoints@[i].consecutive_failures
                        < crate::endpoint::ENDPOINT_FAILURE_THRESHOLD)
                    &&& final(self).endpoints@[i].last_check == Some(now)
                }),
            any == exists|i: int| 0 <= i < results@.len() && results@[i],
    {
        let n: usize = results.len();
        let mut any: bool = false;
        let mut i: usize = 0;
        while i < n
            invariant
                i <= n,
                n == results@.len(),
                n == self.endpoints@.len(),
                forall|j: int|
                    0 <= j < n ==> (!results@[j] ==> old(self).endpoints@[j].consecutive_failures
                        < u32::MAX),
                self.wf(),
                self.same_identity(&*old(self)),
                self.cursor == old(self).cursor,
                forall|j: int| i <= j < n ==> self.endpoints@[j] == old(self).endpoints@[j],
                forall|j: int|
                    0 <= j < i ==> (results@[j] ==> {
                        &&& self.endpoints@[j].healthy
                        &&& self.endpoints@[j].consecutive_failures == 0
                        &&& self.endpoints@[j].last_check == Some(now)
                    }),
                forall|j: int|
                    0 <= j < i ==> (!results@[j] ==> {
                        &&& self.endpoints@[j].consecutive_failures == old(self).endpoints@[j].consecutive_failures + 1
                        &&& self.endpoints@[j].healthy == (old(self).endpoints@[j].healthy
                            && self.endpoints@[j].consecutive_failures
                            < crate::endpoint::ENDPOINT_FAILURE_THRESHOLD)
                        &&& self.endpoints@[j].last_check == Some(now)
                    }),
                any == exists|j: int| 0 <= j < i && results@[j],
            decreases n - i,
        {
            proof {
                assert(self.endpoints@[i as int] == old(self).endpoints@[i as int]);
            }
            if results[i] {
                self.mark_endpoint_healthy(i, now);
                any = true;
            } else {
                proof {
                    assert(!results@[i as int]);
                    assert(old(self).endpoints@[i as int].consecutive_failures < u32::MAX);
                }
                self.mark_endpoint_unhealthy(i, now);
            }
            i = i + 1;
        }
        any
    }
}

/// Merge an HTTP backend's response body into the canonical response
/// record: the `images` array then the `data` array, each record
/// preferring `b64_json` over `base64`.
pub fn merge_api_response(resp: ApiGenerateResponse) -> (g: GenerateResponse)
    ensures
        g.model == resp.model,
        g.images@ == resp.images@.map_values(|a: ApiImageData| merge_image(a))
            + resp.data@.map_values(|a: ApiImageData| merge_image(a)),
{
    let ApiGenerateResponse { images, data, model } = resp;
    let ghost orig_images = images@;
    let ghost orig_data = data@;
    let mut out: Vec<GeneratedImage> = Vec::new();
    let mut rest = images;
    while rest.len() > 0
        invariant
            out@.len() + rest@.len() == orig_images.len(),
            rest@ == orig_images.skip(out@.len() as int),
            out@ == orig_images.subrange(0, out@.len() as int).map_values(
                |a: ApiImageData| merge_image(a),
            ),
        decreases rest@.len(),
    {
        let ghost k = out@.len() as int;
        let a = rest.remove(0);
        proof {
            assert(a == orig_images[k]);
            assert(rest@ =~= orig_images.skip(k + 1));
        }
        let m = GeneratedImage {
            b64_json: match a.b64_json {
                Some(s) => Some(s),
                None => a.base64,
            },
            url: a.url,
            revised_prompt: a.revised_prompt,
            seed: a.seed,
        };
        proof {
            assert(m == merge_image(orig_images[k]));
        }
        out.push(m);
        proof {
            assert(out@ =~= orig_images.subrange(0, k + 1).map_values(
                |a: ApiImageData| merge_image(a),
            ));
        }
    }
    proof {
        assert(orig_images.subrange(0, orig_images.len() as int) =~= orig_images);
    }
    let mut rest2 = data;
    while rest2.len() > 0
        invariant
            out@.len() == orig_images.len() + (orig_data.len() - rest2@.len()),
            rest2@ == orig_data.skip(orig_data.len() - rest2@.len()),
            out@ == orig_images.map_values(|a: ApiImageData| merge_image(a)) + orig_data.subrange(
                0,
                orig_data.len() - rest2@.len(),
            ).map_values(|a: ApiImageData| merge_image(a)),
        decreases rest2@.len(),
    {
        let ghost k = orig_data.len() - rest2@.len();
        let a = rest2.remove(0);
        proof {
            assert(a == orig_data[k]);
            assert(rest2@ =~= orig_data.skip(k + 1));
        }
        let m = GeneratedImage {
            b64_json: match a.b64_json {
                Some(s) => Some(s),
                None => a.base64,
            },
            url: a.url,
            revised_prompt: a.revised_prompt,
            seed: a.seed,
        };
        proof {
            assert(m == merge_image(orig_data[k]));
        }
        out.push(m);
        proof {
            assert(out@ =~= orig_images.map_values(|a: ApiImageData| merge_image(a))
                + orig_data.subrange(0, k + 1).map_values(|a: ApiImageData| merge_image(a)));
        }
    }
    proof {
        assert(orig_data.subrange(0, orig_data.len() as int) =~= orig_data);
    }
    GenerateResponse { images: out, model }
}

/// Whether an HTTP status is a success (2xx).
pub fn status_is_success(status: u16) -> (r: bool)
    ensures
        r == (200 <= status && status < 300),
{
    200 <= status && status < 300
}

} // verus!
