//! Dynamic router: priority-ordered backend selection combining an
//! explicit name, a model-name heuristic, a configured default, and a
//! fallback.

use vstd::prelude::*;
use vstd::string::*;

use crate::backend::Backend;
use crate::error::AppError;
use crate::health::HealthCheckManager;
use crate::registry::{find_index, BackendRegistry};
use crate::text::{contains_str, lower_seq, seq_contains, str_eq, to_ascii_lowercase};

verus! {

/// Router configuration.
#[derive(Debug, Clone)]
pub struct RouterConfig {
    /// Default backend to use when none is specified.
    pub default_backend: Option<String>,
    /// Whether to route to any healthy backend if the default is
    /// unavailable.
    pub fallback_enabled: bool,
}

impl Default for RouterConfig {
    fn default() -> (r: Self)
        ensures
            r.default_backend is None,
            r.fallback_enabled,
    {
        RouterConfig { default_backend: None, fallback_enabled: true }
    }
}

/// What one routing rule decides.
#[derive(Debug, Clone, Copy, PartialEq, Eq, Structural)]
pub enum RouteChoice {
    /// The backend at this registry position serves the request.
    Backend(usize),
    /// The named backend is not registered.
    NotFound,
    /// The named backend is registered but disabled.
    Disabled,
    /// The named backend is registered and enabled but unhealthy.
    Unhealthy,
    /// No rule produced a backend.
    NoneAvailable,
}

/// Resolution of an explicitly named backend: it must be registered,
/// enabled and currently healthy.
pub open spec fn explicit_choice(
    bs: Seq<Backend>,
    health: &HealthCheckManager,
    name: Seq<char>,
) -> RouteChoice {
    let idx = find_index(bs, name);
    if idx == -1 {
        RouteChoice::NotFound
    } else if !bs[idx].enabled {
        RouteChoice::Disabled
    } else if !health.spec_is_healthy(name) {
        RouteChoice::Unhealthy
    } else {
        RouteChoice::Backend(idx as usize)
    }
}

/// The model-name heuristic: after case folding, a backend matches if
/// either name contains the other, or both carry one of the known
/// family tokens.
pub open spec fn model_matches(bname: Seq<char>, model: Seq<char>) -> bool {
    let bl = lower_seq(bname);
    let ml = lower_seq(model);
    ||| seq_contains(ml, bl)
    ||| seq_contains(bl, ml)
    ||| ((seq_contains(ml, "stable"@) || seq_contains(ml, "sd"@)) && (seq_contains(bl, "stable"@)
        || seq_contains(bl, "sd"@)))
    ||| (seq_contains(ml, "dall"@) && (seq_contains(bl, "dall"@) || seq_contains(bl, "openai"@)))
}

/// First enabled, healthy backend whose name matches the model, `-1`
/// when none does.
pub open spec fn model_pick(bs: Seq<Backend>, health: &HealthCheckManager, model: Seq<char>) -> int
    decreases bs.len(),
{
    if bs.len() == 0 {
        -1
    } else if bs[0].enabled && health.spec_is_healthy(bs[0].name@) && model_matches(
        bs[0].name@,
        model,
    ) {
        0
    } else {
        let r = model_pick(bs.skip(1), health, model);
        if r == -1 {
            -1
        } else {
            r + 1
        }
    }
}

/// First enabled, healthy backend, `-1` when none is.
pub open spec fn first_eligible(bs: Seq<Backend>, health: &HealthCheckManager) -> int
    decreases bs.len(),
{
    if bs.len() == 0 {
        -1
    } else if bs[0].enabled && health.spec_is_healthy(bs[0].name@) {
        0
    } else {
        let r = first_eligible(bs.skip(1), health);
        if r == -1 {
            -1
        } else {
            r + 1
        }
    }
}

/// The whole cascade, first match winning: explicit name, model
/// heuristic, configured default, fallback.
pub open spec fn route_choice(
    bs: Seq<Backend>,
    health: &HealthCheckManager,
    default_backend: Option<Seq<char>>,
    fallback_enabled: bool,
    name: Option<Seq<char>>,
    model: Option<Seq<char>>,
) -> RouteChoice {
    if name is Some {
        explicit_choice(bs, health, name.unwrap())
    } else if model is Some && model_pick(bs, health, model.unwrap()) >= 0 {
        RouteChoice::Backend(model_pick(bs, health, model.unwrap()) as usize)
    } else if default_backend is Some && explicit_choice(bs, health, default_backend.unwrap())
        is Backend {
        explicit_choice(bs, health, default_backend.unwrap())
    } else if fallback_enabled && first_eligible(bs, health) >= 0 {
        RouteChoice::Backend(first_eligible(bs, health) as usize)
    } else {
        RouteChoice::NoneAvailable
    }
}

/// Priority monotonicity: when a caller names a backend explicitly,
/// the decision is that name's resolution alone — neither the model
/// heuristic nor the configured default nor the fallback can change
/// it.
pub proof fn lemma_route_priority_explicit(
    bs: Seq<Backend>,
    health: &HealthCheckManager,
    d1: Option<Seq<char>>,
    f1: bool,
    d2: Option<Seq<char>>,
    f2: bool,
    name: Seq<char>,
    m1: Option<Seq<char>>,
    m2: Option<Seq<char>>,
)
    ensures
        route_choice(bs, health, d1, f1, Some(name), m1) == explicit_choice(bs, health, name),
        route_choice(bs, health, d1, f1, Some(name), m1) == route_choice(
            bs,
            health,
            d2,
            f2,
            Some(name),
            m2,
        ),
{
}

/// Priority monotonicity, second rule: when no name is given and the
/// model heuristic finds a backend, the configured default and the
/// fallback are not consulted.
pub proof fn lemma_route_priority_model(
    bs: Seq<Backend>,
    health: &HealthCheckManager,
    d1: Option<Seq<char>>,
    f1: bool,
    d2: Option<Seq<char>>,
    f2: bool,
    model: Seq<char>,
)
    requires
        model_pick(bs, health, model) >= 0,
    ensures
        route_choice(bs, health, d1, f1, None, Some(model)) == RouteChoice::Backend(
            model_pick(bs, health, model) as usize,
        ),
        route_choice(bs, health, d1, f1, None, Some(model)) == route_choice(
            bs,
            health,
            d2,
            f2,
            None,
            Some(model),
        ),
{
}

proof fn lemma_model_pick_at(bs: Seq<Backend>, health: &HealthCheckManager, model: Seq<char>, i: int)
    requires
        0 <= i < bs.len(),
        bs[i].enabled && health.spec_is_healthy(bs[i].name@) && model_matches(bs[i].name@, model),
        forall|j: int|
            0 <= j < i ==> !(bs[j].enabled && health.spec_is_healthy(bs[j].name@) && model_matches(
                bs[j].name@,
                model,
            )),
    ensures
        model_pick(bs, health, model) == i,
    decreases i,
{
    if i > 0 {
        lemma_model_pick_at(bs.skip(1), health, model, i - 1);
    }
}

proof fn lemma_model_pick_none(bs: Seq<Backend>, health: &HealthCheckManager, model: Seq<char>)
    requires
        forall|j: int|
            0 <= j < bs.len() ==> !(bs[j].enabled && health.spec_is_healthy(bs[j].name@)
                && model_matches(bs[j].name@, model)),
    ensures
        model_pick(bs, health, model) == -1,
    decreases bs.len(),
{
    if bs.len() > 0 {
        lemma_model_pick_none(bs.skip(1), health, model);
    }
}

proof fn lemma_first_eligible_at(bs: Seq<Backend>, health: &HealthCheckManager, i: int)
    requires
        0 <= i < bs.len(),
        bs[i].enabled && health.spec_is_healthy(bs[i].name@),
        forall|j: int| 0 <= j < i ==> !(bs[j].enabled && health.spec_is_healthy(bs[j].name@)),
    ensures
        first_eligible(bs, health) == i,
    decreases i,
{
    if i > 0 {
        lemma_first_eligible_at(bs.skip(1), health, i - 1);
    }
}

proof fn lemma_first_eligible_none(bs: Seq<Backend>, health: &HealthCheckManager)
    requires
        forall|j: int| 0 <= j < bs.len() ==> !(bs[j].enabled && health.spec_is_healthy(bs[j].name@)),
    ensures
        first_eligible(bs, health) == -1,
    decreases bs.len(),
{
    if bs.len() > 0 {
        lemma_first_eligible_none(bs.skip(1), health);
    }
}

/// Dynamic router for backend selection.
#[derive(Debug)]
pub struct Router {
    config: RouterConfig,
}

impl Router {
    /// The configured default backend name.
    pub closed spec fn spec_default_backend(&self) -> Option<Seq<char>> {
        match self.config.default_backend {
            Some(s) => Some(s@),
            None => None,
        }
    }

    /// Whether fallback routing is enabled.
    pub closed spec fn spec_fallback_enabled(&self) -> bool {
        self.config.fallback_enabled
    }

    /// A router with the default configuration: no default backend,
    /// fallback enabled.
    pub fn new() -> (r: Self)
        ensures
            r.spec_default_backend() is None,
            r.spec_fallback_enabled(),
    {
        Router { config: RouterConfig::default() }
    }

    /// A router with the given configuration.
    pub fn with_config(config: RouterConfig) -> (r: Self)
        ensures
            match config.default_backend {
                Some(s) => r.spec_default_backend() == Some(s@),
                None => r.spec_default_backend() is None,
            },
            r.spec_fallback_enabled() == config.fallback_enabled,
    {
        Router { config }
    }

    /// Set the default backend.
    pub fn set_default_backend(&mut self, name: Option<String>)
        ensures
            match name {
                Some(s) => final(self).spec_default_backend() == Some(s@),
                None => final(self).spec_default_backend() is None,
            },
            final(self).spec_fallback_enabled() == old(self).spec_fallback_enabled(),
    {
        self.config.default_backend = name;
    }

    /// Enable or disable fallback routing.
    pub fn set_fallback_enabled(&mut self, enabled: bool)
        ensures
            final(self).spec_fallback_enabled() == enabled,
            final(self).spec_default_backend() == old(self).spec_default_backend(),
    {
        self.config.fallback_enabled = enabled;
    }

    /// Route a request: the registry position of the backend the
    /// cascade chooses, or the most specific error.
    pub fn route(
        &self,
        registry: &BackendRegistry,
        health: &HealthCheckManager,
        backend_name: Option<&str>,
        model: Option<&str>,
    ) -> (r: Result<usize, AppError>)
        ensures
            ({
                let bs = registry.view_backends();
                let name_view = match backend_name {
                    Some(n) => Some(n@),
                    None => None,
                };
                let model_view = match model {
                    Some(m) => Some(m@),
                    None => None,
                };
                let choice = route_choice(
                    bs,
                    health,
                    self.spec_default_backend(),
                    self.spec_fallback_enabled(),
                    name_view,
                    model_view,
                );
                match choice {
                    RouteChoice::Backend(i) => r == Ok::<usize, AppError>(i),
                    RouteChoice::NotFound => (r matches Err(e) && e matches
                        AppError::BackendNotFound(m) && m@ == name_view.unwrap()),
                    RouteChoice::Disabled => (r matches Err(e) && e matches
                        AppError::BackendNotFound(m) && m@ == "backend is disabled"@),
                    RouteChoice::Unhealthy => (r matches Err(e) && e matches
                        AppError::NoHealthyBackends(m) && m@ == name_view.unwrap()),
                    RouteChoice::NoneAvailable => (r matches Err(e) && e matches
                        AppError::NoHealthyBackends(m) && m@ == "No available backends"@),
                }
            }),
    {
        if let Some(name) = backend_name {
            return self.get_healthy_backend(registry, health, name);
        }
        let backends = registry.get_all();
        let n: usize = backends.len();
        if let Some(m) = model {
            let mut i: usize = 0;
            while i < n
                invariant
                    i <= n,
                    n == backends@.len(),
                    backends@ == registry.view_backends(),
                    backend_name is None,
                    model == Some(m),
                    forall|j: int|
                        0 <= j < i ==> !(backends@[j].enabled && health.spec_is_healthy(
                            backends@[j].name@,
                        ) && model_matches(backends@[j].name@, m@)),
                decreases n - i,
            {
                let b: &Backend = &backends[i];
                if b.is_enabled() && health.is_healthy(b.name.as_str()) && Self::matches_model(
                    b.name.as_str(),
                    m,
                ) {
                    proof {
                        lemma_model_pick_at(backends@, health, m@, i as int);
                    }
                    return Ok(i);
                }
                i = i + 1;
            }
            proof {
                lemma_model_pick_none(backends@, health, m@);
            }
        }
        if let Some(d) = &self.config.default_backend {
            let attempt = self.get_healthy_backend(registry, health, d.as_str());
            if let Ok(i) = attempt {
                return Ok(i);
            }
        }
        if self.config.fallback_enabled {
            let mut i: usize = 0;
            while i < n
                invariant
                    i <= n,
                    n == backends@.len(),
                    backends@ == registry.view_backends(),
                    backend_name is None,
                    match model {
                        Some(m) => model_pick(backends@, health, m@) == -1,
                        None => true,
                    },
                    match self.spec_default_backend() {
                        Some(d) => !(explicit_choice(backends@, health, d) is Backend),
                        None => true,
                    },
                    self.spec_fallback_enabled(),
                    forall|j: int|
                        0 <= j < i ==> !(backends@[j].enabled && health.spec_is_healthy(
                            backends@[j].name@,
                        )),
                decreases n - i,
            {
                let b: &Backend = &backends[i];
                if b.is_enabled() && health.is_healthy(b.name.as_str()) {
                    proof {
                        lemma_first_eligible_at(backends@, health, i as int);
                    }
                    return Ok(i);
                }
                i = i + 1;
            }
            proof {
                lemma_first_eligible_none(backends@, health);
            }
        }
        Err(AppError::NoHealthyBackends(String::from_str("No available backends")))
    }

    /// Resolve one name: the registry position when the backend is
    /// registered, enabled and healthy, else the most specific error.
    fn get_healthy_backend(
        &self,
        registry: &BackendRegistry,
        health: &HealthCheckManager,
        name: &str,
    ) -> (r: Result<usize, AppError>)
        ensures
            ({
                let choice = explicit_choice(registry.view_backends(), health, name@);
                match choice {
                    RouteChoice::Backend(i) => r == Ok::<usize, AppError>(i),
                    RouteChoice::NotFound => (r matches Err(e) && e matches
                        AppError::BackendNotFound(m) && m@ == name@),
                    RouteChoice::Disabled => (r matches Err(e) && e matches
                        AppError::BackendNotFound(m) && m@ == "backend is disabled"@),
                    RouteChoice::Unhealthy => (r matches Err(e) && e matches
                        AppError::NoHealthyBackends(m) && m@ == name@),
                    RouteChoice::NoneAvailable => false,
                }
            }),
    {
        let backends = registry.get_all();
        let n: usize = backends.len();
        proof {
            crate::registry::lemma_find_index_props(registry.view_backends(), name@);
        }
        let mut i: usize = 0;
        while i < n
            invariant
                i <= n,
                n == backends@.len(),
                backends@ == registry.view_backends(),
                forall|j: int| 0 <= j < i ==> backends@[j].name@ != name@,
            decreases n - i,
        {
            if str_eq(backends[i].name.as_str(), name) {
                proof {
                    crate::registry::lemma_find_index_first(backends@, i as int, name@);
                }
                let b: &Backend = &backends[i];
                if !b.is_enabled() {
                    return Err(
                        AppError::BackendNotFound(String::from_str("backend is disabled")),
                    );
                }
                if !health.is_healthy(name) {
                    return Err(AppError::NoHealthyBackends(String::from_str(name)));
                }
                return Ok(i);
            }
            i = i + 1;
        }
        proof {
            crate::registry::lemma_find_index_missing(backends@, name@);
        }
        Err(AppError::BackendNotFound(String::from_str(name)))
    }

    /// The model-name heuristic on one backend name, executed.
    fn matches_model(bname: &str, model: &str) -> (r: bool)
        ensures
            r == model_matches(bname@, model@),
    {
        let bl = to_ascii_lowercase(bname);
        let ml = to_ascii_lowercase(model);
        if contains_str(ml.as_str(), bl.as_str()) || contains_str(bl.as_str(), ml.as_str()) {
            return true;
        }
        if (contains_str(ml.as_str(), "stable") || contains_str(ml.as_str(), "sd")) && (
        contains_str(bl.as_str(), "stable") || contains_str(bl.as_str(), "sd")) {
            return true;
        }
        if contains_str(ml.as_str(), "dall") && (contains_str(bl.as_str(), "dall") || contains_str(
            bl.as_str(),
            "openai",
        )) {
            return true;
        }
        false
    }
}

} // verus!
