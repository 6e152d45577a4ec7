//! Load balancer: selects one backend among the enabled and healthy
//! ones under a configurable policy.

use vstd::prelude::*;
use vstd::string::*;

use crate::backend::Backend;
use crate::error::AppError;
use crate::health::HealthCheckManager;
use crate::registry::{find_index, BackendRegistry};

verus! {

/// Load balancing strategy.
#[derive(Debug, Clone, Copy, PartialEq, Eq, Structural)]
pub enum LoadBalancingStrategy {
    /// Round-robin distribution.
    RoundRobin,
    /// Weighted round-robin based on backend weights.
    WeightedRoundRobin,
    /// Selection by a caller-supplied entropy value.
    Random,
    /// Reserved; falls back to round-robin.
    LeastConnections,
}

impl Default for LoadBalancingStrategy {
    fn default() -> (r: Self)
        ensures
            r is RoundRobin,
    {
        LoadBalancingStrategy::RoundRobin
    }
}

/// Greatest common divisor, as a mathematical function.
pub open spec fn gcd_spec(a: nat, b: nat) -> nat
    decreases b,
{
    if b == 0 {
        a
    } else {
        gcd_spec(b, (a % b) as nat)
    }
}

/// Greatest common divisor of two non-negative numbers.
pub fn gcd(a: i32, b: i32) -> (r: i32)
    requires
        a >= 0,
        b >= 0,
    ensures
        r == gcd_spec(a as nat, b as nat),
    decreases b,
{
    if b == 0 {
        a
    } else {
        gcd(b, a % b)
    }
}

/// Greatest common divisor on u32, as the weight fold uses it.
fn gcd_u32(a: u32, b: u32) -> (r: u32)
    ensures
        r == gcd_spec(a as nat, b as nat),
    decreases b,
{
    if b == 0 {
        a
    } else {
        gcd_u32(b, a % b)
    }
}

/// Indices of the backends that are enabled and currently healthy, in
/// registry order.
pub open spec fn eligible_indices(bs: Seq<Backend>, health: &HealthCheckManager) -> Seq<usize>
    decreases bs.len(),
{
    if bs.len() == 0 {
        Seq::empty()
    } else {
        let pre = eligible_indices(bs.drop_last(), health);
        if bs.last().enabled && health.spec_is_healthy(bs.last().name@) {
            pre.push((bs.len() - 1) as usize)
        } else {
            pre
        }
    }
}

/// Every eligible index is in bounds and names an enabled, healthy
/// backend.
pub proof fn lemma_eligible_indices(bs: Seq<Backend>, health: &HealthCheckManager)
    requires
        bs.len() <= usize::MAX,
    ensures
        eligible_indices(bs, health).len() <= bs.len(),
        forall|k: int|
            0 <= k < eligible_indices(bs, health).len() ==> {
                let idx = #[trigger] eligible_indices(bs, health)[k];
                &&& idx < bs.len()
                &&& bs[idx as int].enabled
                &&& health.spec_is_healthy(bs[idx as int].name@)
            },
    decreases bs.len(),
{
    if bs.len() > 0 {
        lemma_eligible_indices(bs.drop_last(), health);
        let pre = eligible_indices(bs.drop_last(), health);
        assert(forall|j: int| 0 <= j < bs.len() - 1 ==> bs.drop_last()[j] == bs[j]);
        if bs.last().enabled && health.spec_is_healthy(bs.last().name@) {
            assert(eligible_indices(bs, health) == pre.push((bs.len() - 1) as usize));
            assert forall|k: int| 0 <= k < eligible_indices(bs, health).len() implies {
                let idx = #[trigger] eligible_indices(bs, health)[k];
                &&& idx < bs.len()
                &&& bs[idx as int].enabled
                &&& health.spec_is_healthy(bs[idx as int].name@)
            } by {
                if k < pre.len() {
                    assert(eligible_indices(bs, health)[k] == pre[k]);
                } else {
                    assert((bs.len() - 1) as usize == bs.len() - 1);
                    assert(eligible_indices(bs, health)[k] == (bs.len() - 1) as usize);
                }
            }
        } else {
            assert(eligible_indices(bs, health) == pre);
        }
    }
}

/// A backend's weight as the balancer uses it: at least one.
pub open spec fn clamp_weight(w: u32) -> u32 {
    if w == 0 {
        1u32
    } else {
        w
    }
}

/// The clamped weights of the eligible backends, in order.
pub open spec fn eligible_weights(bs: Seq<Backend>, elig: Seq<usize>) -> Seq<u32> {
    elig.map_values(|i: usize| clamp_weight(bs[i as int].weight))
}

/// One advance of the weighted round-robin state over `n` slots with
/// weight step `g` and ceiling `maxw`: the index moves on; on a wrap
/// the current weight drops by `g`, cycling back up to `maxw` when it
/// runs out.
pub open spec fn wrr_advance(idx: int, cw: int, n: int, g: int, maxw: int) -> (int, int) {
    let idx2 = (idx + 1) % n;
    if idx2 == 0 {
        if cw <= g {
            (idx2, maxw)
        } else {
            (idx2, cw - g)
        }
    } else {
        (idx2, cw)
    }
}

/// Weighted round-robin selection: advance until the slot's weight
/// reaches the current weight; the result is the chosen slot and the
/// state left behind. The fuel bounds the walk; when it runs out the
/// first slot is chosen. The fuel the executable code supplies always
/// suffices for the walk to settle, so that branch is never reached at
/// run time.
pub open spec fn wrr_select(
    idx: int,
    cw: int,
    weights: Seq<u32>,
    g: int,
    maxw: int,
    fuel: nat,
) -> (int, int, int)
    decreases fuel,
{
    if fuel == 0 {
        (0, idx, cw)
    } else {
        let (idx2, cw2) = wrr_advance(idx, cw, weights.len() as int, g, maxw);
        if weights[idx2] >= cw2 {
            (idx2, idx2, cw2)
        } else {
            wrr_select(idx2, cw2, weights, g, maxw, (fuel - 1) as nat)
        }
    }
}

/// Greatest common divisor of a weight sequence, folded left to right
/// from zero.
pub open spec fn weights_gcd(ws: Seq<u32>) -> nat
    decreases ws.len(),
{
    if ws.len() == 0 {
        0
    } else {
        gcd_spec(weights_gcd(ws.drop_last()), ws.last() as nat)
    }
}

/// Maximum of a weight sequence, over a floor of one.
pub open spec fn weights_max(ws: Seq<u32>) -> int
    decreases ws.len(),
{
    if ws.len() == 0 {
        1
    } else {
        let pre = weights_max(ws.drop_last());
        if ws.last() >= pre {
            ws.last() as int
        } else {
            pre
        }
    }
}

/// The fuel that suffices for one weighted round-robin pick: enough
/// steps to walk every slot at every weight level, twice over, capped
/// at the machine word.
pub open spec fn wrr_fuel(n: nat, g: int, maxw: int) -> nat {
    let gg: int = if g <= 0 {
        1
    } else {
        g
    };
    let raw: int = ((maxw / gg) + 2) * (n as int);
    if raw > u64::MAX {
        u64::MAX as nat
    } else {
        raw as nat
    }
}

/// Load balancer for distributing requests across backends.
#[derive(Debug)]
pub struct LoadBalancer {
    strategy: LoadBalancingStrategy,
    round_robin_index: u64,
    wrr_index: usize,
    wrr_weight: u64,
}

impl LoadBalancer {
    /// The strategy in force.
    pub closed spec fn spec_strategy(&self) -> LoadBalancingStrategy {
        self.strategy
    }

    /// The round-robin counter.
    pub closed spec fn spec_rr_counter(&self) -> u64 {
        self.round_robin_index
    }

    /// The weighted round-robin state: slot index and current weight.
    pub closed spec fn spec_wrr_state(&self) -> (int, int) {
        (self.wrr_index as int, self.wrr_weight as int)
    }

    /// A fresh balancer: round-robin, counters at zero.
    pub fn new() -> (r: Self)
        ensures
            r.spec_strategy() is RoundRobin,
            r.spec_rr_counter() == 0,
            r.spec_wrr_state() == (0int, 0int),
    {
        LoadBalancer {
            strategy: LoadBalancingStrategy::default(),
            round_robin_index: 0,
            wrr_index: 0,
            wrr_weight: 0,
        }
    }

    /// Set the load balancing strategy.
    pub fn set_strategy(&mut self, strategy: LoadBalancingStrategy)
        ensures
            final(self).spec_strategy() == strategy,
            final(self).spec_rr_counter() == old(self).spec_rr_counter(),
            final(self).spec_wrr_state() == old(self).spec_wrr_state(),
    {
        self.strategy = strategy;
    }

    /// Get the current load balancing strategy.
    pub fn strategy(&self) -> (r: LoadBalancingStrategy)
        ensures
            r == self.spec_strategy(),
    {
        self.strategy
    }

    /// Round-robin pick over `n` slots: the counter's current value
    /// modulo `n`, advancing the counter (wrapping at the top).
    pub fn select_round_robin(&mut self, n: usize) -> (i: usize)
        requires
            n > 0,
        ensures
            i == old(self).spec_rr_counter() % (n as u64),
            i < n,
            old(self).spec_rr_counter() < u64::MAX ==> final(self).spec_rr_counter() == old(self).spec_rr_counter() + 1,
            old(self).spec_rr_counter() == u64::MAX ==> final(self).spec_rr_counter() == 0,
            final(self).spec_strategy() == old(self).spec_strategy(),
            final(self).spec_wrr_state() == old(self).spec_wrr_state(),
    {
        let idx: usize = (self.round_robin_index % (n as u64)) as usize;
        if self.round_robin_index == u64::MAX {
            self.round_robin_index = 0;
        } else {
            self.round_robin_index = self.round_robin_index + 1;
        }
        idx
    }

    /// Selection by a caller-supplied entropy value, typically a
    /// clock reading: the value modulo `n`.
    pub fn select_random(&self, n: usize, entropy: u64) -> (i: usize)
        requires
            n > 0,
        ensures
            i == entropy % (n as u64),
            i < n,
    {
        (entropy % (n as u64)) as usize
    }

    /// Weighted round-robin pick over a non-empty weight sequence.
    /// With one slot there is nothing to balance; otherwise the state
    /// walks as `wrr_select` describes, with step `gcd(weights)` and
    /// ceiling `max(weights)`.
    pub fn select_weighted_round_robin(&mut self, weights: &Vec<u32>) -> (i: usize)
        requires
            weights@.len() > 0,
            forall|k: int| 0 <= k < weights@.len() ==> weights@[k] >= 1,
            old(self).spec_wrr_state().0 < weights@.len(),
        ensures
            i < weights@.len(),
            final(self).spec_strategy() == old(self).spec_strategy(),
            final(self).spec_rr_counter() == old(self).spec_rr_counter(),
            weights@.len() == 1 ==> i == 0 && final(self).spec_wrr_state() == old(self).spec_wrr_state(),
            weights@.len() > 1 ==> ({
                let g = weights_gcd(weights@) as int;
                let maxw = weights_max(weights@);
                let (chosen, idx2, cw2) = wrr_select(
                    old(self).spec_wrr_state().0,
                    old(self).spec_wrr_state().1,
                    weights@,
                    g,
                    maxw,
                    wrr_fuel(weights@.len() as nat, g, maxw),
                );
                &&& i == chosen
                &&& final(self).spec_wrr_state() == (idx2, cw2)
            }),
    {
        let n: usize = weights.len();
        if n == 1 {
            return 0;
        }
        let mut g: u32 = 0;
        let mut maxw: u32 = 1;
        let mut k: usize = 0;
        while k < n
            invariant
                k <= n,
                n == weights@.len(),
                g == weights_gcd(weights@.subrange(0, k as int)),
                maxw == weights_max(weights@.subrange(0, k as int)),
                self == old(self),
            decreases n - k,
        {
            proof {
                assert(weights@.subrange(0, k + 1).drop_last() =~= weights@.subrange(0, k as int));
            }
            let w: u32 = weights[k];
            g = gcd_u32(g, w);
            if w >= maxw {
                maxw = w;
            }
            k = k + 1;
        }
        proof {
            assert(weights@.subrange(0, n as int) =~= weights@);
        }
        let gg: u32 = if g == 0 {
            1
        } else {
            g
        };
        let per: u64 = (maxw / gg) as u64 + 2;
        let fuel_start: u64 = match per.checked_mul(n as u64) {
            Some(f) => f,
            None => u64::MAX,
        };
        let ghost spec_fuel = wrr_fuel(n as nat, g as int, maxw as int);
        proof {
            assert(fuel_start == spec_fuel);
        }
        let mut fuel: u64 = fuel_start;
        let mut idx: usize = self.wrr_index;
        let mut cw: u64 = self.wrr_weight;
        loop
            invariant
                n == weights@.len(),
                n > 1,
                idx < n,
                g == weights_gcd(weights@),
                maxw == weights_max(weights@),
                spec_fuel == wrr_fuel(n as nat, g as int, maxw as int),
                wrr_select(
                    old(self).spec_wrr_state().0,
                    old(self).spec_wrr_state().1,
                    weights@,
                    g as int,
                    maxw as int,
                    spec_fuel,
                ) == wrr_select(idx as int, cw as int, weights@, g as int, maxw as int, fuel as nat),
                self == old(self),
            decreases fuel,
        {
            if fuel == 0 {
                self.wrr_index = idx;
                self.wrr_weight = cw;
                return 0;
            }
            let idx2: usize = if idx + 1 == n {
                0
            } else {
                idx + 1
            };
            let cw2: u64 = if idx2 == 0 {
                if cw <= g as u64 {
                    maxw as u64
                } else {
                    cw - g as u64
                }
            } else {
                cw
            };
            proof {
                if idx + 1 < n {
                    vstd::arithmetic::div_mod::lemma_small_mod((idx + 1) as nat, n as nat);
                } else {
                    vstd::arithmetic::div_mod::lemma_mod_self_0(n as int);
                }
                assert((idx + 1) % (n as int) == idx2 as int);
                assert(wrr_advance(idx as int, cw as int, n as int, g as int, maxw as int) == (
                    idx2 as int,
                    cw2 as int,
                ));
            }
            if (weights[idx2] as u64) >= cw2 {
                self.wrr_index = idx2;
                self.wrr_weight = cw2;
                proof {
                    assert(wrr_select(
                        idx as int,
                        cw as int,
                        weights@,
                        g as int,
                        maxw as int,
                        fuel as nat,
                    ) == (idx2 as int, idx2 as int, cw2 as int));
                }
                return idx2;
            }
            proof {
                assert(!(weights@[idx2 as int] >= cw2));
                assert(wrr_select(idx as int, cw as int, weights@, g as int, maxw as int, fuel as nat)
                    == wrr_select(
                    idx2 as int,
                    cw2 as int,
                    weights@,
                    g as int,
                    maxw as int,
                    (fuel - 1) as nat,
                ));
            }
            idx = idx2;
            cw = cw2;
            fuel = fuel - 1;
        }
    }

    /// Select a backend for a request: the position of the chosen
    /// backend in the registry's order. An explicit name short-cuts to
    /// that backend or fails with the name; otherwise the strategy in
    /// force picks among the enabled, healthy backends, and an empty
    /// eligible set fails. `entropy` feeds the random policy.
    pub fn select_backend(
        &mut self,
        registry: &BackendRegistry,
        health: &HealthCheckManager,
        backend_name: Option<&str>,
        entropy: u64,
    ) -> (r: Result<usize, AppError>)
        ensures
            match backend_name {
                Some(name) => {
                    &&& *final(self) == *old(self)
                    &&& (find_index(registry.view_backends(), name@) >= 0 ==> r == Ok::<
                        usize,
                        AppError,
                    >(find_index(registry.view_backends(), name@) as usize))
                    &&& (find_index(registry.view_backends(), name@) == -1 ==> (r matches Err(e)
                        && e matches AppError::BackendNotFound(m) && m@ == name@))
                },
                None => {
                    let bs = registry.view_backends();
                    let elig = eligible_indices(bs, health);
                    &&& final(self).spec_strategy() == old(self).spec_strategy()
                    &&& (elig.len() == 0 <==> (r matches Err(e) && e matches
                        AppError::NoHealthyBackends(m) && m@ == "all"@))
                    &&& (elig.len() > 0 ==> (r matches Ok(i) && elig.contains(i as usize) && i
                        < bs.len() && bs[i as int].enabled && health.spec_is_healthy(
                        bs[i as int].name@,
                    )))
                    &&& (elig.len() > 0 && (old(self).spec_strategy() is RoundRobin || old(self).spec_strategy() is LeastConnections) ==> {
                        &&& r == Ok::<usize, AppError>(
                            elig[(old(self).spec_rr_counter() % (elig.len() as u64)) as int],
                        )
                        &&& (old(self).spec_rr_counter() < u64::MAX ==> final(self).spec_rr_counter() == old(self).spec_rr_counter() + 1)
                    })
                    &&& (elig.len() > 0 && old(self).spec_strategy() is Random ==> r == Ok::<
                        usize,
                        AppError,
                    >(elig[(entropy % (elig.len() as u64)) as int]) && *final(self) == *old(self))
                    &&& (elig.len() > 1 && old(self).spec_strategy() is WeightedRoundRobin ==> {
                        let ws = eligible_weights(bs, elig);
                        let start = if old(self).spec_wrr_state().0 >= elig.len() {
                            0int
                        } else {
                            old(self).spec_wrr_state().0
                        };
                        let gw = weights_gcd(ws) as int;
                        let mw = weights_max(ws);
                        let (chosen, idx2, cw2) = wrr_select(
                            start,
                            old(self).spec_wrr_state().1,
                            ws,
                            gw,
                            mw,
                            wrr_fuel(ws.len() as nat, gw, mw),
                        );
                        r == Ok::<usize, AppError>(elig[chosen]) && final(self).spec_wrr_state()
                            == (idx2, cw2)
                    })
                    &&& (elig.len() == 1 && old(self).spec_strategy() is WeightedRoundRobin ==> r
                        == Ok::<usize, AppError>(elig[0]))
                },
            },
    {
        if let Some(name) = backend_name {
            match registry.get(name) {
                Some(_) => {
                    let r = self.find_registry_index(registry, name);
                    return Ok(r);
                },
                None => {
                    return Err(AppError::BackendNotFound(String::from_str(name)));
                },
            }
        }
        let backends = registry.get_all();
        let n: usize = backends.len();
        let mut elig: Vec<usize> = Vec::new();
        let mut weights: Vec<u32> = Vec::new();
        let mut i: usize = 0;
        while i < n
            invariant
                i <= n,
                n == backends@.len(),
                backends@ == registry.view_backends(),
                elig@ == eligible_indices(backends@.subrange(0, i as int), health),
                weights@ == eligible_weights(backends@.subrange(0, i as int), elig@),
                forall|k: int| 0 <= k < elig@.len() ==> #[trigger] elig@[k] < i,
                self == old(self),
            decreases n - i,
        {
            proof {
                assert(backends@.subrange(0, i + 1).drop_last() =~= backends@.subrange(
                    0,
                    i as int,
                ));
            }
            let b: &Backend = &backends[i];
            let ghost pre_elig = elig@;
            if b.is_enabled() && health.is_healthy(b.name.as_str()) {
                elig.push(i);
                let w: u32 = if b.weight == 0 {
                    1
                } else {
                    b.weight
                };
                weights.push(w);
                proof {
                    let sub2 = backends@.subrange(0, i + 1);
                    assert(elig@ == eligible_indices(sub2, health));
                    assert forall|k: int| 0 <= k < elig@.len() implies weights@[k] == clamp_weight(
                        sub2[elig@[k] as int].weight,
                    ) by {
                        if k < pre_elig.len() {
                            assert(weights@[k] == eligible_weights(
                                backends@.subrange(0, i as int),
                                pre_elig,
                            )[k]);
                            assert(backends@.subrange(0, i as int)[pre_elig[k] as int] == sub2[
                                pre_elig[k] as int]);
                        }
                    }
                    assert(weights@ =~= eligible_weights(sub2, elig@));
                }
            } else {
                proof {
                    assert(weights@ =~= eligible_weights(
                        backends@.subrange(0, i + 1),
                        elig@,
                    ));
                }
            }
            i = i + 1;
        }
        proof {
            assert(backends@.subrange(0, n as int) =~= backends@);
            lemma_eligible_indices(backends@, health);
        }
        if elig.len() == 0 {
            return Err(AppError::NoHealthyBackends(String::from_str("all")));
        }
        let m: usize = elig.len();
        let pick: usize = match self.strategy {
            LoadBalancingStrategy::RoundRobin => self.select_round_robin(m),
            LoadBalancingStrategy::LeastConnections => self.select_round_robin(m),
            LoadBalancingStrategy::Random => self.select_random(m, entropy),
            LoadBalancingStrategy::WeightedRoundRobin => {
                if self.wrr_index >= m {
                    self.wrr_index = 0;
                }
                self.select_weighted_round_robin(&weights)
            },
        };
        let chosen: usize = elig[pick];
        proof {
            assert(elig@.contains(elig@[pick as int]));
        }
        Ok(chosen)
    }

    /// Position of a registered name, for callers that resolved it by
    /// name first.
    fn find_registry_index(&self, registry: &BackendRegistry, name: &str) -> (r: usize)
        requires
            find_index(registry.view_backends(), name@) >= 0,
        ensures
            r == find_index(registry.view_backends(), name@),
    {
        let backends = registry.get_all();
        let n: usize = backends.len();
        proof {
            crate::registry::lemma_find_index_props(registry.view_backends(), name@);
        }
        let mut i: usize = 0;
        while i < n
            invariant
                i <= n,
                n == backends@.len(),
                backends@ == registry.view_backends(),
                find_index(backends@, name@) >= 0,
                find_index(backends@, name@) < backends@.len(),
                backends@[find_index(backends@, name@)].name@ == name@,
                forall|j: int| 0 <= j < i ==> backends@[j].name@ != name@,
            decreases n - i,
        {
            if crate::text::str_eq(backends[i].name.as_str(), name) {
                proof {
                    crate::registry::lemma_find_index_first(backends@, i as int, name@);
                }
                return i;
            }
            i = i + 1;
        }
        proof {
            assert(false);
        }
        0
    }
}

/// Number of times slot `j` is chosen over `k` consecutive
/// round-robin picks over `n` slots, the first pick taken at counter
/// value `c0` (each pick is the counter modulo `n`).
pub open spec fn rr_hits(c0: int, n: int, k: nat, j: int) -> int
    decreases k,
{
    if k == 0 {
        0int
    } else {
        rr_hits(c0, n, (k - 1) as nat, j) + if (c0 + k - 1) % n == j {
            1int
        } else {
            0int
        }
    }
}

/// How many picks pass before the counter first lands on slot `j`.
pub open spec fn rr_delay(c0: int, n: int, j: int) -> int {
    (j - c0) % n
}

/// Closed form of `rr_hits`: nothing lands before the delay runs out,
/// and from then on exactly one hit per full cycle.
pub open spec fn rr_hits_closed(c0: int, n: int, k: nat, j: int) -> int {
    let d = rr_delay(c0, n, j);
    if k <= d {
        0int
    } else {
        (k - d - 1) / n + 1
    }
}

/// The counter lands on slot `j` at pick `m` exactly when `m` is the
/// delay modulo the cycle length.
proof fn lemma_rr_lands(c0: int, n: int, m: int, j: int)
    requires
        n > 0,
        0 <= j < n,
        m >= 0,
    ensures
        ((c0 + m) % n == j) <==> (m % n == rr_delay(c0, n, j)),
{
    let d = rr_delay(c0, n, j);
    vstd::arithmetic::div_mod::lemma_mod_division_less_than_divisor(j - c0, n);
    vstd::arithmetic::div_mod::lemma_add_mod_noop_right(c0, j - c0, n);
    vstd::arithmetic::div_mod::lemma_small_mod(j as nat, n as nat);
    assert((c0 + d) % n == j);
    let e = m % n;
    vstd::arithmetic::div_mod::lemma_mod_division_less_than_divisor(m, n);
    vstd::arithmetic::div_mod::lemma_add_mod_noop_right(c0, m, n);
    assert((c0 + e) % n == (c0 + m) % n);
    if e != d {
        vstd::arithmetic::div_mod::lemma_fundamental_div_mod(c0 + e, n);
        vstd::arithmetic::div_mod::lemma_fundamental_div_mod(c0 + d, n);
        let q1 = (c0 + e) / n;
        let q2 = (c0 + d) / n;
        if (c0 + m) % n == j {
            assert(c0 + e == n * q1 + j);
            assert(c0 + d == n * q2 + j);
            assert(e - d == n * (q1 - q2)) by (nonlinear_arith)
                requires
                    c0 + e == n * q1 + j,
                    c0 + d == n * q2 + j,
            ;
            assert(-n < e - d < n);
            assert(false) by (nonlinear_arith)
                requires
                    e - d == n * (q1 - q2),
                    -n < e - d < n,
                    e != d,
                    n > 0,
            ;
        }
    }
}

/// The running count matches its closed form.
proof fn lemma_rr_hits_closed_form(c0: int, n: int, k: nat, j: int)
    requires
        n > 0,
        0 <= j < n,
        c0 >= 0,
    ensures
        rr_hits(c0, n, k, j) == rr_hits_closed(c0, n, k, j),
    decreases k,
{
    let d = rr_delay(c0, n, j);
    vstd::arithmetic::div_mod::lemma_mod_division_less_than_divisor(j - c0, n);
    if k > 0 {
        lemma_rr_hits_closed_form(c0, n, (k - 1) as nat, j);
        let m: int = k - 1;
        lemma_rr_lands(c0, n, m, j);
        if m < d {
            vstd::arithmetic::div_mod::lemma_small_mod(m as nat, n as nat);
        } else if m == d {
            vstd::arithmetic::div_mod::lemma_small_mod(m as nat, n as nat);
            assert(k - d - 1 == 0);
            vstd::arithmetic::div_mod::lemma_basic_div(0, n);
        } else {
            let t = m - d;
            vstd::arithmetic::div_mod::lemma_fundamental_div_mod(t, n);
            vstd::arithmetic::div_mod::lemma_mod_division_less_than_divisor(t, n);
            let q = t / n;
            let r = t % n;
            assert(t == q * n + r) by {
                assert(t == n * q + r);
                vstd::arithmetic::mul::lemma_mul_is_commutative(n, q);
            }
            assert(q >= 0) by (nonlinear_arith)
                requires
                    t == q * n + r,
                    t >= 1,
                    0 <= r < n,
                    n > 0,
            ;
            // Whether this pick hits: exactly when the cycle boundary
            // falls here, that is when r == 0.
            if r + d < n {
                vstd::arithmetic::div_mod::lemma_fundamental_div_mod_converse(m, n, q, r + d);
                assert(m == q * n + (r + d));
                assert(m % n == r + d);
            } else {
                assert(m == (q + 1) * n + (r + d - n)) by (nonlinear_arith)
                    requires
                        m == t + d,
                        t == q * n + r,
                ;
                vstd::arithmetic::div_mod::lemma_fundamental_div_mod_converse(
                    m,
                    n,
                    q + 1,
                    r + d - n,
                );
                assert(m % n == r + d - n);
            }
            if r == 0 {
                assert(m % n == d);
                assert(q >= 1) by (nonlinear_arith)
                    requires
                        t == q * n + r,
                        r == 0,
                        t >= 1,
                        q >= 0,
                        n > 0,
                ;
                assert(t - 1 == (q - 1) * n + (n - 1)) by (nonlinear_arith)
                    requires
                        t == q * n,
                ;
                vstd::arithmetic::div_mod::lemma_fundamental_div_mod_converse(
                    t - 1,
                    n,
                    q - 1,
                    n - 1,
                );
                assert((t - 1) / n == q - 1);
            } else {
                assert(m % n != d);
                assert(t - 1 == q * n + (r - 1));
                vstd::arithmetic::div_mod::lemma_fundamental_div_mod_converse(
                    t - 1,
                    n,
                    q,
                    r - 1,
                );
                assert((t - 1) / n == q);
            }
        }
    }
}

/// Round-robin fairness: over any window of `k` consecutive picks
/// across `n` slots, each slot is chosen either the rounded-down or
/// the rounded-up share of `k / n` times.
pub proof fn lemma_round_robin_fairness(c0: int, n: int, k: nat, j: int)
    requires
        n > 0,
        0 <= j < n,
        c0 >= 0,
    ensures
        rr_hits(c0, n, k, j) == (k as int) / n || rr_hits(c0, n, k, j) == (k as int) / n + 1,
{
    lemma_rr_hits_closed_form(c0, n, k, j);
    let d = rr_delay(c0, n, j);
    vstd::arithmetic::div_mod::lemma_mod_division_less_than_divisor(j - c0, n);
    if k <= d {
        vstd::arithmetic::div_mod::lemma_basic_div(k as int, n);
    } else {
        vstd::arithmetic::div_mod::lemma_fundamental_div_mod(k as int, n);
        vstd::arithmetic::div_mod::lemma_mod_division_less_than_divisor(k as int, n);
        let q = (k as int) / n;
        let r = (k as int) % n;
        assert(k as int == q * n + r) by {
            vstd::arithmetic::mul::lemma_mul_is_commutative(n, q);
        }
        let t = k - d - 1;
        if r > d {
            vstd::arithmetic::div_mod::lemma_fundamental_div_mod_converse(
                t,
                n,
                q,
                r - d - 1,
            );
            assert(t / n == q);
        } else {
            assert(q >= 1) by (nonlinear_arith)
                requires
                    k as int == q * n + r,
                    k > d,
                    d >= r,
                    0 <= r < n,
                    n > 0,
            ;
            assert(t == (q - 1) * n + (n + r - d - 1)) by (nonlinear_arith)
                requires
                    k as int == q * n + r,
                    t == k - d - 1,
            ;
            vstd::arithmetic::div_mod::lemma_fundamental_div_mod_converse(
                t,
                n,
                q - 1,
                n + r - d - 1,
            );
            assert(t / n == q - 1);
        }
    }
}

proof fn lemma_gcd_spec_idempotent(w: u32)
    requires
        w >= 1,
    ensures
        gcd_spec(0, w as nat) == w,
        gcd_spec(w as nat, w as nat) == w,
{
    vstd::arithmetic::div_mod::lemma_small_mod(0, w as nat);
    vstd::arithmetic::div_mod::lemma_mod_self_0(w as int);
    assert(gcd_spec(w as nat, 0) == w);
}

/// Over a uniform weight sequence the fold and the maximum both give
/// the common weight.
proof fn lemma_uniform_weight_stats(ws: Seq<u32>, w: u32)
    requires
        ws.len() > 0,
        w >= 1,
        forall|k: int| 0 <= k < ws.len() ==> ws[k] == w,
    ensures
        weights_gcd(ws) == w,
        weights_max(ws) == w,
    decreases ws.len(),
{
    lemma_gcd_spec_idempotent(w);
    assert(ws.last() == w);
    if ws.len() == 1 {
        assert(weights_gcd(ws) == gcd_spec(weights_gcd(ws.drop_last()), w as nat));
        assert(weights_gcd(ws.drop_last()) == 0);
        assert(weights_max(ws.drop_last()) == 1);
        assert(weights_max(ws) == w);
    } else {
        lemma_uniform_weight_stats(ws.drop_last(), w);
        assert(weights_max(ws) == w);
    }
}

/// With equal weights the weighted walk settles after a single
/// advance: the pick is simply the next slot, and the current weight
/// stays within the common weight.
pub proof fn lemma_wrr_uniform_step(idx: int, cw: int, ws: Seq<u32>, w: u32, fuel: nat)
    requires
        ws.len() > 0,
        w >= 1,
        forall|k: int| 0 <= k < ws.len() ==> ws[k] == w,
        0 <= idx < ws.len(),
        0 <= cw <= w,
        fuel >= 1,
    ensures
        ({
            let n = ws.len() as int;
            let (chosen, idx2, cw2) = wrr_select(
                idx,
                cw,
                ws,
                weights_gcd(ws) as int,
                weights_max(ws),
                fuel,
            );
            &&& chosen == (idx + 1) % n
            &&& idx2 == chosen
            &&& 0 <= cw2 <= w
        }),
{
    lemma_uniform_weight_stats(ws, w);
    let n = ws.len() as int;
    vstd::arithmetic::div_mod::lemma_mod_division_less_than_divisor(idx + 1, n);
    let (idx2, cw2) = wrr_advance(idx, cw, n, w as int, w as int);
    assert(ws[idx2] == w);
    assert(w >= cw2);
}

/// Hits of slot `j` over `k` successive weighted picks from a given
/// state, with the fuel the executable code supplies.
pub open spec fn wrr_uniform_hits(idx: int, cw: int, ws: Seq<u32>, k: nat, j: int) -> int
    decreases k,
{
    if k == 0 {
        0int
    } else {
        let g = weights_gcd(ws) as int;
        let maxw = weights_max(ws);
        let (chosen, idx2, cw2) = wrr_select(
            idx,
            cw,
            ws,
            g,
            maxw,
            wrr_fuel(ws.len() as nat, g, maxw),
        );
        (if chosen == j {
            1int
        } else {
            0int
        }) + wrr_uniform_hits(idx2, cw2, ws, (k - 1) as nat, j)
    }
}

/// With equal weights the weighted picks follow the round-robin
/// pattern exactly.
proof fn lemma_wrr_uniform_run(idx: int, cw: int, ws: Seq<u32>, w: u32, k: nat, j: int)
    requires
        ws.len() > 0,
        w >= 1,
        forall|t: int| 0 <= t < ws.len() ==> ws[t] == w,
        0 <= idx < ws.len(),
        0 <= cw <= w,
    ensures
        wrr_uniform_hits(idx, cw, ws, k, j) == rr_hits(idx + 1, ws.len() as int, k, j),
    decreases k,
{
    let n = ws.len() as int;
    if k > 0 {
        lemma_uniform_weight_stats(ws, w);
        let g = weights_gcd(ws) as int;
        let maxw = weights_max(ws);
        let fuel = wrr_fuel(ws.len() as nat, g, maxw);
        assert(fuel >= 1) by {
            vstd::arithmetic::div_mod::lemma_div_by_self(w as int);
            assert(((maxw / g) + 2) * n == 3 * n);
        }
        lemma_wrr_uniform_step(idx, cw, ws, w, fuel);
        let (chosen, idx2, cw2) = wrr_select(idx, cw, ws, g, maxw, fuel);
        vstd::arithmetic::div_mod::lemma_mod_division_less_than_divisor(idx + 1, n);
        lemma_wrr_uniform_run(idx2, cw2, ws, w, (k - 1) as nat, j);
        lemma_rr_hits_shift(idx + 1, n, (k - 1) as nat, j);
        // The continuation starts at the reduced index; counting is
        // congruent modulo the slot count.
        vstd::arithmetic::div_mod::lemma_add_mod_noop(idx + 1, 1, n);
        vstd::arithmetic::div_mod::lemma_mod_twice(idx + 1, n);
        vstd::arithmetic::div_mod::lemma_mod_division_less_than_divisor(idx + 2, n);
        assert((idx2 + 1) % n == (idx + 2) % n) by {
            assert(idx2 == (idx + 1) % n);
            if n == 1 {
                vstd::arithmetic::div_mod::lemma_mod_division_less_than_divisor(idx2 + 1, n);
            } else {
                vstd::arithmetic::div_mod::lemma_small_mod(1nat, n as nat);
                assert(((idx + 1) % n + 1int % n) % n == (idx + 2) % n);
            }
        }
        lemma_rr_hits_congruent(idx2 + 1, idx + 2, n, (k - 1) as nat, j);
    }
}

/// Two starting counters congruent modulo the slot count produce the
/// same hit counts.
proof fn lemma_rr_hits_congruent(c0: int, c1: int, n: int, k: nat, j: int)
    requires
        n > 0,
        c0 % n == c1 % n,
    ensures
        rr_hits(c0, n, k, j) == rr_hits(c1, n, k, j),
    decreases k,
{
    if k > 0 {
        lemma_rr_hits_congruent(c0, c1, n, (k - 1) as nat, j);
        vstd::arithmetic::div_mod::lemma_add_mod_noop(c0, k - 1, n);
        vstd::arithmetic::div_mod::lemma_add_mod_noop(c1, k - 1, n);
        assert((c0 + k - 1) % n == (c1 + k - 1) % n);
    }
}

/// Counting a window one pick later from the next counter value drops
/// exactly the first pick.
proof fn lemma_rr_hits_shift(c0: int, n: int, k: nat, j: int)
    requires
        n > 0,
    ensures
        rr_hits(c0, n, (k + 1) as nat, j) == (if c0 % n == j {
            1int
        } else {
            0int
        }) + rr_hits(c0 + 1, n, k, j),
    decreases k,
{
    if k == 0 {
        assert(rr_hits(c0, n, 1, j) == rr_hits(c0, n, 0, j) + (if (c0 + 0) % n == j {
            1int
        } else {
            0int
        }));
    } else {
        lemma_rr_hits_shift(c0, n, (k - 1) as nat, j);
        assert(rr_hits(c0, n, (k + 1) as nat, j) == rr_hits(c0, n, k, j) + (if (c0 + k) % n == j {
            1int
        } else {
            0int
        }));
        assert(rr_hits(c0 + 1, n, k, j) == rr_hits(c0 + 1, n, (k - 1) as nat, j) + (if (c0 + 1 + k
            - 1) % n == j {
            1int
        } else {
            0int
        }));
    }
}

/// The weighted distribution bound in the uniform case: with equal
/// weights, over any window of `k` weighted picks each slot is chosen
/// either the rounded-down or the rounded-up share of `k / n` times —
/// the weighted walk degenerates to round-robin. (With unequal
/// weights the per-slot share follows the weight proportions; that
/// general bound is exercised by test, not proved here.)
pub proof fn lemma_wrr_uniform_fairness(
    idx: int,
    cw: int,
    ws: Seq<u32>,
    w: u32,
    k: nat,
    j: int,
)
    requires
        ws.len() > 0,
        w >= 1,
        forall|t: int| 0 <= t < ws.len() ==> ws[t] == w,
        0 <= idx < ws.len(),
        0 <= cw <= w,
        0 <= j < ws.len(),
    ensures
        wrr_uniform_hits(idx, cw, ws, k, j) == (k as int) / (ws.len() as int)
            || wrr_uniform_hits(idx, cw, ws, k, j) == (k as int) / (ws.len() as int) + 1,
{
    lemma_wrr_uniform_run(idx, cw, ws, w, k, j);
    lemma_round_robin_fairness(idx + 1, ws.len() as int, k, j);
}

} // verus!
