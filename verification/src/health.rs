//! Health monitoring of backends: per-name rolling state driven by
//! probe outcomes. The periodic prober itself runs outside the
//! library and reports each probe's outcome here; all queries are
//! synchronous and touch no I/O.

use vstd::prelude::*;
use vstd::string::*;

use crate::backend::Backend;
use crate::registry::BackendRegistry;
use crate::text::str_eq;

verus! {

/// Consecutive probe failures before a backend is marked unhealthy.
pub const DEFAULT_FAILURE_THRESHOLD: u32 = 3;

/// Consecutive probe successes before an unhealthy backend recovers.
pub const DEFAULT_RECOVERY_THRESHOLD: u32 = 2;

/// Health status of a backend. Timestamps are caller-supplied ticks.
#[derive(Debug, Clone, Copy, PartialEq, Eq, Structural)]
pub struct HealthStatus {
    pub healthy: bool,
    pub last_check: u64,
    pub consecutive_failures: u32,
    pub consecutive_successes: u32,
}

impl HealthStatus {
    /// State of a backend never probed: healthy until proven
    /// otherwise, with empty streaks.
    pub fn init(now: u64) -> (s: Self)
        ensures
            s == (HealthStatus {
                healthy: true,
                last_check: now,
                consecutive_failures: 0,
                consecutive_successes: 0,
            }),
    {
        HealthStatus {
            healthy: true,
            last_check: now,
            consecutive_failures: 0,
            consecutive_successes: 0,
        }
    }
}

/// The never-probed state a periodic update starts from.
pub open spec fn fresh_status() -> HealthStatus {
    HealthStatus { healthy: true, last_check: 0, consecutive_failures: 0, consecutive_successes: 0 }
}

/// One periodic-probe update: a success resets the failure streak,
/// lengthens the success streak and recovers an unhealthy backend at
/// the recovery threshold; a failure does the opposite at the failure
/// threshold.
pub open spec fn probe_step(
    s: HealthStatus,
    success: bool,
    failure_threshold: u32,
    recovery_threshold: u32,
    now: u64,
) -> HealthStatus {
    if success {
        let successes = (s.consecutive_successes + 1) as u32;
        HealthStatus {
            healthy: s.healthy || successes >= recovery_threshold,
            last_check: now,
            consecutive_failures: 0,
            consecutive_successes: successes,
        }
    } else {
        let failures = (s.consecutive_failures + 1) as u32;
        HealthStatus {
            healthy: s.healthy && failures < failure_threshold,
            last_check: now,
            consecutive_failures: failures,
            consecutive_successes: 0,
        }
    }
}

/// One forced-probe update: the health flag follows the outcome
/// directly, and the streak counters advance as in a periodic update.
pub open spec fn force_probe_step(s: HealthStatus, success: bool, now: u64) -> HealthStatus {
    if success {
        HealthStatus {
            healthy: true,
            last_check: now,
            consecutive_failures: 0,
            consecutive_successes: (s.consecutive_successes + 1) as u32,
        }
    } else {
        HealthStatus {
            healthy: false,
            last_check: now,
            consecutive_failures: (s.consecutive_failures + 1) as u32,
            consecutive_successes: 0,
        }
    }
}

/// At most one of the two streak counters is non-zero.
pub open spec fn one_sided(s: HealthStatus) -> bool {
    s.consecutive_failures == 0 || s.consecutive_successes == 0
}

/// Every state the monitor reaches is one-sided: the never-probed
/// state is, and both update rules preserve it.
pub proof fn lemma_steps_preserve_one_sided(s: HealthStatus, success: bool, ft: u32, rt: u32, now: u64)
    ensures
        one_sided(fresh_status()),
        one_sided(probe_step(s, success, ft, rt, now)),
        one_sided(force_probe_step(s, success, now)),
{
}

/// Exactly one streak counter advances by one per health event, and
/// the other resets. In a one-sided state the counter sum rises by
/// exactly one precisely when the event continues the current streak;
/// an opposing event resets the sum to one.
pub proof fn lemma_health_event_counters(s: HealthStatus, success: bool, ft: u32, rt: u32, now: u64)
    requires
        s.consecutive_failures < u32::MAX,
        s.consecutive_successes < u32::MAX,
        one_sided(s),
    ensures
        ({
            let t = probe_step(s, success, ft, rt, now);
            let sum = s.consecutive_failures + s.consecutive_successes;
            let sum2 = t.consecutive_failures + t.consecutive_successes;
            &&& (success ==> t.consecutive_successes == s.consecutive_successes + 1
                && t.consecutive_failures == 0)
            &&& (!success ==> t.consecutive_failures == s.consecutive_failures + 1
                && t.consecutive_successes == 0)
            &&& ((sum2 == sum + 1) <==> (if success {
                s.consecutive_failures == 0
            } else {
                s.consecutive_successes == 0
            }))
            &&& (!(sum2 == sum + 1) ==> sum2 == 1)
        }),
{
}

/// A backend flips from healthy to unhealthy only once its failure
/// streak has reached the failure threshold.
pub proof fn lemma_unhealthy_flip_needs_threshold(
    s: HealthStatus,
    success: bool,
    ft: u32,
    rt: u32,
    now: u64,
)
    requires
        s.consecutive_failures < u32::MAX,
    ensures
        ({
            let t = probe_step(s, success, ft, rt, now);
            (s.healthy && !t.healthy) ==> t.consecutive_failures >= ft
        }),
{
}

/// A forced probe is idempotent on the health flag: a second forced
/// probe with the same outcome and no traffic in between leaves
/// `healthy` as the first left it. The streak counters are not
/// idempotent: the repeated call lengthens the streak by one more.
pub proof fn lemma_force_probe_idempotent_health(s: HealthStatus, success: bool, n1: u64, n2: u64)
    requires
        s.consecutive_failures + 2 <= u32::MAX,
        s.consecutive_successes + 2 <= u32::MAX,
    ensures
        ({
            let t1 = force_probe_step(s, success, n1);
            let t2 = force_probe_step(t1, success, n2);
            &&& t2.healthy == t1.healthy
            &&& (success ==> t2.consecutive_successes == t1.consecutive_successes + 1)
            &&& (!success ==> t2.consecutive_failures == t1.consecutive_failures + 1)
        }),
{
}

/// One tracked backend: its name and its rolling health state.
#[derive(Debug)]
pub struct StatusEntry {
    pub name: String,
    pub status: HealthStatus,
}

/// First position tracking this name, `-1` when none does.
pub open spec fn find_entry(es: Seq<StatusEntry>, name: Seq<char>) -> int
    decreases es.len(),
{
    if es.len() == 0 {
        -1
    } else if es[0].name@ == name {
        0
    } else {
        let r = find_entry(es.skip(1), name);
        if r == -1 {
            -1
        } else {
            r + 1
        }
    }
}

proof fn lemma_find_entry_at(es: Seq<StatusEntry>, i: int, name: Seq<char>)
    requires
        0 <= i < es.len(),
        es[i].name@ == name,
        forall|j: int| 0 <= j < i ==> es[j].name@ != name,
    ensures
        find_entry(es, name) == i,
    decreases i,
{
    if i > 0 {
        lemma_find_entry_at(es.skip(1), i - 1, name);
    }
}

proof fn lemma_find_entry_none(es: Seq<StatusEntry>, name: Seq<char>)
    requires
        forall|j: int| 0 <= j < es.len() ==> es[j].name@ != name,
    ensures
        find_entry(es, name) == -1,
    decreases es.len(),
{
    if es.len() > 0 {
        lemma_find_entry_none(es.skip(1), name);
    }
}

/// Names of the tracked backends that are currently unhealthy, in
/// tracking order.
pub open spec fn unhealthy_names(es: Seq<StatusEntry>) -> Seq<Seq<char>>
    decreases es.len(),
{
    if es.len() == 0 {
        Seq::empty()
    } else {
        let pre = unhealthy_names(es.drop_last());
        if !es.last().status.healthy {
            pre.push(es.last().name@)
        } else {
            pre
        }
    }
}

/// Health check manager: per-name health state, with the thresholds
/// that drive the flips.
#[derive(Debug)]
pub struct HealthCheckManager {
    entries: Vec<StatusEntry>,
    failure_threshold: u32,
    recovery_threshold: u32,
}

impl HealthCheckManager {
    /// The tracked entries, in first-seen order.
    pub closed spec fn entries(&self) -> Seq<StatusEntry> {
        self.entries@
    }

    /// The failure threshold in force.
    pub closed spec fn spec_failure_threshold(&self) -> u32 {
        self.failure_threshold
    }

    /// The recovery threshold in force.
    pub closed spec fn spec_recovery_threshold(&self) -> u32 {
        self.recovery_threshold
    }

    /// Tracked names are unique.
    pub closed spec fn wf(&self) -> bool {
        forall|i: int, j: int|
            0 <= i < j < self.entries@.len() ==> self.entries@[i].name@ != self.entries@[j].name@
    }

    /// The tracked state of a name, if any.
    pub open spec fn status_of(&self, name: Seq<char>) -> Option<HealthStatus> {
        let i = find_entry(self.entries(), name);
        if i >= 0 {
            Some(self.entries()[i].status)
        } else {
            None
        }
    }

    /// Whether a name counts as healthy: optimistic for names never
    /// probed.
    pub open spec fn spec_is_healthy(&self, name: Seq<char>) -> bool {
        match self.status_of(name) {
            Some(s) => s.healthy,
            None => true,
        }
    }

    /// A monitor with no history and the default thresholds.
    pub fn new() -> (r: Self)
        ensures
            r.entries().len() == 0,
            r.spec_failure_threshold() == DEFAULT_FAILURE_THRESHOLD,
            r.spec_recovery_threshold() == DEFAULT_RECOVERY_THRESHOLD,
            r.wf(),
    {
        HealthCheckManager {
            entries: Vec::new(),
            failure_threshold: DEFAULT_FAILURE_THRESHOLD,
            recovery_threshold: DEFAULT_RECOVERY_THRESHOLD,
        }
    }

    /// Record one periodic probe outcome for a name. A name never seen
    /// starts from the never-probed state.
    pub fn record_probe(&mut self, name: &str, success: bool, now: u64)
        requires
            old(self).wf(),
            match old(self).status_of(name@) {
                Some(s) => s.consecutive_failures < u32::MAX && s.consecutive_successes
                    < u32::MAX,
                None => true,
            },
        ensures
            final(self).wf(),
            final(self).spec_failure_threshold() == old(self).spec_failure_threshold(),
            final(self).spec_recovery_threshold() == old(self).spec_recovery_threshold(),
            final(self).status_of(name@) == Some(
                probe_step(
                    match old(self).status_of(name@) {
                        Some(s) => s,
                        None => fresh_status(),
                    },
                    success,
                    old(self).spec_failure_threshold(),
                    old(self).spec_recovery_threshold(),
                    now,
                ),
            ),
            forall|other: Seq<char>|
                other != name@ ==> #[trigger] final(self).status_of(other) == old(self).status_of(
                    other,
                ),
    {
        let ft = self.failure_threshold;
        let rt = self.recovery_threshold;
        let n: usize = self.entries.len();
        let mut i: usize = 0;
        while i < n
            invariant
                i <= n,
                n == self.entries@.len(),
                self == old(self),
                ft == old(self).spec_failure_threshold(),
                rt == old(self).spec_recovery_threshold(),
                self.wf(),
                match old(self).status_of(name@) {
                    Some(s) => s.consecutive_failures < u32::MAX && s.consecutive_successes
                        < u32::MAX,
                    None => true,
                },
                forall|j: int| 0 <= j < i ==> self.entries@[j].name@ != name@,
            decreases n - i,
        {
            if str_eq(self.entries[i].name.as_str(), name) {
                proof {
                    lemma_find_entry_at(self.entries@, i as int, name@);
                }
                let ghost pre = self.entries@;
                let s = self.entries[i].status;
                let updated = Self::apply_probe_step(s, success, ft, rt, now);
                let slot = vstd::std_specs::vec::vec_index_mut(&mut self.entries, i);
                slot.status = updated;
                proof {
                    assert(self.entries@ =~= pre.update(
                        i as int,
                        StatusEntry { name: pre[i as int].name, status: updated },
                    ));
                    lemma_find_entry_at(self.entries@, i as int, name@);
                    assert forall|other: Seq<char>|
                        other != name@ implies #[trigger] self.status_of(other) == old(
                        self,
                    ).status_of(other) by {
                        Self::lemma_update_preserves_other(pre, self.entries@, i as int, other);
                    }
                }
                return ;
            }
            i = i + 1;
        }
        proof {
            lemma_find_entry_none(self.entries@, name@);
        }
        let ghost pre = self.entries@;
        let fresh = HealthStatus {
            healthy: true,
            last_check: 0,
            consecutive_failures: 0,
            consecutive_successes: 0,
        };
        let updated = Self::apply_probe_step(fresh, success, ft, rt, now);
        self.entries.push(StatusEntry { name: String::from_str(name), status: updated });
        proof {
            lemma_find_entry_at(self.entries@, pre.len() as int, name@);
            assert forall|other: Seq<char>|
                other != name@ implies #[trigger] self.status_of(other) == old(self).status_of(
                other,
            ) by {
                Self::lemma_push_preserves_other(pre, self.entries@, other);
            }
        }
    }

    /// The periodic update rule, executed.
    fn apply_probe_step(s: HealthStatus, success: bool, ft: u32, rt: u32, now: u64) -> (t:
        HealthStatus)
        requires
            s.consecutive_failures < u32::MAX,
            s.consecutive_successes < u32::MAX,
        ensures
            t == probe_step(s, success, ft, rt, now),
    {
        if success {
            let successes = s.consecutive_successes + 1;
            HealthStatus {
                healthy: s.healthy || successes >= rt,
                last_check: now,
                consecutive_failures: 0,
                consecutive_successes: successes,
            }
        } else {
            let failures = s.consecutive_failures + 1;
            HealthStatus {
                healthy: s.healthy && failures < ft,
                last_check: now,
                consecutive_failures: failures,
                consecutive_successes: 0,
            }
        }
    }

    /// Updating one entry leaves every other name's lookup unchanged.
    proof fn lemma_update_preserves_other(
        pre: Seq<StatusEntry>,
        post: Seq<StatusEntry>,
        i: int,
        other: Seq<char>,
    )
        requires
            0 <= i < pre.len(),
            post.len() == pre.len(),
            forall|j: int| 0 <= j < pre.len() && j != i ==> post[j] == pre[j],
            post[i].name@ == pre[i].name@,
            other != pre[i].name@,
        ensures
            find_entry(post, other) == find_entry(pre, other),
            find_entry(pre, other) >= 0 ==> post[find_entry(pre, other)].status == pre[find_entry(
                pre,
                other,
            )].status,
        decreases pre.len(),
    {
        lemma_find_entry_bounds(pre, other);
        if i == 0 {
            assert(post.skip(1) =~= pre.skip(1));
        } else {
            assert(post[0] == pre[0]);
            if pre[0].name@ != other {
                let pres = pre.skip(1);
                let posts = post.skip(1);
                assert(forall|j: int| 0 <= j < pres.len() && j != i - 1 ==> posts[j] == pres[j]);
                assert(posts[i - 1].name@ == pres[i - 1].name@);
                Self::lemma_update_preserves_other(pres, posts, i - 1, other);
                lemma_find_entry_bounds(pres, other);
            }
        }
    }

    /// Pushing a new entry leaves every other name's lookup unchanged.
    proof fn lemma_push_preserves_other(
        pre: Seq<StatusEntry>,
        post: Seq<StatusEntry>,
        other: Seq<char>,
    )
        requires
            post.len() == pre.len() + 1,
            forall|j: int| 0 <= j < pre.len() ==> post[j] == pre[j],
            other != post[pre.len() as int].name@,
        ensures
            find_entry(post, other) == find_entry(pre, other),
            find_entry(pre, other) >= 0 ==> post[find_entry(pre, other)].status == pre[find_entry(
                pre,
                other,
            )].status,
        decreases pre.len(),
    {
        lemma_find_entry_bounds(pre, other);
        if pre.len() == 0 {
            lemma_find_entry_none(post, other);
        } else {
            assert(post.skip(1)[pre.len() - 1].name@ == post[pre.len() as int].name@);
            Self::lemma_push_preserves_other(pre.skip(1), post.skip(1), other);
        }
    }

    /// Whether a backend currently counts as healthy. Names never
    /// probed count as healthy, so a cold start does not block
    /// traffic.
    pub fn is_healthy(&self, name: &str) -> (r: bool)
        ensures
            r == self.spec_is_healthy(name@),
    {
        let n: usize = self.entries.len();
        let mut i: usize = 0;
        while i < n
            invariant
                i <= n,
                n == self.entries@.len(),
                forall|j: int| 0 <= j < i ==> self.entries@[j].name@ != name@,
            decreases n - i,
        {
            if str_eq(self.entries[i].name.as_str(), name) {
                proof {
                    lemma_find_entry_at(self.entries@, i as int, name@);
                }
                return self.entries[i].status.healthy;
            }
            i = i + 1;
        }
        proof {
            lemma_find_entry_none(self.entries@, name@);
        }
        true
    }

    /// The tracked health state of a name, if it was ever probed.
    pub fn get_status(&self, name: &str) -> (r: Option<HealthStatus>)
        ensures
            r == self.status_of(name@),
    {
        let n: usize = self.entries.len();
        let mut i: usize = 0;
        while i < n
            invariant
                i <= n,
                n == self.entries@.len(),
                forall|j: int| 0 <= j < i ==> self.entries@[j].name@ != name@,
            decreases n - i,
        {
            if str_eq(self.entries[i].name.as_str(), name) {
                proof {
                    lemma_find_entry_at(self.entries@, i as int, name@);
                }
                return Some(self.entries[i].status);
            }
            i = i + 1;
        }
        proof {
            lemma_find_entry_none(self.entries@, name@);
        }
        None
    }

    /// Record one forced (admin) probe outcome for a name: the health
    /// flag follows the outcome directly and the streaks advance.
    pub fn check_now(&mut self, name: &str, success: bool, now: u64)
        requires
            old(self).wf(),
            match old(self).status_of(name@) {
                Some(s) => s.consecutive_failures < u32::MAX && s.consecutive_successes
                    < u32::MAX,
                None => true,
            },
        ensures
            final(self).wf(),
            final(self).spec_failure_threshold() == old(self).spec_failure_threshold(),
            final(self).spec_recovery_threshold() == old(self).spec_recovery_threshold(),
            final(self).status_of(name@) == Some(
                force_probe_step(
                    match old(self).status_of(name@) {
                        Some(s) => s,
                        None => fresh_status(),
                    },
                    success,
                    now,
                ),
            ),
            forall|other: Seq<char>|
                other != name@ ==> #[trigger] final(self).status_of(other) == old(self).status_of(
                    other,
                ),
    {
        let n: usize = self.entries.len();
        let mut i: usize = 0;
        while i < n
            invariant
                i <= n,
                n == self.entries@.len(),
                self == old(self),
                self.wf(),
                match old(self).status_of(name@) {
                    Some(s) => s.consecutive_failures < u32::MAX && s.consecutive_successes
                        < u32::MAX,
                    None => true,
                },
                forall|j: int| 0 <= j < i ==> self.entries@[j].name@ != name@,
            decreases n - i,
        {
            if str_eq(self.entries[i].name.as_str(), name) {
                proof {
                    lemma_find_entry_at(self.entries@, i as int, name@);
                }
                let ghost pre = self.entries@;
                let s = self.entries[i].status;
                let updated = Self::apply_force_probe_step(s, success, now);
                let slot = vstd::std_specs::vec::vec_index_mut(&mut self.entries, i);
                slot.status = updated;
                proof {
                    assert(self.entries@ =~= pre.update(
                        i as int,
                        StatusEntry { name: pre[i as int].name, status: updated },
                    ));
                    lemma_find_entry_at(self.entries@, i as int, name@);
                    assert forall|other: Seq<char>|
                        other != name@ implies #[trigger] self.status_of(other) == old(
                        self,
                    ).status_of(other) by {
                        Self::lemma_update_preserves_other(pre, self.entries@, i as int, other);
                    }
                }
                return ;
            }
            i = i + 1;
        }
        proof {
            lemma_find_entry_none(self.entries@, name@);
        }
        let ghost pre = self.entries@;
        let fresh = HealthStatus {
            healthy: true,
            last_check: 0,
            consecutive_failures: 0,
            consecutive_successes: 0,
        };
        let updated = Self::apply_force_probe_step(fresh, success, now);
        self.entries.push(StatusEntry { name: String::from_str(name), status: updated });
        proof {
            lemma_find_entry_at(self.entries@, pre.len() as int, name@);
            assert forall|other: Seq<char>|
                other != name@ implies #[trigger] self.status_of(other) == old(self).status_of(
                other,
            ) by {
                Self::lemma_push_preserves_other(pre, self.entries@, other);
            }
        }
    }

    /// The forced update rule, executed.
    fn apply_force_probe_step(s: HealthStatus, success: bool, now: u64) -> (t: HealthStatus)
        requires
            s.consecutive_failures < u32::MAX,
            s.consecutive_successes < u32::MAX,
        ensures
            t == force_probe_step(s, success, now),
    {
        if success {
            HealthStatus {
                healthy: true,
                last_check: now,
                consecutive_failures: 0,
                consecutive_successes: s.consecutive_successes + 1,
            }
        } else {
            HealthStatus {
                healthy: false,
                last_check: now,
                consecutive_failures: s.consecutive_failures + 1,
                consecutive_successes: 0,
            }
        }
    }

    /// How many of these backends currently count as healthy.
    pub open spec fn spec_healthy_count(&self, bs: Seq<Backend>) -> int
        decreases bs.len(),
    {
        if bs.len() == 0 {
            0
        } else {
            self.spec_healthy_count(bs.drop_last()) + if self.spec_is_healthy(
                bs.last().name@,
            ) {
                1int
            } else {
                0int
            }
        }
    }

    /// Health summary over the registered backends: total, healthy,
    /// unhealthy counts.
    pub fn get_health_summary(&self, registry: &BackendRegistry) -> (r: (usize, usize, usize))
        ensures
            r.0 == registry.view_backends().len(),
            r.1 == self.spec_healthy_count(registry.view_backends()),
            r.2 == r.0 - r.1,
    {
        let backends = registry.get_all();
        let total: usize = backends.len();
        let mut healthy: usize = 0;
        let mut i: usize = 0;
        while i < total
            invariant
                i <= total,
                total == backends@.len(),
                backends@ == registry.view_backends(),
                healthy == self.spec_healthy_count(backends@.subrange(0, i as int)),
                healthy <= i,
            decreases total - i,
        {
            proof {
                assert(backends@.subrange(0, i + 1).drop_last() =~= backends@.subrange(
                    0,
                    i as int,
                ));
            }
            if self.is_healthy(backends[i].name.as_str()) {
                healthy = healthy + 1;
            }
            i = i + 1;
        }
        proof {
            assert(backends@.subrange(0, total as int) =~= backends@);
        }
        (total, healthy, total - healthy)
    }

    /// Names of all tracked backends that are currently unhealthy.
    pub fn get_unhealthy_backends(&self) -> (r: Vec<String>)
        ensures
            r@.len() == unhealthy_names(self.entries()).len(),
            forall|i: int| 0 <= i < r@.len() ==> r@[i]@ == unhealthy_names(self.entries())[i],
    {
        let n: usize = self.entries.len();
        let mut out: Vec<String> = Vec::new();
        let mut i: usize = 0;
        while i < n
            invariant
                i <= n,
                n == self.entries@.len(),
                out@.len() == unhealthy_names(self.entries@.subrange(0, i as int)).len(),
                forall|j: int|
                    0 <= j < out@.len() ==> out@[j]@ == unhealthy_names(
                        self.entries@.subrange(0, i as int),
                    )[j],
            decreases n - i,
        {
            proof {
                assert(self.entries@.subrange(0, i + 1).drop_last() =~= self.entries@.subrange(
                    0,
                    i as int,
                ));
            }
            if !self.entries[i].status.healthy {
                out.push(String::from_str(self.entries[i].name.as_str()));
            }
            i = i + 1;
        }
        proof {
            assert(self.entries@.subrange(0, n as int) =~= self.entries@);
        }
        out
    }
}

proof fn lemma_find_entry_bounds(es: Seq<StatusEntry>, name: Seq<char>)
    ensures
        -1 <= find_entry(es, name) < es.len(),
    decreases es.len(),
{
    if es.len() > 0 && es[0].name@ != name {
        lemma_find_entry_bounds(es.skip(1), name);
    }
}

} // verus!
