//! Process-wide, name-indexed collection of backends. Read-mostly;
//! names are unique.

use vstd::prelude::*;
use vstd::string::*;

use crate::backend::{Backend, Protocol};
use crate::error::AppError;
use crate::settings::BackendConfig;
use crate::text::str_eq;

verus! {

/// First position holding a backend of this name, `-1` when none does.
pub open spec fn find_index(bs: Seq<Backend>, name: Seq<char>) -> int
    decreases bs.len(),
{
    if bs.len() == 0 {
        -1
    } else if bs[0].name@ == name {
        0
    } else {
        let r = find_index(bs.skip(1), name);
        if r == -1 {
            -1
        } else {
            r + 1
        }
    }
}

proof fn lemma_find_index_at(bs: Seq<Backend>, i: int, name: Seq<char>)
    requires
        0 <= i < bs.len(),
        bs[i].name@ == name,
        forall|j: int| 0 <= j < i ==> bs[j].name@ != name,
    ensures
        find_index(bs, name) == i,
    decreases i,
{
    if i > 0 {
        lemma_find_index_at(bs.skip(1), i - 1, name);
    }
}

proof fn lemma_find_index_none(bs: Seq<Backend>, name: Seq<char>)
    requires
        forall|j: int| 0 <= j < bs.len() ==> bs[j].name@ != name,
    ensures
        find_index(bs, name) == -1,
    decreases bs.len(),
{
    if bs.len() > 0 {
        lemma_find_index_none(bs.skip(1), name);
    }
}

proof fn lemma_find_index_bounds(bs: Seq<Backend>, name: Seq<char>)
    ensures
        -1 <= find_index(bs, name) < bs.len(),
    decreases bs.len(),
{
    if bs.len() > 0 && bs[0].name@ != name {
        lemma_find_index_bounds(bs.skip(1), name);
    }
}

proof fn lemma_find_index_neg(bs: Seq<Backend>, name: Seq<char>)
    requires
        find_index(bs, name) == -1,
    ensures
        forall|j: int| 0 <= j < bs.len() ==> bs[j].name@ != name,
    decreases bs.len(),
{
    if bs.len() > 0 {
        lemma_find_index_bounds(bs.skip(1), name);
        lemma_find_index_neg(bs.skip(1), name);
        assert forall|j: int| 0 <= j < bs.len() implies bs[j].name@ != name by {
            if j > 0 {
                assert(bs.skip(1)[j - 1] == bs[j]);
            }
        }
    }
}

/// A found index is in bounds and carries the name searched for.
pub proof fn lemma_find_index_props(bs: Seq<Backend>, name: Seq<char>)
    ensures
        -1 <= find_index(bs, name) < bs.len(),
        find_index(bs, name) >= 0 ==> bs[find_index(bs, name)].name@ == name,
    decreases bs.len(),
{
    if bs.len() > 0 && bs[0].name@ != name {
        lemma_find_index_props(bs.skip(1), name);
    }
}

/// The first position carrying the name is the found index.
pub proof fn lemma_find_index_first(bs: Seq<Backend>, i: int, name: Seq<char>)
    requires
        0 <= i < bs.len(),
        bs[i].name@ == name,
        forall|j: int| 0 <= j < i ==> bs[j].name@ != name,
    ensures
        find_index(bs, name) == i,
{
    lemma_find_index_at(bs, i, name);
}

/// A name no entry carries is not found.
pub proof fn lemma_find_index_missing(bs: Seq<Backend>, name: Seq<char>)
    requires
        forall|j: int| 0 <= j < bs.len() ==> bs[j].name@ != name,
    ensures
        find_index(bs, name) == -1,
{
    lemma_find_index_none(bs, name);
}

/// The backend that one configuration entry builds.
pub open spec fn built_matches(b: Backend, c: BackendConfig) -> bool {
    &&& b.name@ == c.name@
    &&& b.weight == c.weight
    &&& b.enabled == c.enabled
    &&& b.timeout_ms == c.timeout_ms
    &&& b.endpoints@.len() == c.endpoints@.len()
    &&& (c.protocol@ == "http"@ ==> b.protocol is Http)
    &&& (c.protocol@ == "grpc"@ ==> b.protocol is Grpc)
}

/// Name-indexed collection of backends.
#[derive(Debug)]
pub struct BackendRegistry {
    backends: Vec<Backend>,
}

impl BackendRegistry {
    /// Unique names, and each backend well-formed.
    pub closed spec fn wf(&self) -> bool {
        &&& forall|i: int, j: int|
            0 <= i < j < self.backends@.len() ==> self.backends@[i].name@
                != self.backends@[j].name@
        &&& forall|i: int| 0 <= i < self.backends@.len() ==> self.backends@[i].wf()
    }

    /// The registered backends, in registration order.
    pub closed spec fn view_backends(&self) -> Seq<Backend> {
        self.backends@
    }

    /// An empty registry.
    pub fn new() -> (r: Self)
        ensures
            r.view_backends().len() == 0,
            r.wf(),
    {
        BackendRegistry { backends: Vec::new() }
    }

    /// Register a backend: an existing entry of the same name is
    /// replaced, otherwise the backend is appended.
    pub fn register(&mut self, backend: Backend)
        requires
            old(self).wf(),
            backend.wf(),
        ensures
            final(self).wf(),
            ({
                let idx = find_index(old(self).view_backends(), backend.name@);
                if idx >= 0 {
                    final(self).view_backends() == old(self).view_backends().update(idx, backend)
                } else {
                    final(self).view_backends() == old(self).view_backends().push(backend)
                }
            }),
    {
        let n: usize = self.backends.len();
        let mut i: usize = 0;
        while i < n
            invariant
                i <= n,
                n == self.backends@.len(),
                self == old(self),
                self.wf(),
                backend.wf(),
                forall|j: int| 0 <= j < i ==> self.backends@[j].name@ != backend.name@,
            decreases n - i,
        {
            if str_eq(self.backends[i].name.as_str(), backend.name.as_str()) {
                proof {
                    lemma_find_index_at(self.backends@, i as int, backend.name@);
                }
                let ghost pre = self.backends@;
                let slot = vstd::std_specs::vec::vec_index_mut(&mut self.backends, i);
                *slot = backend;
                proof {
                    assert forall|p: int, q: int|
                        0 <= p < q < self.backends@.len() implies self.backends@[p].name@
                        != self.backends@[q].name@ by {
                        assert(pre[p].name@ != pre[q].name@);
                    }
                }
                return ;
            }
            i = i + 1;
        }
        proof {
            lemma_find_index_none(self.backends@, backend.name@);
        }
        let ghost pre = self.backends@;
        self.backends.push(backend);
        proof {
            assert forall|p: int, q: int|
                0 <= p < q < self.backends@.len() implies self.backends@[p].name@
                != self.backends@[q].name@ by {
                if q < pre.len() {
                    assert(pre[p].name@ != pre[q].name@);
                } else {
                    assert(self.backends@[q] == backend);
                }
            }
        }
    }

    /// Look a backend up by name.
    pub fn get(&self, name: &str) -> (r: Option<&Backend>)
        ensures
            match r {
                Some(b) => find_index(self.view_backends(), name@) >= 0 && *b
                    == self.view_backends()[find_index(self.view_backends(), name@)],
                None => find_index(self.view_backends(), name@) == -1,
            },
    {
        let n: usize = self.backends.len();
        let mut i: usize = 0;
        while i < n
            invariant
                i <= n,
                n == self.backends@.len(),
                forall|j: int| 0 <= j < i ==> self.backends@[j].name@ != name@,
            decreases n - i,
        {
            if str_eq(self.backends[i].name.as_str(), name) {
                proof {
                    lemma_find_index_at(self.backends@, i as int, name@);
                }
                return Some(&self.backends[i]);
            }
            i = i + 1;
        }
        proof {
            lemma_find_index_none(self.backends@, name@);
        }
        None
    }

    /// All registered backends, in registration order.
    pub fn get_all(&self) -> (r: &Vec<Backend>)
        ensures
            r@ == self.view_backends(),
    {
        &self.backends
    }

    /// Remove the backend of this name, when one is registered.
    pub fn remove(&mut self, name: &str)
        requires
            old(self).wf(),
        ensures
            final(self).wf(),
            ({
                let idx = find_index(old(self).view_backends(), name@);
                if idx >= 0 {
                    final(self).view_backends() == old(self).view_backends().remove(idx)
                } else {
                    final(self).view_backends() == old(self).view_backends()
                }
            }),
    {
        let n: usize = self.backends.len();
        let mut i: usize = 0;
        while i < n
            invariant
                i <= n,
                n == self.backends@.len(),
                self == old(self),
                self.wf(),
                forall|j: int| 0 <= j < i ==> self.backends@[j].name@ != name@,
            decreases n - i,
        {
            if str_eq(self.backends[i].name.as_str(), name) {
                proof {
                    lemma_find_index_at(self.backends@, i as int, name@);
                }
                let ghost pre = self.backends@;
                self.backends.remove(i);
                proof {
                    pre.remove_ensures(i as int);
                    assert forall|p: int, q: int|
                        0 <= p < q < self.backends@.len() implies self.backends@[p].name@
                        != self.backends@[q].name@ by {
                        let p0 = if p < i { p } else { p + 1 };
                        let q0 = if q < i { q } else { q + 1 };
                        assert(self.backends@[p] == pre[p0]);
                        assert(self.backends@[q] == pre[q0]);
                    }
                    assert forall|k: int|
                        0 <= k < self.backends@.len() implies self.backends@[k].wf() by {
                        let k0 = if k < i { k } else { k + 1 };
                        assert(self.backends@[k] == pre[k0]);
                    }
                }
                return ;
            }
            i = i + 1;
        }
        proof {
            lemma_find_index_none(self.backends@, name@);
        }
    }

    /// One configuration entry is acceptable to this registry and to
    /// the entries before it: valid in itself, with a name that no
    /// registered backend and no earlier entry carries.
    pub open spec fn config_acceptable(&self, configs: Seq<BackendConfig>, i: int) -> bool {
        &&& configs[i].spec_valid()
        &&& find_index(self.view_backends(), configs[i].name@) == -1
        &&& forall|j: int| 0 <= j < i ==> configs[j].name@ != configs[i].name@
    }

    /// Construct and register one backend per configuration entry.
    /// Entries are validated first (protocol, endpoints, duplicate
    /// names); on any violation nothing is registered.
    pub fn initialize_from_config(&mut self, configs: &Vec<BackendConfig>) -> (r: Result<
        (),
        AppError,
    >)
        requires
            old(self).wf(),
        ensures
            final(self).wf(),
            r is Ok <==> (forall|i: int|
                0 <= i < configs@.len() ==> old(self).config_acceptable(configs@, i)),
            r is Ok ==> {
                &&& final(self).view_backends().len() == old(self).view_backends().len()
                    + configs@.len()
                &&& forall|i: int|
                    0 <= i < old(self).view_backends().len() ==> final(self).view_backends()[i]
                        == old(self).view_backends()[i]
                &&& forall|i: int|
                    0 <= i < configs@.len() ==> built_matches(
                        final(self).view_backends()[old(self).view_backends().len() + i],
                        #[trigger] configs@[i],
                    )
            },
            r is Err ==> final(self).view_backends() == old(self).view_backends()
                && r.get_Err_0() is Config,
    {
        let n: usize = configs.len();
        let mut i: usize = 0;
        while i < n
            invariant
                i <= n,
                n == configs@.len(),
                self == old(self),
                self.wf(),
                forall|j: int| 0 <= j < i ==> self.config_acceptable(configs@, j),
            decreases n - i,
        {
            let c: &BackendConfig = &configs[i];
            if c.name.as_str().is_empty() || c.endpoints.len() == 0 {
                proof {
                    assert(!self.config_acceptable(configs@, i as int));
                }
                return Err(
                    AppError::Config(String::from_str("invalid backend configuration entry")),
                );
            }
            if Protocol::from_config_str(c.protocol.as_str()).is_none() {
                proof {
                    assert(!self.config_acceptable(configs@, i as int));
                }
                return Err(
                    AppError::Config(String::from_str("backend protocol must be http or grpc")),
                );
            }
            if self.get(c.name.as_str()).is_some() {
                proof {
                    lemma_find_index_bounds(self.backends@, c.name@);
                    assert(!self.config_acceptable(configs@, i as int));
                }
                return Err(AppError::Config(String::from_str("duplicate backend name")));
            }
            let mut j: usize = 0;
            while j < i
                invariant
                    j <= i < n,
                    n == configs@.len(),
                    self == old(self),
                    self.wf(),
                    forall|k: int| 0 <= k < j ==> configs@[k].name@ != configs@[i as int].name@,
                decreases i - j,
            {
                if str_eq(configs[j].name.as_str(), configs[i].name.as_str()) {
                    proof {
                        assert(configs@[j as int].name@ == configs@[i as int].name@);
                        assert(!self.config_acceptable(configs@, i as int));
                    }
                    return Err(AppError::Config(String::from_str("duplicate backend name")));
                }
                j = j + 1;
            }
            i = i + 1;
        }
        // All entries validated; now build and append each backend.
        let ghost base = self.backends@;
        let mut i: usize = 0;
        while i < n
            invariant
                i <= n,
                n == configs@.len(),
                base == old(self).view_backends(),
                old(self).wf(),
                forall|j: int| 0 <= j < n ==> old(self).config_acceptable(configs@, j),
                self.backends@.len() == base.len() + i,
                forall|k: int| 0 <= k < base.len() ==> self.backends@[k] == base[k],
                forall|j: int|
                    0 <= j < i ==> built_matches(
                        self.backends@[base.len() + j],
                        #[trigger] configs@[j],
                    ) && self.backends@[base.len() + j].wf(),
            decreases n - i,
        {
            let c: &BackendConfig = &configs[i];
            let protocol = match Protocol::from_config_str(c.protocol.as_str()) {
                Some(p) => p,
                None => {
                    proof {
                        assert(old(self).config_acceptable(configs@, i as int));
                        assert(false);
                    }
                    Protocol::Http
                },
            };
            let b = Backend::from_config(c, protocol);
            proof {
                reveal_strlit("http");
                reveal_strlit("grpc");
                assert("http"@[0] == 'h' && "grpc"@[0] == 'g');
                assert("http"@ != "grpc"@);
                assert(old(self).config_acceptable(configs@, i as int));
                assert(b.wf());
            }
            self.backends.push(b);
            proof {
                assert(self.backends@[base.len() + i as int] == b);
                assert(*c == configs@[i as int]);
                assert(b.name@ == c.name@);
                assert(b.weight == c.weight);
                assert(b.enabled == c.enabled);
                assert(b.timeout_ms == c.timeout_ms);
                assert(b.endpoints@.len() == c.endpoints@.len());
                assert(c.protocol@ == "http"@ ==> b.protocol is Http);
                assert(c.protocol@ == "grpc"@ ==> b.protocol is Grpc);
                assert(built_matches(b, configs@[i as int]));
            }
            i = i + 1;
        }
        proof {
            assert forall|p: int, q: int|
                0 <= p < q < self.backends@.len() implies self.backends@[p].name@
                != self.backends@[q].name@ by {
                if q >= base.len() {
                    let cq = q - base.len();
                    assert(old(self).config_acceptable(configs@, cq));
                    assert(built_matches(self.backends@[base.len() + cq], configs@[cq]));
                    assert(self.backends@[q].name@ == configs@[cq].name@);
                    if p >= base.len() {
                        let cp = p - base.len();
                        assert(built_matches(self.backends@[base.len() + cp], configs@[cp]));
                        assert(self.backends@[p].name@ == configs@[cp].name@);
                        assert(configs@[cp].name@ != configs@[cq].name@);
                    } else {
                        assert(self.backends@[p] == base[p]);
                        lemma_find_index_neg(base, configs@[cq].name@);
                        assert(base[p].name@ != configs@[cq].name@);
                    }
                } else {
                    assert(self.backends@[p] == base[p]);
                    assert(self.backends@[q] == base[q]);
                    assert(base[p].name@ != base[q].name@);
                }
            }
            assert forall|k: int| 0 <= k < self.backends@.len() implies self.backends@[k].wf() by {
                if k < base.len() {
                    assert(self.backends@[k] == base[k]);
                } else {
                    let ck = k - base.len();
                    assert(built_matches(self.backends@[base.len() + ck], configs@[ck]));
                    assert(self.backends@[base.len() + ck].wf());
                }
            }
        }
        Ok(())
    }
}

} // verus!
