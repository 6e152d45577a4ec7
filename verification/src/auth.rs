//! API key authentication: the decision the middleware applies to
//! each request. The HTTP plumbing around it lives outside the
//! library.

use vstd::prelude::*;
use vstd::string::*;

use crate::text::{seq_starts_with, starts_with_str, str_eq};

verus! {

/// What the middleware must do with a request.
#[derive(Debug, Clone, Copy, PartialEq, Eq, Structural)]
pub enum AuthDecision {
    /// Pass the request through.
    Allow,
    /// Reject: the supplied key is not configured.
    InvalidKey,
    /// Reject: no key was supplied.
    MissingKey,
}

/// The credential inside an authorization header: every leading
/// `Bearer ` marker is stripped.
pub open spec fn strip_bearer(h: Seq<char>) -> Seq<char>
    decreases h.len(),
{
    if h.len() >= 7 && h.subrange(0, 7) == "Bearer "@ {
        strip_bearer(h.skip(7))
    } else {
        h
    }
}

/// Whether one of the configured keys carries this text.
pub open spec fn holds_key(keys: Seq<String>, key: Seq<char>) -> bool {
    exists|i: int| 0 <= i < keys.len() && keys[i]@ == key
}

/// The authentication decision: health and metrics paths pass, an
/// empty key set admits everyone, otherwise the stripped header must
/// match a configured key.
pub open spec fn spec_authorize(keys: Seq<String>, path: Seq<char>, header: Option<Seq<char>>)
    -> AuthDecision {
    if path == "/health"@ || path == "/metrics"@ {
        AuthDecision::Allow
    } else if keys.len() == 0 {
        AuthDecision::Allow
    } else {
        match header {
            None => AuthDecision::MissingKey,
            Some(h) => if holds_key(keys, strip_bearer(h)) {
                AuthDecision::Allow
            } else {
                AuthDecision::InvalidKey
            },
        }
    }
}

/// Authentication layer: the configured API keys.
#[derive(Debug)]
pub struct AuthLayer {
    pub api_keys: Vec<String>,
}

impl AuthLayer {
    /// A layer admitting the given keys.
    pub fn new(api_keys: Vec<String>) -> (r: Self)
        ensures
            r.api_keys@ == api_keys@,
    {
        AuthLayer { api_keys }
    }

    /// Decide one request: the path and the authorization header (as
    /// received, `Bearer ` prefix and all) go in; the decision comes
    /// out.
    pub fn authorize(&self, path: &str, auth_header: Option<&str>) -> (r: AuthDecision)
        ensures
            r == spec_authorize(
                self.api_keys@,
                path@,
                match auth_header {
                    Some(h) => Some(h@),
                    None => None,
                },
            ),
    {
        if str_eq(path, "/health") || str_eq(path, "/metrics") {
            return AuthDecision::Allow;
        }
        if self.api_keys.len() == 0 {
            return AuthDecision::Allow;
        }
        let h: &str = match auth_header {
            Some(h) => h,
            None => {
                return AuthDecision::MissingKey;
            },
        };
        let key: &str = Self::strip_bearer_exec(h);
        let n: usize = self.api_keys.len();
        let mut i: usize = 0;
        while i < n
            invariant
                i <= n,
                n == self.api_keys@.len(),
                n > 0,
                path@ != "/health"@,
                path@ != "/metrics"@,
                auth_header == Some(h),
                key@ == strip_bearer(h@),
                forall|j: int| 0 <= j < i ==> self.api_keys@[j]@ != key@,
            decreases n - i,
        {
            if str_eq(self.api_keys[i].as_str(), key) {
                proof {
                    assert(holds_key(self.api_keys@, key@));
                }
                return AuthDecision::Allow;
            }
            i = i + 1;
        }
        proof {
            assert(!holds_key(self.api_keys@, key@));
        }
        AuthDecision::InvalidKey
    }

    /// Strip every leading `Bearer ` marker off a header value.
    fn strip_bearer_exec(h: &str) -> (r: &str)
        ensures
            r@ == strip_bearer(h@),
        decreases h@.len(),
    {
        proof {
            reveal_strlit("Bearer ");
            assert("Bearer "@.len() == 7);
        }
        if starts_with_str(h, "Bearer ") {
            proof {
                assert(h@.subrange(0, 7) =~= "Bearer "@);
            }
            let rest = h.substring_char(7, h.unicode_len());
            proof {
                assert(rest@ =~= h@.skip(7));
            }
            Self::strip_bearer_exec(rest)
        } else {
            proof {
                if h@.len() >= 7 && h@.subrange(0, 7) == "Bearer "@ {
                    assert(seq_starts_with(h@, "Bearer "@));
                }
            }
            h
        }
    }
}

} // verus!
