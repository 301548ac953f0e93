//! nexus.toml: the settings the core acts on, with the defaults that apply
//! when a key is absent

use crate::api::err::{Error, ErrorView, Result};
use crate::path::{join, path_join};
use crate::paths::CGROUP2_ROOT;
use crate::quote::{debug_quoted, debug_str};
use crate::text::{concat, str_eq};
use crate::vocab;
use vstd::prelude::*;

verus! {

/// settings the core acts on. defaults apply when a key is absent
#[derive(Clone, Debug, PartialEq, Eq)]
pub struct System {
    /// store backend: "overlay" today, "composefs" later. data, not a build
    /// time choice, so a fork can switch without recompiling
    pub backend: String,
    /// evict a namespace after this many seconds idle. zero means never evict
    pub idle_evict_secs: u64,
    /// a test harness points this inside its sandbox so a test run creates
    /// scopes there, never touching the outer system's cgroup hierarchy
    pub cgroup_root: String,
}

/// the idle time after which a namespace is evicted by default: 15 minutes
pub const DEFAULT_IDLE_EVICT_SECS: u64 = 900;

/// the default settings: the overlay backend, eviction after 15 idle
/// minutes, scopes under the nexus subtree of the unified cgroup root
pub open spec fn is_default_system(s: System) -> bool {
    &&& s.backend@ == vocab::BACKEND_OVERLAY@
    &&& s.idle_evict_secs == DEFAULT_IDLE_EVICT_SECS
    &&& s.cgroup_root@ == join(CGROUP2_ROOT@, vocab::CG_SUBTREE@)
}

impl Default for System {
    fn default() -> (s: Self)
        ensures
            is_default_system(s),
    {
        System {
            backend: String::from_str(vocab::BACKEND_OVERLAY),
            idle_evict_secs: DEFAULT_IDLE_EVICT_SECS,
            cgroup_root: path_join(CGROUP2_ROOT, vocab::CG_SUBTREE),
        }
    }
}

/// nexus.toml as written: every key is optional
pub struct SystemFile {
    pub backend: Option<String>,
    /// seconds; absent keeps the default, 0 disables eviction
    pub idle_evict_secs: Option<u64>,
    pub cgroup_root: Option<String>,
}

/// the backends the store knows
pub open spec fn known_backend(b: Seq<char>) -> bool {
    b == vocab::BACKEND_OVERLAY@ || b == vocab::BACKEND_EROFS@
}

/// the message for a backend token nobody knows
pub open spec fn unknown_backend_message(b: Seq<char>) -> Seq<char> {
    "unknown backend "@ + debug_str(b) + "; expected \"overlay\" or \"erofs\""@
}

/// the settings `f` asks for, each absent key taking its default
pub open spec fn system_match(s: System, f: SystemFile) -> bool {
    &&& s.backend@ == match f.backend {
        Some(b) => b@,
        None => vocab::BACKEND_OVERLAY@,
    }
    &&& s.idle_evict_secs == match f.idle_evict_secs {
        Some(n) => n,
        None => DEFAULT_IDLE_EVICT_SECS,
    }
    &&& s.cgroup_root@ == match f.cgroup_root {
        Some(r) => r@,
        None => join(CGROUP2_ROOT@, vocab::CG_SUBTREE@),
    }
}

/// the settings of a decoded nexus.toml. the backend is validated here
/// because opening the core silently falls back to overlay for any
/// unrecognized token, so a typo would otherwise run on the wrong backend
pub fn system_from(f: SystemFile) -> (res: Result<System>)
    ensures
        match res {
            Ok(s) => system_match(s, f) && known_backend(s.backend@),
            Err(e) => f.backend matches Some(b) && !known_backend(b@) && e@ == ErrorView::Config(
                unknown_backend_message(b@),
            ),
        },
{
    let d = System::default();
    let backend = match f.backend {
        Some(b) => b,
        None => d.backend,
    };
    if !str_eq(backend.as_str(), vocab::BACKEND_OVERLAY) && !str_eq(
        backend.as_str(),
        vocab::BACKEND_EROFS,
    ) {
        let mut m = concat("unknown backend ", debug_quoted(backend.as_str()).as_str());
        m.append("; expected \"overlay\" or \"erofs\"");
        return Err(Error::Config(m));
    }
    let idle_evict_secs = match f.idle_evict_secs {
        Some(n) => n,
        None => d.idle_evict_secs,
    };
    let cgroup_root = match f.cgroup_root {
        Some(r) => r,
        None => d.cgroup_root,
    };
    Ok(System { backend, idle_evict_secs, cgroup_root })
}

} // verus!
