//! data so policy lives in config, not code; the core writes them to the
//! cgroup scope at launch. empty means accounting without caps

use vstd::prelude::*;

verus! {

/// per-layer resource limits applied to the cgroup v2 scope at launch.
/// every field is optional; a missing field means no limit is set
#[derive(Debug, Default, PartialEq, Eq)]
pub struct Limits {
    /// memory.max, in bytes. none leaves it at "max"
    pub memory_max: Option<u64>,
    /// pids.max, a task count. none leaves it at "max"
    pub pids_max: Option<u64>,
    /// cpu.weight, relative share in 1..=10000. none leaves the default
    pub cpu_weight: Option<u32>,
    /// cpu.max, an absolute quota per period. none leaves it at "max"
    pub cpu_max: Option<CpuMax>,
}

/// an absolute cpu cap: quota microseconds runnable per period microseconds.
/// constructed only through new(), which rejects zero values that the kernel
/// would reject with a cryptic error
#[derive(Clone, Copy, Debug, PartialEq, Eq)]
pub struct CpuMax {
    quota_us: u64,
    period_us: u64,
}

impl CpuMax {
    #[verifier::type_invariant]
    closed spec fn inv(self) -> bool {
        self.quota_us >= 1 && self.period_us >= 1
    }

    pub closed spec fn quota_spec(self) -> u64 {
        self.quota_us
    }

    pub closed spec fn period_spec(self) -> u64 {
        self.period_us
    }

    pub fn new(quota_us: u64, period_us: u64) -> (res: Result<Self, String>)
        ensures
            period_us == 0 ==> (res matches Err(m) && m@ == "cpu.max period must be at least 1us"@),
            period_us != 0 && quota_us == 0 ==> (res matches Err(m) && m@
                == "cpu.max quota must be at least 1us (use none for unlimited)"@),
            period_us != 0 && quota_us != 0 ==> (res matches Ok(c) && c.quota_spec() == quota_us
                && c.period_spec() == period_us),
    {
        if period_us == 0 {
            return Err(String::from_str("cpu.max period must be at least 1us"));
        }
        if quota_us == 0 {
            return Err(
                String::from_str("cpu.max quota must be at least 1us (use none for unlimited)"),
            );
        }
        Ok(CpuMax { quota_us, period_us })
    }

    pub fn quota_us(&self) -> (q: u64)
        ensures
            q == self.quota_spec(),
            q >= 1,
    {
        proof {
            use_type_invariant(self);
        }
        self.quota_us
    }

    pub fn period_us(&self) -> (p: u64)
        ensures
            p == self.period_spec(),
            p >= 1,
    {
        proof {
            use_type_invariant(self);
        }
        self.period_us
    }
}

impl Clone for Limits {
    fn clone(&self) -> (r: Self)
        ensures
            r == *self,
    {
        Limits {
            memory_max: self.memory_max,
            pids_max: self.pids_max,
            cpu_weight: self.cpu_weight,
            cpu_max: self.cpu_max,
        }
    }
}

impl Limits {
    /// true when no limits are set. the scope is still created for
    /// accounting; it just carries no ceilings
    pub fn is_empty(&self) -> (b: bool)
        ensures
            b == (self.memory_max is None && self.pids_max is None && self.cpu_weight is None
                && self.cpu_max is None),
    {
        self.memory_max.is_none() && self.pids_max.is_none() && self.cpu_weight.is_none()
            && self.cpu_max.is_none()
    }
}

} // verus!
