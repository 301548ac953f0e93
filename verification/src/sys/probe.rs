//! what the kernel offers, and which of it the core cannot do without. the
//! probes themselves run once, single-threaded, in the system layer

use crate::api::err::{Error, ErrorView, Result};
use vstd::prelude::*;

verus! {

/// the kernel features a probe found
#[derive(Clone, Copy, Debug)]
pub struct Features {
    pub mount_api: bool,
    pub idmapped: bool,
    /// the unified cgroup v2 hierarchy is mounted (not v1 or hybrid)
    pub cgroup2: bool,
}

impl Features {
    /// the mount api is mandatory: without it nothing can be composed.
    /// checked once before the first build
    pub fn require_mount_api(&self) -> (res: Result<()>)
        ensures
            self.mount_api ==> res is Ok,
            !self.mount_api ==> (res matches Err(e) && e@ == ErrorView::Init(
                "kernel lacks the mount api (need linux 5.2+)"@,
            )),
    {
        if self.mount_api {
            Ok(())
        } else {
            Err(Error::Init(String::from_str("kernel lacks the mount api (need linux 5.2+)")))
        }
    }

    /// idmapped mounts are needed only by layers that ask for an idmap
    pub fn require_idmapped(&self) -> (res: Result<()>)
        ensures
            self.idmapped ==> res is Ok,
            !self.idmapped ==> (res matches Err(e) && e@ == ErrorView::Init(
                "kernel lacks idmapped mounts (need linux 5.12+)"@,
            )),
    {
        if self.idmapped {
            Ok(())
        } else {
            Err(Error::Init(String::from_str("kernel lacks idmapped mounts (need linux 5.12+)")))
        }
    }

    /// cgroup v2 is a feature, not a requirement: a layer without resource
    /// limits runs fine without it
    pub fn cgroup_usable(&self) -> (b: bool)
        ensures
            b == self.cgroup2,
    {
        self.cgroup2
    }
}

/// the child exited normally (`WIFEXITED`)
pub open spec fn exited(status: i32) -> bool {
    status & 0x7f == 0
}

/// the exit code of a child that exited normally (`WEXITSTATUS`)
pub open spec fn exit_code(status: i32) -> i32 {
    (status >> 8) & 0xff
}

pub fn libc_wifexited(status: i32) -> (b: bool)
    ensures
        b == exited(status),
{
    (status & 0x7f) == 0
}

pub fn libc_wexitstatus(status: i32) -> (c: i32)
    ensures
        c == exit_code(status),
        0 <= c <= 255,
{
    let c = (status >> 8) & 0xff;
    assert(0 <= (status >> 8) & 0xff <= 255) by (bit_vector);
    c
}

/// the verdict of the idmap probe child, from its wait status: it says yes
/// only by exiting normally with code 0
pub fn probe_verdict(status: i32) -> (ok: bool)
    ensures
        ok == (exited(status) && exit_code(status) == 0),
{
    libc_wifexited(status) && libc_wexitstatus(status) == 0
}

/// The probe passes exactly on the wait statuses whose low 16 bits, core
/// dump flag aside, are zero: a normal exit with code 0.
pub proof fn law_probe_passes_only_on_clean_exit(status: i32)
    ensures
        (exited(status) && exit_code(status) == 0) <==> (status & 0xff7f == 0),
{
    assert(((status & 0x7f == 0) && ((status >> 8) & 0xff == 0)) <==> (status & 0xff7f == 0))
        by (bit_vector);
}

} // verus!
