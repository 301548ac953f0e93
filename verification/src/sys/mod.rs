//! the decisions of the syscall layer: cgroup plans, capability and seccomp
//! sets, kernel feature checks. the syscalls themselves are plumbing
//! outside the verified core

pub mod ancestry;
pub mod caps;
pub mod cgroup;
pub mod probe;
pub mod proc;
pub mod sandbox;
pub mod userns;

pub use cgroup::Cgroups;
