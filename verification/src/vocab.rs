//! on-disk vocabulary a fork retunes in one place without touching code.
//! every string the state format and the core agree on lives here

use vstd::prelude::*;

verus! {

// layer type tokens in layers.toml
pub const TYPE_NATIVE: &'static str = "native";

pub const TYPE_SHADOWED: &'static str = "shadowed";

pub const TYPE_RESCUE: &'static str = "rescue";

// seccomp posture tokens
pub const SECCOMP_OFF: &'static str = "off";

pub const SECCOMP_BASELINE: &'static str = "baseline";

// store backend tokens in nexus.toml
pub const BACKEND_OVERLAY: &'static str = "overlay";

/// the erofs backend (flat erofs image plus a writable overlay)
pub const BACKEND_EROFS: &'static str = "erofs";

// layer flag tokens. the known set the core understands; anything else a
// fork writes is carried verbatim in LayerFlags::extra
pub const FLAG_META: &'static str = "meta";

pub const FLAG_NON_FHS: &'static str = "non-fhs";

pub const FLAG_ATOMIC: &'static str = "atomic";

pub const FLAG_EPHEMERAL: &'static str = "ephemeral";

pub const FLAG_PINNED: &'static str = "pinned";

pub const FLAG_HIDDEN: &'static str = "hidden";

// linux filesystem type names
pub const FS_OVERLAY: &'static str = "overlay";

pub const FS_EROFS: &'static str = "erofs";

pub const FS_TMPFS: &'static str = "tmpfs";

// overlay mount option keys
pub const OPT_LOWERDIR: &'static str = "lowerdir";

pub const OPT_UPPERDIR: &'static str = "upperdir";

pub const OPT_WORKDIR: &'static str = "workdir";

pub const OPT_SOURCE: &'static str = "source";

/// the nexus subtree under the unified cgroup v2 root. leaves (one per
/// scope) live beneath it; the subtree itself holds no processes
pub const CG_SUBTREE: &'static str = "nexus";

// cgroup v2 controller names the core may enable on its subtree
pub const CG_CTRL_MEMORY: &'static str = "memory";

pub const CG_CTRL_PIDS: &'static str = "pids";

pub const CG_CTRL_CPU: &'static str = "cpu";

// cgroup v2 interface files
pub const CG_CONTROLLERS: &'static str = "cgroup.controllers";

pub const CG_SUBTREE_CONTROL: &'static str = "cgroup.subtree_control";

pub const CG_PROCS: &'static str = "cgroup.procs";

pub const CG_MEMORY_MAX: &'static str = "memory.max";

pub const CG_PIDS_MAX: &'static str = "pids.max";

pub const CG_CPU_WEIGHT: &'static str = "cpu.weight";

pub const CG_CPU_MAX: &'static str = "cpu.max";

} // verus!
