//! the meta-distribution engine's verified core: layer identities and
//! descriptors, the management protocol, layer selection, the namespace
//! registry, the store and generation bookkeeping, and the cgroup and
//! sandbox plans the system layer carries out

pub mod api;
pub mod control;
pub mod engine;
pub mod init;
pub mod ns;
pub mod path;
pub mod paths;
pub mod quote;
pub mod state;
pub mod store;
pub mod sys;
pub mod text;
pub mod vocab;

pub use api::{
    Cap, CpuMax, Error, ErrorView, Gen, HealthCheck, IdMap, LaunchStrategy, Layer, LayerDescriptor,
    LayerFlags, LayerId, LayerSelector, LayerType, Libc, Limits, Mounts, ObjectHash, Result,
    Sandbox, Seccomp,
};
pub use control::{Reply, Request, Shutdown};
pub use paths::Layout;
pub use ns::Registry;
pub use store::{ErofsBackend, Generations, OverlayBackend, Store};
pub use sys::Cgroups;
pub use init::{DefaultHealthCheck, DefaultSelector};
