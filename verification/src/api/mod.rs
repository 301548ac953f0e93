//! stable public contract. types and traits here are the semver surface;
//! everything outside api is an implementation detail a fork may replace

pub mod err;
pub mod flags;
pub mod hooks;
pub mod layer;
pub mod libc;
pub mod mounts;
pub mod resources;
pub mod sandbox;
pub mod store;

pub use err::{Error, ErrorView, Result};
pub use flags::LayerFlags;
pub use hooks::{HealthCheck, LaunchStrategy, LayerSelector};
pub use layer::{Layer, LayerDescriptor, LayerId, LayerType};
pub use libc::Libc;
pub use mounts::Mounts;
pub use resources::{CpuMax, Limits};
pub use sandbox::{Cap, IdMap, Sandbox, Seccomp};
pub use store::{Gen, ObjectHash};
