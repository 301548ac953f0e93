//! the canonical state files, /rust/state/layers.toml and nexus.toml, as
//! plain tables and their conversion into what the core acts on. reading
//! and decoding the files is the system layer's; one write path, a manual
//! edit is reverted by the daemon

pub mod layer;
pub mod system;

pub use layer::descriptors_from;
pub use system::{system_from, System, SystemFile};
