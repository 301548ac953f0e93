//! extension seams so a fork changes policy without forking the code;
//! each has a working default so the core runs out of the box

use super::err::Result;
use super::layer::{Layer, LayerDescriptor, LayerId};
use vstd::prelude::*;

verus! {

/// decide which layer boots. the default picks the healthy layer with the
/// lowest priority; replace to implement a custom boot policy
pub trait LayerSelector {
    /// return the id of the selected layer, or `NoHealthyLayer` if none is
    /// ready. `store_root` is the directory holding each layer's tree, passed
    /// to the health check so it inspects real files
    fn select<H: HealthCheck>(
        &self,
        candidates: &[LayerDescriptor],
        health: &H,
        store_root: &str,
    ) -> Result<LayerId>;
}

/// decide whether a layer is healthy enough to boot. `root` is the layer's
/// own tree; the check inspects layer files, never the caller's
pub trait HealthCheck {
    /// true when the layer is ready to boot. the default checks that the
    /// loader exists inside the layer's tree
    fn is_healthy(&self, layer: &LayerDescriptor, root: &str) -> bool;
}

/// enter a layer and exec a command. the default does setns + execve and
/// only returns on failure, because a successful launch replaces the process
pub trait LaunchStrategy {
    fn launch(&self, layer: &Layer, argv: &[String], env: &[(String, String)]) -> Result<()>;
}

} // verus!
