//! resolved relative to the layer root, never the caller, so a layer can't
//! accidentally pass because the caller has a matching file

use crate::api::hooks::HealthCheck;
use crate::api::layer::LayerDescriptor;
use crate::path::{join, path_exists, reroot, strip_slashes};
use vstd::prelude::*;

verus! {

/// the file whose presence decides a layer's health: none for a static
/// layer, else its loader resolved inside the layer's own tree
pub open spec fn probe_path_of(layer: LayerDescriptor, root: Seq<char>) -> Option<Seq<char>> {
    match layer.libc.loader {
        None => None,
        Some(l) => Some(join(root, strip_slashes(l@))),
    }
}

/// `b` is an answer that asking the filesystem whether `p` exists can give.
/// The filesystem is outside what the library can state, so this says which
/// question was asked, not what the answer is.
pub closed spec fn exists_answer(p: Seq<char>, b: bool) -> bool {
    exists|r: &str| r@ == p && #[trigger] call_ensures(path_exists, (r,), b)
}

pub struct DefaultHealthCheck;

impl DefaultHealthCheck {
    /// the path the check stats for `layer` under `root`
    pub fn probe_path(&self, layer: &LayerDescriptor, root: &str) -> (p: Option<String>)
        ensures
            match p {
                None => probe_path_of(*layer, root@) is None,
                Some(s) => probe_path_of(*layer, root@) == Some(s@),
            },
    {
        match &layer.libc.loader {
            None => None,
            Some(loader) => Some(reroot(root, loader.as_str())),
        }
    }
}

impl HealthCheck for DefaultHealthCheck {
    /// a static layer is always healthy; otherwise the layer's loader must
    /// exist inside its own tree
    fn is_healthy(&self, layer: &LayerDescriptor, root: &str) -> (b: bool)
        ensures
            layer.libc.loader is None ==> b,
            probe_path_of(*layer, root@) matches Some(p) ==> exists_answer(p, b),
    {
        match self.probe_path(layer, root) {
            None => true,
            Some(p) => path_exists(p.as_str()),
        }
    }
}

/// Health is the loader's presence in the layer's own tree: a static layer
/// is always healthy, and for a layer with a loader the answer is the one
/// the filesystem gives for the loader's path under the root, nothing else.
pub proof fn law_health_is_loader_presence(layer: LayerDescriptor, root: &str, b: bool)
    requires
        call_ensures(
            <DefaultHealthCheck as HealthCheck>::is_healthy,
            (&DefaultHealthCheck, &layer, root),
            b,
        ),
    ensures
        layer.libc.loader is None ==> b,
        layer.libc.loader matches Some(l) ==> exists_answer(join(root@, strip_slashes(l@)), b),
{
}

/// The loader is looked up inside the layer's tree and never on the
/// caller's side: however many leading slashes it is written with, the
/// probed path lies under the root.
pub proof fn law_probe_stays_in_root(layer: LayerDescriptor, root: Seq<char>)
    ensures
        probe_path_of(layer, root) matches Some(p) ==> p.len() >= root.len() && p.take(
            root.len() as int,
        ) == root,
{
    if layer.libc.loader is Some {
        let l = layer.libc.loader->0@;
        crate::path::lemma_strip_slashes(l);
        let r = strip_slashes(l);
        let p = join(root, r);
        assert(p.take(root.len() as int) =~= root);
    }
}

} // verus!
