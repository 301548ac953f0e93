//! where a layer's persisted mount namespace lives

use crate::api::layer::LayerId;
use crate::paths::{Layout, ns_file_of};
use vstd::prelude::*;

verus! {

/// where a layer's mount namespace file lives
pub fn ns_path(layout: &Layout, layer: &LayerId) -> (p: String)
    ensures
        p@ == ns_file_of(layout@, layer@),
{
    layout.ns_file(layer.as_str())
}

} // verus!
