//! a flat erofs image keeps lookups fast (no deep overlay stack); the image
//! is built at install/forge time, this backend only mounts it. the paths
//! and the choice of upper are here

use crate::api::layer::{LayerDescriptor, valid_layer_id};
use crate::api::mounts::Mounts;
use crate::path::{join, lemma_join_injective, path_join};
use crate::store::overlay::{Upper, per_layer};
use crate::text::concat;
use vstd::prelude::*;

verus! {

pub struct ErofsBackend {
    store_root: String,
    state_root: String,
}

/// the flat image of a layer, named by the layer id
pub open spec fn image_of(store: Seq<char>, id: Seq<char>) -> Seq<char> {
    join(store, id + ".erofs"@)
}

impl ErofsBackend {
    pub closed spec fn store_spec(&self) -> Seq<char> {
        self.store_root@
    }

    pub closed spec fn state_spec(&self) -> Seq<char> {
        self.state_root@
    }

    pub fn new(store_root: &str, state_root: &str) -> (b: Self)
        ensures
            b.store_spec() == store_root@,
            b.state_spec() == state_root@,
    {
        ErofsBackend {
            store_root: String::from_str(store_root),
            state_root: String::from_str(state_root),
        }
    }

    pub fn image(&self, layer: &LayerDescriptor) -> (p: String)
        ensures
            p@ == image_of(self.store_spec(), layer.id@),
    {
        let name = concat(layer.id.as_str(), ".erofs");
        path_join(self.store_root.as_str(), name.as_str())
    }

    /// the per-layer mountpoint of the image, kept out of the store
    pub fn lower(&self, layer: &LayerDescriptor) -> (p: String)
        ensures
            p@ == per_layer(self.state_spec(), "lower"@, layer.id@),
    {
        path_join(path_join(self.state_root.as_str(), "lower").as_str(), layer.id.as_str())
    }

    pub fn ephemeral_base(&self, layer: &LayerDescriptor) -> (p: String)
        ensures
            p@ == per_layer(self.state_spec(), "ephemeral"@, layer.id@),
    {
        path_join(path_join(self.state_root.as_str(), "ephemeral").as_str(), layer.id.as_str())
    }

    /// upper by flag, as for the overlay backend: atomic none, ephemeral a
    /// tmpfs, anything else persistent under the state root
    pub fn upper(&self, layer: &LayerDescriptor) -> (u: Upper)
        ensures
            layer.flags.atomic ==> u is ReadOnly,
            layer.flags.ephemeral && !layer.flags.atomic ==> (u matches Upper::Tmpfs { base, upper, work } && base@
                == per_layer(self.state_spec(), "ephemeral"@, layer.id@) && upper@ == join(
                base@,
                "upper"@,
            ) && work@ == join(base@, "work"@)),
            !layer.flags.ephemeral && !layer.flags.atomic ==> (u matches Upper::Disk { upper, work }
                && upper@ == per_layer(self.state_spec(), "upper"@, layer.id@) && work@ == per_layer(
                self.state_spec(),
                "work"@,
                layer.id@,
            )),
    {
        if layer.flags.ephemeral_upper() {
            let base = self.ephemeral_base(layer);
            let upper = path_join(base.as_str(), "upper");
            let work = path_join(base.as_str(), "work");
            Upper::Tmpfs { base, upper, work }
        } else if !layer.flags.no_persistent_upper() {
            let upper = path_join(
                path_join(self.state_root.as_str(), "upper").as_str(),
                layer.id.as_str(),
            );
            let work = path_join(
                path_join(self.state_root.as_str(), "work").as_str(),
                layer.id.as_str(),
            );
            Upper::Disk { upper, work }
        } else {
            Upper::ReadOnly
        }
    }
}

impl ErofsBackend {
    /// the mount points mount_root records, in creation order: the image at
    /// the layer's lower, the tmpfs of an ephemeral layer, then the composed
    /// root at `target`
    pub fn mount_points(&self, layer: &LayerDescriptor, target: &str) -> (m: Mounts)
        ensures
            layer.flags.ephemeral && !layer.flags.atomic ==> m@ == seq![
                per_layer(self.state_spec(), "lower"@, layer.id@),
                per_layer(self.state_spec(), "ephemeral"@, layer.id@),
                target@,
            ],
            !(layer.flags.ephemeral && !layer.flags.atomic) ==> m@ == seq![
                per_layer(self.state_spec(), "lower"@, layer.id@),
                target@,
            ],
    {
        let mut m = Mounts::new();
        m.record(self.lower(layer).as_str());
        if layer.flags.ephemeral_upper() {
            m.record(self.ephemeral_base(layer).as_str());
        }
        m.record(target);
        m
    }

    /// what unmount_root removes once the recorded points are detached: the
    /// ephemeral scratch, then the lower mountpoint; never a persistent
    /// upper or work
    pub fn reclaim_dirs(&self, layer: &LayerDescriptor) -> (dirs: Vec<String>)
        ensures
            layer.flags.ephemeral && !layer.flags.atomic ==> crate::text::views(dirs@) == seq![
                per_layer(self.state_spec(), "ephemeral"@, layer.id@),
                per_layer(self.state_spec(), "lower"@, layer.id@),
            ],
            !(layer.flags.ephemeral && !layer.flags.atomic) ==> crate::text::views(dirs@) == seq![
                per_layer(self.state_spec(), "lower"@, layer.id@),
            ],
    {
        let mut dirs: Vec<String> = Vec::new();
        if layer.flags.ephemeral_upper() {
            dirs.push(self.ephemeral_base(layer));
        }
        dirs.push(self.lower(layer));
        proof {
            if layer.flags.ephemeral && !layer.flags.atomic {
                assert(crate::text::views(dirs@) =~= seq![
                    per_layer(self.state_spec(), "ephemeral"@, layer.id@),
                    per_layer(self.state_spec(), "lower"@, layer.id@),
                ]);
            } else {
                assert(crate::text::views(dirs@) =~= seq![
                    per_layer(self.state_spec(), "lower"@, layer.id@),
                ]);
            }
        }
        dirs
    }
}

/// Each layer has its own image: two different valid layer ids never name
/// the same image file.
pub proof fn law_images_distinct(store: Seq<char>, a: Seq<char>, b: Seq<char>)
    requires
        valid_layer_id(a),
        valid_layer_id(b),
        image_of(store, a) == image_of(store, b),
    ensures
        a == b,
{
    reveal_strlit(".erofs");
    let sa = a + ".erofs"@;
    let sb = b + ".erofs"@;
    assert(sa[0] == a[0]);
    assert(sb[0] == b[0]);
    lemma_join_injective(store, sa, sb);
    assert(a =~= sa.take(sa.len() - 6));
    assert(b =~= sb.take(sb.len() - 6));
}

} // verus!
