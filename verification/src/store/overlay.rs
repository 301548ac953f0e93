//! the reference backend: the layer's tree (over a shared base, when the
//! store has one) as the overlay lower, with a writable upper chosen by the
//! layer's flags. mounting is the system layer's; the paths and the choice
//! of upper are here

use crate::api::layer::{LayerDescriptor, valid_layer_id};
use crate::api::mounts::Mounts;
use crate::path::{join, lemma_join_injective, path_is_dir, path_join};
use crate::text::{concat, str_eq};
use vstd::prelude::*;

verus! {

pub struct OverlayBackend {
    store_root: String,
    /// writable state root, sibling of the store (upper and work live here)
    state_root: String,
}

/// where a layer's writable upper comes from
pub enum Upper {
    /// atomic: no upper at all, the overlay is read-only
    ReadOnly,
    /// ephemeral: one tmpfs mounted at `base`, with `upper` and `work`
    /// directories inside it (overlay requires them on one filesystem)
    Tmpfs { base: String, upper: String, work: String },
    /// persistent on-disk upper and work directories under the state root
    Disk { upper: String, work: String },
}

/// per-layer directory `<root>/<kind>/<layer>`
pub open spec fn per_layer(root: Seq<char>, kind: Seq<char>, id: Seq<char>) -> Seq<char> {
    join(join(root, kind), id)
}

/// the overlay lower: the layer's tree, followed by the shared base when the
/// store has one that is not the layer's own tree
pub open spec fn lowerdir_of(store: Seq<char>, id: Seq<char>, base_is_dir: bool) -> Seq<char> {
    let usr = join(store, id);
    let base = join(store, "base"@);
    if base_is_dir && base != usr {
        usr + ":"@ + base
    } else {
        usr
    }
}

impl OverlayBackend {
    pub closed spec fn store_spec(&self) -> Seq<char> {
        self.store_root@
    }

    pub closed spec fn state_spec(&self) -> Seq<char> {
        self.state_root@
    }

    pub fn new(store_root: &str, state_root: &str) -> (b: Self)
        ensures
            b.store_spec() == store_root@,
            b.state_spec() == state_root@,
    {
        OverlayBackend {
            store_root: String::from_str(store_root),
            state_root: String::from_str(state_root),
        }
    }

    /// the writable state root the per-layer directories live under
    pub fn state_root(&self) -> (r: &str)
        ensures
            r@ == self.state_spec(),
    {
        self.state_root.as_str()
    }

    /// the lower once it is known whether the store holds a shared base
    pub fn lowerdir_with(&self, layer: &LayerDescriptor, base_is_dir: bool) -> (s: String)
        ensures
            s@ == lowerdir_of(self.store_spec(), layer.id@, base_is_dir),
    {
        let usr = path_join(self.store_root.as_str(), layer.id.as_str());
        let base = path_join(self.store_root.as_str(), "base");
        if base_is_dir && !str_eq(base.as_str(), usr.as_str()) {
            let mut s = concat(usr.as_str(), ":");
            s.append(base.as_str());
            s
        } else {
            usr
        }
    }

    /// layer tree plus optional shared base. a layer named "base" is its own
    /// base: listing the dir twice is an overlapping lower, which overlay
    /// rejects with ELOOP
    pub fn lowerdir(&self, layer: &LayerDescriptor) -> (s: String)
        ensures
            s@ == lowerdir_of(self.store_spec(), layer.id@, true) || s@ == lowerdir_of(
                self.store_spec(),
                layer.id@,
                false,
            ),
    {
        let base = path_join(self.store_root.as_str(), "base");
        let present = path_is_dir(base.as_str());
        self.lowerdir_with(layer, present)
    }

    pub fn upperdir(&self, layer: &LayerDescriptor) -> (p: String)
        ensures
            p@ == per_layer(self.state_spec(), "upper"@, layer.id@),
    {
        path_join(path_join(self.state_root.as_str(), "upper").as_str(), layer.id.as_str())
    }

    pub fn workdir(&self, layer: &LayerDescriptor) -> (p: String)
        ensures
            p@ == per_layer(self.state_spec(), "work"@, layer.id@),
    {
        path_join(path_join(self.state_root.as_str(), "work").as_str(), layer.id.as_str())
    }

    /// one tmpfs mounted here with upper and work subdirs
    pub fn ephemeral_base(&self, layer: &LayerDescriptor) -> (p: String)
        ensures
            p@ == per_layer(self.state_spec(), "ephemeral"@, layer.id@),
    {
        path_join(path_join(self.state_root.as_str(), "ephemeral").as_str(), layer.id.as_str())
    }

    /// upper by flag: atomic takes none (read-only), ephemeral a tmpfs,
    /// anything else the persistent on-disk one. atomic overrides ephemeral
    pub fn upper(&self, layer: &LayerDescriptor) -> (u: Upper)
        ensures
            layer.flags.atomic ==> u is ReadOnly,
            layer.flags.ephemeral && !layer.flags.atomic ==> (u matches Upper::Tmpfs { base, upper, work } && base@
                == per_layer(self.state_spec(), "ephemeral"@, layer.id@) && upper@ == join(
                base@,
                "upper"@,
            ) && work@ == join(base@, "work"@)),
            !layer.flags.ephemeral && !layer.flags.atomic ==> (u matches Upper::Disk { upper, work }
                && upper@ == per_layer(self.state_spec(), "upper"@, layer.id@) && work@ == per_layer(
                self.state_spec(),
                "work"@,
                layer.id@,
            )),
    {
        if layer.flags.ephemeral_upper() {
            let base = self.ephemeral_base(layer);
            let upper = path_join(base.as_str(), "upper");
            let work = path_join(base.as_str(), "work");
            Upper::Tmpfs { base, upper, work }
        } else if !layer.flags.no_persistent_upper() {
            Upper::Disk { upper: self.upperdir(layer), work: self.workdir(layer) }
        } else {
            Upper::ReadOnly
        }
    }
}

impl OverlayBackend {
    /// the mount points mount_root records, in creation order: the tmpfs of
    /// an ephemeral layer, then the composed root at `target`
    pub fn mount_points(&self, layer: &LayerDescriptor, target: &str) -> (m: Mounts)
        ensures
            layer.flags.ephemeral && !layer.flags.atomic ==> m@ == seq![
                per_layer(self.state_spec(), "ephemeral"@, layer.id@),
                target@,
            ],
            !(layer.flags.ephemeral && !layer.flags.atomic) ==> m@ == seq![target@],
    {
        let mut m = Mounts::new();
        if layer.flags.ephemeral_upper() {
            m.record(self.ephemeral_base(layer).as_str());
        }
        m.record(target);
        m
    }

    /// what unmount_root removes once the recorded points are detached: the
    /// ephemeral scratch, never a persistent upper or work
    pub fn reclaim_dirs(&self, layer: &LayerDescriptor) -> (dirs: Vec<String>)
        ensures
            layer.flags.ephemeral && !layer.flags.atomic ==> crate::text::views(dirs@) == seq![
                per_layer(self.state_spec(), "ephemeral"@, layer.id@),
            ],
            !(layer.flags.ephemeral && !layer.flags.atomic) ==> dirs@.len() == 0,
    {
        let mut dirs: Vec<String> = Vec::new();
        if layer.flags.ephemeral_upper() {
            dirs.push(self.ephemeral_base(layer));
            assert(crate::text::views(dirs@) =~= seq![
                per_layer(self.state_spec(), "ephemeral"@, layer.id@),
            ]);
        }
        dirs
    }
}

/// Layers never share writable state: two different layers get different
/// upper, work and tmpfs directories.
pub proof fn law_per_layer_dirs_distinct(root: Seq<char>, kind: Seq<char>, a: Seq<char>, b: Seq<char>)
    requires
        valid_layer_id(a),
        valid_layer_id(b),
        per_layer(root, kind, a) == per_layer(root, kind, b),
    ensures
        a == b,
{
    lemma_join_injective(join(root, kind), a, b);
}

} // verus!
