//! filesystem layout of the meta-distro. the root is chosen at runtime so a
//! fork or test harness can place it anywhere. absolute paths stay const

use crate::api::layer::valid_layer_id;
use crate::path::{join, lemma_join_injective, lemma_join_tail_injective, path_join};
use vstd::prelude::*;

verus! {

/// the calling thread's mount namespace link, bound to persist a layer
pub const SELF_NS_MNT: &'static str = "/proc/self/ns/mnt";

/// the unified cgroup v2 hierarchy. absolute, like the pseudo-filesystems:
/// the kernel mounts it here regardless of the meta-distro root
pub const CGROUP2_ROOT: &'static str = "/sys/fs/cgroup";

/// filesystem layout of the meta-distro
#[derive(Clone, Debug)]
pub struct Layout {
    root: String,
}

pub open spec fn run_of(root: Seq<char>) -> Seq<char> {
    join(root, "run"@)
}

pub open spec fn run_ns_of(root: Seq<char>) -> Seq<char> {
    join(root, "run/ns"@)
}

pub open spec fn ns_file_of(root: Seq<char>, layer: Seq<char>) -> Seq<char> {
    join(join(run_ns_of(root), layer), "mnt"@)
}

impl View for Layout {
    type V = Seq<char>;

    closed spec fn view(&self) -> Seq<char> {
        self.root@
    }
}

impl Layout {
    pub fn new(root: &str) -> (l: Self)
        ensures
            l@ == root@,
    {
        Layout { root: String::from_str(root) }
    }

    pub fn root(&self) -> (r: &str)
        ensures
            r@ == self@,
    {
        self.root.as_str()
    }

    /// tmpfs for runtime state, set up by early mounts
    pub fn run(&self) -> (p: String)
        ensures
            p@ == run_of(self@),
    {
        path_join(self.root.as_str(), "run")
    }

    /// persisted namespace files live at run/ns/<layer>/mnt
    pub fn run_ns(&self) -> (p: String)
        ensures
            p@ == run_ns_of(self@),
    {
        path_join(self.root.as_str(), "run/ns")
    }

    pub fn ns_file(&self, layer: &str) -> (p: String)
        ensures
            p@ == ns_file_of(self@, layer@),
    {
        let d = path_join(self.run_ns().as_str(), layer);
        path_join(d.as_str(), "mnt")
    }

    /// staging root where a layer is composed before pivot
    pub fn stage(&self) -> (p: String)
        ensures
            p@ == join(self@, "run/root"@),
    {
        path_join(self.root.as_str(), "run/root")
    }

    /// content-addressed object store
    pub fn store(&self) -> (p: String)
        ensures
            p@ == join(self@, ".store"@),
    {
        path_join(self.root.as_str(), ".store")
    }

    /// writable per-layer state (overlay upper/work)
    pub fn state(&self) -> (p: String)
        ensures
            p@ == join(self@, ".state"@),
    {
        path_join(self.root.as_str(), ".state")
    }

    /// gens for rollback
    pub fn gens(&self) -> (p: String)
        ensures
            p@ == join(self@, ".gen"@),
    {
        path_join(self.root.as_str(), ".gen")
    }
}

impl Default for Layout {
    /// the conventional root. change this to relocate the layout
    fn default() -> (l: Self)
        ensures
            l@ == "/rust"@,
    {
        Layout::new("/rust")
    }
}

/// Each layer gets its own namespace file: two valid layer ids share a
/// namespace file only if they are the same id.
pub proof fn law_ns_files_distinct(root: Seq<char>, a: Seq<char>, b: Seq<char>)
    requires
        valid_layer_id(a),
        valid_layer_id(b),
        ns_file_of(root, a) == ns_file_of(root, b),
    ensures
        a == b,
{
    reveal_strlit("mnt");
    let d = run_ns_of(root);
    let da = join(d, a);
    let db = join(d, b);
    assert(a[a.len() - 1] != '/');
    assert(b[b.len() - 1] != '/');
    assert(da.last() == a.last());
    assert(db.last() == b.last());
    assert("mnt"@[0] == 'm');
    lemma_join_tail_injective(da, db, "mnt"@);
    lemma_join_injective(d, a, b);
}

} // verus!
