//! typed flags the core acts on; fork-defined flags ride in extra so the
//! core stays ignorant of policy it does not own

use vstd::prelude::*;

verus! {

#[derive(Debug, Default, PartialEq, Eq)]
pub struct LayerFlags {
    /// layer is itself a meta-distro (an imported bedrock stratum)
    pub meta: bool,
    /// non-standard layout (nixos, guix, gobolinux): resolver indexes real
    /// paths, the core does not assume fhs
    pub non_fhs: bool,
    /// immutable, atomically updated (silverblue, microos): no persistent
    /// writable upper, changes land in a new gen
    pub atomic: bool,
    /// lives until reboot: writable upper in tmpfs
    pub ephemeral: bool,
    /// version frozen, forge does not update it. policy, core ignores
    pub pinned: bool,
    /// not shown in launcher or PATH. policy, core ignores
    pub hidden: bool,
    /// fork-defined flags the core does not know. carried verbatim
    pub extra: Vec<String>,
}

/// `a` and `b` carry the same flags, fork extras included, in order
pub open spec fn same_flags(a: LayerFlags, b: LayerFlags) -> bool {
    &&& a.meta == b.meta
    &&& a.non_fhs == b.non_fhs
    &&& a.atomic == b.atomic
    &&& a.ephemeral == b.ephemeral
    &&& a.pinned == b.pinned
    &&& a.hidden == b.hidden
    &&& a.extra@ == b.extra@
}

impl Clone for LayerFlags {
    fn clone(&self) -> (r: Self)
        ensures
            same_flags(r, *self),
    {
        LayerFlags {
            meta: self.meta,
            non_fhs: self.non_fhs,
            atomic: self.atomic,
            ephemeral: self.ephemeral,
            pinned: self.pinned,
            hidden: self.hidden,
            extra: crate::text::clone_strings(&self.extra),
        }
    }
}

impl LayerFlags {
    /// true when ephemeral or atomic: in both cases there is no persistent
    /// on-disk upper, so the store skips the writable overlay
    pub fn no_persistent_upper(&self) -> (b: bool)
        ensures
            b == (self.ephemeral || self.atomic),
    {
        self.ephemeral || self.atomic
    }

    /// the layer wants a writable upper in tmpfs, lost on reboot. atomic wins
    /// if both are set: atomic takes no upper at all
    pub fn ephemeral_upper(&self) -> (b: bool)
        ensures
            b == (self.ephemeral && !self.atomic),
    {
        self.ephemeral && !self.atomic
    }
}

/// Whoever wants a tmpfs upper has no persistent one, and an atomic layer
/// never takes a tmpfs upper: the three upper modes exclude each other.
pub proof fn law_upper_modes_exclusive(f: LayerFlags)
    ensures
        (f.ephemeral && !f.atomic) ==> (f.ephemeral || f.atomic),
        f.atomic ==> !(f.ephemeral && !f.atomic),
        !(f.ephemeral || f.atomic) ==> !(f.ephemeral && !f.atomic),
{
}

} // verus!
