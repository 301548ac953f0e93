//! a layer: a donor root the core can compose and run. every layer is
//! equal; differences are data on the descriptor, not special cases

use super::flags::{same_flags, LayerFlags};
use super::libc::Libc;
use super::resources::Limits;
use super::sandbox::{same_sandbox, Sandbox};
use crate::text::{chars_of, str_eq};
use vstd::prelude::*;

verus! {

/// a layer's unique id, used as a directory name in the store. constructed
/// only through new(), which rejects empty, slash, NUL, or "." / ".."
#[derive(Debug, PartialEq, Eq, Hash)]
pub struct LayerId(String);

/// why `s` is not a valid layer id, or none when it is
pub open spec fn layer_id_violation(s: Seq<char>) -> Option<Seq<char>> {
    if s.len() == 0 {
        Some("layer id is empty"@)
    } else if s == "."@ {
        Some("layer id is a reserved name: \".\""@)
    } else if s == ".."@ {
        Some("layer id is a reserved name: \"..\""@)
    } else if exists|i: int| 0 <= i < s.len() && (s[i] == '/' || s[i] == '\0') {
        let i = choose|i: int|
            0 <= i < s.len() && (s[i] == '/' || s[i] == '\0') && forall|j: int|
                0 <= j < i ==> s[j] != '/' && s[j] != '\0';
        if s[i] == '/' {
            Some("layer id contains an invalid character: '/'"@)
        } else {
            Some("layer id contains an invalid character: '\\0'"@)
        }
    } else {
        None
    }
}

/// a name that may stand as one directory component in the store
pub open spec fn valid_layer_id(s: Seq<char>) -> bool {
    &&& s.len() > 0
    &&& s != "."@
    &&& s != ".."@
    &&& forall|i: int| 0 <= i < s.len() ==> #[trigger] s[i] != '/' && s[i] != '\0'
}

/// An id is refused exactly when it is not a valid directory component:
/// every reason new() gives names a real defect, and a valid id has none.
pub proof fn law_refused_iff_invalid(s: Seq<char>)
    ensures
        layer_id_violation(s) is None <==> valid_layer_id(s),
{
}

impl View for LayerId {
    type V = Seq<char>;

    closed spec fn view(&self) -> Seq<char> {
        self.0@
    }
}

impl LayerId {
    #[verifier::type_invariant]
    closed spec fn inv(self) -> bool {
        valid_layer_id(self.0@)
    }

    /// return a valid id or an error describing the violation
    pub fn new(id: &str) -> (res: Result<Self, String>)
        ensures
            match res {
                Ok(l) => l@ == id@ && layer_id_violation(id@) is None,
                Err(m) => layer_id_violation(id@) == Some(m@),
            },
    {
        let cs = chars_of(id);
        if cs.len() == 0 {
            return Err(String::from_str("layer id is empty"));
        }
        if str_eq(id, ".") {
            return Err(String::from_str("layer id is a reserved name: \".\""));
        }
        if str_eq(id, "..") {
            return Err(String::from_str("layer id is a reserved name: \"..\""));
        }
        let mut i: usize = 0;
        while i < cs.len()
            invariant
                cs@ == id@,
                id@.len() > 0,
                id@ != "."@,
                id@ != ".."@,
                i <= cs@.len(),
                forall|j: int| 0 <= j < i ==> cs@[j] != '/' && cs@[j] != '\0',
            decreases cs@.len() - i,
        {
            let c = cs[i];
            if c == '/' || c == '\0' {
                let ghost s = id@;
                assert(0 <= i < s.len() && (s[i as int] == '/' || s[i as int] == '\0'));
                let ghost k = choose|k: int|
                    0 <= k < s.len() && (s[k] == '/' || s[k] == '\0') && forall|j: int|
                        0 <= j < k ==> s[j] != '/' && s[j] != '\0';
                assert(k == i as int) by {
                    if k < i {
                    } else if k > i {
                        assert(s[i as int] != '/' && s[i as int] != '\0');
                    }
                }
                if c == '/' {
                    return Err(String::from_str("layer id contains an invalid character: '/'"));
                } else {
                    return Err(String::from_str("layer id contains an invalid character: '\\0'"));
                }
            }
            i += 1;
        }
        Ok(LayerId(String::from_str(id)))
    }

    pub fn as_str(&self) -> (s: &str)
        ensures
            s@ == self@,
            valid_layer_id(self@),
    {
        proof {
            use_type_invariant(self);
        }
        self.0.as_str()
    }
}

impl LayerId {
    /// the id as `Display` writes it: the name itself
    pub fn to_string(&self) -> (s: String)
        ensures
            s@ == self@,
    {
        String::from_str(self.as_str())
    }
}

impl std::str::FromStr for LayerId {
    type Err = String;

    fn from_str(s: &str) -> (res: std::result::Result<Self, String>)
        ensures
            match res {
                Ok(l) => l@ == s@ && layer_id_violation(s@) is None,
                Err(m) => layer_id_violation(s@) == Some(m@),
            },
    {
        LayerId::new(s)
    }
}

impl Clone for LayerId {
    fn clone(&self) -> (r: Self)
        ensures
            r == *self,
    {
        proof {
            use_type_invariant(self);
        }
        LayerId(self.0.clone())
    }
}

/// the kind of a layer: how it was acquired and its role at boot
#[derive(Clone, Copy, Debug, PartialEq, Eq, Structural)]
pub enum LayerType {
    /// independently installed layer, equal in privilege to every other native
    Native,
    /// the former root, the layer the meta-distro was installed onto. exactly
    /// one, equal in privilege to native
    Shadowed,
    /// guaranteed-healthy fallback so the system is never unbootable
    Rescue,
}

/// a layer's configured identity: id, type, priority, libc, flags, sandbox
/// and resource limits. read from system state, never inferred from a distro
/// name
#[derive(Debug)]
pub struct LayerDescriptor {
    pub id: LayerId,
    pub layer_type: LayerType,
    /// lower number wins. shadowed is 1 at install, native is 1 + n
    pub priority: u32,
    pub libc: Libc,
    /// typed behaviour flags the core understands, plus fork extras
    pub flags: LayerFlags,
    /// confinement applied at launch. empty means unconfined
    pub sandbox: Sandbox,
    /// resource ceilings written to the layer's cgroup v2 scope at launch.
    /// empty means a scope with accounting but no caps
    pub resources: Limits,
}

/// `a` and `b` describe the same layer in every field
pub open spec fn same_descriptor(a: LayerDescriptor, b: LayerDescriptor) -> bool {
    &&& a.id == b.id
    &&& a.layer_type == b.layer_type
    &&& a.priority == b.priority
    &&& a.libc == b.libc
    &&& same_flags(a.flags, b.flags)
    &&& same_sandbox(a.sandbox, b.sandbox)
    &&& a.resources == b.resources
}

impl Clone for LayerDescriptor {
    fn clone(&self) -> (r: Self)
        ensures
            same_descriptor(r, *self),
    {
        LayerDescriptor {
            id: self.id.clone(),
            layer_type: self.layer_type,
            priority: self.priority,
            libc: self.libc.clone(),
            flags: self.flags.clone(),
            sandbox: self.sandbox.clone(),
            resources: self.resources.clone(),
        }
    }
}

/// a descriptor whose namespace is built and persisted. open ns_path and
/// setns to enter without a daemon round trip
#[derive(Debug)]
pub struct Layer {
    pub desc: LayerDescriptor,
    /// persisted mount namespace file. open it and setns to enter
    pub ns_path: String,
}

impl Clone for Layer {
    fn clone(&self) -> (r: Self)
        ensures
            same_descriptor(r.desc, self.desc),
            r.ns_path@ == self.ns_path@,
    {
        Layer { desc: self.desc.clone(), ns_path: self.ns_path.clone() }
    }
}

} // verus!
