//! data so confinement is per-layer config, not hardcoded; real paths so
//! landlock and seccomp apply without rewriting policy

use crate::text::{concat, str_eq, u64_to_dec, dec};
use vstd::prelude::*;

verus! {

/// per-layer confinement applied at launch. a layer with an empty sandbox
/// runs unconfined; every field is optional
#[derive(Debug, Default, PartialEq, Eq)]
pub struct Sandbox {
    /// subtrees the process may read and traverse (landlock)
    pub read: Vec<String>,
    /// subtrees the process may write. write implies read (landlock)
    pub write: Vec<String>,
    /// seccomp posture for the process
    pub seccomp: Seccomp,
    /// uid/gid remap for the layer's mounts. none means no idmap
    pub idmap: Option<IdMap>,
    /// capabilities the launched process keeps across execve. empty (the
    /// default) means every capability is dropped at launch
    pub keep_caps: Vec<Cap>,
}

/// kernel capability number, stable ABI and arch-independent, so no mapping
/// layer is needed between config and the syscall
#[derive(Clone, Copy, Debug, PartialEq, Eq, Structural)]
pub struct Cap(u8);

/// the highest capability number the table knows
pub const CAP_LAST: u8 = 40;

/// canonical names (lowercase, no CAP_ prefix) of the kernel capability
/// numbers 0..=40: the single source for parsing keep-lists and the bound
/// on what exists
pub open spec fn cap_name(n: int) -> Seq<char> {
    if n == 0 {
        "chown"@
    } else if n == 1 {
        "dac_override"@
    } else if n == 2 {
        "dac_read_search"@
    } else if n == 3 {
        "fowner"@
    } else if n == 4 {
        "fsetid"@
    } else if n == 5 {
        "kill"@
    } else if n == 6 {
        "setgid"@
    } else if n == 7 {
        "setuid"@
    } else if n == 8 {
        "setpcap"@
    } else if n == 9 {
        "linux_immutable"@
    } else if n == 10 {
        "net_bind_service"@
    } else if n == 11 {
        "net_broadcast"@
    } else if n == 12 {
        "net_admin"@
    } else if n == 13 {
        "net_raw"@
    } else if n == 14 {
        "ipc_lock"@
    } else if n == 15 {
        "ipc_owner"@
    } else if n == 16 {
        "sys_module"@
    } else if n == 17 {
        "sys_rawio"@
    } else if n == 18 {
        "sys_chroot"@
    } else if n == 19 {
        "sys_ptrace"@
    } else if n == 20 {
        "sys_pacct"@
    } else if n == 21 {
        "sys_admin"@
    } else if n == 22 {
        "sys_boot"@
    } else if n == 23 {
        "sys_nice"@
    } else if n == 24 {
        "sys_resource"@
    } else if n == 25 {
        "sys_time"@
    } else if n == 26 {
        "sys_tty_config"@
    } else if n == 27 {
        "mknod"@
    } else if n == 28 {
        "lease"@
    } else if n == 29 {
        "audit_write"@
    } else if n == 30 {
        "audit_control"@
    } else if n == 31 {
        "setfcap"@
    } else if n == 32 {
        "mac_override"@
    } else if n == 33 {
        "mac_admin"@
    } else if n == 34 {
        "syslog"@
    } else if n == 35 {
        "wake_alarm"@
    } else if n == 36 {
        "block_suspend"@
    } else if n == 37 {
        "audit_read"@
    } else if n == 38 {
        "perfmon"@
    } else if n == 39 {
        "bpf"@
    } else {
        "checkpoint_restore"@
    }
}

fn cap_name_of(n: u8) -> (s: &'static str)
    requires
        n <= CAP_LAST,
    ensures
        s@ == cap_name(n as int),
{
    if n == 0 {
        "chown"
    } else if n == 1 {
        "dac_override"
    } else if n == 2 {
        "dac_read_search"
    } else if n == 3 {
        "fowner"
    } else if n == 4 {
        "fsetid"
    } else if n == 5 {
        "kill"
    } else if n == 6 {
        "setgid"
    } else if n == 7 {
        "setuid"
    } else if n == 8 {
        "setpcap"
    } else if n == 9 {
        "linux_immutable"
    } else if n == 10 {
        "net_bind_service"
    } else if n == 11 {
        "net_broadcast"
    } else if n == 12 {
        "net_admin"
    } else if n == 13 {
        "net_raw"
    } else if n == 14 {
        "ipc_lock"
    } else if n == 15 {
        "ipc_owner"
    } else if n == 16 {
        "sys_module"
    } else if n == 17 {
        "sys_rawio"
    } else if n == 18 {
        "sys_chroot"
    } else if n == 19 {
        "sys_ptrace"
    } else if n == 20 {
        "sys_pacct"
    } else if n == 21 {
        "sys_admin"
    } else if n == 22 {
        "sys_boot"
    } else if n == 23 {
        "sys_nice"
    } else if n == 24 {
        "sys_resource"
    } else if n == 25 {
        "sys_time"
    } else if n == 26 {
        "sys_tty_config"
    } else if n == 27 {
        "mknod"
    } else if n == 28 {
        "lease"
    } else if n == 29 {
        "audit_write"
    } else if n == 30 {
        "audit_control"
    } else if n == 31 {
        "setfcap"
    } else if n == 32 {
        "mac_override"
    } else if n == 33 {
        "mac_admin"
    } else if n == 34 {
        "syslog"
    } else if n == 35 {
        "wake_alarm"
    } else if n == 36 {
        "block_suspend"
    } else if n == 37 {
        "audit_read"
    } else if n == 38 {
        "perfmon"
    } else if n == 39 {
        "bpf"
    } else {
        "checkpoint_restore"
    }
}

/// the number whose canonical name is `name`, searching the table in order
pub open spec fn cap_lookup(name: Seq<char>) -> Option<u8> {
    if exists|n: int| 0 <= n <= CAP_LAST && cap_name(n) == name {
        Some((choose|n: int| 0 <= n <= CAP_LAST && cap_name(n) == name && forall|m: int| 0 <= m < n ==> cap_name(m) != name) as u8)
    } else {
        None
    }
}

impl View for Cap {
    type V = u8;

    closed spec fn view(&self) -> u8 {
        self.0
    }
}

impl Cap {
    #[verifier::type_invariant]
    closed spec fn inv(self) -> bool {
        self.0 <= CAP_LAST
    }

    /// parse a capability by its canonical name (lowercase, no CAP_ prefix),
    /// e.g. "net_bind_service". None for an unknown name
    pub fn from_name(name: &str) -> (res: Option<Cap>)
        ensures
            match res {
                Some(c) => cap_lookup(name@) == Some(c@),
                None => cap_lookup(name@) is None,
            },
    {
        let mut n: u8 = 0;
        while n <= CAP_LAST
            invariant
                n <= CAP_LAST + 1,
                forall|m: int| 0 <= m < n ==> cap_name(m) != name@,
            decreases CAP_LAST + 1 - n,
        {
            if str_eq(name, cap_name_of(n)) {
                proof {
                    let k = choose|k: int| 0 <= k <= CAP_LAST && cap_name(k) == name@ && forall|m: int| 0 <= m < k ==> cap_name(m) != name@;
                    assert(k == n as int) by {
                        if k > n {
                            assert(cap_name(n as int) == name@);
                        }
                    }
                }
                return Some(Cap(n));
            }
            n += 1;
        }
        None
    }

    /// the kernel capability number
    pub fn raw(self) -> (n: u8)
        ensures
            n == self@,
            n <= CAP_LAST,
    {
        proof {
            use_type_invariant(&self);
        }
        self.0
    }
}

/// A known name maps to the number whose canonical name it is, and two
/// names that map to the same capability are the same name.
pub proof fn law_cap_names_are_canonical(a: Seq<char>, b: Seq<char>)
    ensures
        cap_lookup(a) matches Some(n) ==> n <= CAP_LAST && cap_name(n as int) == a,
        cap_lookup(a) is Some && cap_lookup(a) == cap_lookup(b) ==> a == b,
{
}

/// the table entry a name's length and its first, fourth and fifth letters
/// point to; these letters are enough to tell every name in the table apart
spec fn cap_by_letters(len: nat, c0: char, c3: char, c4: char) -> int {
    if len == 5 && c0 == 'c' && c3 == 'w' && c4 == 'n' {
        0
    } else if len == 12 && c0 == 'd' && c3 == '_' && c4 == 'o' {
        1
    } else if len == 15 && c0 == 'd' && c3 == '_' && c4 == 'r' {
        2
    } else if len == 6 && c0 == 'f' && c3 == 'n' && c4 == 'e' {
        3
    } else if len == 6 && c0 == 'f' && c3 == 't' && c4 == 'i' {
        4
    } else if len == 4 && c0 == 'k' && c3 == 'l' {
        5
    } else if len == 6 && c0 == 's' && c3 == 'g' && c4 == 'i' {
        6
    } else if len == 6 && c0 == 's' && c3 == 'u' && c4 == 'i' {
        7
    } else if len == 7 && c0 == 's' && c3 == 'p' && c4 == 'c' {
        8
    } else if len == 15 && c0 == 'l' && c3 == 'u' && c4 == 'x' {
        9
    } else if len == 16 && c0 == 'n' && c3 == '_' && c4 == 'b' {
        10
    } else if len == 13 && c0 == 'n' && c3 == '_' && c4 == 'b' {
        11
    } else if len == 9 && c0 == 'n' && c3 == '_' && c4 == 'a' {
        12
    } else if len == 7 && c0 == 'n' && c3 == '_' && c4 == 'r' {
        13
    } else if len == 8 && c0 == 'i' && c3 == '_' && c4 == 'l' {
        14
    } else if len == 9 && c0 == 'i' && c3 == '_' && c4 == 'o' {
        15
    } else if len == 10 && c0 == 's' && c3 == '_' && c4 == 'm' {
        16
    } else if len == 9 && c0 == 's' && c3 == '_' && c4 == 'r' {
        17
    } else if len == 10 && c0 == 's' && c3 == '_' && c4 == 'c' {
        18
    } else if len == 10 && c0 == 's' && c3 == '_' && c4 == 'p' {
        19
    } else if len == 9 && c0 == 's' && c3 == '_' && c4 == 'p' {
        20
    } else if len == 9 && c0 == 's' && c3 == '_' && c4 == 'a' {
        21
    } else if len == 8 && c0 == 's' && c3 == '_' && c4 == 'b' {
        22
    } else if len == 8 && c0 == 's' && c3 == '_' && c4 == 'n' {
        23
    } else if len == 12 && c0 == 's' && c3 == '_' && c4 == 'r' {
        24
    } else if len == 8 && c0 == 's' && c3 == '_' && c4 == 't' {
        25
    } else if len == 14 && c0 == 's' && c3 == '_' && c4 == 't' {
        26
    } else if len == 5 && c0 == 'm' && c3 == 'o' && c4 == 'd' {
        27
    } else if len == 5 && c0 == 'l' && c3 == 's' && c4 == 'e' {
        28
    } else if len == 11 && c0 == 'a' && c3 == 'i' && c4 == 't' {
        29
    } else if len == 13 && c0 == 'a' && c3 == 'i' && c4 == 't' {
        30
    } else if len == 7 && c0 == 's' && c3 == 'f' && c4 == 'c' {
        31
    } else if len == 12 && c0 == 'm' && c3 == '_' && c4 == 'o' {
        32
    } else if len == 9 && c0 == 'm' && c3 == '_' && c4 == 'a' {
        33
    } else if len == 6 && c0 == 's' && c3 == 'l' && c4 == 'o' {
        34
    } else if len == 10 && c0 == 'w' && c3 == 'e' && c4 == '_' {
        35
    } else if len == 13 && c0 == 'b' && c3 == 'c' && c4 == 'k' {
        36
    } else if len == 10 && c0 == 'a' && c3 == 'i' && c4 == 't' {
        37
    } else if len == 7 && c0 == 'p' && c3 == 'f' && c4 == 'm' {
        38
    } else if len == 3 && c0 == 'b' {
        39
    } else if len == 18 && c0 == 'c' && c3 == 'c' && c4 == 'k' {
        40
    } else {
        -1
    }
}

spec fn letters_point_to(s: Seq<char>) -> int {
    cap_by_letters(s.len(), s[0], s[3], s[4])
}

proof fn lemma_cap_name_letters(n: int)
    requires
        0 <= n <= CAP_LAST,
    ensures
        letters_point_to(cap_name(n)) == n,
{
    if n == 0 {
        reveal_strlit("chown");
    } else if n == 1 {
        reveal_strlit("dac_override");
    } else if n == 2 {
        reveal_strlit("dac_read_search");
    } else if n == 3 {
        reveal_strlit("fowner");
    } else if n == 4 {
        reveal_strlit("fsetid");
    } else if n == 5 {
        reveal_strlit("kill");
    } else if n == 6 {
        reveal_strlit("setgid");
    } else if n == 7 {
        reveal_strlit("setuid");
    } else if n == 8 {
        reveal_strlit("setpcap");
    } else if n == 9 {
        reveal_strlit("linux_immutable");
    } else if n == 10 {
        reveal_strlit("net_bind_service");
    } else if n == 11 {
        reveal_strlit("net_broadcast");
    } else if n == 12 {
        reveal_strlit("net_admin");
    } else if n == 13 {
        reveal_strlit("net_raw");
    } else if n == 14 {
        reveal_strlit("ipc_lock");
    } else if n == 15 {
        reveal_strlit("ipc_owner");
    } else if n == 16 {
        reveal_strlit("sys_module");
    } else if n == 17 {
        reveal_strlit("sys_rawio");
    } else if n == 18 {
        reveal_strlit("sys_chroot");
    } else if n == 19 {
        reveal_strlit("sys_ptrace");
    } else if n == 20 {
        reveal_strlit("sys_pacct");
    } else if n == 21 {
        reveal_strlit("sys_admin");
    } else if n == 22 {
        reveal_strlit("sys_boot");
    } else if n == 23 {
        reveal_strlit("sys_nice");
    } else if n == 24 {
        reveal_strlit("sys_resource");
    } else if n == 25 {
        reveal_strlit("sys_time");
    } else if n == 26 {
        reveal_strlit("sys_tty_config");
    } else if n == 27 {
        reveal_strlit("mknod");
    } else if n == 28 {
        reveal_strlit("lease");
    } else if n == 29 {
        reveal_strlit("audit_write");
    } else if n == 30 {
        reveal_strlit("audit_control");
    } else if n == 31 {
        reveal_strlit("setfcap");
    } else if n == 32 {
        reveal_strlit("mac_override");
    } else if n == 33 {
        reveal_strlit("mac_admin");
    } else if n == 34 {
        reveal_strlit("syslog");
    } else if n == 35 {
        reveal_strlit("wake_alarm");
    } else if n == 36 {
        reveal_strlit("block_suspend");
    } else if n == 37 {
        reveal_strlit("audit_read");
    } else if n == 38 {
        reveal_strlit("perfmon");
    } else if n == 39 {
        reveal_strlit("bpf");
    } else {
        reveal_strlit("checkpoint_restore");
    }
}

/// Every capability number has a name of its own, and that name maps back
/// to it: no two numbers share a name.
pub proof fn law_every_cap_has_its_name(n: int)
    requires
        0 <= n <= CAP_LAST,
    ensures
        cap_lookup(cap_name(n)) == Some(n as u8),
        forall|m: int| 0 <= m <= CAP_LAST && #[trigger] cap_name(m) == cap_name(n) ==> m == n,
{
    lemma_cap_name_letters(n);
    assert forall|m: int| 0 <= m <= CAP_LAST && #[trigger] cap_name(m) == cap_name(n) implies m == n by {
        lemma_cap_name_letters(m);
    }
    assert(cap_name(n) == cap_name(n));
}

/// the seccomp posture for a layer
#[derive(Clone, Copy, Debug, Default, PartialEq, Eq, Structural)]
pub enum Seccomp {
    /// no filter installed
    #[default]
    Off,
    /// block a small set of universally dangerous syscalls
    Baseline,
}

/// a contiguous id range mapped through an idmapped mount, so a layer's
/// files appear under outer ids without chowning on disk. constructed only
/// through new(), which rejects an empty or overflowing range
#[derive(Clone, Copy, Debug, PartialEq, Eq)]
pub struct IdMap {
    outer_start: u32,
    count: u32,
}

impl IdMap {
    #[verifier::type_invariant]
    closed spec fn inv(self) -> bool {
        self.count >= 1 && self.outer_start + self.count <= u32::MAX
    }

    pub closed spec fn outer_start_spec(self) -> u32 {
        self.outer_start
    }

    pub closed spec fn count_spec(self) -> u32 {
        self.count
    }

    /// a mapping must cover at least one id and must not overflow the u32
    /// id space, or the kernel would reject the uid_map/gid_map write
    pub fn new(outer_start: u32, count: u32) -> (res: Result<Self, String>)
        ensures
            count == 0 ==> (res matches Err(m) && m@ == "idmap count must be at least 1"@),
            count != 0 && outer_start + count > u32::MAX ==> (res matches Err(m) && m@ == "idmap range "@
                + dec(outer_start as nat) + "+"@ + dec(count as nat) + " overflows the id space"@),
            count != 0 && outer_start + count <= u32::MAX ==> (res matches Ok(m)
                && m.outer_start_spec() == outer_start && m.count_spec() == count),
    {
        if count == 0 {
            return Err(String::from_str("idmap count must be at least 1"));
        }
        if outer_start > u32::MAX - count {
            let mut m = concat("idmap range ", u64_to_dec(outer_start as u64).as_str());
            m.append("+");
            m.append(u64_to_dec(count as u64).as_str());
            m.append(" overflows the id space");
            return Err(m);
        }
        Ok(IdMap { outer_start, count })
    }

    pub fn outer_start(&self) -> (n: u32)
        ensures
            n == self.outer_start_spec(),
    {
        self.outer_start
    }

    pub fn count(&self) -> (n: u32)
        ensures
            n == self.count_spec(),
            n >= 1,
            self.outer_start_spec() + n <= u32::MAX,
    {
        proof {
            use_type_invariant(self);
        }
        self.count
    }
}

/// `a` and `b` confine alike: the same paths, filter, idmap and kept
/// capabilities, in the same order
pub open spec fn same_sandbox(a: Sandbox, b: Sandbox) -> bool {
    &&& a.read@ == b.read@
    &&& a.write@ == b.write@
    &&& a.seccomp == b.seccomp
    &&& a.idmap == b.idmap
    &&& a.keep_caps@ == b.keep_caps@
}

impl Clone for Sandbox {
    fn clone(&self) -> (r: Self)
        ensures
            same_sandbox(r, *self),
    {
        let mut keep_caps: Vec<Cap> = Vec::new();
        let mut i: usize = 0;
        while i < self.keep_caps.len()
            invariant
                i <= self.keep_caps@.len(),
                keep_caps@ == self.keep_caps@.take(i as int),
            decreases self.keep_caps@.len() - i,
        {
            keep_caps.push(self.keep_caps[i]);
            i += 1;
            assert(keep_caps@ =~= self.keep_caps@.take(i as int));
        }
        assert(self.keep_caps@.take(i as int) =~= self.keep_caps@);
        Sandbox {
            read: crate::text::clone_strings(&self.read),
            write: crate::text::clone_strings(&self.write),
            seccomp: self.seccomp,
            idmap: self.idmap,
            keep_caps,
        }
    }
}

impl Sandbox {
    /// true when no confinement is configured: no landlock, no seccomp,
    /// no idmap, no caps kept
    pub fn is_empty(&self) -> (b: bool)
        ensures
            b == (self.read@.len() == 0 && self.write@.len() == 0 && self.seccomp == Seccomp::Off
                && self.idmap is None && self.keep_caps@.len() == 0),
    {
        self.read.len() == 0 && self.write.len() == 0 && self.seccomp == Seccomp::Off
            && self.idmap.is_none() && self.keep_caps.len() == 0
    }
}

} // verus!
