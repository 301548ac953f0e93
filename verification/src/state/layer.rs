//! layers.toml as plain tables, and their conversion into descriptors. the
//! tables mirror the file one for one so the format can evolve without
//! breaking the public api; libc is read as data, not branched on by name

use crate::api::err::{Error, ErrorView, Result};
use crate::api::flags::LayerFlags;
use crate::api::layer::{layer_id_violation, LayerDescriptor, LayerId, LayerType};
use crate::api::libc::Libc;
use crate::api::resources::{CpuMax, Limits};
use crate::api::sandbox::{cap_lookup, Cap, IdMap, Sandbox, Seccomp};
use crate::text::{concat, dec, str_eq};
use crate::vocab;
use vstd::prelude::*;

verus! {

/// `[layer.<id>.libc]`
pub struct LibcTable {
    pub name: String,
    pub loader: Option<String>,
}

/// `[layer.<id>.sandbox.idmap]`
pub struct IdMapTable {
    pub outer_start: u32,
    pub count: u32,
}

/// `[layer.<id>.sandbox]`; absent lists are empty
pub struct SandboxTable {
    pub read: Vec<String>,
    pub write: Vec<String>,
    /// "off" or "baseline"
    pub seccomp: Option<String>,
    pub idmap: Option<IdMapTable>,
    /// capability names to keep, e.g. ["net_bind_service"]. default: drop all
    pub keep_caps: Vec<String>,
}

/// `[layer.<id>.resources.cpu_max]`
pub struct CpuMaxTable {
    pub quota_us: u64,
    pub period_us: u64,
}

/// `[layer.<id>.resources]`
pub struct ResourcesTable {
    /// memory.max in bytes
    pub memory_max: Option<u64>,
    /// pids.max as a count
    pub pids_max: Option<u64>,
    /// cpu.weight, 1..=10000
    pub cpu_weight: Option<u32>,
    pub cpu_max: Option<CpuMaxTable>,
}

/// one `[layer.<id>]` table
pub struct Entry {
    /// the `type` key
    pub layer_type: String,
    pub priority: u32,
    pub libc: LibcTable,
    pub sandbox: Option<SandboxTable>,
    pub resources: Option<ResourcesTable>,
    /// every other key is a flag. only true ones are written, so capturing
    /// bools is enough; a stray false is dropped on convert
    pub flags: Vec<(String, bool)>,
}

// ---- flags ----

/// the flag names the core understands
pub open spec fn known_flag(k: Seq<char>) -> bool {
    ||| k == vocab::FLAG_META@
    ||| k == vocab::FLAG_NON_FHS@
    ||| k == vocab::FLAG_ATOMIC@
    ||| k == vocab::FLAG_EPHEMERAL@
    ||| k == vocab::FLAG_PINNED@
    ||| k == vocab::FLAG_HIDDEN@
}

/// `key` is present and true among the raw flag keys
pub open spec fn raw_on(raw: Seq<(String, bool)>, key: Seq<char>) -> bool {
    exists|i: int| 0 <= i < raw.len() && raw[i].1 && #[trigger] raw[i].0@ == key
}

proof fn lemma_flag_names_distinct()
    ensures
        vocab::FLAG_META@ != vocab::FLAG_NON_FHS@,
        vocab::FLAG_META@ != vocab::FLAG_ATOMIC@,
        vocab::FLAG_META@ != vocab::FLAG_EPHEMERAL@,
        vocab::FLAG_META@ != vocab::FLAG_PINNED@,
        vocab::FLAG_META@ != vocab::FLAG_HIDDEN@,
        vocab::FLAG_NON_FHS@ != vocab::FLAG_ATOMIC@,
        vocab::FLAG_NON_FHS@ != vocab::FLAG_EPHEMERAL@,
        vocab::FLAG_NON_FHS@ != vocab::FLAG_PINNED@,
        vocab::FLAG_NON_FHS@ != vocab::FLAG_HIDDEN@,
        vocab::FLAG_ATOMIC@ != vocab::FLAG_EPHEMERAL@,
        vocab::FLAG_ATOMIC@ != vocab::FLAG_PINNED@,
        vocab::FLAG_ATOMIC@ != vocab::FLAG_HIDDEN@,
        vocab::FLAG_EPHEMERAL@ != vocab::FLAG_PINNED@,
        vocab::FLAG_EPHEMERAL@ != vocab::FLAG_HIDDEN@,
        vocab::FLAG_PINNED@ != vocab::FLAG_HIDDEN@,
{
    reveal_strlit("meta");
    reveal_strlit("non-fhs");
    reveal_strlit("atomic");
    reveal_strlit("ephemeral");
    reveal_strlit("pinned");
    reveal_strlit("hidden");
    assert(vocab::FLAG_META@.len() != vocab::FLAG_NON_FHS@.len());
    assert(vocab::FLAG_META@[0] != vocab::FLAG_ATOMIC@[0]);
    assert(vocab::FLAG_META@.len() != vocab::FLAG_EPHEMERAL@.len());
    assert(vocab::FLAG_META@.len() != vocab::FLAG_PINNED@.len());
    assert(vocab::FLAG_META@.len() != vocab::FLAG_HIDDEN@.len());
    assert(vocab::FLAG_NON_FHS@[0] != vocab::FLAG_ATOMIC@[0]);
    assert(vocab::FLAG_NON_FHS@.len() != vocab::FLAG_EPHEMERAL@.len());
    assert(vocab::FLAG_NON_FHS@[0] != vocab::FLAG_PINNED@[0]);
    assert(vocab::FLAG_NON_FHS@.len() != vocab::FLAG_HIDDEN@.len());
    assert(vocab::FLAG_ATOMIC@.len() != vocab::FLAG_EPHEMERAL@.len());
    assert(vocab::FLAG_ATOMIC@[0] != vocab::FLAG_PINNED@[0]);
    assert(vocab::FLAG_ATOMIC@[0] != vocab::FLAG_HIDDEN@[0]);
    assert(vocab::FLAG_EPHEMERAL@.len() != vocab::FLAG_PINNED@.len());
    assert(vocab::FLAG_EPHEMERAL@.len() != vocab::FLAG_HIDDEN@.len());
    assert(vocab::FLAG_PINNED@[0] != vocab::FLAG_HIDDEN@[0]);
}

/// the true-valued keys the core does not know, in file order
pub open spec fn extra_keys(raw: Seq<(String, bool)>) -> Seq<Seq<char>>
    decreases raw.len(),
{
    if raw.len() == 0 {
        Seq::<Seq<char>>::empty()
    } else {
        let rest = extra_keys(raw.drop_last());
        if raw.last().1 && !known_flag(raw.last().0@) {
            rest.push(raw.last().0@)
        } else {
            rest
        }
    }
}

/// the typed flag set that the raw keys `raw` stand for
pub open spec fn flags_match(f: LayerFlags, raw: Seq<(String, bool)>) -> bool {
    &&& f.meta == raw_on(raw, vocab::FLAG_META@)
    &&& f.non_fhs == raw_on(raw, vocab::FLAG_NON_FHS@)
    &&& f.atomic == raw_on(raw, vocab::FLAG_ATOMIC@)
    &&& f.ephemeral == raw_on(raw, vocab::FLAG_EPHEMERAL@)
    &&& f.pinned == raw_on(raw, vocab::FLAG_PINNED@)
    &&& f.hidden == raw_on(raw, vocab::FLAG_HIDDEN@)
    &&& crate::text::views(f.extra@) == extra_keys(raw)
}

/// map the true-valued flag keys onto the typed set; unknown keys ride in
/// extra so a fork's own flags survive a round trip
pub fn into_flags(raw: Vec<(String, bool)>) -> (f: LayerFlags)
    ensures
        flags_match(f, raw@),
{
    let mut f = LayerFlags {
        meta: false,
        non_fhs: false,
        atomic: false,
        ephemeral: false,
        pinned: false,
        hidden: false,
        extra: Vec::new(),
    };
    let mut i: usize = 0;
    proof {
        assert(raw@.take(0) =~= Seq::<(String, bool)>::empty());
        assert(crate::text::views(f.extra@) =~= Seq::<Seq<char>>::empty());
    }
    while i < raw.len()
        invariant
            i <= raw@.len(),
            flags_match(f, raw@.take(i as int)),
        decreases raw@.len() - i,
    {
        let ghost t = raw@.take(i + 1);
        proof {
            lemma_flag_names_distinct();
            assert(t.drop_last() =~= raw@.take(i as int));
            assert(t.last() == raw@[i as int]);
            assert forall|key: Seq<char>| raw_on(t, key) == (raw_on(raw@.take(i as int), key) || (
            raw@[i as int].1 && raw@[i as int].0@ == key)) by {
                if raw_on(t, key) {
                    let j = choose|j: int| 0 <= j < t.len() && t[j].1 && #[trigger] t[j].0@ == key;
                    if j < i {
                        assert(raw@.take(i as int)[j] == t[j]);
                    }
                }
                if raw_on(raw@.take(i as int), key) {
                    let j = choose|j: int|
                        0 <= j < i && raw@.take(i as int)[j].1 && #[trigger] raw@.take(
                            i as int,
                        )[j].0@ == key;
                    assert(t[j] == raw@.take(i as int)[j]);
                }
                if raw@[i as int].1 && raw@[i as int].0@ == key {
                    assert(t[i as int] == raw@[i as int]);
                }
            }
        }
        let on = raw[i].1;
        if on {
            let k = raw[i].0.as_str();
            if str_eq(k, vocab::FLAG_META) {
                f.meta = true;
            } else if str_eq(k, vocab::FLAG_NON_FHS) {
                f.non_fhs = true;
            } else if str_eq(k, vocab::FLAG_ATOMIC) {
                f.atomic = true;
            } else if str_eq(k, vocab::FLAG_EPHEMERAL) {
                f.ephemeral = true;
            } else if str_eq(k, vocab::FLAG_PINNED) {
                f.pinned = true;
            } else if str_eq(k, vocab::FLAG_HIDDEN) {
                f.hidden = true;
            } else {
                let key = raw[i].0.clone();
                proof {
                    crate::text::lemma_views_push(f.extra@, key);
                }
                f.extra.push(key);
            }
        }
        i += 1;
    }
    assert(raw@.take(i as int) =~= raw@);
    f
}

// ---- sandbox ----

/// the seccomp posture a token names: absent and "off" are off
pub open spec fn seccomp_of(tok: Option<String>) -> Option<Seccomp> {
    match tok {
        None => Some(Seccomp::Off),
        Some(t) => if t@ == vocab::SECCOMP_OFF@ {
            Some(Seccomp::Off)
        } else if t@ == vocab::SECCOMP_BASELINE@ {
            Some(Seccomp::Baseline)
        } else {
            None
        },
    }
}

/// why IdMap::new refuses a range, or none when it accepts it
pub open spec fn idmap_violation(outer_start: u32, count: u32) -> Option<Seq<char>> {
    if count == 0 {
        Some("idmap count must be at least 1"@)
    } else if outer_start + count > u32::MAX {
        Some(
            "idmap range "@ + dec(outer_start as nat) + "+"@ + dec(count as nat)
                + " overflows the id space"@,
        )
    } else {
        None
    }
}

/// the first capability name that names no capability
pub open spec fn first_unknown_cap(names: Seq<String>) -> Option<Seq<char>>
    decreases names.len(),
{
    if names.len() == 0 {
        None
    } else {
        match first_unknown_cap(names.drop_last()) {
            Some(n) => Some(n),
            None => if cap_lookup(names.last()@) is None {
                Some(names.last()@)
            } else {
                None
            },
        }
    }
}

/// why a sandbox table is refused, checked in the order seccomp, idmap,
/// capabilities; none when it converts
pub open spec fn sandbox_error(t: SandboxTable) -> Option<Seq<char>> {
    if seccomp_of(t.seccomp) is None {
        Some("unknown seccomp: "@ + t.seccomp->0@)
    } else if t.idmap matches Some(m) && idmap_violation(m.outer_start, m.count) is Some {
        idmap_violation(t.idmap->0.outer_start, t.idmap->0.count)
    } else if first_unknown_cap(t.keep_caps@) is Some {
        Some("unknown capability: "@ + first_unknown_cap(t.keep_caps@)->0)
    } else {
        None
    }
}

/// `s` carries what the accepted table `t` says
pub open spec fn sandbox_match(s: Sandbox, t: SandboxTable) -> bool {
    &&& s.read@ == t.read@
    &&& s.write@ == t.write@
    &&& Some(s.seccomp) == seccomp_of(t.seccomp)
    &&& match t.idmap {
        None => s.idmap is None,
        Some(m) => s.idmap matches Some(x) && x.outer_start_spec() == m.outer_start
            && x.count_spec() == m.count,
    }
    &&& s.keep_caps@.len() == t.keep_caps@.len()
    &&& forall|i: int|
        0 <= i < s.keep_caps@.len() ==> cap_lookup(t.keep_caps@[i]@) == Some(
            #[trigger] s.keep_caps@[i]@,
        )
}

/// the unconfined sandbox: nothing read or written, no filter, no idmap,
/// every capability dropped
pub open spec fn sandbox_empty(s: Sandbox) -> bool {
    &&& s.read@.len() == 0
    &&& s.write@.len() == 0
    &&& s.seccomp == Seccomp::Off
    &&& s.idmap is None
    &&& s.keep_caps@.len() == 0
}

fn caps_from(names: &Vec<String>) -> (res: std::result::Result<Vec<Cap>, String>)
    ensures
        match res {
            Ok(caps) => first_unknown_cap(names@) is None && caps@.len() == names@.len() && forall|
                i: int,
            | 0 <= i < caps@.len() ==> cap_lookup(names@[i]@) == Some(#[trigger] caps@[i]@),
            Err(n) => first_unknown_cap(names@) == Some(n@),
        },
{
    let mut caps: Vec<Cap> = Vec::new();
    let mut i: usize = 0;
    while i < names.len()
        invariant
            i <= names@.len(),
            first_unknown_cap(names@.take(i as int)) is None,
            caps@.len() == i,
            forall|j: int| 0 <= j < i ==> cap_lookup(names@[j]@) == Some(#[trigger] caps@[j]@),
        decreases names@.len() - i,
    {
        proof {
            let t = names@.take(i + 1);
            assert(t.drop_last() =~= names@.take(i as int));
            assert(t.last() == names@[i as int]);
        }
        match Cap::from_name(names[i].as_str()) {
            Some(c) => {
                caps.push(c);
            },
            None => {
                proof {
                    lemma_first_unknown_prefix(names@, i as int + 1);
                }
                return Err(names[i].clone());
            },
        }
        i += 1;
    }
    assert(names@.take(i as int) =~= names@);
    Ok(caps)
}

/// once a prefix holds an unknown name, so does every longer prefix
proof fn lemma_first_unknown_prefix(names: Seq<String>, k: int)
    requires
        0 <= k <= names.len(),
        first_unknown_cap(names.take(k)) is Some,
    ensures
        first_unknown_cap(names) == first_unknown_cap(names.take(k)),
    decreases names.len() - k,
{
    if k < names.len() {
        let t = names.take(k + 1);
        assert(t.drop_last() =~= names.take(k));
        lemma_first_unknown_prefix(names, k + 1);
    } else {
        assert(names.take(k) =~= names);
    }
}

impl SandboxTable {
    /// the table as a sandbox, or the config error naming what is wrong
    pub fn into_sandbox(self) -> (res: Result<Sandbox>)
        ensures
            match res {
                Ok(s) => sandbox_error(self) is None && sandbox_match(s, self),
                Err(e) => sandbox_error(self) matches Some(m) && e@ == ErrorView::Config(m),
            },
    {
        let seccomp = match &self.seccomp {
            None => Seccomp::Off,
            Some(t) => {
                if str_eq(t.as_str(), vocab::SECCOMP_OFF) {
                    Seccomp::Off
                } else if str_eq(t.as_str(), vocab::SECCOMP_BASELINE) {
                    Seccomp::Baseline
                } else {
                    return Err(Error::Config(concat("unknown seccomp: ", t.as_str())));
                }
            },
        };
        let idmap = match &self.idmap {
            None => None,
            Some(m) => match IdMap::new(m.outer_start, m.count) {
                Ok(x) => Some(x),
                Err(msg) => {
                    return Err(Error::Config(msg));
                },
            },
        };
        let keep_caps = match caps_from(&self.keep_caps) {
            Ok(c) => c,
            Err(n) => {
                return Err(Error::Config(concat("unknown capability: ", n.as_str())));
            },
        };
        Ok(Sandbox { read: self.read, write: self.write, seccomp, idmap, keep_caps })
    }
}


// ---- resources ----

/// why CpuMax::new refuses a quota and period, or none when it accepts them
pub open spec fn cpu_max_violation(quota_us: u64, period_us: u64) -> Option<Seq<char>> {
    if period_us == 0 {
        Some("cpu.max period must be at least 1us"@)
    } else if quota_us == 0 {
        Some("cpu.max quota must be at least 1us (use none for unlimited)"@)
    } else {
        None
    }
}

/// why a resources table is refused, or none when it converts
pub open spec fn limits_error(t: ResourcesTable) -> Option<Seq<char>> {
    match t.cpu_max {
        Some(c) => cpu_max_violation(c.quota_us, c.period_us),
        None => None,
    }
}

/// `l` carries what the accepted table `t` says
pub open spec fn limits_match(l: Limits, t: ResourcesTable) -> bool {
    &&& l.memory_max == t.memory_max
    &&& l.pids_max == t.pids_max
    &&& l.cpu_weight == t.cpu_weight
    &&& match t.cpu_max {
        None => l.cpu_max is None,
        Some(c) => l.cpu_max matches Some(x) && x.quota_spec() == c.quota_us && x.period_spec()
            == c.period_us,
    }
}

/// no ceiling at all: a scope with accounting only
pub open spec fn limits_empty(l: Limits) -> bool {
    &&& l.memory_max is None
    &&& l.pids_max is None
    &&& l.cpu_weight is None
    &&& l.cpu_max is None
}

impl ResourcesTable {
    /// the table as limits, or the config error naming what is wrong
    pub fn into_limits(self) -> (res: Result<Limits>)
        ensures
            match res {
                Ok(l) => limits_error(self) is None && limits_match(l, self),
                Err(e) => limits_error(self) matches Some(m) && e@ == ErrorView::Config(m),
            },
    {
        let cpu_max = match &self.cpu_max {
            None => None,
            Some(c) => match CpuMax::new(c.quota_us, c.period_us) {
                Ok(x) => Some(x),
                Err(msg) => {
                    return Err(Error::Config(msg));
                },
            },
        };
        Ok(
            Limits {
                memory_max: self.memory_max,
                pids_max: self.pids_max,
                cpu_weight: self.cpu_weight,
                cpu_max,
            },
        )
    }
}

// ---- descriptors ----

/// the layer type a `type` token names
pub open spec fn layer_type_of(tok: Seq<char>) -> Option<LayerType> {
    if tok == vocab::TYPE_NATIVE@ {
        Some(LayerType::Native)
    } else if tok == vocab::TYPE_SHADOWED@ {
        Some(LayerType::Shadowed)
    } else if tok == vocab::TYPE_RESCUE@ {
        Some(LayerType::Rescue)
    } else {
        None
    }
}

/// why the table of layer `id` is refused, checked in the order type,
/// sandbox, resources, id; none when it converts
pub open spec fn entry_error(id: Seq<char>, e: Entry) -> Option<Seq<char>> {
    if layer_type_of(e.layer_type@) is None {
        Some("unknown layer type: "@ + e.layer_type@)
    } else if e.sandbox matches Some(t) && sandbox_error(t) is Some {
        sandbox_error(e.sandbox->0)
    } else if e.resources matches Some(r) && limits_error(r) is Some {
        limits_error(e.resources->0)
    } else {
        layer_id_violation(id)
    }
}

/// `d` is what the accepted table `e` of layer `id` describes; an absent
/// sandbox or resources table means none
pub open spec fn descriptor_match(d: LayerDescriptor, id: Seq<char>, e: Entry) -> bool {
    &&& d.id@ == id
    &&& layer_type_of(e.layer_type@) == Some(d.layer_type)
    &&& d.priority == e.priority
    &&& d.libc.name == e.libc.name
    &&& d.libc.loader == e.libc.loader
    &&& flags_match(d.flags, e.flags@)
    &&& match e.sandbox {
        None => sandbox_empty(d.sandbox),
        Some(t) => sandbox_match(d.sandbox, t),
    }
    &&& match e.resources {
        None => limits_empty(d.resources),
        Some(r) => limits_match(d.resources, r),
    }
}

impl Entry {
    /// the descriptor of layer `id`, or the config error naming what is wrong
    pub fn into_descriptor(self, id: String) -> (res: Result<LayerDescriptor>)
        ensures
            match res {
                Ok(d) => entry_error(id@, self) is None && descriptor_match(d, id@, self),
                Err(e) => entry_error(id@, self) matches Some(m) && e@ == ErrorView::Config(m),
            },
    {
        let layer_type = if str_eq(self.layer_type.as_str(), vocab::TYPE_NATIVE) {
            LayerType::Native
        } else if str_eq(self.layer_type.as_str(), vocab::TYPE_SHADOWED) {
            LayerType::Shadowed
        } else if str_eq(self.layer_type.as_str(), vocab::TYPE_RESCUE) {
            LayerType::Rescue
        } else {
            return Err(Error::Config(concat("unknown layer type: ", self.layer_type.as_str())));
        };
        let flags = into_flags(self.flags);
        let sandbox = match self.sandbox {
            None => Sandbox {
                read: Vec::new(),
                write: Vec::new(),
                seccomp: Seccomp::Off,
                idmap: None,
                keep_caps: Vec::new(),
            },
            Some(t) => t.into_sandbox()?,
        };
        let resources = match self.resources {
            None => Limits { memory_max: None, pids_max: None, cpu_weight: None, cpu_max: None },
            Some(r) => r.into_limits()?,
        };
        let id = match LayerId::new(id.as_str()) {
            Ok(i) => i,
            Err(m) => {
                return Err(Error::Config(m));
            },
        };
        Ok(
            LayerDescriptor {
                id,
                layer_type,
                priority: self.priority,
                libc: Libc { name: self.libc.name, loader: self.libc.loader },
                flags,
                sandbox,
                resources,
            },
        )
    }
}

/// the first refused table among `es`, in order
pub open spec fn first_entry_error(es: Seq<(String, Entry)>) -> Option<Seq<char>>
    decreases es.len(),
{
    if es.len() == 0 {
        None
    } else {
        match first_entry_error(es.drop_last()) {
            Some(m) => Some(m),
            None => entry_error(es.last().0@, es.last().1),
        }
    }
}

proof fn lemma_first_entry_error_prefix(es: Seq<(String, Entry)>, k: int)
    requires
        0 <= k <= es.len(),
        first_entry_error(es.take(k)) is Some,
    ensures
        first_entry_error(es) == first_entry_error(es.take(k)),
    decreases es.len() - k,
{
    if k < es.len() {
        let t = es.take(k + 1);
        assert(t.drop_last() =~= es.take(k));
        lemma_first_entry_error_prefix(es, k + 1);
    } else {
        assert(es.take(k) =~= es);
    }
}

/// every `[layer.<id>]` table, in file order, as a descriptor; the first
/// refused table fails the whole file
pub fn descriptors_from(entries: Vec<(String, Entry)>) -> (res: Result<Vec<LayerDescriptor>>)
    ensures
        match res {
            Ok(v) => first_entry_error(entries@) is None && v@.len() == entries@.len() && forall|
                i: int,
            |
                0 <= i < v@.len() ==> descriptor_match(
                    #[trigger] v@[i],
                    entries@[i].0@,
                    entries@[i].1,
                ),
            Err(e) => first_entry_error(entries@) matches Some(m) && e@ == ErrorView::Config(m),
        },
{
    let ghost all = entries@;
    let n = entries.len();
    assert(all.len() == n);
    let mut rest = entries;
    let mut out: Vec<LayerDescriptor> = Vec::new();
    let mut i: usize = 0;
    proof {
        assert(all.take(0) =~= Seq::<(String, Entry)>::empty());
        assert(rest@ =~= all.skip(0));
    }
    while rest.len() > 0
        invariant
            i <= all.len(),
            all.len() <= usize::MAX,
            all == entries@,
            rest@ == all.skip(i as int),
            first_entry_error(all.take(i as int)) is None,
            out@.len() == i,
            forall|j: int|
                0 <= j < i ==> descriptor_match(#[trigger] out@[j], all[j].0@, all[j].1),
        decreases rest@.len(),
    {
        let (id, e) = rest.remove(0);
        proof {
            assert(all[i as int] == (id, e));
            let t = all.take(i + 1);
            assert(t.drop_last() =~= all.take(i as int));
            assert(t.last() == all[i as int]);
            assert(rest@ =~= all.skip(i + 1));
        }
        match e.into_descriptor(id) {
            Ok(d) => {
                out.push(d);
            },
            Err(err) => {
                proof {
                    lemma_first_entry_error_prefix(all, i + 1);
                }
                return Err(err);
            },
        }
        i += 1;
    }
    assert(all.take(i as int) =~= all);
    Ok(out)
}

} // verus!
