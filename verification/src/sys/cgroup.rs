//! cgroup v2 mechanism. processes live only in leaf cgroups; the subtree
//! delegates controllers down. which controllers to enable and what to
//! write into a scope's interface files is decided here; the writes
//! themselves are the system layer's

use crate::api::resources::{CpuMax, Limits};
use crate::path::{join, path_join};
use crate::paths::CGROUP2_ROOT;
use crate::text::{concat, dec, split_words, str_eq, u64_to_dec, views, words};
use crate::vocab;
use vstd::prelude::*;

verus! {

pub struct Cgroups {
    /// the nexus subtree dir. leaves are created beneath it
    root: String,
}

impl View for Cgroups {
    type V = Seq<char>;

    closed spec fn view(&self) -> Seq<char> {
        self.root@
    }
}

/// the controllers in `want` that are present in `avail`, keeping want's
/// order
pub open spec fn usable(want: Seq<Seq<char>>, avail: Seq<Seq<char>>) -> Seq<Seq<char>>
    decreases want.len(),
{
    if want.len() == 0 {
        Seq::<Seq<char>>::empty()
    } else {
        let rest = usable(want.drop_last(), avail);
        if avail.contains(want.last()) {
            rest.push(want.last())
        } else {
            rest
        }
    }
}

/// `+a +b ...` for each controller, space separated
pub open spec fn enable_text(ctrls: Seq<Seq<char>>) -> Seq<char>
    decreases ctrls.len(),
{
    if ctrls.len() == 0 {
        Seq::<char>::empty()
    } else if ctrls.len() == 1 {
        "+"@ + ctrls[0]
    } else {
        enable_text(ctrls.drop_last()) + " +"@ + ctrls.last()
    }
}

/// cpu.weight is 1..=10000; a stray value is clamped rather than turning a
/// launch into a hard failure
pub open spec fn clamp_weight(w: u32) -> u32 {
    if w < 1 {
        1
    } else if w > 10000 {
        10000
    } else {
        w
    }
}

/// cpu.max is "quota period" in microseconds
pub open spec fn cpu_max_text(q: u64, p: u64) -> Seq<char> {
    dec(q as nat) + " "@ + dec(p as nat)
}

/// the (interface file, value) writes that apply `lim` to the scope
/// directory `dir`, in the order memory, pids, cpu weight, cpu max; a limit
/// that is not set writes nothing
pub open spec fn limit_writes_of(dir: Seq<char>, lim: Limits) -> Seq<(Seq<char>, Seq<char>)> {
    let a = match lim.memory_max {
        Some(b) => seq![(join(dir, "memory.max"@), dec(b as nat))],
        None => Seq::<(Seq<char>, Seq<char>)>::empty(),
    };
    let b = match lim.pids_max {
        Some(n) => seq![(join(dir, "pids.max"@), dec(n as nat))],
        None => Seq::<(Seq<char>, Seq<char>)>::empty(),
    };
    let c = match lim.cpu_weight {
        Some(w) => seq![(join(dir, "cpu.weight"@), dec(clamp_weight(w) as nat))],
        None => Seq::<(Seq<char>, Seq<char>)>::empty(),
    };
    let d = match lim.cpu_max {
        Some(m) => seq![(join(dir, "cpu.max"@), cpu_max_text(m.quota_spec(), m.period_spec()))],
        None => Seq::<(Seq<char>, Seq<char>)>::empty(),
    };
    a + b + c + d
}

pub open spec fn pair_views(v: Seq<(String, String)>) -> Seq<(Seq<char>, Seq<char>)> {
    v.map_values(|p: (String, String)| (p.0@, p.1@))
}

impl Cgroups {
    pub fn new(root: &str) -> (c: Self)
        ensures
            c@ == root@,
    {
        Cgroups { root: String::from_str(root) }
    }

    /// the conventional location: <unified cgroup root>/nexus
    pub fn system() -> (c: Self)
        ensures
            c@ == join(CGROUP2_ROOT@, vocab::CG_SUBTREE@),
    {
        Cgroups { root: path_join(CGROUP2_ROOT, vocab::CG_SUBTREE) }
    }

    pub fn root(&self) -> (r: &str)
        ensures
            r@ == self@,
    {
        self.root.as_str()
    }

    /// a scope's leaf directory
    pub fn scope_path(&self, scope: &str) -> (p: String)
        ensures
            p@ == join(self@, scope@),
    {
        path_join(self.root.as_str(), scope)
    }

    /// the writes that apply a scope's limits. missing interface files are
    /// skipped by whoever writes them: they are absent when their controller
    /// is off there
    pub fn limit_writes(&self, scope: &str, lim: &Limits) -> (w: Vec<(String, String)>)
        ensures
            pair_views(w@) == limit_writes_of(join(self@, scope@), *lim),
    {
        let dir = self.scope_path(scope);
        let mut w: Vec<(String, String)> = Vec::new();
        let ghost d = dir@;
        if let Some(b) = lim.memory_max {
            w.push((path_join(dir.as_str(), vocab::CG_MEMORY_MAX), u64_to_dec(b)));
        }
        let ghost wa = pair_views(w@);
        if let Some(n) = lim.pids_max {
            w.push((path_join(dir.as_str(), vocab::CG_PIDS_MAX), u64_to_dec(n)));
        }
        let ghost wb = pair_views(w@);
        if let Some(x) = lim.cpu_weight {
            let c = if x < 1 {
                1
            } else if x > 10000 {
                10000
            } else {
                x
            };
            w.push((path_join(dir.as_str(), vocab::CG_CPU_WEIGHT), u64_to_dec(c as u64)));
        }
        let ghost wc = pair_views(w@);
        if let Some(m) = lim.cpu_max {
            w.push((path_join(dir.as_str(), vocab::CG_CPU_MAX), cpu_max_line(&m)));
        }
        proof {
            let spec = limit_writes_of(d, *lim);
            assert(pair_views(w@) =~= spec);
        }
        w
    }
}

/// the controllers in want that are present in avail, keeping want's order
pub fn filter(want: &[String], avail: &[String]) -> (out: Vec<String>)
    ensures
        views(out@) == usable(views(want@), views(avail@)),
{
    let mut out: Vec<String> = Vec::new();
    let mut i: usize = 0;
    while i < want.len()
        invariant
            i <= want@.len(),
            views(out@) == usable(views(want@).take(i as int), views(avail@)),
        decreases want@.len() - i,
    {
        let mut j: usize = 0;
        let mut found = false;
        while j < avail.len() && !found
            invariant
                i < want@.len(),
                j <= avail@.len(),
                found ==> views(avail@).contains(want@[i as int]@),
                !found ==> forall|k: int| 0 <= k < j ==> views(avail@)[k] != want@[i as int]@,
            decreases avail@.len() - j + (if found {
                0int
            } else {
                1int
            }),
        {
            if str_eq(avail[j].as_str(), want[i].as_str()) {
                found = true;
                assert(views(avail@)[j as int] == want@[i as int]@);
            }
            j += 1;
        }
        proof {
            let t = views(want@).take(i + 1);
            assert(t.drop_last() =~= views(want@).take(i as int));
            assert(t.last() == want@[i as int]@);
        }
        if found {
            let w = want[i].clone();
            proof {
                crate::text::lemma_views_push(out@, w);
            }
            out.push(w);
        }
        i += 1;
    }
    assert(views(want@).take(i as int) =~= views(want@));
    out
}

/// the subtree_control line enabling `ctrls`; none for an empty set, since
/// writing an empty string to subtree_control would error
pub fn enable_line(ctrls: &[String]) -> (line: Option<String>)
    ensures
        match line {
            None => ctrls@.len() == 0,
            Some(l) => ctrls@.len() > 0 && l@ == enable_text(views(ctrls@)),
        },
{
    if ctrls.len() == 0 {
        return None;
    }
    let mut s = concat("+", ctrls[0].as_str());
    let mut i: usize = 1;
    proof {
        assert(views(ctrls@).take(1) =~= seq![ctrls@[0]@]);
    }
    while i < ctrls.len()
        invariant
            1 <= i <= ctrls@.len(),
            s@ == enable_text(views(ctrls@).take(i as int)),
        decreases ctrls@.len() - i,
    {
        s.append(" +");
        s.append(ctrls[i].as_str());
        proof {
            let t = views(ctrls@).take(i + 1);
            assert(t.drop_last() =~= views(ctrls@).take(i as int));
            assert(t.last() == ctrls@[i as int]@);
            assert(s@ =~= enable_text(t));
        }
        i += 1;
    }
    assert(views(ctrls@).take(i as int) =~= views(ctrls@));
    Some(s)
}

/// the cgroup.controllers / cgroup.subtree_control wire format: space
/// separated names
pub fn read_controllers(text: &str) -> (names: Vec<String>)
    ensures
        views(names@) == words(text@),
{
    split_words(text)
}

/// cpu.max is "quota period" in microseconds
pub fn cpu_max_line(c: &CpuMax) -> (s: String)
    ensures
        s@ == cpu_max_text(c.quota_spec(), c.period_spec()),
{
    let mut s = u64_to_dec(c.quota_us());
    s.append(" ");
    s.append(u64_to_dec(c.period_us()).as_str());
    s
}

/// `ws` writes `file` exactly when `v` is set, once, and then writes `v`
pub open spec fn writes_exactly(
    ws: Seq<(Seq<char>, Seq<char>)>,
    file: Seq<char>,
    v: Option<Seq<char>>,
) -> bool {
    &&& v matches Some(x) ==> ws.contains((file, x))
    &&& forall|k: int| 0 <= k < ws.len() && #[trigger] ws[k].0 == file ==> v == Some(ws[k].1)
}

pub open spec fn dec_of(v: Option<u64>) -> Option<Seq<char>> {
    match v {
        Some(n) => Some(dec(n as nat)),
        None => None,
    }
}

/// Each limit lands in its own interface file of the scope, and only a set
/// limit does: memory and pids limits are written as decimal numbers, the
/// cpu weight clamped into 1..=10000, and cpu.max as "quota period".
pub proof fn law_limits_land_in_their_files(dir: Seq<char>, lim: Limits)
    ensures
        writes_exactly(limit_writes_of(dir, lim), join(dir, "memory.max"@), dec_of(lim.memory_max)),
        writes_exactly(limit_writes_of(dir, lim), join(dir, "pids.max"@), dec_of(lim.pids_max)),
        writes_exactly(
            limit_writes_of(dir, lim),
            join(dir, "cpu.weight"@),
            match lim.cpu_weight {
                Some(w) => Some(dec(clamp_weight(w) as nat)),
                None => None,
            },
        ),
        writes_exactly(
            limit_writes_of(dir, lim),
            join(dir, "cpu.max"@),
            match lim.cpu_max {
                Some(m) => Some(cpu_max_text(m.quota_spec(), m.period_spec())),
                None => None,
            },
        ),
{
    reveal_strlit("memory.max");
    reveal_strlit("pids.max");
    reveal_strlit("cpu.weight");
    reveal_strlit("cpu.max");
    let names = seq!["memory.max"@, "pids.max"@, "cpu.weight"@, "cpu.max"@];
    assert forall|x: int, y: int|
        0 <= x < 4 && 0 <= y < 4 && x != y implies join(dir, #[trigger] names[x]) != join(
        dir,
        #[trigger] names[y],
    ) by {
        if join(dir, names[x]) == join(dir, names[y]) {
            crate::path::lemma_join_injective(dir, names[x], names[y]);
            assert(names[x][0] != names[y][0] || names[x].len() != names[y].len() || names[x][4]
                != names[y][4]);
        }
    }
    let m0 = join(dir, names[0]);
    let m1 = join(dir, names[1]);
    let m2 = join(dir, names[2]);
    let m3 = join(dir, names[3]);
    assert(m0 != m1 && m0 != m2 && m0 != m3 && m1 != m2 && m1 != m3 && m2 != m3);
    let ws = limit_writes_of(dir, lim);
    let a = match lim.memory_max {
        Some(b) => seq![(m0, dec(b as nat))],
        None => Seq::<(Seq<char>, Seq<char>)>::empty(),
    };
    let b = match lim.pids_max {
        Some(n) => seq![(m1, dec(n as nat))],
        None => Seq::<(Seq<char>, Seq<char>)>::empty(),
    };
    let c = match lim.cpu_weight {
        Some(w) => seq![(m2, dec(clamp_weight(w) as nat))],
        None => Seq::<(Seq<char>, Seq<char>)>::empty(),
    };
    let d = match lim.cpu_max {
        Some(m) => seq![(m3, cpu_max_text(m.quota_spec(), m.period_spec()))],
        None => Seq::<(Seq<char>, Seq<char>)>::empty(),
    };
    assert(ws =~= a + b + c + d);
    let la = a.len() as int;
    let lb = b.len() as int;
    let lc = c.len() as int;
    assert forall|k: int| 0 <= k < ws.len() implies {
        ||| k < la && ws[k] == a[k]
        ||| la <= k < la + lb && ws[k] == b[k - la]
        ||| la + lb <= k < la + lb + lc && ws[k] == c[k - la - lb]
        ||| la + lb + lc <= k && ws[k] == d[k - la - lb - lc]
    } by {}
    if lim.memory_max is Some {
        assert(ws[0] == a[0]);
    }
    if lim.pids_max is Some {
        assert(ws[la] == b[0]);
    }
    if lim.cpu_weight is Some {
        assert(ws[la + lb] == c[0]);
    }
    if lim.cpu_max is Some {
        assert(ws[la + lb + lc] == d[0]);
    }
}

/// The weight that reaches the kernel is always within 1..=10000, and a
/// weight already in range is written unchanged.
pub proof fn law_weight_in_range(w: u32)
    ensures
        1 <= clamp_weight(w) <= 10000,
        1 <= w <= 10000 ==> clamp_weight(w) == w,
{
}

/// Only what is both wanted and available is ever enabled, in the order it
/// was wanted, and everything wanted and available is enabled.
pub proof fn law_usable_is_wanted_and_available(want: Seq<Seq<char>>, avail: Seq<Seq<char>>)
    ensures
        forall|k: int|
            0 <= k < usable(want, avail).len() ==> want.contains(#[trigger] usable(want, avail)[k])
                && avail.contains(usable(want, avail)[k]),
        forall|k: int|
            0 <= k < want.len() && avail.contains(#[trigger] want[k]) ==> usable(
                want,
                avail,
            ).contains(want[k]),
    decreases want.len(),
{
    if want.len() > 0 {
        let w0 = want.drop_last();
        law_usable_is_wanted_and_available(w0, avail);
        let u0 = usable(w0, avail);
        let u = usable(want, avail);
        assert forall|k: int| 0 <= k < u.len() implies want.contains(#[trigger] u[k])
            && avail.contains(u[k]) by {
            if k < u0.len() {
                assert(u[k] == u0[k]);
                let j = choose|j: int| 0 <= j < w0.len() && w0[j] == u0[k];
                assert(want[j] == w0[j]);
            } else {
                assert(want[want.len() - 1] == u[k]);
            }
        }
        assert forall|k: int| 0 <= k < want.len() && avail.contains(#[trigger] want[k]) implies u.contains(
            want[k],
        ) by {
            if k < want.len() - 1 {
                assert(w0[k] == want[k]);
                let j = choose|j: int| 0 <= j < u0.len() && u0[j] == w0[k];
                assert(u[j] == u0[j]);
            } else {
                assert(u[u.len() - 1] == want[k]);
            }
        }
    }
}

} // verus!
