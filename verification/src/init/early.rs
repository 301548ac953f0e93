//! the boot window before any layer is touched: which pseudo-filesystems
//! and runtime directories come up, what is torn down when one of them
//! fails, and what is carried across the switch into the new root. it must
//! not depend on any layer, because the system must come up even when
//! every layer is broken

use crate::api::err::{Error, ErrorView, Result};
use crate::path::{join, path_join, reroot, strip_slashes};
use crate::paths::{run_ns_of, run_of, Layout};
use crate::text::chars_of;
use crate::vocab;
use vstd::prelude::*;

verus! {

/// one step of bringing the boot window up
pub enum MountAction {
    /// create a directory and its parents
    MakeDir(String),
    /// create `target` and mount a fresh `fstype` filesystem on it
    Mount { fstype: String, target: String },
}

pub enum MountActionView {
    MakeDir(Seq<char>),
    Mount { fstype: Seq<char>, target: Seq<char> },
}

impl View for MountAction {
    type V = MountActionView;

    open spec fn view(&self) -> MountActionView {
        match self {
            MountAction::MakeDir(d) => MountActionView::MakeDir(d@),
            MountAction::Mount { fstype, target } => MountActionView::Mount {
                fstype: fstype@,
                target: target@,
            },
        }
    }
}

pub open spec fn action_views(v: Seq<MountAction>) -> Seq<MountActionView> {
    v.map_values(|a: MountAction| a@)
}

pub open spec fn pair_views(v: Seq<(String, String)>) -> Seq<(Seq<char>, Seq<char>)> {
    v.map_values(|p: (String, String)| (p.0@, p.1@))
}

/// the mounts of the configured pseudo-filesystems, (fstype, target) each
pub open spec fn pseudo_mounts(pseudo: Seq<(Seq<char>, Seq<char>)>) -> Seq<MountActionView> {
    pseudo.map_values(
        |p: (Seq<char>, Seq<char>)| MountActionView::Mount { fstype: p.0, target: p.1 },
    )
}

/// the boot window under layout root `root`: every pseudo-filesystem in
/// order, then the runtime tmpfs at run/ (its directory made first), then
/// the directory that will hold namespace pins
pub open spec fn early_plan_of(root: Seq<char>, pseudo: Seq<(Seq<char>, Seq<char>)>) -> Seq<
    MountActionView,
> {
    pseudo_mounts(pseudo) + seq![
        MountActionView::MakeDir(run_of(root)),
        MountActionView::Mount { fstype: vocab::FS_TMPFS@, target: run_of(root) },
        MountActionView::MakeDir(run_ns_of(root)),
    ]
}

/// the targets of the mounts among the first `k` steps of `plan`, in the
/// order they were made
pub open spec fn mounted_before(plan: Seq<MountActionView>, k: int) -> Seq<Seq<char>>
    decreases k,
{
    if k <= 0 || plan.len() == 0 {
        Seq::<Seq<char>>::empty()
    } else if k > plan.len() {
        mounted_before(plan, plan.len() as int)
    } else {
        let rest = mounted_before(plan, k - 1);
        match plan[k - 1] {
            MountActionView::Mount { target, .. } => rest.push(target),
            MountActionView::MakeDir(_) => rest,
        }
    }
}

/// the steps that bring the boot window up, in order
pub fn early_plan(layout: &Layout, pseudo: &[(String, String)]) -> (plan: Vec<MountAction>)
    ensures
        action_views(plan@) == early_plan_of(layout@, pair_views(pseudo@)),
{
    let mut plan: Vec<MountAction> = Vec::new();
    let mut i: usize = 0;
    while i < pseudo.len()
        invariant
            i <= pseudo@.len(),
            action_views(plan@) == pseudo_mounts(pair_views(pseudo@)).take(i as int),
        decreases pseudo@.len() - i,
    {
        let a = MountAction::Mount { fstype: pseudo[i].0.clone(), target: pseudo[i].1.clone() };
        proof {
            let pm = pseudo_mounts(pair_views(pseudo@));
            assert(pair_views(pseudo@)[i as int] == (pseudo@[i as int].0@, pseudo@[i as int].1@));
            assert(pm[i as int] == a@);
            assert(pm.take(i + 1) =~= pm.take(i as int).push(a@));
            assert(action_views(plan@.push(a)) =~= action_views(plan@).push(a@));
        }
        plan.push(a);
        i += 1;
    }
    let run = layout.run();
    plan.push(MountAction::MakeDir(run.clone()));
    plan.push(MountAction::Mount { fstype: String::from_str(vocab::FS_TMPFS), target: run });
    plan.push(MountAction::MakeDir(layout.run_ns()));
    assert(pseudo_mounts(pair_views(pseudo@)).take(i as int) =~= pseudo_mounts(
        pair_views(pseudo@),
    ));
    assert(action_views(plan@) =~= early_plan_of(layout@, pair_views(pseudo@)));
    plan
}

/// when step `failed` of `plan` fails, the mounts to undo so no partial
/// mounts are left behind: every mount the earlier steps made, the last
/// one first
pub fn rollback(plan: &[MountAction], failed: usize) -> (undo: Vec<String>)
    requires
        failed <= plan@.len(),
    ensures
        crate::text::views(undo@) == mounted_before(action_views(plan@), failed as int).reverse(),
{
    let ghost p = action_views(plan@);
    let mut undo: Vec<String> = Vec::new();
    let mut k = failed;
    assert(mounted_before(p, failed as int).take(failed as int - failed as int) =~= Seq::<
        Seq<char>,
    >::empty()) by {
        lemma_mounted_len(p, failed as int);
    }
    while k > 0
        invariant
            k <= failed <= plan@.len(),
            p == action_views(plan@),
            crate::text::views(undo@) == mounted_before(p, failed as int).reverse().take(
                mounted_before(p, failed as int).len() - mounted_before(p, k as int).len(),
            ),
            mounted_before(p, k as int).len() <= mounted_before(p, failed as int).len(),
            mounted_before(p, k as int) == mounted_before(p, failed as int).take(
                mounted_before(p, k as int).len() as int,
            ),
        decreases k,
    {
        proof {
            lemma_mounted_prefix(p, k as int - 1, failed as int);
        }
        match &plan[k - 1] {
            MountAction::Mount { target, .. } => {
                let t = target.clone();
                proof {
                    let all = mounted_before(p, failed as int);
                    let m = mounted_before(p, k as int);
                    let r = all.reverse();
                    assert(p[k - 1] == plan@[k - 1]@);
                    assert(m.last() == t@);
                    assert(r[all.len() - m.len()] == all[m.len() - 1]);
                    crate::text::lemma_views_push(undo@, t);
                    assert(r.take(all.len() - m.len()).push(t@) =~= r.take(
                        all.len() - (m.len() - 1),
                    ));
                }
                undo.push(t);
            },
            MountAction::MakeDir(_) => {
                proof {
                    assert(p[k - 1] == plan@[k - 1]@);
                }
            },
        }
        k -= 1;
    }
    proof {
        let all = mounted_before(p, failed as int);
        assert(all.reverse().take(all.len() as int) =~= all.reverse());
    }
    undo
}

proof fn lemma_mounted_len(plan: Seq<MountActionView>, k: int)
    ensures
        mounted_before(plan, k).len() <= if k < 0 {
            0
        } else {
            k
        },
    decreases k,
{
    if k > 0 && plan.len() > 0 {
        if k > plan.len() {
            lemma_mounted_len(plan, plan.len() as int);
        } else {
            lemma_mounted_len(plan, k - 1);
        }
    }
}

/// the mounts of a shorter prefix come first among those of a longer one
proof fn lemma_mounted_prefix(plan: Seq<MountActionView>, j: int, k: int)
    requires
        0 <= j <= k <= plan.len(),
    ensures
        mounted_before(plan, j).len() <= mounted_before(plan, k).len(),
        mounted_before(plan, j) == mounted_before(plan, k).take(
            mounted_before(plan, j).len() as int,
        ),
    decreases k - j,
{
    if j < k {
        lemma_mounted_prefix(plan, j, k - 1);
        let a = mounted_before(plan, k - 1);
        let b = mounted_before(plan, k);
        assert(b.take(a.len() as int) =~= a);
        let m = mounted_before(plan, j);
        assert(b.take(m.len() as int) =~= a.take(m.len() as int));
    } else {
        assert(mounted_before(plan, k).take(mounted_before(plan, k).len() as int) =~= mounted_before(
            plan,
            k,
        ));
    }
}

/// the mounts of the first `k` steps of a run of pseudo mounts are the
/// targets of the first `k` of them
proof fn lemma_mounted_pseudo(root: Seq<char>, pseudo: Seq<(Seq<char>, Seq<char>)>, k: int)
    requires
        0 <= k <= pseudo.len(),
    ensures
        mounted_before(early_plan_of(root, pseudo), k) == pseudo.take(k).map_values(
            |p: (Seq<char>, Seq<char>)| p.1,
        ),
    decreases k,
{
    let plan = early_plan_of(root, pseudo);
    if k > 0 {
        lemma_mounted_pseudo(root, pseudo, k - 1);
        assert(plan[k - 1] == pseudo_mounts(pseudo)[k - 1]);
        assert(pseudo.take(k).map_values(|p: (Seq<char>, Seq<char>)| p.1) =~= pseudo.take(
            k - 1,
        ).map_values(|p: (Seq<char>, Seq<char>)| p.1).push(pseudo[k - 1].1));
    } else {
        assert(pseudo.take(0).map_values(|p: (Seq<char>, Seq<char>)| p.1) =~= Seq::<
            Seq<char>,
        >::empty());
    }
}

/// A failed boot window leaves nothing mounted: when a pseudo-filesystem
/// fails, exactly the ones before it are undone, newest first; when the
/// runtime directory or its tmpfs fails, every pseudo-filesystem is undone;
/// when the pin directory fails, the runtime tmpfs is undone and then every
/// pseudo-filesystem.
pub proof fn law_early_rollback(root: Seq<char>, pseudo: Seq<(Seq<char>, Seq<char>)>, k: int)
    requires
        0 <= k < pseudo.len() + 3,
    ensures
        k <= pseudo.len() ==> mounted_before(early_plan_of(root, pseudo), k).reverse()
            == pseudo.take(k).map_values(|p: (Seq<char>, Seq<char>)| p.1).reverse(),
        pseudo.len() < k <= pseudo.len() + 1 ==> mounted_before(
            early_plan_of(root, pseudo),
            k,
        ).reverse() == pseudo.map_values(|p: (Seq<char>, Seq<char>)| p.1).reverse(),
        k == pseudo.len() + 2 ==> mounted_before(early_plan_of(root, pseudo), k).reverse() == seq![
            run_of(root),
        ] + pseudo.map_values(|p: (Seq<char>, Seq<char>)| p.1).reverse(),
{
    let n = pseudo.len() as int;
    let plan = early_plan_of(root, pseudo);
    if k <= n {
        lemma_mounted_pseudo(root, pseudo, k);
    } else {
        lemma_mounted_pseudo(root, pseudo, n);
        assert(pseudo.take(n) =~= pseudo);
        let t = pseudo.map_values(|p: (Seq<char>, Seq<char>)| p.1);
        assert(plan[n] == MountActionView::MakeDir(run_of(root)));
        assert(mounted_before(plan, n + 1) == mounted_before(plan, n));
        if k == n + 2 {
            assert(plan[n + 1] == MountActionView::Mount {
                fstype: vocab::FS_TMPFS@,
                target: run_of(root),
            });
            assert(mounted_before(plan, n + 2) == mounted_before(plan, n + 1).push(run_of(root)));
            assert(t.push(run_of(root)).reverse() =~= seq![run_of(root)] + t.reverse());
        }
    }
}

/// what is carried into `new_root` at the switch, (source, destination)
/// each: every pseudo mount to the same path under the new root, then the
/// runtime tmpfs the daemon lives on
pub open spec fn switch_moves_of(new_root: Seq<char>, pseudo: Seq<(Seq<char>, Seq<char>)>) -> Seq<
    (Seq<char>, Seq<char>),
> {
    pseudo.map_values(
        |p: (Seq<char>, Seq<char>)| (p.1, join(new_root, strip_slashes(p.1))),
    ).push(("/run"@, join(new_root, "run"@)))
}

/// the moves of the switch, in order: the pseudo-filesystems are carried
/// across instead of remounted so live state (processes, mounts) is not
/// lost during the pivot
pub fn switch_moves(new_root: &str, pseudo: &[(String, String)]) -> (moves: Vec<(String, String)>)
    ensures
        pair_views(moves@) == switch_moves_of(new_root@, pair_views(pseudo@)),
{
    let mut moves: Vec<(String, String)> = Vec::new();
    let mut i: usize = 0;
    while i < pseudo.len()
        invariant
            i <= pseudo@.len(),
            pair_views(moves@) == pair_views(pseudo@).take(i as int).map_values(
                |p: (Seq<char>, Seq<char>)| (p.1, join(new_root@, strip_slashes(p.1))),
            ),
        decreases pseudo@.len() - i,
    {
        let m = pseudo[i].1.as_str();
        let dst = reroot(new_root, m);
        let mv = (String::from_str(m), dst);
        proof {
            let f = |p: (Seq<char>, Seq<char>)| (p.1, join(new_root@, strip_slashes(p.1)));
            let pv = pair_views(pseudo@);
            assert(pv[i as int] == (pseudo@[i as int].0@, pseudo@[i as int].1@));
            assert(pv.take(i + 1).map_values(f) =~= pv.take(i as int).map_values(f).push(
                (mv.0@, mv.1@),
            ));
            assert(pair_views(moves@.push(mv)) =~= pair_views(moves@).push((mv.0@, mv.1@)));
        }
        moves.push(mv);
        i += 1;
    }
    moves.push((String::from_str("/run"), path_join(new_root, "run")));
    assert(pair_views(pseudo@).take(i as int) =~= pair_views(pseudo@));
    assert(pair_views(moves@) =~= switch_moves_of(new_root@, pair_views(pseudo@)));
    moves
}

/// a launch's program and its arguments: the first word of `argv` and the
/// rest; an empty argv has nothing to run
pub fn split_argv(argv: &[String]) -> (res: Result<(String, Vec<String>)>)
    ensures
        argv@.len() == 0 ==> (res matches Err(e) && e@ == ErrorView::Init("empty argv"@)),
        argv@.len() > 0 ==> (res matches Ok((prog, args)) && prog@ == argv@[0]@ && args@
            == argv@.drop_first()),
{
    if argv.len() == 0 {
        return Err(Error::Init(String::from_str("empty argv")));
    }
    let prog = argv[0].clone();
    let mut args: Vec<String> = Vec::new();
    let mut i: usize = 1;
    while i < argv.len()
        invariant
            1 <= i <= argv@.len(),
            args@ == argv@.subrange(1, i as int),
        decreases argv@.len() - i,
    {
        args.push(argv[i].clone());
        i += 1;
        assert(args@ =~= argv@.subrange(1, i as int));
    }
    assert(args@ =~= argv@.drop_first());
    Ok((prog, args))
}

/// an empty init path is refused before the namespace is entered, because
/// exec("") would fail with ENOENT after the namespace boundary is crossed
pub fn require_init(native_init: &str) -> (res: Result<()>)
    ensures
        native_init@.len() == 0 ==> (res matches Err(e) && e@ == ErrorView::Init(
            "native init path is empty"@,
        )),
        native_init@.len() > 0 ==> res is Ok,
{
    let cs = chars_of(native_init);
    if cs.len() == 0 {
        Err(Error::Init(String::from_str("native init path is empty")))
    } else {
        Ok(())
    }
}

} // verus!
