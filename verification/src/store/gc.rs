//! what a collection of the store keeps and what it sweeps. objects are
//! tracked by inode, so a live tree pins the objects it shares through
//! hardlinks; the walk of the directories and the removals are the system
//! layer's, holding the pool lock

use crate::api::store::ObjectHash;
use crate::text::str_eq;
use vstd::prelude::*;

verus! {

/// what a collection does with one entry of the trees directory
#[derive(Clone, Copy, Debug, PartialEq, Eq, Structural)]
pub enum TreeFate {
    /// a live tree: its inodes pin the objects they share
    Pin,
    /// a tree no longer named live: removed
    Sweep,
    /// neither: a dotfile, or something that is not a directory
    Leave,
}

/// bookkeeping names (the pool lock, staging leftovers) start with a dot
pub open spec fn is_dotfile(name: Seq<char>) -> bool {
    name.len() > 0 && name[0] == '.'
}

pub open spec fn hash_views(hs: Seq<ObjectHash>) -> Seq<Seq<char>> {
    hs.map_values(|h: ObjectHash| h@)
}

/// the fate of the trees entry `name` (a directory or not) when `live`
/// names the trees to keep
pub open spec fn tree_fate(live: Seq<Seq<char>>, name: Seq<char>, is_dir: bool) -> TreeFate {
    if live.contains(name) {
        if is_dir {
            TreeFate::Pin
        } else {
            TreeFate::Leave
        }
    } else if !is_dotfile(name) && is_dir {
        TreeFate::Sweep
    } else {
        TreeFate::Leave
    }
}

/// an entry of the objects directory is swept when it is no dotfile, could
/// be stat'ed, and no kept tree pins its inode
pub open spec fn object_swept(name: Seq<char>, inode: Option<u64>, pinned: Seq<u64>) -> bool {
    !is_dotfile(name) && (inode matches Some(i) && !pinned.contains(i))
}

fn starts_with_dot(name: &str) -> (b: bool)
    ensures
        b == is_dotfile(name@),
{
    let mut it = name.chars();
    match it.next() {
        Some(c) => {
            proof {
                assert(name@.len() > 0);
            }
            c == '.'
        },
        None => false,
    }
}

fn is_live(live: &[ObjectHash], name: &str) -> (b: bool)
    ensures
        b == hash_views(live@).contains(name@),
{
    let mut i: usize = 0;
    while i < live.len()
        invariant
            i <= live@.len(),
            forall|k: int| 0 <= k < i ==> live@[k]@ != name@,
        decreases live@.len() - i,
    {
        if str_eq(live[i].as_str(), name) {
            assert(hash_views(live@)[i as int] == name@);
            return true;
        }
        i += 1;
    }
    proof {
        if hash_views(live@).contains(name@) {
            let k = choose|k: int| 0 <= k < hash_views(live@).len() && hash_views(live@)[k] == name@;
            assert(live@[k]@ == name@);
        }
    }
    false
}

/// the fate of each entry of the trees directory, given as (name, is a
/// directory), when `live` names the trees to keep
pub fn tree_fates(live: &[ObjectHash], trees: &[(String, bool)]) -> (fates: Vec<TreeFate>)
    ensures
        fates@.len() == trees@.len(),
        forall|i: int|
            0 <= i < trees@.len() ==> #[trigger] fates@[i] == tree_fate(
                hash_views(live@),
                trees@[i].0@,
                trees@[i].1,
            ),
{
    let mut fates: Vec<TreeFate> = Vec::new();
    let mut i: usize = 0;
    while i < trees.len()
        invariant
            i <= trees@.len(),
            fates@.len() == i,
            forall|k: int|
                0 <= k < i ==> #[trigger] fates@[k] == tree_fate(
                    hash_views(live@),
                    trees@[k].0@,
                    trees@[k].1,
                ),
        decreases trees@.len() - i,
    {
        let name = trees[i].0.as_str();
        let is_dir = trees[i].1;
        let fate = if is_live(live, name) {
            if is_dir {
                TreeFate::Pin
            } else {
                TreeFate::Leave
            }
        } else if !starts_with_dot(name) && is_dir {
            TreeFate::Sweep
        } else {
            TreeFate::Leave
        };
        fates.push(fate);
        i += 1;
    }
    fates
}

fn is_pinned(pinned: &[u64], ino: u64) -> (b: bool)
    ensures
        b == pinned@.contains(ino),
{
    let mut i: usize = 0;
    while i < pinned.len()
        invariant
            i <= pinned@.len(),
            forall|k: int| 0 <= k < i ==> pinned@[k] != ino,
        decreases pinned@.len() - i,
    {
        if pinned[i] == ino {
            return true;
        }
        i += 1;
    }
    false
}

/// for each entry of the objects directory, given as (name, its inode when
/// it could be stat'ed), whether the collection removes it; `pinned` holds
/// the inodes reachable from the kept trees. the count of removals is what
/// a collection reports
pub fn object_sweeps(objects: &[(String, Option<u64>)], pinned: &[u64]) -> (sweep: Vec<bool>)
    ensures
        sweep@.len() == objects@.len(),
        forall|i: int|
            0 <= i < objects@.len() ==> #[trigger] sweep@[i] == object_swept(
                objects@[i].0@,
                objects@[i].1,
                pinned@,
            ),
{
    let mut sweep: Vec<bool> = Vec::new();
    let mut i: usize = 0;
    while i < objects.len()
        invariant
            i <= objects@.len(),
            sweep@.len() == i,
            forall|k: int|
                0 <= k < i ==> #[trigger] sweep@[k] == object_swept(
                    objects@[k].0@,
                    objects@[k].1,
                    pinned@,
                ),
        decreases objects@.len() - i,
    {
        let s = if starts_with_dot(objects[i].0.as_str()) {
            false
        } else {
            match objects[i].1 {
                Some(ino) => !is_pinned(pinned, ino),
                None => false,
            }
        };
        sweep.push(s);
        i += 1;
    }
    sweep
}

/// how many entries a plan removes
pub open spec fn count_true(s: Seq<bool>) -> nat
    decreases s.len(),
{
    if s.len() == 0 {
        0
    } else {
        count_true(s.drop_last()) + if s.last() {
            1nat
        } else {
            0nat
        }
    }
}

/// the number a collection reports: every object its plan sweeps counts,
/// whether or not the removal itself succeeded
pub fn count_swept(sweep: &[bool]) -> (n: usize)
    ensures
        n == count_true(sweep@),
{
    let mut n: usize = 0;
    let mut i: usize = 0;
    while i < sweep.len()
        invariant
            i <= sweep@.len(),
            n <= i,
            n == count_true(sweep@.take(i as int)),
        decreases sweep@.len() - i,
    {
        proof {
            assert(sweep@.take(i + 1).drop_last() =~= sweep@.take(i as int));
        }
        if sweep[i] {
            n += 1;
        }
        i += 1;
    }
    proof {
        assert(sweep@.take(i as int) =~= sweep@);
    }
    n
}

/// A tree is kept (its inodes pinning objects) exactly when it is a
/// directory named live, and removed exactly when it is a directory that is
/// neither named live nor bookkeeping; anything else is left alone.
pub proof fn law_tree_fates(live: Seq<Seq<char>>, name: Seq<char>, is_dir: bool)
    ensures
        tree_fate(live, name, is_dir) == TreeFate::Pin <==> (is_dir && live.contains(name)),
        tree_fate(live, name, is_dir) == TreeFate::Sweep <==> (is_dir && !live.contains(name)
            && !is_dotfile(name)),
{
}

/// An entry of the objects directory is swept exactly when it is an object
/// (not a bookkeeping dotfile) that could be stat'ed and whose inode no kept
/// tree pins: any unpinned object goes, whatever the pinned inodes are, and
/// an entry that could not be stat'ed stays.
pub proof fn law_unpinned_objects_are_swept(name: Seq<char>, ino: u64, pinned: Seq<u64>)
    ensures
        object_swept(name, Some(ino), pinned) <==> (!is_dotfile(name) && !pinned.contains(ino)),
        !object_swept(name, None, pinned),
{
}

/// Sweeping one entry depends on that entry alone: an object pinned by any
/// kept tree stays, however many others are pinned, and pinning more inodes
/// never sweeps more.
pub proof fn law_more_pins_sweep_less(name: Seq<char>, ino: u64, pinned: Seq<u64>, more: Seq<u64>)
    requires
        forall|k: int| 0 <= k < pinned.len() ==> more.contains(#[trigger] pinned[k]),
    ensures
        object_swept(name, Some(ino), more) ==> object_swept(name, Some(ino), pinned),
{
    if object_swept(name, Some(ino), more) && !object_swept(name, Some(ino), pinned) {
        let k = choose|k: int| 0 <= k < pinned.len() && pinned[k] == ino;
        assert(more.contains(pinned[k]));
    }
}

/// What a collection reports is the number of entries of the objects
/// directory that are not bookkeeping dotfiles and whose inode no kept tree
/// pins: counting the plan counts exactly those.
pub proof fn law_gc_reports_unpinned_objects(
    objects: Seq<(Seq<char>, Option<u64>)>,
    pinned: Seq<u64>,
    plan: Seq<bool>,
)
    requires
        plan.len() == objects.len(),
        forall|i: int|
            0 <= i < objects.len() ==> #[trigger] plan[i] == object_swept(
                objects[i].0,
                objects[i].1,
                pinned,
            ),
    ensures
        count_true(plan) == objects.filter(
            |o: (Seq<char>, Option<u64>)| object_swept(o.0, o.1, pinned),
        ).len(),
    decreases objects.len(),
{
    reveal(Seq::filter);
    if objects.len() > 0 {
        let rest = objects.drop_last();
        let prest = plan.drop_last();
        assert forall|i: int| 0 <= i < rest.len() implies #[trigger] prest[i] == object_swept(
            rest[i].0,
            rest[i].1,
            pinned,
        ) by {
            assert(prest[i] == plan[i]);
        }
        law_gc_reports_unpinned_objects(rest, pinned, prest);
        assert(plan.last() == plan[objects.len() - 1]);
    }
}

/// A tree named live is never swept, and an object whose inode a kept tree
/// pins is never swept.
pub proof fn law_live_is_kept(
    live: Seq<Seq<char>>,
    name: Seq<char>,
    is_dir: bool,
    obj: Seq<char>,
    ino: u64,
    pinned: Seq<u64>,
)
    ensures
        live.contains(name) ==> tree_fate(live, name, is_dir) != TreeFate::Sweep,
        live.contains(name) && is_dir ==> tree_fate(live, name, is_dir) == TreeFate::Pin,
        pinned.contains(ino) ==> !object_swept(obj, Some(ino), pinned),
{
}

/// With nothing live, every tree directory but bookkeeping goes, and with
/// nothing pinned so does every object that could be stat'ed.
pub proof fn law_nothing_live_sweeps_everything(name: Seq<char>, obj: Seq<char>, ino: u64)
    requires
        !is_dotfile(name),
        !is_dotfile(obj),
    ensures
        tree_fate(Seq::empty(), name, true) == TreeFate::Sweep,
        object_swept(obj, Some(ino), Seq::empty()),
{
}

} // verus!
