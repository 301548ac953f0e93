//! refusing a path under a symlinked directory: `create_dir_all` follows
//! symlinks, so an ancestor that is a link could divert writable state out
//! of the tree. which ancestors to stat, and what each stat result means,
//! are decided here; the stat itself is the caller's

use crate::api::err::{Error, ErrorView, Result};
use crate::quote::{debug_quoted, debug_str};
use crate::text::{chars_of, concat, views, lemma_views_push};
use vstd::prelude::*;

verus! {

/// the path `std::path::Path::parent` gives for `p`: `p` without its final
/// component, or none when `p` is a root or empty
pub uninterp spec fn parent_of(p: Seq<char>) -> Option<Seq<char>>;

/// whether `std::path::Path` compares `a` and `b` equal: the same
/// components, however the separators are written
pub uninterp spec fn same_path(a: Seq<char>, b: Seq<char>) -> bool;

/// `Path::new(p).parent()`, as text. A parent is a leading slice of `p`,
/// so it is as valid text as `p` and converts without loss.
#[verifier::external_body]
fn path_parent(p: &str) -> (r: Option<String>)
    ensures
        match r {
            Some(q) => parent_of(p@) == Some(q@),
            None => parent_of(p@) is None,
        },
{
    std::path::Path::new(p).parent().map(|q| q.to_string_lossy().into_owned())
}

/// `Path::new(a) == Path::new(b)`.
#[verifier::external_body]
fn path_same(a: &str, b: &str) -> (r: bool)
    ensures
        r == same_path(a@, b@),
{
    std::path::Path::new(a) == std::path::Path::new(b)
}

/// the ancestors of `p` to stat, nearest first, walking up from `cur` with
/// at most `fuel` steps: the walk stops at `root` (which is not checked)
/// or at the top, and `p` itself is not checked
pub open spec fn points_from(cur: Seq<char>, p: Seq<char>, root: Seq<char>, fuel: nat) -> Seq<
    Seq<char>,
>
    decreases fuel,
{
    if fuel == 0 || same_path(cur, root) {
        Seq::empty()
    } else {
        let rest = match parent_of(cur) {
            None => Seq::empty(),
            Some(q) => points_from(q, p, root, (fuel - 1) as nat),
        };
        if same_path(cur, p) {
            rest
        } else {
            seq![cur] + rest
        }
    }
}

/// the proper ancestors of `p` below `root`, nearest first. A path of `n`
/// characters has at most `n + 1` ancestors, itself included, so the walk
/// never runs out of steps before it reaches the top.
pub open spec fn probe_points(p: Seq<char>, root: Seq<char>) -> Seq<Seq<char>> {
    points_from(p, p, root, p.len() + 1)
}

/// the ancestors of `p` whose kind must be checked before `p` is created
/// under `root`, nearest first
pub fn symlink_probe_points(p: &str, root: &str) -> (v: Vec<String>)
    ensures
        views(v@) == probe_points(p@, root@),
{
    let n = chars_of(p).len();
    let mut fuel: u128 = n as u128 + 1;
    let mut out: Vec<String> = Vec::new();
    let mut cur = String::from_str(p);
    loop
        invariant_except_break
            views(out@) + points_from(cur@, p@, root@, fuel as nat) == probe_points(p@, root@),
        ensures
            views(out@) == probe_points(p@, root@),
        decreases fuel,
    {
        if fuel == 0 || path_same(cur.as_str(), root) {
            proof {
                assert(views(out@) + Seq::<Seq<char>>::empty() =~= views(out@));
            }
            break;
        }
        let skip = path_same(cur.as_str(), p);
        let parent = path_parent(cur.as_str());
        let ghost before = views(out@);
        let ghost c = cur@;
        if !skip {
            proof {
                lemma_views_push(out@, cur);
            }
            out.push(cur);
        }
        proof {
            if !skip {
                assert(views(out@) =~= before + seq![c]);
            } else {
                assert(views(out@) == before);
            }
        }
        match parent {
            None => {
                proof {
                    assert(views(out@) =~= before + points_from(c, p@, root@, fuel as nat));
                }
                break;
            },
            Some(q) => {
                proof {
                    let rest = points_from(q@, p@, root@, (fuel - 1) as nat);
                    if skip {
                        assert(before + points_from(c, p@, root@, fuel as nat) =~= views(out@) + rest);
                    } else {
                        assert(before + points_from(c, p@, root@, fuel as nat) =~= views(out@)
                            + rest);
                    }
                }
                cur = q;
                fuel = fuel - 1;
            },
        }
    }
    out
}

/// what a stat of an ancestor found
pub enum AncestorStat {
    /// the ancestor is a symbolic link
    Symlink,
    /// the ancestor exists and is not a link
    Present,
    /// nothing exists there yet
    Missing,
    /// the stat failed for another reason, with the system's message
    Failed(String),
}

/// the answer for one checked ancestor `anc` of `p`: a symlink refuses `p`,
/// a failed stat is reported, anything else lets the check go on
pub open spec fn verdict_of(p: Seq<char>, anc: Seq<char>, st: AncestorStat) -> std::result::Result<
    (),
    ErrorView,
> {
    match st {
        AncestorStat::Symlink => Err(
            ErrorView::Io(
                "refusing to use "@ + debug_str(p) + ": ancestor "@ + debug_str(anc)
                    + " is a symlink"@,
            ),
        ),
        AncestorStat::Failed(m) => Err(ErrorView::Io("stat "@ + debug_str(anc) + ": "@ + m@)),
        _ => Ok(()),
    }
}

pub fn ancestor_verdict(p: &str, anc: &str, st: &AncestorStat) -> (r: Result<()>)
    ensures
        match r {
            Ok(()) => verdict_of(p@, anc@, *st) == Ok::<(), ErrorView>(()),
            Err(e) => verdict_of(p@, anc@, *st) == Err::<(), ErrorView>(e@),
        },
{
    match st {
        AncestorStat::Symlink => {
            let mut m = concat("refusing to use ", debug_quoted(p).as_str());
            m.append(": ancestor ");
            m.append(debug_quoted(anc).as_str());
            m.append(" is a symlink");
            proof {
                reveal_strlit("refusing to use ");
                reveal_strlit(": ancestor ");
                reveal_strlit(" is a symlink");
            }
            Err(Error::Io(m))
        },
        AncestorStat::Failed(msg) => {
            let mut m = concat("stat ", debug_quoted(anc).as_str());
            m.append(": ");
            m.append(msg.as_str());
            proof {
                reveal_strlit("stat ");
                reveal_strlit(": ");
            }
            Err(Error::Io(m))
        },
        _ => Ok(()),
    }
}

} // verus!
