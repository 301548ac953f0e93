//! Path arithmetic over strings, with the meaning `Path::join` gives it on
//! unix: an absolute right-hand side replaces the base, otherwise one `/`
//! separates the two unless the base is empty or already ends in one.

use crate::text::{chars_of, concat, string_of};
use vstd::prelude::*;

verus! {

pub open spec fn join(base: Seq<char>, rel: Seq<char>) -> Seq<char> {
    if rel.len() > 0 && rel[0] == '/' {
        rel
    } else if base.len() > 0 && base.last() != '/' {
        base + seq!['/'] + rel
    } else {
        base + rel
    }
}

/// `Path::new(base).join(rel)`, as a string.
pub fn path_join(base: &str, rel: &str) -> (p: String)
    ensures
        p@ == join(base@, rel@),
{
    let r = chars_of(rel);
    if r.len() > 0 && r[0] == '/' {
        return String::from_str(rel);
    }
    let b = chars_of(base);
    if b.len() > 0 && b[b.len() - 1] != '/' {
        let mut p = concat(base, "/");
        p.append(rel);
        proof {
            reveal_strlit("/");
        }
        assert(p@ =~= join(base@, rel@));
        p
    } else {
        concat(base, rel)
    }
}

/// Joining a relative, separator-free name onto a base is injective in
/// the name: two names give the same path only if they are equal.
pub proof fn lemma_join_injective(base: Seq<char>, a: Seq<char>, b: Seq<char>)
    requires
        a.len() > 0,
        b.len() > 0,
        a[0] != '/',
        b[0] != '/',
        join(base, a) == join(base, b),
    ensures
        a == b,
{
    let pa = join(base, a);
    if base.len() > 0 && base.last() != '/' {
        assert(a =~= pa.skip(base.len() as int + 1));
        assert(b =~= pa.skip(base.len() as int + 1));
    } else {
        assert(a =~= pa.skip(base.len() as int));
        assert(b =~= pa.skip(base.len() as int));
    }
}

/// A path that ends in a fixed component: appending the same tail to two
/// paths keeps them apart.
pub proof fn lemma_join_tail_injective(a: Seq<char>, b: Seq<char>, tail: Seq<char>)
    requires
        tail.len() > 0,
        tail[0] != '/',
        a.len() > 0,
        b.len() > 0,
        a.last() != '/',
        b.last() != '/',
        join(a, tail) == join(b, tail),
    ensures
        a == b,
{
    let p = join(a, tail);
    assert(p =~= a + seq!['/'] + tail);
    assert(a =~= p.take(p.len() - tail.len() - 1));
    assert(b =~= p.take(p.len() - tail.len() - 1));
}

/// Whether something exists at `path`, as `std::path::Path::exists`
/// answers it. The answer depends on the filesystem, so nothing is promised.
#[verifier::external_body]
pub(crate) fn path_exists(path: &str) -> (b: bool) {
    std::path::Path::new(path).exists()
}

/// Whether `path` names a directory, as `std::path::Path::is_dir` answers
/// it. The answer depends on the filesystem, so nothing is promised.
#[verifier::external_body]
pub(crate) fn path_is_dir(path: &str) -> (b: bool) {
    std::path::Path::new(path).is_dir()
}

/// `str::trim_start_matches('/')`
pub open spec fn strip_slashes(s: Seq<char>) -> Seq<char>
    decreases s.len(),
{
    if s.len() > 0 && s[0] == '/' {
        strip_slashes(s.drop_first())
    } else {
        s
    }
}

/// what is left after the leading slashes does not start with one
pub proof fn lemma_strip_slashes(s: Seq<char>)
    ensures
        strip_slashes(s).len() == 0 || strip_slashes(s)[0] != '/',
    decreases s.len(),
{
    if s.len() > 0 && s[0] == '/' {
        lemma_strip_slashes(s.drop_first());
    }
}

fn strip_leading_slashes(s: &str) -> (out: String)
    ensures
        out@ == strip_slashes(s@),
{
    let cs = chars_of(s);
    let mut a: usize = 0;
    assert(cs@.skip(0) =~= cs@);
    while a < cs.len() && cs[a] == '/'
        invariant
            cs@ == s@,
            a <= cs@.len(),
            strip_slashes(s@) == strip_slashes(cs@.skip(a as int)),
        decreases cs@.len() - a,
    {
        proof {
            assert(cs@.skip(a as int).drop_first() =~= cs@.skip(a + 1));
        }
        a += 1;
    }
    proof {
        assert(cs@.skip(a as int) =~= cs@.subrange(a as int, cs@.len() as int));
    }
    string_of(&cs, a, cs.len())
}

/// `path` placed under `root`: `Path::new(root).join(path.trim_start_matches('/'))`
pub fn reroot(root: &str, path: &str) -> (p: String)
    ensures
        p@ == join(root@, strip_slashes(path@)),
{
    path_join(root, strip_leading_slashes(path).as_str())
}

} // verus!
