//! gens under .gen, current is a symlink. rollback moves it. this type owns
//! the path math and the on-disk formats: the layer manifest a commit writes
//! and the link target an activate writes, and how each is read back

use crate::api::err::{Error, ErrorView, Result, result_view};
use crate::api::store::{Gen, ObjectHash};
use crate::path::{join, path_join};
use crate::text::{
    chars_of, concat, dec, lemma_line_len_exact, lemma_parse_dec, lines_trimmed, parse_dec_u64, parse_u64, string_of, trim, trimmed_lines, u64_to_dec, views,
};
use vstd::prelude::*;

verus! {

broadcast use vstd::seq_lib::group_to_multiset_ensures;

pub struct Generations {
    root: String,
}

impl View for Generations {
    type V = Seq<char>;

    closed spec fn view(&self) -> Seq<char> {
        self.root@
    }
}

pub open spec fn hash_views(hs: Seq<ObjectHash>) -> Seq<Seq<char>> {
    hs.map_values(|h: ObjectHash| h@)
}

/// the manifest of a generation: one layer hash per line
pub open spec fn manifest_of(hs: Seq<Seq<char>>) -> Seq<char>
    decreases hs.len(),
{
    if hs.len() == 0 {
        Seq::<char>::empty()
    } else {
        hs[0] + seq!['\n'] + manifest_of(hs.drop_first())
    }
}

pub proof fn lemma_manifest_push(hs: Seq<Seq<char>>, x: Seq<char>)
    ensures
        manifest_of(hs.push(x)) == manifest_of(hs) + x + seq!['\n'],
    decreases hs.len(),
{
    if hs.len() == 0 {
        let e = hs.push(x);
        assert(e.drop_first() =~= Seq::<Seq<char>>::empty());
        assert(manifest_of(e.drop_first()) == Seq::<char>::empty());
        assert(e[0] == x);
        assert(manifest_of(e) == x + seq!['\n'] + manifest_of(e.drop_first()));
        assert(manifest_of(hs) == Seq::<char>::empty());
        assert(manifest_of(e) =~= manifest_of(hs) + x + seq!['\n']);
    } else {
        assert(hs.push(x).drop_first() =~= hs.drop_first().push(x));
        lemma_manifest_push(hs.drop_first(), x);
        assert(manifest_of(hs.push(x)) =~= manifest_of(hs) + x + seq!['\n']);
    }
}

/// the number a generation's directory is named by, read back from the
/// target of the current link: its last path component as a decimal
pub open spec fn tail_len(p: Seq<char>) -> nat
    decreases p.len(),
{
    if p.len() == 0 || p.last() == '/' {
        0
    } else {
        1 + tail_len(p.drop_last())
    }
}

pub proof fn lemma_tail_len_bound(p: Seq<char>)
    ensures
        tail_len(p) <= p.len(),
        p.len() > 0 && p.last() != '/' ==> tail_len(p) >= 1,
    decreases p.len(),
{
    if p.len() > 0 && p.last() != '/' {
        lemma_tail_len_bound(p.drop_last());
    }
}

/// the last component of a path, skipping trailing separators and `.`
/// components, as `Path::components` normalizes them
pub open spec fn last_component(p: Seq<char>) -> Seq<char>
    decreases p.len(),
{
    if p.len() == 0 {
        p
    } else if p.last() == '/' {
        last_component(p.drop_last())
    } else {
        let n = tail_len(p);
        proof {
            lemma_tail_len_bound(p);
        }
        let piece = p.skip(p.len() - n);
        if piece == seq!['.'] {
            last_component(p.take(p.len() - n))
        } else {
            piece
        }
    }
}

/// `Path::file_name`: the final component, none when the path ends in
/// `..`, is a root, or is empty
pub open spec fn file_name(p: Seq<char>) -> Option<Seq<char>> {
    let c = last_component(p);
    if c.len() == 0 || c == seq!['.', '.'] {
        None
    } else {
        Some(c)
    }
}

/// what `current` answers for a link pointing at `target`
pub open spec fn gen_of_target(target: Seq<char>) -> std::result::Result<u64, ErrorView> {
    match file_name(target) {
        None => Err(ErrorView::Io("current points nowhere"@)),
        Some(name) => match parse_u64(name) {
            Some(n) => Ok(n),
            None => Err(ErrorView::Io("current is not a gen: "@ + name)),
        },
    }
}

/// one past the highest generation number among directory entry names;
/// names that are not numbers are not generations
pub open spec fn max_gen(names: Seq<Seq<char>>) -> nat
    decreases names.len(),
{
    if names.len() == 0 {
        0
    } else {
        let m = max_gen(names.drop_last());
        match parse_u64(names.last()) {
            Some(n) => if n > m {
                n as nat
            } else {
                m
            },
            None => m,
        }
    }
}

/// the generation numbers among directory entry names, in entry order
pub open spec fn gens_in(names: Seq<Seq<char>>) -> Seq<u64>
    decreases names.len(),
{
    if names.len() == 0 {
        Seq::<u64>::empty()
    } else {
        let rest = gens_in(names.drop_last());
        match parse_u64(names.last()) {
            Some(n) => rest.push(n),
            None => rest,
        }
    }
}

pub open spec fn sorted(s: Seq<u64>) -> bool {
    forall|i: int, j: int| 0 <= i <= j < s.len() ==> s[i] <= s[j]
}

pub open spec fn gen_numbers(gs: Seq<Gen>) -> Seq<u64> {
    gs.map_values(|g: Gen| g.get_spec())
}

/// the last path component of `p`, per [`last_component`]
fn last_component_of(p: &str) -> (c: String)
    ensures
        c@ == last_component(p@),
{
    let cs = chars_of(p);
    let mut end = cs.len();
    assert(cs@.take(end as int) =~= cs@);
    loop
        invariant
            cs@ == p@,
            end <= cs@.len(),
            last_component(p@) == last_component(cs@.take(end as int)),
        decreases end,
    {
        let ghost q = cs@.take(end as int);
        if end == 0 {
            return String::new();
        }
        if cs[end - 1] == '/' {
            assert(q.drop_last() =~= cs@.take(end - 1));
            end -= 1;
        } else {
            let mut start = end;
            while start > 0 && cs[start - 1] != '/'
                invariant
                    start <= end <= cs@.len(),
                    forall|k: int| start <= k < end ==> #[trigger] cs@[k] != '/',
                decreases start,
            {
                start -= 1;
            }
            proof {
                lemma_tail_len_exact(q, end - start);
                assert(q.skip(q.len() - (end - start)) =~= cs@.subrange(start as int, end as int));
            }
            if end - start == 1 && cs[start] == '.' {
                proof {
                    assert(cs@.subrange(start as int, end as int) =~= seq!['.']);
                    assert(q.take(q.len() - 1) =~= cs@.take(start as int));
                }
                end = start;
            } else {
                proof {
                    if cs@.subrange(start as int, end as int) == seq!['.'] {
                        assert(cs@.subrange(start as int, end as int)[0] == cs@[start as int]);
                    }
                }
                return string_of(&cs, start, end);
            }
        }
    }
}

proof fn lemma_tail_len_exact(p: Seq<char>, n: int)
    requires
        0 <= n <= p.len(),
        forall|k: int| p.len() - n <= k < p.len() ==> #[trigger] p[k] != '/',
        n == p.len() || p[p.len() - n - 1] == '/',
    ensures
        tail_len(p) == n,
    decreases n,
{
    if n > 0 {
        let t = p.drop_last();
        assert forall|k: int| t.len() - (n - 1) <= k < t.len() implies #[trigger] t[k] != '/' by {
            assert(t[k] == p[k]);
        }
        if n < p.len() {
            assert(t[t.len() - (n - 1) - 1] == p[p.len() - n - 1]);
        }
        lemma_tail_len_exact(t, n - 1);
    }
}

impl Generations {
    pub fn new(root: &str) -> (g: Self)
        ensures
            g@ == root@,
    {
        Generations { root: String::from_str(root) }
    }

    /// the directory holding every generation
    pub fn root(&self) -> (r: &str)
        ensures
            r@ == self@,
    {
        self.root.as_str()
    }

    /// the directory of generation `g`, named by its number
    pub fn path(&self, g: Gen) -> (p: String)
        ensures
            p@ == join(self@, dec(g.get_spec() as nat)),
    {
        let name = u64_to_dec(g.get());
        path_join(self.root.as_str(), name.as_str())
    }

    /// the symlink naming the active generation
    pub fn current_link(&self) -> (p: String)
        ensures
            p@ == join(self@, "current"@),
    {
        path_join(self.root.as_str(), "current")
    }

    /// what a commit writes for its layer hashes: one per line
    pub fn manifest(hashes: &[ObjectHash]) -> (text: String)
        ensures
            text@ == manifest_of(hash_views(hashes@)),
    {
        let mut text = String::new();
        let mut i: usize = 0;
        while i < hashes.len()
            invariant
                i <= hashes@.len(),
                text@ == manifest_of(hash_views(hashes@).take(i as int)),
            decreases hashes@.len() - i,
        {
            proof {
                lemma_manifest_push(hash_views(hashes@).take(i as int), hashes@[i as int]@);
                assert(hash_views(hashes@).take(i + 1) =~= hash_views(hashes@).take(i as int).push(
                    hashes@[i as int]@,
                ));
            }
            text.append(hashes[i].as_str());
            text.push('\n');
            proof {
                assert(text@ =~= manifest_of(hash_views(hashes@).take(i + 1)));
            }
            i += 1;
        }
        assert(hash_views(hashes@).take(i as int) =~= hash_views(hashes@));
        text
    }

    /// the layer hashes a manifest lists: its non-empty lines, trimmed
    pub fn trees_in(manifest: &str) -> (hashes: Vec<ObjectHash>)
        ensures
            hash_views(hashes@) == trimmed_lines(manifest@),
    {
        let lines = lines_trimmed(manifest);
        let mut out: Vec<ObjectHash> = Vec::new();
        let mut i: usize = 0;
        while i < lines.len()
            invariant
                i <= lines@.len(),
                out@.len() == i,
                forall|k: int| 0 <= k < i ==> #[trigger] out@[k]@ == lines@[k]@,
            decreases lines@.len() - i,
        {
            out.push(ObjectHash::new(lines[i].as_str()));
            i += 1;
        }
        assert(hash_views(out@) =~= views(lines@));
        out
    }

    /// the generation the current link points at, given the link's target
    pub fn gen_from_target(target: &str) -> (res: Result<Gen>)
        ensures
            match res {
                Ok(g) => gen_of_target(target@) == Ok::<u64, ErrorView>(g.get_spec()),
                Err(e) => gen_of_target(target@) == Err::<u64, ErrorView>(e@),
            },
    {
        let c = last_component_of(target);
        if c.as_str().is_empty() || crate::text::str_eq(c.as_str(), "..") {
            proof {
                reveal_strlit("..");
                assert(".."@ =~= seq!['.', '.']);
            }
            return Err(Error::Io(String::from_str("current points nowhere")));
        }
        proof {
            reveal_strlit("..");
            assert(".."@ =~= seq!['.', '.']);
        }
        match parse_dec_u64(c.as_str()) {
            Some(n) => Ok(Gen::new(n)),
            None => Err(Error::Io(concat("current is not a gen: ", c.as_str()))),
        }
    }

    /// one past the highest generation among the entry names of the gen
    /// root, or 1 if there is none
    pub fn next_from(names: &[String]) -> (g: Gen)
        requires
            max_gen(views(names@)) < u64::MAX,
        ensures
            g.get_spec() == max_gen(views(names@)) + 1,
    {
        let mut max: u64 = 0;
        let mut i: usize = 0;
        while i < names.len()
            invariant
                i <= names@.len(),
                max == max_gen(views(names@).take(i as int)),
                max_gen(views(names@)) < u64::MAX,
            decreases names@.len() - i,
        {
            proof {
                let t = views(names@).take(i + 1);
                assert(t.drop_last() =~= views(names@).take(i as int));
                assert(t.last() == names@[i as int]@);
                lemma_max_gen_monotone(views(names@), i + 1);
            }
            match parse_dec_u64(names[i].as_str()) {
                Some(n) => {
                    if n > max {
                        max = n;
                    }
                },
                None => {},
            }
            i += 1;
        }
        assert(views(names@).take(i as int) =~= views(names@));
        Gen::new(max + 1)
    }

    /// every generation among the entry names of the gen root, ascending
    pub fn all_from(names: &[String]) -> (gens: Vec<Gen>)
        ensures
            sorted(gen_numbers(gens@)),
            gen_numbers(gens@).to_multiset() == gens_in(views(names@)).to_multiset(),
    {
        let mut out: Vec<Gen> = Vec::new();
        let mut i: usize = 0;
        while i < names.len()
            invariant
                i <= names@.len(),
                sorted(gen_numbers(out@)),
                gen_numbers(out@).to_multiset() == gens_in(views(names@).take(i as int)).to_multiset(),
            decreases names@.len() - i,
        {
            proof {
                let t = views(names@).take(i + 1);
                assert(t.drop_last() =~= views(names@).take(i as int));
                assert(t.last() == names@[i as int]@);
            }
            match parse_dec_u64(names[i].as_str()) {
                Some(n) => {
                    let mut j: usize = 0;
                    while j < out.len() && out[j].get() <= n
                        invariant
                            j <= out@.len(),
                            forall|k: int| 0 <= k < j ==> (#[trigger] out@[k]).get_spec() <= n,
                        decreases out@.len() - j,
                    {
                        j += 1;
                    }
                    let ghost before = gen_numbers(out@);
                    out.insert(j, Gen::new(n));
                    proof {
                        assert(gen_numbers(out@) =~= before.insert(j as int, n));
                        assert forall|a: int, b: int|
                            0 <= a <= b < gen_numbers(out@).len() implies gen_numbers(out@)[a]
                            <= gen_numbers(out@)[b] by {
                            if a < j && b > j {
                                assert(before[a] <= n);
                            } else if a == j && b > j {
                                assert(before[b - 1] > n || before[b - 1] >= before[j as int]);
                                if j < before.len() {
                                    assert(before[j as int] > n);
                                    assert(before[j as int] <= before[b - 1]);
                                }
                            } else if a < j && b == j {
                                assert(before[a] <= n);
                            } else if a > j {
                                assert(before[a - 1] <= before[b - 1]);
                            } else if b < j {
                                assert(before[a] <= before[b]);
                            }
                        }
                    }
                },
                None => {},
            }
            i += 1;
        }
        assert(views(names@).take(i as int) =~= views(names@));
        out
    }
}

proof fn lemma_max_gen_monotone(names: Seq<Seq<char>>, k: int)
    requires
        0 <= k <= names.len(),
    ensures
        max_gen(names.take(k)) <= max_gen(names),
    decreases names.len() - k,
{
    if k < names.len() {
        lemma_max_gen_monotone(names, k + 1);
        let t = names.take(k + 1);
        assert(t.drop_last() =~= names.take(k));
    } else {
        assert(names.take(k) =~= names);
    }
}

/// Each generation has a directory of its own: two generations whose
/// directories coincide are the same generation.
pub proof fn law_gen_dirs_distinct(root: Seq<char>, a: u64, b: u64)
    requires
        join(root, dec(a as nat)) == join(root, dec(b as nat)),
    ensures
        a == b,
{
    crate::text::lemma_numeral_digits(a as nat);
    crate::text::lemma_numeral_digits(b as nat);
    assert(crate::text::is_digit(dec(a as nat)[0]));
    assert(crate::text::is_digit(dec(b as nat)[0]));
    crate::path::lemma_join_injective(root, dec(a as nat), dec(b as nat));
    crate::text::lemma_dec_injective(a, b);
}

/// Generation numbers are never reused: the next generation is numbered
/// above every generation already in the directory.
pub proof fn law_next_is_fresh(names: Seq<Seq<char>>)
    ensures
        forall|i: int|
            0 <= i < names.len() ==> (parse_u64(#[trigger] names[i]) matches Some(n) ==> n
                < max_gen(names) + 1),
    decreases names.len(),
{
    if names.len() > 0 {
        let t = names.drop_last();
        law_next_is_fresh(t);
        assert forall|i: int|
            0 <= i < names.len() implies (parse_u64(#[trigger] names[i]) matches Some(n) ==> n
            < max_gen(names) + 1) by {
            if i < names.len() - 1 {
                assert(names[i] == t[i]);
            }
        }
    }
}

/// What a commit writes, the reader of a generation gets back: the trees
/// listed by a manifest are exactly the hashes it was written from, as long
/// as each hash is one non-empty line without surrounding whitespace.
pub proof fn law_manifest_roundtrip(hs: Seq<Seq<char>>)
    requires
        forall|i: int|
            0 <= i < hs.len() ==> (#[trigger] hs[i]).len() > 0 && trim(hs[i]) == hs[i] && forall|
                j: int,
            | 0 <= j < hs[i].len() ==> hs[i][j] != '\n',
    ensures
        trimmed_lines(manifest_of(hs)) == hs,
    decreases hs.len(),
{
    if hs.len() == 0 {
        let s = manifest_of(hs);
        assert(s =~= Seq::<char>::empty());
        assert(s.take(0) =~= Seq::<char>::empty());
        assert(trim(Seq::<char>::empty()) =~= Seq::<char>::empty());
    } else {
        let h = hs[0];
        let rest = manifest_of(hs.drop_first());
        let s = manifest_of(hs);
        assert(s == h + seq!['\n'] + rest);
        assert(h.len() > 0 && trim(h) == h);
        assert forall|i: int| 0 <= i < h.len() implies #[trigger] s[i] != '\n' by {
            assert(s[i] == h[i]);
        }
        assert(s[h.len() as int] == '\n');
        lemma_line_len_exact(s, h.len() as int);
        assert(s.take(h.len() as int) =~= h);
        assert(s.skip(h.len() as int + 1) =~= rest);
        assert forall|i: int| 0 <= i < hs.drop_first().len() implies (#[trigger] hs.drop_first()[i]).len()
            > 0 && trim(hs.drop_first()[i]) == hs.drop_first()[i] && forall|j: int|
            0 <= j < hs.drop_first()[i].len() ==> hs.drop_first()[i][j] != '\n' by {
            assert(hs.drop_first()[i] == hs[i + 1]);
        }
        law_manifest_roundtrip(hs.drop_first());
        assert(seq![h] + hs.drop_first() =~= hs);
    }
}

/// Rollback reads back what activate wrote: the link target an activate of
/// generation `g` writes (its number) is read by `current` as `g`.
pub proof fn law_activate_then_current(g: u64)
    ensures
        gen_of_target(dec(g as nat)) == Ok::<u64, ErrorView>(g),
{
    let s = dec(g as nat);
    crate::text::lemma_numeral_digits(g as nat);
    lemma_parse_dec(g);
    assert(s.last() != '/') by {
        assert(crate::text::is_digit(s[s.len() - 1]));
    }
    assert forall|k: int| 0 <= k < s.len() implies #[trigger] s[k] != '/' by {
        assert(crate::text::is_digit(s[k]));
    }
    lemma_tail_len_exact(s, s.len() as int);
    assert(s.skip(0) =~= s);
    if s == seq!['.'] {
        assert(crate::text::is_digit(s[0]));
    }
    assert(last_component(s) == s);
    if s == seq!['.', '.'] {
        assert(crate::text::is_digit(s[0]));
    }
}

} // verus!
