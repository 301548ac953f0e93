//! fork safety: a multi-threaded fork is undefined behaviour (the child may
//! inherit locked mutexes), so every fork is preceded by a thread count read
//! from /proc/self/stat

use crate::text::{chars_of, parse_dec_u64, parse_u64, split_words, string_of, views, words};
use vstd::prelude::*;

verus! {

/// the index of the last ')' in `s`
pub open spec fn last_paren(s: Seq<char>) -> Option<int>
    decreases s.len(),
{
    if s.len() == 0 {
        None
    } else if s.last() == ')' {
        Some(s.len() - 1)
    } else {
        last_paren(s.drop_last())
    }
}

/// the thread count in the text of /proc/self/stat: comm (field 2) is
/// parenthesized and may contain spaces, so the fields are counted past
/// the last ')'; num_threads is the 18th word there, read as a usize
pub open spec fn threads_of(stat: Seq<char>) -> Option<usize> {
    match last_paren(stat) {
        None => None,
        Some(p) => {
            let ws = words(stat.skip(p + 1));
            if ws.len() <= 17 {
                None
            } else {
                match parse_u64(ws[17]) {
                    Some(n) => if n <= usize::MAX {
                        Some(n as usize)
                    } else {
                        None
                    },
                    None => None,
                }
            }
        },
    }
}

proof fn lemma_last_paren(s: Seq<char>, k: int)
    requires
        0 <= k <= s.len(),
        forall|j: int| k <= j < s.len() ==> s[j] != ')',
    ensures
        last_paren(s) == last_paren(s.take(k)),
    decreases s.len() - k,
{
    if k < s.len() {
        lemma_last_paren(s.drop_last(), k);
        assert(s.drop_last().take(k) =~= s.take(k));
    } else {
        assert(s.take(k) =~= s);
    }
}

pub fn threads_in_stat(stat: &str) -> (n: Option<usize>)
    ensures
        n == threads_of(stat@),
{
    let cs = chars_of(stat);
    let mut k = cs.len();
    while k > 0 && cs[k - 1] != ')'
        invariant
            cs@ == stat@,
            k <= cs@.len(),
            forall|j: int| k <= j < cs@.len() ==> cs@[j] != ')',
        decreases k,
    {
        k -= 1;
    }
    proof {
        lemma_last_paren(stat@, k as int);
    }
    if k == 0 {
        proof {
            assert(stat@.take(0) =~= Seq::<char>::empty());
        }
        return None;
    }
    proof {
        assert(stat@.take(k as int).last() == ')');
        assert(stat@.skip(k as int) =~= cs@.subrange(k as int, cs@.len() as int));
    }
    let rest = string_of(&cs, k, cs.len());
    let ws = split_words(rest.as_str());
    if ws.len() <= 17 {
        return None;
    }
    proof {
        assert(views(ws@)[17] == ws@[17]@);
    }
    match parse_dec_u64(ws[17].as_str()) {
        Some(n) => if n <= usize::MAX as u64 {
            Some(n as usize)
        } else {
            None
        },
        None => None,
    }
}

/// a fork is safe when no thread beyond the caller exists; an unreadable
/// count is taken on trust
pub fn fork_safe(threads: Option<usize>) -> (ok: bool)
    ensures
        ok == match threads {
            Some(n) => n <= 1,
            None => true,
        },
{
    match threads {
        Some(n) => n <= 1,
        None => true,
    }
}

} // verus!
