//! the capability plan of a launch: which sets keep what, and which
//! capabilities leave the bounding set. it runs after setns/idmap because
//! those need privilege, and before seccomp so the filter drops from an
//! already-unprivileged state

use crate::api::sandbox::Cap;
use crate::text::{parse_u64, trim, trim_str, parse_dec_u64};
use vstd::prelude::*;

verus! {

/// the highest capability a 64-bit capability set can hold
pub const CAP_SET_LAST: u8 = 63;

/// what the kernel is assumed to know when /proc does not say: the 5.12 floor
pub const CAP_LAST_FALLBACK: u8 = 40;

/// bit `n` of `m` is set
pub open spec fn bit_set(m: u64, n: u64) -> bool {
    (m >> n) & 1u64 == 1u64
}

/// some capability in `keep` has number `n`
pub open spec fn kept(keep: Seq<Cap>, n: int) -> bool {
    exists|i: int| 0 <= i < keep.len() && #[trigger] keep[i]@ == n
}

/// `str::parse::<u8>`
pub open spec fn parse_u8(s: Seq<char>) -> Option<u8> {
    match parse_u64(s) {
        Some(v) => if v <= 255 {
            Some(v as u8)
        } else {
            None
        },
        None => None,
    }
}

/// the last capability number the running kernel knows, from the contents
/// of /proc/sys/kernel/cap_last_cap (none when it could not be read): the
/// trimmed number, else the fallback, clamped to what a set can hold
pub open spec fn cap_last_of(contents: Option<Seq<char>>) -> u8 {
    let v = match contents {
        Some(t) => match parse_u8(trim(t)) {
            Some(v) => v,
            None => CAP_LAST_FALLBACK,
        },
        None => CAP_LAST_FALLBACK,
    };
    if v > CAP_SET_LAST {
        CAP_SET_LAST
    } else {
        v
    }
}

/// the capabilities below `k` that are not kept, in ascending order
pub open spec fn drops_below(keep: Seq<Cap>, k: nat) -> Seq<u8>
    decreases k,
{
    if k == 0 {
        Seq::<u8>::empty()
    } else {
        let rest = drops_below(keep, (k - 1) as nat);
        if kept(keep, k - 1) {
            rest
        } else {
            rest.push((k - 1) as u8)
        }
    }
}

/// clamped to 63 because a capability set is a u64 bitmask; a shift past
/// 63 would overflow. falls back to 40 when /proc could not be read or
/// does not hold a number
pub fn cap_last_cap(contents: Option<&str>) -> (n: u8)
    ensures
        n == cap_last_of(
            match contents {
                Some(t) => Some(t@),
                None => None,
            },
        ),
        n <= CAP_SET_LAST,
{
    let v: u8 = match contents {
        Some(t) => {
            let s = trim_str(t);
            match parse_dec_u64(s.as_str()) {
                Some(v) => if v <= 255 {
                    v as u8
                } else {
                    CAP_LAST_FALLBACK
                },
                None => CAP_LAST_FALLBACK,
            }
        },
        None => CAP_LAST_FALLBACK,
    };
    if v > CAP_SET_LAST {
        CAP_SET_LAST
    } else {
        v
    }
}

proof fn lemma_or_bit(m: u64, c: u64, n: u64)
    requires
        c < 64,
        n < 64,
    ensures
        bit_set(m | (1u64 << c), n) == (bit_set(m, n) || n == c),
{
    assert(((m | (1u64 << c)) >> n) & 1u64 == 1u64 <==> (((m >> n) & 1u64 == 1u64) || n == c))
        by (bit_vector)
        requires
            c < 64,
            n < 64,
    ;
}

proof fn lemma_and_bit(m: u64, n: u64)
    requires
        n < 64,
    ensures
        (m & (1u64 << n) != 0) == bit_set(m, n),
{
    assert((m & (1u64 << n) != 0) <==> ((m >> n) & 1u64 == 1u64)) by (bit_vector)
        requires
            n < 64,
    ;
}

/// the single set holding exactly the capabilities of `keep`: bit n is set
/// iff some kept capability has number n
pub fn keep_mask(keep: &[Cap]) -> (m: u64)
    ensures
        forall|n: u64| n < 64 ==> (#[trigger] bit_set(m, n) <==> kept(keep@, n as int)),
{
    let mut m: u64 = 0;
    let mut i: usize = 0;
    assert forall|n: u64| n < 64 implies !#[trigger] bit_set(0u64, n) by {
        assert((0u64 >> n) & 1u64 == 0u64) by (bit_vector);
    }
    while i < keep.len()
        invariant
            i <= keep@.len(),
            forall|n: u64| n < 64 ==> (#[trigger] bit_set(m, n) <==> kept(keep@.take(i as int), n as int)),
        decreases keep@.len() - i,
    {
        let c = keep[i].raw();
        let ghost old_m = m;
        m = m | (1u64 << c);
        proof {
            let t = keep@.take(i + 1);
            assert forall|n: u64| n < 64 implies (#[trigger] bit_set(m, n) <==> kept(t, n as int)) by {
                lemma_or_bit(old_m, c as u64, n);
                if kept(t, n as int) {
                    let j = choose|j: int| 0 <= j < t.len() && #[trigger] t[j]@ == n as int;
                    if j < i {
                        assert(keep@.take(i as int)[j] == t[j]);
                    }
                }
                if kept(keep@.take(i as int), n as int) {
                    let j = choose|j: int| 0 <= j < i && #[trigger] keep@.take(i as int)[j]@ == n as int;
                    assert(t[j] == keep@.take(i as int)[j]);
                }
                if n == c {
                    assert(t[i as int] == keep@[i as int]);
                }
            }
        }
        i += 1;
    }
    assert(keep@.take(i as int) =~= keep@);
    m
}

/// the capabilities 0..=last that leave the bounding set, ascending: every
/// one not kept. dropped first, while CAP_SETPCAP is still effective
pub fn bounding_drops(keep: &[Cap], last: u8) -> (out: Vec<u8>)
    requires
        last <= CAP_SET_LAST,
    ensures
        out@ == drops_below(keep@, last as nat + 1),
{
    let m = keep_mask(keep);
    let mut out: Vec<u8> = Vec::new();
    let mut n: u8 = 0;
    while n <= last
        invariant
            last <= CAP_SET_LAST,
            n <= last + 1,
            forall|k: u64| k < 64 ==> (#[trigger] bit_set(m, k) <==> kept(keep@, k as int)),
            out@ == drops_below(keep@, n as nat),
        decreases last + 1 - n,
    {
        proof {
            lemma_and_bit(m, n as u64);
            assert(bit_set(m, n as u64) <==> kept(keep@, n as int));
        }
        if m & (1u64 << n) == 0 {
            out.push(n);
        }
        n += 1;
    }
    out
}

/// A capability leaves the bounding set exactly when it is not kept, and
/// the drops come in ascending order, so none leaves twice.
pub proof fn law_drops_are_the_unkept(keep: Seq<Cap>, k: nat)
    requires
        k <= CAP_SET_LAST + 1,
    ensures
        forall|n: int| 0 <= n < k ==> (drops_below(keep, k).contains(n as u8) <==> !kept(keep, n)),
        forall|i: int| 0 <= i < drops_below(keep, k).len() ==> drops_below(keep, k)[i] < k,
        forall|i: int, j: int|
            0 <= i < j < drops_below(keep, k).len() ==> drops_below(keep, k)[i] < drops_below(
                keep,
                k,
            )[j],
    decreases k,
{
    if k > 0 {
        law_drops_are_the_unkept(keep, (k - 1) as nat);
        let r = drops_below(keep, (k - 1) as nat);
        let d = drops_below(keep, k);
        assert forall|n: int| 0 <= n < k implies (d.contains(n as u8) <==> !kept(keep, n)) by {
            if n < k - 1 {
                if d.contains(n as u8) {
                    let i = choose|i: int| 0 <= i < d.len() && d[i] == n as u8;
                    if i < r.len() {
                        assert(r[i] == d[i]);
                        assert(r.contains(n as u8));
                    }
                }
                if r.contains(n as u8) {
                    let i = choose|i: int| 0 <= i < r.len() && r[i] == n as u8;
                    assert(d[i] == r[i]);
                }
            } else {
                if !kept(keep, n) {
                    assert(d[d.len() - 1] == n as u8);
                } else {
                    if d.contains(n as u8) {
                        let i = choose|i: int| 0 <= i < d.len() && d[i] == n as u8;
                        assert(d[i] == r[i]);
                    }
                }
            }
        }
    }
}

} // verus!
