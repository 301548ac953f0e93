//! Character-level text handling shared by the wire protocol, the state
//! files and the cgroup interface files: whitespace splitting, trimming,
//! line splitting, and decimal / octal numerals.

use vstd::prelude::*;

verus! {

/// The std specification of `String::push` is missing from vstd: it appends
/// one character to the string.
pub assume_specification[ String::push ](s: &mut String, ch: char)
    ensures
        final(s)@ == old(s)@.push(ch),
;

/// Unicode `White_Space`, the set `char::is_whitespace` accepts.
pub open spec fn is_ws(c: char) -> bool {
    let n = c as u32;
    ||| 9 <= n <= 13
    ||| n == 32
    ||| n == 0x85
    ||| n == 0xa0
    ||| n == 0x1680
    ||| 0x2000 <= n <= 0x200a
    ||| n == 0x2028
    ||| n == 0x2029
    ||| n == 0x202f
    ||| n == 0x205f
    ||| n == 0x3000
}

pub fn is_ws_char(c: char) -> (b: bool)
    ensures
        b == is_ws(c),
{
    let n = c as u32;
    (9 <= n && n <= 13) || n == 32 || n == 0x85 || n == 0xa0 || n == 0x1680 || (0x2000 <= n && n
        <= 0x200a) || n == 0x2028 || n == 0x2029 || n == 0x202f || n == 0x205f || n == 0x3000
}

/// A non-empty run of characters none of which is whitespace: what
/// whitespace splitting hands back as one piece.
pub open spec fn is_word(s: Seq<char>) -> bool {
    s.len() > 0 && forall|i: int| 0 <= i < s.len() ==> !is_ws(#[trigger] s[i])
}

/// Length of the leading run of non-whitespace characters.
pub open spec fn word_len(s: Seq<char>) -> nat
    decreases s.len(),
{
    if s.len() == 0 || is_ws(s[0]) {
        0
    } else {
        1 + word_len(s.drop_first())
    }
}

pub proof fn lemma_word_len_bound(s: Seq<char>)
    ensures
        word_len(s) <= s.len(),
        s.len() > 0 && !is_ws(s[0]) ==> word_len(s) >= 1,
    decreases s.len(),
{
    if s.len() > 0 && !is_ws(s[0]) {
        lemma_word_len_bound(s.drop_first());
    }
}

/// The pieces `str::split_whitespace` yields, in order.
pub open spec fn words(s: Seq<char>) -> Seq<Seq<char>>
    decreases s.len(),
{
    if s.len() == 0 {
        seq![]
    } else if is_ws(s[0]) {
        words(s.drop_first())
    } else {
        let n = word_len(s);
        proof {
            lemma_word_len_bound(s);
        }
        seq![s.take(n as int)] + words(s.skip(n as int))
    }
}

/// The leading run is exactly `k` long when the first `k` characters are
/// not whitespace and the next one is, or the sequence ends.
pub proof fn lemma_word_len_exact(s: Seq<char>, k: int)
    requires
        0 <= k <= s.len(),
        forall|i: int| 0 <= i < k ==> !is_ws(#[trigger] s[i]),
        k == s.len() || is_ws(s[k]),
    ensures
        word_len(s) == k,
    decreases k,
{
    if k > 0 {
        let t = s.drop_first();
        assert forall|i: int| 0 <= i < k - 1 implies !is_ws(#[trigger] t[i]) by {
            assert(t[i] == s[i + 1]);
        }
        lemma_word_len_exact(t, k - 1);
    }
}

/// Splitting a word followed by one whitespace character and a rest gives
/// the word and then the pieces of the rest.
pub proof fn lemma_words_word_sep(w: Seq<char>, c: char, rest: Seq<char>)
    requires
        is_word(w),
        is_ws(c),
    ensures
        words(w + seq![c] + rest) == seq![w] + words(rest),
{
    let s = w + seq![c] + rest;
    assert(s[w.len() as int] == c);
    assert forall|i: int| 0 <= i < w.len() implies !is_ws(#[trigger] s[i]) by {
        assert(s[i] == w[i]);
    }
    lemma_word_len_exact(s, w.len() as int);
    assert(s[0] == w[0]);
    assert(s.take(w.len() as int) =~= w);
    let t = s.skip(w.len() as int);
    assert(t =~= seq![c] + rest);
    assert(t[0] == c);
    assert(t.drop_first() =~= rest);
    assert(words(t) == words(t.drop_first()));
    assert(words(s) == seq![s.take(w.len() as int)] + words(t));
}

/// A lone word splits into itself.
pub proof fn lemma_words_single(w: Seq<char>)
    requires
        is_word(w),
    ensures
        words(w) == seq![w],
{
    lemma_word_len_exact(w, w.len() as int);
    assert(w[0] == w[0]);
    assert(w.take(w.len() as int) =~= w);
    assert(w.skip(w.len() as int) =~= Seq::<char>::empty());
    assert(words(w.skip(w.len() as int)) == Seq::<Seq<char>>::empty());
    assert(words(w) == seq![w.take(w.len() as int)] + words(w.skip(w.len() as int)));
}

pub fn chars_of(s: &str) -> (out: Vec<char>)
    ensures
        out@ == s@,
{
    let mut out: Vec<char> = Vec::new();
    for c in it: s.chars()
        invariant
            out@ == it.seq().take(it.index() as int),
    {
        out.push(c);
    }
    out
}

/// Character-wise string equality.
pub fn str_eq(a: &str, b: &str) -> (r: bool)
    ensures
        r == (a@ == b@),
{
    let x = chars_of(a);
    let y = chars_of(b);
    if x.len() != y.len() {
        return false;
    }
    let mut i: usize = 0;
    while i < x.len()
        invariant
            x@ == a@,
            y@ == b@,
            x@.len() == y@.len(),
            i <= x@.len(),
            forall|k: int| 0 <= k < i ==> x@[k] == y@[k],
        decreases x@.len() - i,
    {
        if x[i] != y[i] {
            assert(a@[i as int] != b@[i as int]);
            return false;
        }
        i += 1;
    }
    assert(x@ =~= y@);
    true
}

/// `a` followed by `b`, as a new string.
pub fn concat(a: &str, b: &str) -> (s: String)
    ensures
        s@ == a@ + b@,
{
    let mut s = String::from_str(a);
    s.append(b);
    s
}

pub open spec fn views(v: Seq<String>) -> Seq<Seq<char>> {
    v.map_values(|w: String| w@)
}

pub proof fn lemma_views_push(v: Seq<String>, w: String)
    ensures
        views(v.push(w)) == views(v).push(w@),
{
    assert(views(v.push(w)) =~= views(v).push(w@));
}

/// The characters `cs[from..to]` as a `String`.
pub fn string_of(cs: &Vec<char>, from: usize, to: usize) -> (s: String)
    requires
        from <= to <= cs@.len(),
    ensures
        s@ == cs@.subrange(from as int, to as int),
{
    let mut s = String::new();
    let mut i = from;
    while i < to
        invariant
            from <= i <= to <= cs@.len(),
            s@ == cs@.subrange(from as int, i as int),
        decreases to - i,
    {
        s.push(cs[i]);
        i += 1;
        assert(s@ =~= cs@.subrange(from as int, i as int));
    }
    s
}

/// `str::split_whitespace`, collected.
pub fn split_words(text: &str) -> (out: Vec<String>)
    ensures
        views(out@) == words(text@),
{
    let cs = chars_of(text);
    let n = cs.len();
    let mut out: Vec<String> = Vec::new();
    let mut i: usize = 0;
    assert(cs@.skip(0) =~= cs@);
    while i < n
        invariant
            n == cs@.len(),
            cs@ == text@,
            i <= n,
            words(cs@) == views(out@) + words(cs@.skip(i as int)),
        decreases n - i,
    {
        let ghost t = cs@.skip(i as int);
        if is_ws_char(cs[i]) {
            assert(t[0] == cs@[i as int]);
            assert(t.drop_first() =~= cs@.skip(i + 1));
            i += 1;
        } else {
            let start = i;
            while i < n && !is_ws_char(cs[i])
                invariant
                    n == cs@.len(),
                    start <= i <= n,
                    forall|k: int| start <= k < i ==> !is_ws(#[trigger] cs@[k]),
                decreases n - i,
            {
                i += 1;
            }
            let w = string_of(&cs, start, i);
            proof {
                assert forall|k: int| 0 <= k < i - start implies !is_ws(#[trigger] t[k]) by {
                    assert(t[k] == cs@[start + k]);
                }
                if i < n {
                    assert(t[i - start] == cs@[i as int]);
                }
                lemma_word_len_exact(t, i - start);
                assert(t[0] == cs@[start as int]);
                assert(t.take(i - start) =~= cs@.subrange(start as int, i as int));
                assert(t.skip(i - start) =~= cs@.skip(i as int));
                lemma_views_push(out@, w);
                assert(views(out@.push(w)) + words(cs@.skip(i as int)) =~= views(out@) + (seq![
                    w@,
                ] + words(cs@.skip(i as int))));
            }
            out.push(w);
        }
    }
    assert(cs@.skip(n as int) =~= Seq::<char>::empty());
    assert(views(out@) + Seq::<Seq<char>>::empty() =~= views(out@));
    out
}

// ---------------------------------------------------------------------------
// decimal and octal numerals
pub open spec fn digit_char(d: nat) -> char {
    if d == 0 {
        '0'
    } else if d == 1 {
        '1'
    } else if d == 2 {
        '2'
    } else if d == 3 {
        '3'
    } else if d == 4 {
        '4'
    } else if d == 5 {
        '5'
    } else if d == 6 {
        '6'
    } else if d == 7 {
        '7'
    } else if d == 8 {
        '8'
    } else {
        '9'
    }
}

pub open spec fn is_digit(c: char) -> bool {
    '0' <= c <= '9'
}

pub open spec fn digit_value(c: char) -> nat {
    (c as u32 - '0' as u32) as nat
}

pub proof fn lemma_digit_char(d: nat)
    requires
        d < 10,
    ensures
        is_digit(digit_char(d)),
        digit_value(digit_char(d)) == d,
        digit_char(d) != '+',
{
}

/// Base-`b` numeral of `n`, most significant digit first, no leading zeros.
pub open spec fn numeral(n: nat, b: nat) -> Seq<char>
    recommends
        2 <= b <= 10,
    decreases n,
{
    if n < b || b < 2 {
        seq![digit_char(n)]
    } else {
        proof {
            assert(n / b < n) by (nonlinear_arith)
                requires
                    b >= 2,
                    n >= b,
            ;
        }
        numeral(n / b, b).push(digit_char(n % b))
    }
}

/// What `u64::to_string` (and `{}` formatting) produces.
pub open spec fn dec(n: nat) -> Seq<char> {
    numeral(n, 10)
}

/// What `{:o}` formatting produces.
pub open spec fn oct(n: nat) -> Seq<char> {
    numeral(n, 8)
}

pub(crate) fn digit_of(d: u64) -> (c: char)
    requires
        d < 10,
    ensures
        c == digit_char(d as nat),
{
    if d == 0 {
        '0'
    } else if d == 1 {
        '1'
    } else if d == 2 {
        '2'
    } else if d == 3 {
        '3'
    } else if d == 4 {
        '4'
    } else if d == 5 {
        '5'
    } else if d == 6 {
        '6'
    } else if d == 7 {
        '7'
    } else if d == 8 {
        '8'
    } else {
        '9'
    }
}

fn push_numeral(s: &mut String, n: u64, b: u64)
    requires
        2 <= b <= 10,
    ensures
        final(s)@ == old(s)@ + numeral(n as nat, b as nat),
    decreases n,
{
    if n < b {
        s.push(digit_of(n));
        assert(numeral(n as nat, b as nat) == seq![digit_char(n as nat)]);
        assert(final(s)@ =~= old(s)@ + numeral(n as nat, b as nat));
    } else {
        assert(n / b < n) by (nonlinear_arith)
            requires
                b >= 2,
                n >= b,
        ;
        push_numeral(s, n / b, b);
        s.push(digit_of(n % b));
        assert(final(s)@ =~= old(s)@ + numeral(n as nat, b as nat));
    }
}

/// `n.to_string()`.
pub fn u64_to_dec(n: u64) -> (s: String)
    ensures
        s@ == dec(n as nat),
{
    let mut s = String::new();
    push_numeral(&mut s, n, 10);
    assert(s@ =~= dec(n as nat));
    s
}

/// `format!("{:o}", n)`.
pub fn u32_to_oct(n: u32) -> (s: String)
    ensures
        s@ == oct(n as nat),
{
    let mut s = String::new();
    push_numeral(&mut s, n as u64, 8);
    assert(s@ =~= oct(n as nat));
    s
}

/// What `i32` formatting produces: a minus sign before the magnitude.
pub open spec fn dec_signed(n: int) -> Seq<char> {
    if n < 0 {
        seq!['-'] + dec((-n) as nat)
    } else {
        dec(n as nat)
    }
}

pub fn i32_to_dec(n: i32) -> (s: String)
    ensures
        s@ == dec_signed(n as int),
{
    let mut s = String::new();
    if n < 0 {
        s.push('-');
        let m: u64 = (0 - (n as i64)) as u64;
        push_numeral(&mut s, m, 10);
        assert(s@ =~= dec_signed(n as int));
    } else {
        push_numeral(&mut s, n as u64, 10);
        assert(s@ =~= dec_signed(n as int));
    }
    s
}

/// Value of a run of decimal digits.
pub open spec fn digits_value(s: Seq<char>) -> nat
    decreases s.len(),
{
    if s.len() == 0 {
        0
    } else {
        digits_value(s.drop_last()) * 10 + digit_value(s.last())
    }
}

pub open spec fn all_digits(s: Seq<char>) -> bool {
    forall|i: int| 0 <= i < s.len() ==> is_digit(#[trigger] s[i])
}

/// `str::parse::<u64>`: an optional `+`, then one or more decimal digits,
/// whose value fits in 64 bits.
pub open spec fn parse_u64(s: Seq<char>) -> Option<u64> {
    let body = if s.len() > 0 && s[0] == '+' {
        s.drop_first()
    } else {
        s
    };
    if body.len() == 0 || !all_digits(body) || digits_value(body) > u64::MAX {
        None
    } else {
        Some(digits_value(body) as u64)
    }
}

pub proof fn lemma_digits_value_monotone(s: Seq<char>, k: int)
    requires
        0 <= k <= s.len(),
        all_digits(s),
    ensures
        digits_value(s.take(k)) <= digits_value(s),
    decreases s.len() - k,
{
    if k < s.len() {
        lemma_digits_value_monotone(s, k + 1);
        let t = s.take(k + 1);
        assert(t.drop_last() =~= s.take(k));
    } else {
        assert(s.take(k) =~= s);
    }
}

pub fn parse_dec_u64(text: &str) -> (res: Option<u64>)
    ensures
        res == parse_u64(text@),
{
    let cs = chars_of(text);
    let n = cs.len();
    let mut i: usize = 0;
    if n > 0 && cs[0] == '+' {
        i = 1;
    }
    let ghost body = if cs@.len() > 0 && cs@[0] == '+' {
        cs@.drop_first()
    } else {
        cs@
    };
    assert(body =~= cs@.skip(i as int));
    if i == n {
        return None;
    }
    let mut acc: u64 = 0;
    let start = i;
    while i < n
        invariant
            n == cs@.len(),
            cs@ == text@,
            body == (if cs@.len() > 0 && cs@[0] == '+' {
                cs@.drop_first()
            } else {
                cs@
            }),
            start < n,
            start <= i <= n,
            body =~= cs@.skip(start as int),
            all_digits(cs@.subrange(start as int, i as int)),
            acc == digits_value(cs@.subrange(start as int, i as int)),
        decreases n - i,
    {
        let c = cs[i];
        let ghost sub = cs@.subrange(start as int, i as int + 1);
        assert(sub.drop_last() =~= cs@.subrange(start as int, i as int));
        if !('0' <= c && c <= '9') {
            assert(!is_digit(body[i - start]));
            assert(!all_digits(body));
            return None;
        }
        let d = (c as u32 - '0' as u32) as u64;
        if acc > (u64::MAX - d) / 10 {
            proof {
                assert(sub.last() == c);
                assert(digit_value(c) == d);
                assert forall|k: int| 0 <= k < sub.len() implies is_digit(#[trigger] sub[k]) by {
                    if k < sub.len() - 1 {
                        assert(sub[k] == sub.drop_last()[k]);
                    }
                }
                assert(digits_value(sub) == acc * 10 + d);
                assert(acc * 10 + d > u64::MAX) by (nonlinear_arith)
                    requires
                        acc > (u64::MAX - d) / 10,
                        d < 10,
                ;
                if all_digits(body) {
                    assert(body.take(i - start + 1) =~= sub);
                    lemma_digits_value_monotone(body, i - start + 1);
                }
            }
            return None;
        }
        proof {
            assert(acc * 10 + d <= u64::MAX) by (nonlinear_arith)
                requires
                    acc <= (u64::MAX - d) / 10,
                    d < 10,
            ;
            assert(sub.last() == c);
            assert forall|k: int| 0 <= k < sub.len() implies is_digit(#[trigger] sub[k]) by {
                if k < sub.len() - 1 {
                    assert(sub[k] == sub.drop_last()[k]);
                }
            }
        }
        acc = acc * 10 + d;
        i += 1;
    }
    assert(cs@.subrange(start as int, n as int) =~= body);
    Some(acc)
}

/// The decimal numeral of a number parses back to that number.
pub proof fn lemma_parse_dec(n: u64)
    ensures
        parse_u64(dec(n as nat)) == Some(n),
{
    lemma_numeral_digits(n as nat);
    let s = dec(n as nat);
    assert(s.len() > 0);
    assert(is_digit(s[0]));
}

pub proof fn lemma_numeral_digits(n: nat)
    ensures
        all_digits(dec(n)),
        dec(n).len() > 0,
        digits_value(dec(n)) == n,
    decreases n,
{
    if n < 10 {
        lemma_digit_char(n);
        let s = dec(n);
        assert(s == seq![digit_char(n)]);
        assert(s.drop_last() =~= Seq::<char>::empty());
        assert(digits_value(s.drop_last()) == 0);
    } else {
        lemma_numeral_digits(n / 10);
        lemma_digit_char(n % 10);
        let s = dec(n);
        assert(s == dec(n / 10).push(digit_char(n % 10)));
        assert(s.drop_last() =~= dec(n / 10));
        assert(s.last() == digit_char(n % 10));
        assert((n / 10) * 10 + n % 10 == n);
        assert forall|i: int| 0 <= i < s.len() implies is_digit(#[trigger] s[i]) by {
            if i < s.len() - 1 {
                assert(s[i] == dec(n / 10)[i]);
            }
        }
    }
}

/// An octal numeral is made of octal digits only.
pub proof fn lemma_octal_digits(n: nat)
    ensures
        forall|i: int| 0 <= i < oct(n).len() ==> is_digit(#[trigger] oct(n)[i]),
        oct(n).len() > 0,
    decreases n,
{
    if n < 8 {
        lemma_digit_char(n);
    } else {
        lemma_octal_digits(n / 8);
        lemma_digit_char(n % 8);
        let s = oct(n);
        assert(s == oct(n / 8).push(digit_char(n % 8)));
        assert forall|i: int| 0 <= i < s.len() implies is_digit(#[trigger] s[i]) by {
            if i < s.len() - 1 {
                assert(s[i] == oct(n / 8)[i]);
            }
        }
    }
}

/// Different numbers have different octal numerals.
pub proof fn lemma_oct_injective(a: nat, b: nat)
    ensures
        oct(a) == oct(b) ==> a == b,
    decreases a + b,
{
    if oct(a) == oct(b) {
        if a < 8 && b < 8 {
            lemma_digit_char(a);
            lemma_digit_char(b);
            assert(oct(a)[0] == digit_char(a));
            assert(oct(b)[0] == digit_char(b));
        } else if a < 8 {
            lemma_octal_digits(b / 8);
            assert(oct(b) == oct(b / 8).push(digit_char(b % 8)));
            assert(oct(a).len() == 1);
        } else if b < 8 {
            lemma_octal_digits(a / 8);
            assert(oct(a) == oct(a / 8).push(digit_char(a % 8)));
            assert(oct(b).len() == 1);
        } else {
            assert(oct(a) == oct(a / 8).push(digit_char(a % 8)));
            assert(oct(b) == oct(b / 8).push(digit_char(b % 8)));
            assert(oct(a / 8) =~= oct(a).drop_last());
            assert(oct(b / 8) =~= oct(b).drop_last());
            lemma_oct_injective(a / 8, b / 8);
            lemma_digit_char(a % 8);
            lemma_digit_char(b % 8);
            assert(oct(a).last() == digit_char(a % 8));
            assert(oct(b).last() == digit_char(b % 8));
        }
    }
}

/// Different numbers have different decimal numerals.
pub proof fn lemma_dec_injective(a: u64, b: u64)
    ensures
        dec(a as nat) == dec(b as nat) ==> a == b,
{
    lemma_parse_dec(a);
    lemma_parse_dec(b);
}

// ---------------------------------------------------------------------------
// trimming and lines
/// `str::trim_start`: leading whitespace removed
pub open spec fn trim_start(s: Seq<char>) -> Seq<char>
    decreases s.len(),
{
    if s.len() > 0 && is_ws(s[0]) {
        trim_start(s.drop_first())
    } else {
        s
    }
}

/// `str::trim_end`: trailing whitespace removed
pub open spec fn trim_end(s: Seq<char>) -> Seq<char>
    decreases s.len(),
{
    if s.len() > 0 && is_ws(s.last()) {
        trim_end(s.drop_last())
    } else {
        s
    }
}

/// `str::trim`
pub open spec fn trim(s: Seq<char>) -> Seq<char> {
    trim_end(trim_start(s))
}

pub proof fn lemma_trim_start_at(s: Seq<char>, a: int)
    requires
        0 <= a <= s.len(),
        forall|k: int| 0 <= k < a ==> is_ws(#[trigger] s[k]),
        a == s.len() || !is_ws(s[a]),
    ensures
        trim_start(s) == s.skip(a),
    decreases a,
{
    if a == 0 {
        assert(s.skip(0) =~= s);
    } else {
        let t = s.drop_first();
        assert forall|k: int| 0 <= k < a - 1 implies is_ws(#[trigger] t[k]) by {
            assert(t[k] == s[k + 1]);
        }
        if a < s.len() {
            assert(t[a - 1] == s[a]);
        }
        lemma_trim_start_at(t, a - 1);
        assert(t.skip(a - 1) =~= s.skip(a));
    }
}

pub proof fn lemma_trim_end_at(s: Seq<char>, b: int)
    requires
        0 <= b <= s.len(),
        forall|k: int| b <= k < s.len() ==> is_ws(#[trigger] s[k]),
        b == 0 || !is_ws(s[b - 1]),
    ensures
        trim_end(s) == s.take(b),
    decreases s.len() - b,
{
    if b == s.len() {
        assert(s.take(b) =~= s);
    } else {
        let t = s.drop_last();
        assert forall|k: int| b <= k < t.len() implies is_ws(#[trigger] t[k]) by {
            assert(t[k] == s[k]);
        }
        if b > 0 {
            assert(t[b - 1] == s[b - 1]);
        }
        lemma_trim_end_at(t, b);
        assert(t.take(b) =~= s.take(b));
    }
}

/// Index of the first newline, or the length when there is none.
pub open spec fn line_len(s: Seq<char>) -> nat
    decreases s.len(),
{
    if s.len() == 0 || s[0] == '\n' {
        0
    } else {
        1 + line_len(s.drop_first())
    }
}

pub proof fn lemma_line_len_exact(s: Seq<char>, k: int)
    requires
        0 <= k <= s.len(),
        forall|i: int| 0 <= i < k ==> #[trigger] s[i] != '\n',
        k == s.len() || s[k] == '\n',
    ensures
        line_len(s) == k,
    decreases k,
{
    if k > 0 {
        let t = s.drop_first();
        assert forall|i: int| 0 <= i < k - 1 implies #[trigger] t[i] != '\n' by {
            assert(t[i] == s[i + 1]);
        }
        if k < s.len() {
            assert(t[k - 1] == s[k]);
        }
        lemma_line_len_exact(t, k - 1);
    }
}

pub proof fn lemma_line_len_bound(s: Seq<char>)
    ensures
        line_len(s) <= s.len(),
    decreases s.len(),
{
    if s.len() > 0 && s[0] != '\n' {
        lemma_line_len_bound(s.drop_first());
    }
}

/// The entries of a line-oriented text, as `text.lines().map(str::trim)
/// .filter(|l| !l.is_empty())` yields them.
pub open spec fn trimmed_lines(s: Seq<char>) -> Seq<Seq<char>>
    decreases s.len(),
{
    let k = line_len(s);
    proof {
        lemma_line_len_bound(s);
    }
    let t = trim(s.take(k as int));
    let rest = if k >= s.len() {
        Seq::<Seq<char>>::empty()
    } else {
        trimmed_lines(s.skip(k as int + 1))
    };
    if t.len() > 0 {
        seq![t] + rest
    } else {
        rest
    }
}

/// The non-empty trimmed lines of `text`.
pub fn lines_trimmed(text: &str) -> (out: Vec<String>)
    ensures
        views(out@) == trimmed_lines(text@),
{
    let cs = chars_of(text);
    let n = cs.len();
    let mut out: Vec<String> = Vec::new();
    let mut i: usize = 0;
    assert(cs@.skip(0) =~= cs@);
    loop
        invariant
            n == cs@.len(),
            cs@ == text@,
            i <= n,
            trimmed_lines(cs@) == views(out@) + trimmed_lines(cs@.skip(i as int)),
        decreases n - i,
    {
        let ghost s = cs@.skip(i as int);
        let mut k = i;
        while k < n && cs[k] != '\n'
            invariant
                n == cs@.len(),
                i <= k <= n,
                forall|j: int| i <= j < k ==> #[trigger] cs@[j] != '\n',
            decreases n - k,
        {
            k += 1;
        }
        proof {
            assert forall|j: int| 0 <= j < k - i implies #[trigger] s[j] != '\n' by {
                assert(s[j] == cs@[i + j]);
            }
            if k < n {
                assert(s[k - i] == cs@[k as int]);
            }
            lemma_line_len_exact(s, k - i);
        }
        let mut a = i;
        while a < k && is_ws_char(cs[a])
            invariant
                n == cs@.len(),
                i <= a <= k <= n,
                forall|j: int| i <= j < a ==> is_ws(#[trigger] cs@[j]),
            decreases k - a,
        {
            a += 1;
        }
        let mut b = k;
        while b > a && is_ws_char(cs[b - 1])
            invariant
                n == cs@.len(),
                i <= a <= b <= k <= n,
                forall|j: int| b <= j < k ==> is_ws(#[trigger] cs@[j]),
            decreases b - a,
        {
            b -= 1;
        }
        let ghost line = s.take(k - i);
        proof {
            assert(line =~= cs@.subrange(i as int, k as int));
            assert forall|j: int| 0 <= j < a - i implies is_ws(#[trigger] line[j]) by {
                assert(line[j] == cs@[i + j]);
            }
            if a < k {
                assert(line[a - i] == cs@[a as int]);
            }
            lemma_trim_start_at(line, a - i);
            let ts = line.skip(a - i);
            assert(ts =~= cs@.subrange(a as int, k as int));
            assert forall|j: int| b - a <= j < ts.len() implies is_ws(#[trigger] ts[j]) by {
                assert(ts[j] == cs@[a + j]);
            }
            if b > a {
                assert(ts[b - a - 1] == cs@[b - 1]);
            }
            lemma_trim_end_at(ts, b - a);
            assert(ts.take(b - a) =~= cs@.subrange(a as int, b as int));
        }
        let ghost rest = if k >= n {
            Seq::<Seq<char>>::empty()
        } else {
            trimmed_lines(s.skip(k - i + 1))
        };
        if b > a {
            let w = string_of(&cs, a, b);
            proof {
                lemma_views_push(out@, w);
                assert(views(out@.push(w)) + rest =~= views(out@) + (seq![w@] + rest));
            }
            out.push(w);
        }
        if k == n {
            proof {
                assert(views(out@) + Seq::<Seq<char>>::empty() =~= views(out@));
            }
            return out;
        }
        proof {
            assert(s.skip(k - i + 1) =~= cs@.skip(k + 1));
        }
        i = k + 1;
    }
}


/// `str::trim`, as a new string
pub fn trim_str(text: &str) -> (out: String)
    ensures
        out@ == trim(text@),
{
    let cs = chars_of(text);
    let n = cs.len();
    let mut a: usize = 0;
    while a < n && is_ws_char(cs[a])
        invariant
            n == cs@.len(),
            a <= n,
            forall|j: int| 0 <= j < a ==> is_ws(#[trigger] cs@[j]),
        decreases n - a,
    {
        a += 1;
    }
    let mut b = n;
    while b > a && is_ws_char(cs[b - 1])
        invariant
            n == cs@.len(),
            a <= b <= n,
            forall|j: int| b <= j < n ==> is_ws(#[trigger] cs@[j]),
        decreases b - a,
    {
        b -= 1;
    }
    proof {
        lemma_trim_start_at(cs@, a as int);
        let ts = cs@.skip(a as int);
        assert forall|j: int| b - a <= j < ts.len() implies is_ws(#[trigger] ts[j]) by {
            assert(ts[j] == cs@[a + j]);
        }
        if b > a {
            assert(ts[b - a - 1] == cs@[b - 1]);
        }
        lemma_trim_end_at(ts, b - a);
        assert(ts.take(b - a) =~= cs@.subrange(a as int, b as int));
    }
    string_of(&cs, a, b)
}

/// a copy of a list of strings, element for element
pub fn clone_strings(v: &Vec<String>) -> (r: Vec<String>)
    ensures
        r@ == v@,
{
    let mut r: Vec<String> = Vec::new();
    let mut i: usize = 0;
    while i < v.len()
        invariant
            i <= v@.len(),
            r@ == v@.take(i as int),
        decreases v@.len() - i,
    {
        r.push(v[i].clone());
        i += 1;
        assert(r@ =~= v@.take(i as int));
    }
    assert(v@.take(i as int) =~= v@);
    r
}

} // verus!
