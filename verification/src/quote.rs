//! `{:?}` of a string, for messages that quote what they refuse

use crate::text::{chars_of, digit_char, digit_of};
use vstd::prelude::*;

verus! {

pub open spec fn hex_digit(d: nat) -> char {
    if d < 10 {
        digit_char(d)
    } else if d == 10 {
        'a'
    } else if d == 11 {
        'b'
    } else if d == 12 {
        'c'
    } else if d == 13 {
        'd'
    } else if d == 14 {
        'e'
    } else {
        'f'
    }
}

/// How `{:?}` writes one ASCII character inside quotes: the quote, the
/// backslash and the common controls by their short escapes, the other
/// ASCII controls as `\u{..}` in lowercase hex, everything else as is.
pub open spec fn escape_debug(c: char) -> Seq<char> {
    if c == '"' {
        seq!['\\', '"']
    } else if c == '\\' {
        seq!['\\', '\\']
    } else if c == '\n' {
        seq!['\\', 'n']
    } else if c == '\r' {
        seq!['\\', 'r']
    } else if c == '\t' {
        seq!['\\', 't']
    } else if c == '\0' {
        seq!['\\', '0']
    } else if (c as u32) < 0x20 || (c as u32) == 0x7f {
        let n = c as u32 as nat;
        if n < 16 {
            seq!['\\', 'u', '{', hex_digit(n), '}']
        } else {
            seq!['\\', 'u', '{', hex_digit(n / 16), hex_digit(n % 16), '}']
        }
    } else {
        seq![c]
    }
}

pub open spec fn escape_all(s: Seq<char>) -> Seq<char>
    decreases s.len(),
{
    if s.len() == 0 {
        Seq::<char>::empty()
    } else {
        escape_all(s.drop_last()) + escape_debug(s.last())
    }
}

/// `format!("{:?}", s)` for a string whose non-ASCII characters are all
/// printable: the escaped text in double quotes.
pub open spec fn debug_str(s: Seq<char>) -> Seq<char> {
    seq!['"'] + escape_all(s) + seq!['"']
}

fn hex_of(d: u32) -> (c: char)
    requires
        d < 16,
    ensures
        c == hex_digit(d as nat),
{
    if d < 10 {
        digit_of(d as u64)
    } else if d == 10 {
        'a'
    } else if d == 11 {
        'b'
    } else if d == 12 {
        'c'
    } else if d == 13 {
        'd'
    } else if d == 14 {
        'e'
    } else {
        'f'
    }
}

fn push_escaped(out: &mut String, c: char)
    ensures
        final(out)@ == old(out)@ + escape_debug(c),
{
    if c == '"' {
        out.push('\\');
        out.push('"');
    } else if c == '\\' {
        out.push('\\');
        out.push('\\');
    } else if c == '\n' {
        out.push('\\');
        out.push('n');
    } else if c == '\r' {
        out.push('\\');
        out.push('r');
    } else if c == '\t' {
        out.push('\\');
        out.push('t');
    } else if c == '\0' {
        out.push('\\');
        out.push('0');
    } else if (c as u32) < 0x20 || (c as u32) == 0x7f {
        let n = c as u32;
        out.push('\\');
        out.push('u');
        out.push('{');
        if n < 16 {
            out.push(hex_of(n));
        } else {
            out.push(hex_of(n / 16));
            out.push(hex_of(n % 16));
        }
        out.push('}');
    } else {
        out.push(c);
    }
    assert(final(out)@ =~= old(out)@ + escape_debug(c));
}

/// `format!("{:?}", s)`, exact where the non-ASCII characters of `s` are
/// printable
pub fn debug_quoted(s: &str) -> (out: String)
    ensures
        out@ == debug_str(s@),
{
    let cs = chars_of(s);
    let mut out = String::new();
    out.push('"');
    let mut i: usize = 0;
    while i < cs.len()
        invariant
            cs@ == s@,
            i <= cs@.len(),
            out@ == seq!['"'] + escape_all(cs@.take(i as int)),
        decreases cs@.len() - i,
    {
        proof {
            let t = cs@.take(i + 1);
            assert(t.drop_last() =~= cs@.take(i as int));
            assert(t.last() == cs@[i as int]);
        }
        push_escaped(&mut out, cs[i]);
        i += 1;
        assert(out@ =~= seq!['"'] + escape_all(cs@.take(i as int)));
    }
    out.push('"');
    assert(cs@.take(i as int) =~= s@);
    assert(out@ =~= debug_str(s@));
    out
}

} // verus!
