//! Small text-parsing helpers for the statement surface: keywords matched
//! without regard to ASCII case, whitespace runs, identifiers, and decimal
//! numbers.

use vstd::prelude::*;

verus! {

/// The ASCII lower-case form of a character.
pub open spec fn lower_char(c: char) -> char {
    if 'A' <= c && c <= 'Z' {
        ((c as u8) + 32) as char
    } else {
        c
    }
}

/// Whether the input holds the tag at `pos`, ignoring ASCII case.
pub open spec fn tag_at(i: Seq<char>, pos: int, tag: Seq<char>) -> bool {
    &&& 0 <= pos
    &&& pos + tag.len() <= i.len()
    &&& forall|k: int| 0 <= k < tag.len() ==> lower_char(#[trigger] i[pos + k]) == lower_char(
        tag[k],
    )
}

/// Matches a keyword at `pos`, ignoring ASCII case; hands back the
/// position after it.
pub fn eat_tag_nc(i: &str, pos: usize, tag: &str) -> (r: Option<usize>)
    requires
        pos <= i@.len(),
    ensures
        match r {
            Some(p) => p == pos + tag@.len() && p <= i@.len() && tag_at(i@, pos as int, tag@),
            None => !tag_at(i@, pos as int, tag@),
        },
{
    let n = i.unicode_len();
    let tn = tag.unicode_len();
    if n - pos < tn {
        return None;
    }
    let mut k: usize = 0;
    while k < tn
        invariant
            0 <= k <= tn == tag@.len(),
            pos + tn <= n == i@.len(),
            forall|t: int|
                0 <= t < k ==> lower_char(#[trigger] i@[pos + t]) == lower_char(tag@[t]),
        decreases tn - k,
    {
        let a = lower_exec(i.get_char(pos + k));
        let b = lower_exec(tag.get_char(k));
        if !(a == b) {
            return None;
        }
        k = k + 1;
    }
    Some(pos + tn)
}

/// The ASCII lower-case form of a character, for exec code.
pub fn lower_exec(c: char) -> (r: char)
    ensures
        r == lower_char(c),
{
    if 'A' <= c && c <= 'Z' {
        proof {
            assert('A' as u32 <= c as u32 <= 'Z' as u32);
        }
        ((c as u8) + 32) as char
    } else {
        c
    }
}

/// Whether a character is ASCII whitespace.
pub open spec fn is_ws(c: char) -> bool {
    c == ' ' || c == '\t' || c == '\r' || c == '\n'
}

/// Whether a character can stand in an identifier.
pub open spec fn is_ident_char(c: char) -> bool {
    ('a' <= c && c <= 'z') || ('A' <= c && c <= 'Z') || ('0' <= c && c <= '9') || c == '_'
}

/// Whether a character is a decimal digit.
pub open spec fn is_digit(c: char) -> bool {
    '0' <= c && c <= '9'
}

/// Skips a run of whitespace; hands back the first position past it.
pub fn skip_ws(i: &str, pos: usize) -> (r: usize)
    requires
        pos <= i@.len(),
    ensures
        pos <= r <= i@.len(),
        forall|t: int| pos <= t < r ==> is_ws(#[trigger] i@[t]),
        r < i@.len() ==> !is_ws(i@[r as int]),
{
    let n = i.unicode_len();
    let mut p = pos;
    while p < n
        invariant
            pos <= p <= n == i@.len(),
            forall|t: int| pos <= t < p ==> is_ws(#[trigger] i@[t]),
        decreases n - p,
    {
        let c = i.get_char(p);
        if !(c == ' ' || c == '\t' || c == '\r' || c == '\n') {
            return p;
        }
        p = p + 1;
    }
    p
}

/// Requires at least one whitespace character, then skips the run.
pub fn require_ws(i: &str, pos: usize) -> (r: Option<usize>)
    requires
        pos <= i@.len(),
    ensures
        match r {
            Some(p) => pos < p <= i@.len() && is_ws(i@[pos as int]),
            None => pos == i@.len() || !is_ws(i@[pos as int]),
        },
{
    let n = i.unicode_len();
    if pos >= n {
        return None;
    }
    let c = i.get_char(pos);
    if !(c == ' ' || c == '\t' || c == '\r' || c == '\n') {
        return None;
    }
    Some(skip_ws(i, pos + 1))
}

/// Reads an identifier: a non-empty run of letters, digits and
/// underscores.
pub fn parse_ident(i: &str, pos: usize) -> (r: Option<(String, usize)>)
    requires
        pos <= i@.len(),
    ensures
        match r {
            Some(v) => {
                &&& pos < v.1 <= i@.len()
                &&& v.0@ == i@.subrange(pos as int, v.1 as int)
                &&& (forall|t: int| pos <= t < v.1 ==> is_ident_char(#[trigger] i@[t]))
                &&& (v.1 < i@.len() ==> !is_ident_char(i@[v.1 as int]))
            },
            None => pos == i@.len() || !is_ident_char(i@[pos as int]),
        },
{
    let n = i.unicode_len();
    let mut p = pos;
    let mut out = String::new();
    while p < n
        invariant
            pos <= p <= n == i@.len(),
            out@ == i@.subrange(pos as int, p as int),
            forall|t: int| pos <= t < p ==> is_ident_char(#[trigger] i@[t]),
        decreases n - p,
    {
        let c = i.get_char(p);
        let ok = ('a' <= c && c <= 'z') || ('A' <= c && c <= 'Z') || ('0' <= c && c <= '9') || c
            == '_';
        if !ok {
            if p == pos {
                return None;
            }
            return Some((out, p));
        }
        let one = i.substring_char(p, p + 1);
        out.append(one);
        proof {
            assert(one@ =~= seq![i@[p as int]]);
            assert(i@.subrange(pos as int, p as int) + seq![i@[p as int]] =~= i@.subrange(
                pos as int,
                p + 1,
            ));
        }
        p = p + 1;
    }
    if p == pos {
        return None;
    }
    Some((out, p))
}

/// The numeric value of a run of decimal digits.
pub open spec fn digits_value(s: Seq<char>) -> int
    decreases s.len(),
{
    if s.len() == 0 {
        0
    } else {
        digits_value(s.drop_last()) * 10 + (s.last() as int - 48)
    }
}

/// Reads a decimal number into a u64; fails on input that does not start
/// with a digit or does not fit.
pub fn parse_u64(i: &str, pos: usize) -> (r: Option<(u64, usize)>)
    requires
        pos <= i@.len(),
    ensures
        match r {
            Some(v) => {
                &&& pos < v.1 <= i@.len()
                &&& (forall|t: int| pos <= t < v.1 ==> is_digit(#[trigger] i@[t]))
                &&& (v.1 < i@.len() ==> !is_digit(i@[v.1 as int]))
                &&& v.0 == digits_value(i@.subrange(pos as int, v.1 as int))
            },
            None => true,
        },
{
    let n = i.unicode_len();
    let mut p = pos;
    let mut acc: u64 = 0;
    proof {
        assert(i@.subrange(pos as int, pos as int) =~= Seq::<char>::empty());
    }
    while p < n
        invariant
            pos <= p <= n == i@.len(),
            forall|t: int| pos <= t < p ==> is_digit(#[trigger] i@[t]),
            acc == digits_value(i@.subrange(pos as int, p as int)),
        decreases n - p,
    {
        let c = i.get_char(p);
        if !('0' <= c && c <= '9') {
            if p == pos {
                return None;
            }
            return Some((acc, p));
        }
        let d = (c as u32) - 48;
        if acc > (u64::MAX - d as u64) / 10 {
            return None;
        }
        proof {
            assert(i@.subrange(pos as int, p + 1).drop_last() =~= i@.subrange(
                pos as int,
                p as int,
            ));
            assert(i@.subrange(pos as int, p + 1).last() == i@[p as int]);
        }
        acc = acc * 10 + d as u64;
        p = p + 1;
    }
    if p == pos {
        return None;
    }
    Some((acc, p))
}

} // verus!
