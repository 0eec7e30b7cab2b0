//! String functions over values.  Each argument is taken by its textual
//! reading: a string's own content, any other value's text form.

use vstd::prelude::*;
use crate::ctx::Context;
use crate::err::Error;
use crate::sql::convert::spec_as_string;
use crate::sql::number::{clamp64, Number};
use crate::sql::value::Value;

verus! {

broadcast use vstd::std_specs::vec::group_vec_axioms, vstd::seq::group_seq_axioms;

/// The first position where the needle occurs in the haystack, or -1; an
/// empty needle occurs at the start.
pub open spec fn find_sub(h: Seq<char>, n: Seq<char>) -> int
    decreases h.len(),
{
    if n.len() == 0 {
        0
    } else if h.len() < n.len() {
        -1
    } else if h.subrange(0, n.len() as int) == n {
        0
    } else {
        let r = find_sub(h.drop_first(), n);
        if r == -1 {
            -1
        } else {
            r + 1
        }
    }
}

/// The found position is in range, carries the needle, and no earlier
/// position does.
proof fn lemma_find_sub(h: Seq<char>, n: Seq<char>)
    requires
        n.len() >= 1,
    ensures
        find_sub(h, n) == -1 ==> (forall|i: int|
            0 <= i && i + n.len() <= h.len() ==> #[trigger] h.subrange(i, i + n.len()) != n),
        find_sub(h, n) != -1 ==> 0 <= find_sub(h, n) && find_sub(h, n) + n.len() <= h.len()
            && h.subrange(find_sub(h, n), find_sub(h, n) + n.len()) == n && (forall|i: int|
            0 <= i < find_sub(h, n) ==> #[trigger] h.subrange(i, i + n.len()) != n),
    decreases h.len(),
{
    if h.len() < n.len() {
    } else if h.subrange(0, n.len() as int) == n {
    } else {
        lemma_find_sub(h.drop_first(), n);
        assert(forall|i: int|
            0 <= i && i + n.len() <= h.drop_first().len() ==> #[trigger] h.drop_first().subrange(
                i,
                i + n.len(),
            ) =~= h.subrange(i + 1, i + 1 + n.len()));
        let r = find_sub(h.drop_first(), n);
        if r == -1 {
            assert forall|i: int| 0 <= i && i + n.len() <= h.len() implies #[trigger] h.subrange(
                i,
                i + n.len(),
            ) != n by {
                if i >= 1 {
                    assert(h.drop_first().subrange(i - 1, i - 1 + n.len()) != n);
                }
            }
        } else {
            assert(h.subrange(r + 1, r + 1 + n.len()) == n) by {
                assert(h.drop_first().subrange(r, r + n.len()) == n);
            }
            assert forall|i: int| 0 <= i < find_sub(h, n) implies #[trigger] h.subrange(
                i,
                i + n.len(),
            ) != n by {
                if i >= 1 {
                    assert(h.drop_first().subrange(i - 1, i - 1 + n.len()) != n);
                }
            }
        }
    }
}

/// Finds the first occurrence of the needle in the haystack.
#[verifier::loop_isolation(false)]
fn str_find(h: &str, n: &str) -> (r: Option<usize>)
    requires
        n@.len() >= 1,
    ensures
        match r {
            Some(j) => j as int == find_sub(h@, n@) && j + n@.len() <= h@.len(),
            None => find_sub(h@, n@) == -1,
        },
{
    proof {
        lemma_find_sub(h@, n@);
    }
    let hn = h.unicode_len();
    let nn = n.unicode_len();
    if nn > hn {
        proof {
            if find_sub(h@, n@) != -1 {
                assert(false);
            }
        }
        return None;
    }
    let mut i: usize = 0;
    while i <= hn - nn
        invariant
            0 <= i <= hn - nn + 1,
            1 <= nn <= hn == h@.len(),
            nn == n@.len(),
            forall|k: int| 0 <= k < i ==> #[trigger] h@.subrange(k, k + n@.len()) != n@,
        decreases hn - nn - i + 1,
    {
        if crate::sql::ops::window_matches(h, n, i) {
            proof {
                let f = find_sub(h@, n@);
                if f == -1 {
                    assert(h@.subrange(i as int, i + n@.len()) != n@);
                    assert(false);
                }
                if f < i as int {
                    assert(h@.subrange(f, f + n@.len()) != n@);
                    assert(false);
                }
                if f > i as int {
                    assert(h@.subrange(i as int, i + n@.len()) != n@);
                    assert(false);
                }
            }
            return Some(i);
        }
        i = i + 1;
    }
    proof {
        let f = find_sub(h@, n@);
        if f != -1 {
            assert(h@.subrange(f, f + n@.len()) != n@);
            assert(false);
        }
    }
    None
}

/// The pieces of a string split on a separator: what stands between
/// occurrences, with empty pieces kept; an empty separator leaves the
/// string whole.
pub open spec fn spec_split(s: Seq<char>, sep: Seq<char>) -> Seq<Seq<char>>
    decreases s.len(),
{
    if sep.len() == 0 {
        seq![s]
    } else {
        let j = find_sub(s, sep);
        if j < 0 || j + sep.len() > s.len() {
            seq![s]
        } else {
            seq![s.subrange(0, j)] + spec_split(s.subrange(j + sep.len(), s.len() as int), sep)
        }
    }
}

/// Splits a string on a separator into its pieces.
#[verifier::loop_isolation(false)]
fn split_text(s: &str, sep: &str) -> (r: Vec<Value>)
    ensures
        r@.len() == spec_split(s@, sep@).len(),
        forall|k: int|
            0 <= k < r@.len() ==> (#[trigger] r@[k]) is Strand && r@[k]->Strand_0@ == spec_split(
                s@,
                sep@,
            )[k],
{
    let mut out: Vec<Value> = Vec::new();
    let sn = sep.unicode_len();
    if sn == 0 {
        out.push(Value::Strand(s.to_owned()));
        proof {
            assert(spec_split(s@, sep@) =~= seq![s@]);
        }
        return out;
    }
    let mut rest = s.to_owned();
    let ghost parts = spec_split(s@, sep@);
    proof {
        assert(out@.len() + spec_split(rest@, sep@).len() == parts.len());
    }
    loop
        invariant
            sep@.len() == sn >= 1,
            out@.len() + spec_split(rest@, sep@).len() == parts.len(),
            forall|k: int|
                0 <= k < out@.len() ==> (#[trigger] out@[k]) is Strand && out@[k]->Strand_0@
                    == parts[k],
            forall|k: int|
                out@.len() <= k < parts.len() ==> #[trigger] parts[k] == spec_split(rest@, sep@)[k
                    - out@.len()],
        decreases rest@.len(),
    {
        match str_find(rest.as_str(), sep) {
            Some(j) => {
                let piece = rest.as_str().substring_char(0, j);
                out.push(Value::Strand(piece.to_owned()));
                let rn = rest.as_str().unicode_len();
                let next = rest.as_str().substring_char(j + sn, rn);
                proof {
                    assert(spec_split(rest@, sep@) == seq![rest@.subrange(0, j as int)]
                        + spec_split(rest@.subrange(j + sep@.len(), rest@.len() as int), sep@));
                    assert(next@ == rest@.subrange(j + sep@.len(), rest@.len() as int));
                }
                rest = next.to_owned();
            },
            None => {
                out.push(Value::Strand(rest));
                proof {
                    assert(spec_split(out@[out@.len() - 1]->Strand_0@, sep@).len() >= 1);
                }
                return out;
            },
        }
    }
}



/// The textual readings of the arguments from position `i`, joined by a
/// separator.
pub open spec fn spec_joined(s: Seq<Value>, i: int, sep: Seq<char>) -> Seq<char>
    decreases s.len() - i,
{
    if i < 0 || i >= s.len() {
        Seq::empty()
    } else if i == s.len() - 1 {
        spec_as_string(s[i])
    } else {
        spec_as_string(s[i]) + sep + spec_joined(s, i + 1, sep)
    }
}

/// The lower-case form of a string, named for `str::to_lowercase`: the
/// result depends on the characters alone.
pub uninterp spec fn lower_of(s: Seq<char>) -> Seq<char>;

/// The upper-case form of a string, named for `str::to_uppercase`: the
/// result depends on the characters alone.
pub uninterp spec fn upper_of(s: Seq<char>) -> Seq<char>;

/// Relies on `str::to_lowercase`: the lower-case form is a function of the
/// characters alone, and an empty string stays empty.
#[verifier::external_body]
fn lower_str(s: &str) -> (r: String)
    ensures
        r@ == lower_of(s@),
        s@.len() == 0 ==> r@.len() == 0,
{
    s.to_lowercase()
}

/// Relies on `str::to_uppercase`: the upper-case form is a function of the
/// characters alone, and an empty string stays empty.
#[verifier::external_body]
fn upper_str(s: &str) -> (r: String)
    ensures
        r@ == upper_of(s@),
        s@.len() == 0 ==> r@.len() == 0,
{
    s.to_uppercase()
}

/// Joins the textual readings of all arguments.
pub fn concat(_ctx: &Context, args: Vec<Value>) -> (r: Result<Value, Error>)
    ensures
        r is Ok,
        r->Ok_0 is Strand,
        r->Ok_0->Strand_0@ == spec_joined(args@, 0, Seq::empty()),
{
    let n = args.len();
    let mut out = String::new();
    let mut i: usize = 0;
    proof {
        if n == 0 {
            assert(out@ =~= spec_joined(args@, 0, Seq::empty()));
        }
    }
    while i < n
        invariant
            0 <= i <= n == args@.len(),
            i == n ==> out@ == spec_joined(args@, 0, Seq::empty()),
            i < n ==> out@ + spec_joined(args@, i as int, Seq::empty()) == spec_joined(
                args@,
                0,
                Seq::empty(),
            ),
        decreases n - i,
    {
        let piece = args[i].as_string();
        out.append(piece.as_str());
        proof {
            if i + 1 < n {
                assert(spec_joined(args@, i as int, Seq::empty()) =~= spec_as_string(
                    args@[i as int],
                ) + spec_joined(args@, i + 1, Seq::empty()));
            } else {
                assert(spec_joined(args@, i as int, Seq::empty()) == spec_as_string(
                    args@[i as int],
                ));
            }
        }
        i = i + 1;
    }
    Ok(Value::Strand(out))
}

/// Whether the first argument's text ends with the second's.
pub fn ends_with(_ctx: &Context, mut args: Vec<Value>) -> (r: Result<Value, Error>)
    requires
        args@.len() >= 2,
    ensures
        r is Ok,
        ({
            let a = spec_as_string(args@[0]);
            let b = spec_as_string(args@[1]);
            r->Ok_0 == crate::fnc::operate::bool_value(
                a.len() >= b.len() && a.subrange(a.len() - b.len(), a.len() as int) == b,
            )
        }),
{
    let val = args.remove(0).as_string();
    let chr = args.remove(0).as_string();
    let a = val.as_str();
    let b = chr.as_str();
    let an = a.unicode_len();
    let bn = b.unicode_len();
    if bn > an {
        proof {
            assert(a@.len() < b@.len());
        }
        return Ok(Value::False);
    }
    let sfx = a.substring_char(an - bn, an);
    let same = crate::text::str_eq(sfx, b);
    proof {
        assert(sfx@ == a@.subrange(a@.len() - b@.len(), a@.len() as int));
    }
    Ok(
        if same {
            Value::True
        } else {
            Value::False
        },
    )
}

/// Whether the first argument's text starts with the second's.
pub fn starts_with(_ctx: &Context, mut args: Vec<Value>) -> (r: Result<Value, Error>)
    requires
        args@.len() >= 2,
    ensures
        r is Ok,
        ({
            let a = spec_as_string(args@[0]);
            let b = spec_as_string(args@[1]);
            r->Ok_0 == crate::fnc::operate::bool_value(
                a.len() >= b.len() && a.subrange(0, b.len() as int) == b,
            )
        }),
{
    let val = args.remove(0).as_string();
    let chr = args.remove(0).as_string();
    let a = val.as_str();
    let b = chr.as_str();
    let an = a.unicode_len();
    let bn = b.unicode_len();
    if bn > an {
        return Ok(Value::False);
    }
    let pfx = a.substring_char(0, bn);
    let same = crate::text::str_eq(pfx, b);
    Ok(
        if same {
            Value::True
        } else {
            Value::False
        },
    )
}

/// Joins the textual readings of the later arguments with the first as
/// separator.
pub fn join(_ctx: &Context, mut args: Vec<Value>) -> (r: Result<Value, Error>)
    requires
        args@.len() >= 1,
    ensures
        r is Ok,
        r->Ok_0 is Strand,
        r->Ok_0->Strand_0@ == spec_joined(args@.drop_first(), 0, spec_as_string(args@[0])),
{
    let ghost all = args@;
    let sep = args.remove(0).as_string();
    let ghost rest = all.drop_first();
    proof {
        assert(args@ =~= rest);
    }
    let n = args.len();
    let mut out = String::new();
    let mut i: usize = 0;
    proof {
        if n == 0 {
            assert(out@ =~= spec_joined(rest, 0, spec_as_string(all[0])));
        }
    }
    while i < n
        invariant
            0 <= i <= n == rest.len(),
            args@ == rest,
            sep@ == spec_as_string(all[0]),
            i == 0 ==> out@.len() == 0,
            0 < i && i < n ==> out@ + sep@ + spec_joined(rest, i as int, sep@) == spec_joined(
                rest,
                0,
                sep@,
            ),
            i == n && n > 0 ==> out@ == spec_joined(rest, 0, sep@),
        decreases n - i,
    {
        if i > 0 {
            out.append(sep.as_str());
        }
        let piece = args[i].as_string();
        out.append(piece.as_str());
        proof {
            if i + 1 < n {
                assert(spec_joined(rest, i as int, sep@) =~= spec_as_string(rest[i as int])
                    + sep@ + spec_joined(rest, i + 1, sep@));
                assert(out@ + sep@ + spec_joined(rest, i + 1, sep@) =~= (if i == 0 {
                    spec_joined(rest, 0, sep@)
                } else {
                    spec_joined(rest, 0, sep@)
                }));
            } else {
                assert(spec_joined(rest, i as int, sep@) == spec_as_string(rest[i as int]));
                assert(out@ =~= spec_joined(rest, 0, sep@));
            }
        }
        i = i + 1;
    }
    proof {
        if n == 0 {
            assert(out@ =~= spec_joined(rest, 0, sep@));
        }
    }
    Ok(Value::Strand(out))
}

/// The number of characters of the argument's text.
pub fn length(_ctx: &Context, mut args: Vec<Value>) -> (r: Result<Value, Error>)
    requires
        args@.len() >= 1,
    ensures
        r is Ok,
        r->Ok_0 == Value::Number(
            Number::Int(clamp64(spec_as_string(args@[0]).len() as int) as i64),
        ),
{
    let val = args.remove(0).as_string();
    let n = val.as_str().unicode_len();
    let c: i64 = if (n as u64) > (i64::MAX as u64) {
        i64::MAX
    } else {
        n as i64
    };
    Ok(Value::Number(Number::Int(c)))
}

/// The lower-case form of the argument's text.
pub fn lowercase(_ctx: &Context, mut args: Vec<Value>) -> (r: Result<Value, Error>)
    requires
        args@.len() >= 1,
    ensures
        r is Ok,
        r->Ok_0 is Strand,
        r->Ok_0->Strand_0@ == lower_of(spec_as_string(args@[0])),
{
    let val = args.remove(0).as_string();
    Ok(Value::Strand(lower_str(val.as_str())))
}

/// The upper-case form of the argument's text.
pub fn uppercase(_ctx: &Context, mut args: Vec<Value>) -> (r: Result<Value, Error>)
    requires
        args@.len() >= 1,
    ensures
        r is Ok,
        r->Ok_0 is Strand,
        r->Ok_0->Strand_0@ == upper_of(spec_as_string(args@[0])),
{
    let val = args.remove(0).as_string();
    Ok(Value::Strand(upper_str(val.as_str())))
}

/// The text repeated, at its `n`-fold concatenation.
pub open spec fn spec_repeat(s: Seq<char>, n: nat) -> Seq<char>
    decreases n,
{
    if n == 0 {
        Seq::empty()
    } else {
        spec_repeat(s, (n - 1) as nat) + s
    }
}

/// The argument's text repeated as many times as the second argument's
/// whole-number reading, none for a non-positive count.
pub fn repeat(_ctx: &Context, mut args: Vec<Value>) -> (r: Result<Value, Error>)
    requires
        args@.len() >= 2,
    ensures
        r is Ok,
        r->Ok_0 is Strand,
        ({
            let q = clamp64(
                crate::sql::number::div_trunc(
                    crate::sql::number::micros(crate::sql::convert::spec_as_number(args@[1])),
                    1000000,
                ),
            );
            r->Ok_0->Strand_0@ == spec_repeat(
                spec_as_string(args@[0]),
                if q < 0 {
                    0
                } else {
                    q as nat
                },
            )
        }),
{
    let val = args.remove(0).as_string();
    let num = args.remove(0).as_int();
    let count: u64 = if num < 0 {
        0
    } else {
        num as u64
    };
    let mut out = String::new();
    let mut i: u64 = 0;
    proof {
        assert(out@ =~= spec_repeat(val@, 0));
    }
    while i < count
        invariant
            0 <= i <= count,
            out@ == spec_repeat(val@, i as nat),
        decreases count - i,
    {
        out.append(val.as_str());
        i = i + 1;
    }
    Ok(Value::Strand(out))
}

/// The argument's text reversed.
pub fn reverse(_ctx: &Context, mut args: Vec<Value>) -> (r: Result<Value, Error>)
    requires
        args@.len() >= 1,
    ensures
        r is Ok,
        r->Ok_0 is Strand,
        ({
            let s = spec_as_string(args@[0]);
            let t = r->Ok_0->Strand_0@;
            t.len() == s.len() && (forall|k: int|
                0 <= k < s.len() ==> #[trigger] t[k] == s[s.len() - 1 - k])
        }),
{
    let val = args.remove(0).as_string();
    let s = val.as_str();
    let n = s.unicode_len();
    let mut out = String::new();
    let mut i: usize = 0;
    while i < n
        invariant
            0 <= i <= n == s@.len(),
            out@.len() == i,
            forall|k: int| 0 <= k < i ==> #[trigger] out@[k] == s@[s@.len() - 1 - k],
        decreases n - i,
    {
        let piece = s.substring_char(n - 1 - i, n - i);
        out.append(piece);
        proof {
            assert(piece@ =~= seq![s@[s@.len() - 1 - i]]);
        }
        i = i + 1;
    }
    Ok(Value::Strand(out))
}

/// A window of the argument's text: from the second argument's reading,
/// for the third's many characters, clamped to the text.
pub fn slice(_ctx: &Context, mut args: Vec<Value>) -> (r: Result<Value, Error>)
    requires
        args@.len() >= 3,
    ensures
        r is Ok,
        r->Ok_0 is Strand,
        ({
            let s = spec_as_string(args@[0]);
            exists|a: int, b: int|
                0 <= a <= b <= s.len() && #[trigger] r->Ok_0->Strand_0@ == s.subrange(a, b)
        }),
{
    let val = args.remove(0).as_string();
    let beg_v = args.remove(0).as_int();
    let lim_v = args.remove(0).as_int();
    let s = val.as_str();
    let n = s.unicode_len();
    let beg: usize = if beg_v < 0 {
        0
    } else if (beg_v as u64) > (n as u64) {
        n
    } else {
        beg_v as usize
    };
    let lim: usize = if lim_v < 0 {
        0
    } else if (lim_v as u64) > (n as u64) {
        n
    } else {
        lim_v as usize
    };
    let end: usize = if lim > n - beg {
        n
    } else {
        beg + lim
    };
    let out = s.substring_char(beg, end);
    proof {
        assert(0 <= beg as int <= end as int <= s@.len() && out@ == s@.subrange(
            beg as int,
            end as int,
        ));
    }
    Ok(Value::Strand(out.to_owned()))
}

/// The argument's text without leading and trailing ASCII whitespace.
#[verifier::loop_isolation(false)]
pub fn trim(_ctx: &Context, mut args: Vec<Value>) -> (r: Result<Value, Error>)
    requires
        args@.len() >= 1,
    ensures
        r is Ok,
        r->Ok_0 is Strand,
        ({
            let s = spec_as_string(args@[0]);
            let t = r->Ok_0->Strand_0@;
            exists|a: int, b: int|
                {
                    &&& 0 <= a <= b <= s.len()
                    &&& t == #[trigger] s.subrange(a, b)
                    &&& (forall|k: int| 0 <= k < a ==> crate::sql::parse::is_ws(#[trigger] s[k]))
                    &&& (forall|k: int|
                        b <= k < s.len() ==> crate::sql::parse::is_ws(#[trigger] s[k]))
                    &&& (a < b ==> !crate::sql::parse::is_ws(s[a]) && !crate::sql::parse::is_ws(
                        s[b - 1],
                    ))
                }
        }),
{
    let val = args.remove(0).as_string();
    let s = val.as_str();
    let n = s.unicode_len();
    let a = crate::sql::parse::skip_ws(s, 0);
    let mut b = n;
    while b > a
        invariant
            a <= b <= n == s@.len(),
            forall|k: int| b <= k < n ==> crate::sql::parse::is_ws(#[trigger] s@[k]),
            forall|k: int| 0 <= k < a ==> crate::sql::parse::is_ws(#[trigger] s@[k]),
            a < s@.len() ==> !crate::sql::parse::is_ws(s@[a as int]),
        decreases b,
    {
        let c = s.get_char(b - 1);
        if !(c == ' ' || c == '\t' || c == '\r' || c == '\n') {
            let out = s.substring_char(a, b);
            proof {
                assert(!crate::sql::parse::is_ws(s@[a as int]));
                assert(!crate::sql::parse::is_ws(s@[b - 1]));
                assert(out@ == s@.subrange(a as int, b as int));
            }
            return Ok(Value::Strand(out.to_owned()));
        }
        b = b - 1;
    }
    let out = s.substring_char(a, b);
    proof {
        assert(out@ == s@.subrange(a as int, b as int));
    }
    Ok(Value::Strand(out.to_owned()))
}

/// Splits the first argument's text on the second's, empty pieces kept;
/// an empty separator leaves the text whole.
pub fn split(_ctx: &Context, mut args: Vec<Value>) -> (r: Result<Value, Error>)
    requires
        args@.len() >= 2,
    ensures
        r is Ok,
        r->Ok_0 is Array,
        ({
            let parts = spec_split(spec_as_string(args@[0]), spec_as_string(args@[1]));
            let out = r->Ok_0->Array_0.0@;
            &&& out.len() == parts.len()
            &&& (forall|k: int|
                0 <= k < out.len() ==> (#[trigger] out[k]) is Strand && out[k]->Strand_0@
                    == parts[k])
        }),
{
    let val = args.remove(0).as_string();
    let chr = args.remove(0).as_string();
    Ok(Value::Array(crate::sql::value::Array(split_text(val.as_str(), chr.as_str()))))
}

/// Splits the argument's text on single spaces.
pub fn words(_ctx: &Context, mut args: Vec<Value>) -> (r: Result<Value, Error>)
    requires
        args@.len() >= 1,
    ensures
        r is Ok,
        r->Ok_0 is Array,
        ({
            let parts = spec_split(spec_as_string(args@[0]), seq![' ']);
            let out = r->Ok_0->Array_0.0@;
            &&& out.len() == parts.len()
            &&& (forall|k: int|
                0 <= k < out.len() ==> (#[trigger] out[k]) is Strand && out[k]->Strand_0@
                    == parts[k])
        }),
{
    let val = args.remove(0).as_string();
    proof {
        reveal_strlit(" ");
        assert(" "@ =~= seq![' ']);
    }
    Ok(Value::Array(crate::sql::value::Array(split_text(val.as_str(), " "))))
}

/// The string with every occurrence of a pattern replaced, left to right
/// and without overlap; an empty pattern leaves the string unchanged.
pub open spec fn spec_replace(s: Seq<char>, pat: Seq<char>, new: Seq<char>) -> Seq<char>
    decreases s.len(),
{
    if pat.len() == 0 {
        s
    } else {
        let j = find_sub(s, pat);
        if j < 0 || j + pat.len() > s.len() {
            s
        } else {
            s.subrange(0, j) + new + spec_replace(
                s.subrange(j + pat.len(), s.len() as int),
                pat,
                new,
            )
        }
    }
}

/// Replaces every occurrence of the second argument's text inside the
/// first's with the third's, left to right and without overlap; an empty
/// pattern leaves the text unchanged.
#[verifier::loop_isolation(false)]
pub fn replace(_ctx: &Context, mut args: Vec<Value>) -> (r: Result<Value, Error>)
    requires
        args@.len() >= 3,
    ensures
        r is Ok,
        r->Ok_0 is Strand,
        r->Ok_0->Strand_0@ == spec_replace(
            spec_as_string(args@[0]),
            spec_as_string(args@[1]),
            spec_as_string(args@[2]),
        ),
{
    let val = args.remove(0).as_string();
    let pat = args.remove(0).as_string();
    let new = args.remove(0).as_string();
    let pn = pat.as_str().unicode_len();
    if pn == 0 {
        return Ok(Value::Strand(val));
    }
    let ghost target = spec_replace(val@, pat@, new@);
    let mut out = String::new();
    let mut rest = val;
    proof {
        assert(out@ + spec_replace(rest@, pat@, new@) =~= target);
    }
    loop
        invariant
            pat@.len() == pn >= 1,
            out@ + spec_replace(rest@, pat@, new@) == target,
        decreases rest@.len(),
    {
        match str_find(rest.as_str(), pat.as_str()) {
            Some(j) => {
                let rn = rest.as_str().unicode_len();
                let head = rest.as_str().substring_char(0, j);
                out.append(head);
                out.append(new.as_str());
                let next = rest.as_str().substring_char(j + pn, rn);
                proof {
                    assert(spec_replace(rest@, pat@, new@) == rest@.subrange(0, j as int) + new@
                        + spec_replace(
                        rest@.subrange(j + pat@.len(), rest@.len() as int),
                        pat@,
                        new@,
                    ));
                    assert(next@ == rest@.subrange(j + pat@.len(), rest@.len() as int));
                }
                rest = next.to_owned();
                proof {
                    assert(out@ + spec_replace(rest@, pat@, new@) =~= target);
                }
            },
            None => {
                out.append(rest.as_str());
                proof {
                    assert(out@ =~= target);
                }
                return Ok(Value::Strand(out));
            },
        }
    }
}

} // verus!
