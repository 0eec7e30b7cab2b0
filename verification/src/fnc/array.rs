//! Array functions over values.  A non-array argument yields the absent
//! value, as the surrounding statement layer expects.

use vstd::prelude::*;
use crate::ctx::Context;
use crate::err::Error;
use crate::sql::number::{clamp64, Number};
use crate::sql::order::{le_value, lemma_val_le_total, lemma_val_le_trans, val_le};
use crate::sql::value::{val_eq, Array, Value};

verus! {

broadcast use vstd::std_specs::vec::group_vec_axioms, vstd::seq::group_seq_axioms, vstd::seq_lib::group_to_multiset_ensures;

/// Whether a list ascends in the value order.
pub open spec fn sorted_asc(s: Seq<Value>) -> bool {
    forall|i: int, j: int| 0 <= i < j < s.len() ==> val_le(#[trigger] s[i], #[trigger] s[j])
}

/// Whether a list descends in the value order.
pub open spec fn sorted_desc(s: Seq<Value>) -> bool {
    forall|i: int, j: int| 0 <= i < j < s.len() ==> val_le(#[trigger] s[j], #[trigger] s[i])
}

/// Whether a sort call asks for descending order: a `desc` string or a
/// false flag; anything else sorts ascending.
pub open spec fn sort_descending(args: Seq<Value>) -> bool {
    args.len() >= 2 && ((args[1] is Strand && args[1]->Strand_0@ == "desc"@) || args[1] is False)
}

/// Inserts a value into a list sorted in the given direction, keeping it
/// sorted; the contents grow by exactly that value.
#[verifier::loop_isolation(false)]
fn insert_sorted(out: &mut Vec<Value>, x: Value, asc: bool)
    requires
        asc ==> sorted_asc(old(out)@),
        !asc ==> sorted_desc(old(out)@),
    ensures
        asc ==> sorted_asc(final(out)@),
        !asc ==> sorted_desc(final(out)@),
        final(out)@.len() == old(out)@.len() + 1,
        final(out)@.to_multiset() == old(out)@.to_multiset().insert(x),
{
    let n = out.len();
    let mut p: usize = 0;
    while p < n
        invariant
            0 <= p <= n == out@.len(),
            out@ == old(out)@,
            forall|k: int| 0 <= k < p ==> val_le(#[trigger] out@[k], x) || !asc,
            forall|k: int| 0 <= k < p ==> val_le(x, #[trigger] out@[k]) || asc,
        decreases n - p,
    {
        let stop = if asc {
            le_value(&x, &out[p])
        } else {
            le_value(&out[p], &x)
        };
        if stop {
            break ;
        }
        proof {
            lemma_val_le_total(x, out@[p as int]);
        }
        p = p + 1;
    }
    let ghost pre = out@;
    let ghost pos = p as int;
    let ghost stopped = p < n;
    proof {
        if p < n {
            if asc {
                assert(val_le(x, pre[pos]));
            } else {
                assert(val_le(pre[pos], x));
            }
        }
    }
    out.insert(p, x);
    proof {
        assert(out@ == pre.insert(pos, x));
        assert forall|i: int, j: int| 0 <= i < j < out@.len() implies (if asc {
            val_le(#[trigger] out@[i], #[trigger] out@[j])
        } else {
            val_le(#[trigger] out@[j], #[trigger] out@[i])
        }) by {
            if i < pos && j == pos {
                assert(out@[i] == pre[i]);
            } else if i == pos && j > pos {
                assert(out@[j] == pre[j - 1]);
                if stopped {
                    if asc {
                        if j - 1 > pos {
                            lemma_val_le_trans(x, pre[pos], pre[j - 1]);
                        }
                    } else {
                        if j - 1 > pos {
                            lemma_val_le_trans(pre[j - 1], pre[pos], x);
                        }
                    }
                }
            } else if i < pos && j > pos {
                assert(out@[i] == pre[i]);
                assert(out@[j] == pre[j - 1]);
                if i == j - 1 {
                } else {
                }
            } else if j < pos {
                assert(out@[i] == pre[i]);
                assert(out@[j] == pre[j]);
            } else if i > pos {
                assert(out@[i] == pre[i - 1]);
                assert(out@[j] == pre[j - 1]);
            }
        }
        // the inserted list holds exactly one more copy of the value
        assert(out@.remove(pos) =~= pre);
        assert(out@.remove(pos).to_multiset() =~= out@.to_multiset().remove(out@[pos]));
        assert(out@.contains(out@[pos]));
        assert(out@.to_multiset().count(x) > 0);
        assert(out@.to_multiset() =~= pre.to_multiset().insert(x)) by {
            assert(pre.to_multiset() == out@.to_multiset().remove(x));
        }
    }
}

/// Sorts a list of values in the given direction; the contents are kept
/// exactly.
#[verifier::loop_isolation(false)]
fn sort_values(src: Vec<Value>, asc: bool) -> (r: Vec<Value>)
    ensures
        asc ==> sorted_asc(r@),
        !asc ==> sorted_desc(r@),
        r@.to_multiset() == src@.to_multiset(),
{
    let ghost all = src@;
    let mut src = src;
    let mut out: Vec<Value> = Vec::new();
    proof {
        assert(out@.to_multiset().add(src@.to_multiset()) =~= all.to_multiset());
    }
    while src.len() > 0
        invariant
            asc ==> sorted_asc(out@),
            !asc ==> sorted_desc(out@),
            out@.to_multiset().add(src@.to_multiset()) == all.to_multiset(),
        decreases src@.len(),
    {
        let ghost src_pre = src@;
        let ghost out_pre = out@;
        let x = src.remove(0);
        proof {
            assert(src@ =~= src_pre.remove(0));
            assert(src@.to_multiset() == src_pre.to_multiset().remove(src_pre[0]));
            assert(src_pre.contains(src_pre[0]));
            assert(src_pre.to_multiset().count(x) > 0);
        }
        insert_sorted(&mut out, x, asc);
        proof {
            assert(out@.to_multiset() == out_pre.to_multiset().insert(x));
            assert(out@.to_multiset().add(src@.to_multiset()) =~= out_pre.to_multiset().add(
                src_pre.to_multiset(),
            ));
        }
    }
    proof {
        assert(src@.to_multiset() =~= vstd::multiset::Multiset::<Value>::empty());
        assert(out@.to_multiset().add(vstd::multiset::Multiset::<Value>::empty()) =~= out@.to_multiset());
    }
    out
}

/// Sorts an array in the value order, ascending unless the second argument
/// asks for descending (`desc` or a false flag); the elements are kept
/// exactly.  A non-array argument comes back as it is.
pub fn sort(_ctx: &Context, mut args: Vec<Value>) -> (r: Result<Value, Error>)
    requires
        1 <= args@.len() <= 2,
    ensures
        r is Ok,
        args@[0] is Array ==> ({
            let out = r->Ok_0;
            &&& out is Array
            &&& out->Array_0.0@.to_multiset() == args@[0]->Array_0.0@.to_multiset()
            &&& (sort_descending(args@) ==> sorted_desc(out->Array_0.0@))
            &&& (!sort_descending(args@) ==> sorted_asc(out->Array_0.0@))
        }),
        !(args@[0] is Array) ==> r->Ok_0 == args@[0],
{
    let v = args.remove(0);
    let asc: bool = if args.len() >= 1 {
        proof {
            reveal_strlit("desc");
        }
        match &args[0] {
            Value::Strand(s) => !crate::text::str_eq(s.as_str(), "desc"),
            Value::False => false,
            _ => true,
        }
    } else {
        true
    };
    match v {
        Value::Array(a) => Ok(Value::Array(Array(sort_values(a.0, asc)))),
        other => Ok(other),
    }
}

/// Sorts an array ascending in the value order; the elements are kept
/// exactly.  A non-array argument comes back as it is.
pub fn asc(_ctx: &Context, mut args: Vec<Value>) -> (r: Result<Value, Error>)
    requires
        args@.len() >= 1,
    ensures
        r is Ok,
        args@[0] is Array ==> r->Ok_0 is Array && r->Ok_0->Array_0.0@.to_multiset()
            == args@[0]->Array_0.0@.to_multiset() && sorted_asc(r->Ok_0->Array_0.0@),
        !(args@[0] is Array) ==> r->Ok_0 == args@[0],
{
    let v = args.remove(0);
    match v {
        Value::Array(a) => Ok(Value::Array(Array(sort_values(a.0, true)))),
        other => Ok(other),
    }
}

/// Sorts an array descending in the value order; the elements are kept
/// exactly.  A non-array argument comes back as it is.
pub fn desc(_ctx: &Context, mut args: Vec<Value>) -> (r: Result<Value, Error>)
    requires
        args@.len() >= 1,
    ensures
        r is Ok,
        args@[0] is Array ==> r->Ok_0 is Array && r->Ok_0->Array_0.0@.to_multiset()
            == args@[0]->Array_0.0@.to_multiset() && sorted_desc(r->Ok_0->Array_0.0@),
        !(args@[0] is Array) ==> r->Ok_0 == args@[0],
{
    let v = args.remove(0);
    match v {
        Value::Array(a) => Ok(Value::Array(Array(sort_values(a.0, false)))),
        other => Ok(other),
    }
}

/// Whether a list holds an element deeply equal to the value.
pub open spec fn holds(s: Seq<Value>, x: Value) -> bool {
    exists|i: int| 0 <= i < s.len() && val_eq(#[trigger] s[i], x)
}

/// The list with duplicates dropped: each element is kept exactly when no
/// deeply equal element precedes it, so first occurrences survive in
/// order.
pub open spec fn spec_dedup(src: Seq<Value>) -> Seq<Value>
    decreases src.len(),
{
    if src.len() == 0 {
        Seq::empty()
    } else {
        let rest = spec_dedup(src.drop_last());
        if holds(rest, src.last()) {
            rest
        } else {
            rest.push(src.last())
        }
    }
}

/// Whether the list holds an element deeply equal to the value.
fn vec_holds(s: &Vec<Value>, x: &Value) -> (r: bool)
    ensures
        r == holds(s@, *x),
{
    let n = s.len();
    let mut i: usize = 0;
    while i < n
        invariant
            0 <= i <= n == s@.len(),
            forall|j: int| 0 <= j < i ==> !val_eq(#[trigger] s@[j], *x),
        decreases n - i,
    {
        if s[i].same(x) {
            proof {
                assert(val_eq(s@[i as int], *x));
            }
            return true;
        }
        i = i + 1;
    }
    false
}

/// The number of elements of an array.
pub fn len(_ctx: &Context, mut args: Vec<Value>) -> (r: Result<Value, Error>)
    requires
        args@.len() >= 1,
    ensures
        r is Ok,
        args@[0] is Array ==> r->Ok_0 == Value::Number(
            Number::Int(clamp64(args@[0]->Array_0.0@.len() as int) as i64),
        ),
        !(args@[0] is Array) ==> r->Ok_0 is Nothing,
{
    let v = args.remove(0);
    match v {
        Value::Array(a) => {
            let n = a.0.len();
            let c: i64 = if (n as u64) > (i64::MAX as u64) {
                i64::MAX
            } else {
                n as i64
            };
            Ok(Value::Number(Number::Int(c)))
        },
        _ => Ok(Value::Nothing),
    }
}

/// The two arrays joined end to end; anything else yields the absent
/// value.
pub fn concat(_ctx: &Context, mut args: Vec<Value>) -> (r: Result<Value, Error>)
    requires
        args@.len() >= 2,
    ensures
        r is Ok,
        args@[0] is Array && args@[1] is Array ==> r->Ok_0 is Array
            && r->Ok_0->Array_0.0@ == args@[0]->Array_0.0@ + args@[1]->Array_0.0@,
        !(args@[0] is Array && args@[1] is Array) ==> r->Ok_0 is Nothing,
{
    let v = args.remove(0);
    let w = args.remove(0);
    match (v, w) {
        (Value::Array(mut a), Value::Array(mut b)) => {
            a.0.append(&mut b.0);
            Ok(Value::Array(a))
        },
        _ => Ok(Value::Nothing),
    }
}

/// Drops the duplicates of a list, keeping first occurrences in order.
#[verifier::loop_isolation(false)]
fn dedup_values(src: Vec<Value>) -> (r: Vec<Value>)
    ensures
        r@ == spec_dedup(src@),
{
    let ghost all = src@;
    let mut src = src;
    let n = src.len();
    let mut out: Vec<Value> = Vec::new();
    let mut i: usize = 0;
    proof {
        assert(all.subrange(0, 0) =~= Seq::<Value>::empty());
        assert(out@ =~= spec_dedup(all.subrange(0, 0)));
        assert(src@ =~= all.subrange(0, n as int));
    }
    while i < n
        invariant
            0 <= i <= n == all.len(),
            src@ == all.subrange(i as int, n as int),
            out@ == spec_dedup(all.subrange(0, i as int)),
        decreases n - i,
    {
        let x = src.remove(0);
        proof {
            assert(all.subrange(i as int, n as int)[0] == all[i as int]);
            assert(src@ =~= all.subrange(i + 1, n as int));
            assert(all.subrange(0, i + 1).drop_last() =~= all.subrange(0, i as int));
            assert(all.subrange(0, i + 1).last() == all[i as int]);
        }
        if !vec_holds(&out, &x) {
            out.push(x);
        }
        i = i + 1;
    }
    proof {
        assert(all.subrange(0, n as int) =~= all);
    }
    out
}

/// The array without duplicates: exactly the first occurrence of each
/// distinct element, in original order; anything else yields the absent
/// value.
pub fn distinct(_ctx: &Context, mut args: Vec<Value>) -> (r: Result<Value, Error>)
    requires
        args@.len() >= 1,
    ensures
        r is Ok,
        args@[0] is Array ==> r->Ok_0 is Array && r->Ok_0->Array_0.0@ == spec_dedup(
            args@[0]->Array_0.0@,
        ),
        !(args@[0] is Array) ==> r->Ok_0 is Nothing,
{
    let v = args.remove(0);
    match v {
        Value::Array(a) => Ok(Value::Array(Array(dedup_values(a.0)))),
        _ => Ok(Value::Nothing),
    }
}

/// The first array followed by the second's new elements: exactly the
/// duplicate-free form of their concatenation, first occurrences kept in
/// order; anything else yields the absent value.
pub fn union(_ctx: &Context, mut args: Vec<Value>) -> (r: Result<Value, Error>)
    requires
        args@.len() >= 2,
    ensures
        r is Ok,
        args@[0] is Array && args@[1] is Array ==> r->Ok_0 is Array
            && r->Ok_0->Array_0.0@ == spec_dedup(args@[0]->Array_0.0@ + args@[1]->Array_0.0@),
        !(args@[0] is Array && args@[1] is Array) ==> r->Ok_0 is Nothing,
{
    let v = args.remove(0);
    let w = args.remove(0);
    match (v, w) {
        (Value::Array(mut a), Value::Array(mut b)) => {
            let ghost av = a.0@;
            let ghost bv = b.0@;
            a.0.append(&mut b.0);
            proof {
                assert(a.0@ == av + bv);
            }
            Ok(Value::Array(Array(dedup_values(a.0))))
        },
        _ => Ok(Value::Nothing),
    }
}

/// The first position of an element deeply equal to the value, or -1.
pub open spec fn find_eq(s: Seq<Value>, x: Value) -> int
    decreases s.len(),
{
    if s.len() == 0 {
        -1
    } else if val_eq(s.first(), x) {
        0
    } else {
        let r = find_eq(s.drop_first(), x);
        if r == -1 {
            -1
        } else {
            r + 1
        }
    }
}

/// The found position is in range, matches, and no earlier one does.
pub proof fn lemma_find_eq(s: Seq<Value>, x: Value)
    ensures
        find_eq(s, x) == -1 ==> (forall|i: int| 0 <= i < s.len() ==> !val_eq(#[trigger] s[i], x)),
        find_eq(s, x) != -1 ==> 0 <= find_eq(s, x) < s.len() && val_eq(s[find_eq(s, x)], x) && (
        forall|i: int| 0 <= i < find_eq(s, x) ==> !val_eq(#[trigger] s[i], x)),
    decreases s.len(),
{
    if s.len() > 0 {
        lemma_find_eq(s.drop_first(), x);
        assert(forall|i: int| 1 <= i < s.len() ==> #[trigger] s[i] == s.drop_first()[i - 1]);
    }
}

/// No match can precede a matching position.
proof fn lemma_find_eq_first(s: Seq<Value>, x: Value, i: int)
    requires
        0 <= i < s.len(),
        val_eq(s[i], x),
    ensures
        0 <= find_eq(s, x) <= i,
    decreases s.len(),
{
    if val_eq(s.first(), x) {
        assert(find_eq(s, x) == 0);
    } else {
        assert(s[0] == s.first());
        assert(i > 0);
        assert(s.drop_first()[i - 1] == s[i]);
        lemma_find_eq_first(s.drop_first(), x, i - 1);
        let r = find_eq(s.drop_first(), x);
        assert(find_eq(s, x) == r + 1);
    }
}

/// Finds the first element deeply equal to the value.
#[verifier::loop_isolation(false)]
fn vec_find_eq(s: &Vec<Value>, x: &Value) -> (r: Option<usize>)
    ensures
        match r {
            Some(j) => j < s@.len() && j as int == find_eq(s@, *x),
            None => find_eq(s@, *x) == -1,
        },
{
    proof {
        lemma_find_eq(s@, *x);
    }
    let n = s.len();
    let mut i: usize = 0;
    while i < n
        invariant
            0 <= i <= n == s@.len(),
            forall|j: int| 0 <= j < i ==> !val_eq(#[trigger] s@[j], *x),
        decreases n - i,
    {
        if s[i].same(x) {
            proof {
                let f = find_eq(s@, *x);
                if f == -1 {
                    assert(!val_eq(s@[i as int], *x));
                    assert(false);
                }
                if f < i as int {
                    assert(!val_eq(s@[f], *x));
                    assert(false);
                }
                lemma_find_eq_first(s@, *x, i as int);
            }
            return Some(i);
        }
        i = i + 1;
    }
    proof {
        let f = find_eq(s@, *x);
        if f != -1 {
            assert(!val_eq(s@[f], *x));
            assert(false);
        }
    }
    None
}

/// The pairwise intersection of two lists: each element of the first that
/// can be matched with a so-far-unmatched element of the second, in the
/// first list's order; matches consume their partner, so duplicates pair
/// up one to one.
pub open spec fn spec_intersect(a: Seq<Value>, b: Seq<Value>) -> Seq<Value>
    decreases a.len(),
{
    if a.len() == 0 {
        Seq::empty()
    } else {
        let j = find_eq(b, a.first());
        if j == -1 {
            spec_intersect(a.drop_first(), b)
        } else {
            seq![a.first()] + spec_intersect(a.drop_first(), b.remove(j))
        }
    }
}

/// The pairwise difference of two lists: the first's unmatched elements in
/// order, then the second's unmatched leftovers; matches consume their
/// partner.
pub open spec fn spec_difference(a: Seq<Value>, b: Seq<Value>) -> Seq<Value>
    decreases a.len(),
{
    if a.len() == 0 {
        b
    } else {
        let j = find_eq(b, a.first());
        if j == -1 {
            seq![a.first()] + spec_difference(a.drop_first(), b)
        } else {
            spec_difference(a.drop_first(), b.remove(j))
        }
    }
}

/// The pairwise intersection of two arrays; anything else yields the
/// absent value.
#[verifier::loop_isolation(false)]
pub fn intersect(_ctx: &Context, mut args: Vec<Value>) -> (r: Result<Value, Error>)
    requires
        args@.len() >= 2,
    ensures
        r is Ok,
        args@[0] is Array && args@[1] is Array ==> r->Ok_0 is Array && r->Ok_0->Array_0.0@
            == spec_intersect(args@[0]->Array_0.0@, args@[1]->Array_0.0@),
        !(args@[0] is Array && args@[1] is Array) ==> r->Ok_0 is Nothing,
{
    let v = args.remove(0);
    let w = args.remove(0);
    match (v, w) {
        (Value::Array(a), Value::Array(b)) => {
            let ghost av = a.0@;
            let ghost bv = b.0@;
            let mut src = a.0;
            let mut other = b.0;
            let mut out: Vec<Value> = Vec::new();
            proof {
                assert(out@ + spec_intersect(src@, other@) =~= spec_intersect(av, bv));
            }
            while src.len() > 0
                invariant
                    out@ + spec_intersect(src@, other@) == spec_intersect(av, bv),
                decreases src@.len(),
            {
                let ghost src_pre = src@;
                let ghost other_pre = other@;
                let x = src.remove(0);
                proof {
                    assert(x == src_pre.first());
                    assert(src@ =~= src_pre.drop_first());
                }
                match vec_find_eq(&other, &x) {
                    Some(j) => {
                        other.remove(j);
                        proof {
                            assert(other@ =~= other_pre.remove(j as int));
                            assert(spec_intersect(src_pre, other_pre) == seq![x]
                                + spec_intersect(src@, other@));
                        }
                        out.push(x);
                        proof {
                            assert(out@ + spec_intersect(src@, other@) =~= spec_intersect(
                                av,
                                bv,
                            ));
                        }
                    },
                    None => {
                        proof {
                            assert(spec_intersect(src_pre, other_pre) == spec_intersect(
                                src@,
                                other@,
                            ));
                        }
                    },
                }
            }
            proof {
                assert(spec_intersect(src@, other@) =~= Seq::<Value>::empty());
                assert(out@ =~= spec_intersect(av, bv));
            }
            Ok(Value::Array(Array(out)))
        },
        _ => Ok(Value::Nothing),
    }
}

/// The pairwise difference of two arrays; anything else yields the absent
/// value.
#[verifier::loop_isolation(false)]
pub fn difference(_ctx: &Context, mut args: Vec<Value>) -> (r: Result<Value, Error>)
    requires
        args@.len() >= 2,
    ensures
        r is Ok,
        args@[0] is Array && args@[1] is Array ==> r->Ok_0 is Array && r->Ok_0->Array_0.0@
            == spec_difference(args@[0]->Array_0.0@, args@[1]->Array_0.0@),
        !(args@[0] is Array && args@[1] is Array) ==> r->Ok_0 is Nothing,
{
    let v = args.remove(0);
    let w = args.remove(0);
    match (v, w) {
        (Value::Array(a), Value::Array(b)) => {
            let ghost av = a.0@;
            let ghost bv = b.0@;
            let mut src = a.0;
            let mut other = b.0;
            let mut out: Vec<Value> = Vec::new();
            proof {
                assert(out@ + spec_difference(src@, other@) =~= spec_difference(av, bv));
            }
            while src.len() > 0
                invariant
                    out@ + spec_difference(src@, other@) == spec_difference(av, bv),
                decreases src@.len(),
            {
                let ghost src_pre = src@;
                let ghost other_pre = other@;
                let x = src.remove(0);
                proof {
                    assert(x == src_pre.first());
                    assert(src@ =~= src_pre.drop_first());
                }
                match vec_find_eq(&other, &x) {
                    Some(j) => {
                        other.remove(j);
                        proof {
                            assert(other@ =~= other_pre.remove(j as int));
                            assert(spec_difference(src_pre, other_pre) == spec_difference(
                                src@,
                                other@,
                            ));
                        }
                    },
                    None => {
                        out.push(x);
                        proof {
                            assert(spec_difference(src_pre, other_pre) == seq![x]
                                + spec_difference(src@, other@));
                            assert(out@ + spec_difference(src@, other@) =~= spec_difference(
                                av,
                                bv,
                            ));
                        }
                    },
                }
            }
            proof {
                assert(spec_difference(src@, other@) =~= other@);
            }
            let mut other = other;
            out.append(&mut other);
            proof {
                assert(out@ =~= spec_difference(av, bv));
            }
            Ok(Value::Array(Array(out)))
        },
        _ => Ok(Value::Nothing),
    }
}

/// The pairwise combinations of two arrays: one two-element array for
/// every pair, the first operand's elements outermost; anything else
/// yields the absent value.
#[verifier::loop_isolation(false)]
pub fn combine(_ctx: &Context, mut args: Vec<Value>) -> (r: Result<Value, Error>)
    requires
        args@.len() >= 2,
    ensures
        r is Ok,
        args@[0] is Array && args@[1] is Array ==> ({
            let a = args@[0]->Array_0.0@;
            let b = args@[1]->Array_0.0@;
            &&& r->Ok_0 is Array
            &&& r->Ok_0->Array_0.0@.len() == a.len() * b.len()
            &&& (forall|i: int, j: int|
                0 <= i < a.len() && 0 <= j < b.len() ==> {
                    let p = #[trigger] r->Ok_0->Array_0.0@[i * b.len() + j];
                    &&& p is Array
                    &&& p->Array_0.0@.len() == 2
                    &&& crate::sql::value::val_exact(p->Array_0.0@[0], a[i])
                    &&& crate::sql::value::val_exact(p->Array_0.0@[1], b[j])
                })
        }),
        !(args@[0] is Array && args@[1] is Array) ==> r->Ok_0 is Nothing,
{
    let v = args.remove(0);
    let w = args.remove(0);
    match (v, w) {
        (Value::Array(a), Value::Array(b)) => {
            let an = a.0.len();
            let bn = b.0.len();
            let mut out: Vec<Value> = Vec::new();
            let mut i: usize = 0;
            proof {
                assert(0 * bn == 0) by (nonlinear_arith);
            }
            while i < an
                invariant
                    0 <= i <= an == a.0@.len(),
                    bn == b.0@.len(),
                    out@.len() == i * bn,
                    forall|i0: int, j0: int|
                        0 <= i0 < i && 0 <= j0 < bn ==> {
                            let p = #[trigger] out@[i0 * bn + j0];
                            &&& p is Array
                            &&& p->Array_0.0@.len() == 2
                            &&& crate::sql::value::val_exact(p->Array_0.0@[0], a.0@[i0])
                            &&& crate::sql::value::val_exact(p->Array_0.0@[1], b.0@[j0])
                        },
                decreases an - i,
            {
                let mut j: usize = 0;
                while j < bn
                    invariant
                        0 <= j <= bn,
                        0 <= i < an,
                        out@.len() == i * bn + j,
                        forall|i0: int, j0: int|
                            (0 <= i0 < i && 0 <= j0 < bn) || (i0 == i && 0 <= j0 < j) ==> {
                                let p = #[trigger] out@[i0 * bn + j0];
                                &&& p is Array
                                &&& p->Array_0.0@.len() == 2
                                &&& crate::sql::value::val_exact(p->Array_0.0@[0], a.0@[i0])
                                &&& crate::sql::value::val_exact(p->Array_0.0@[1], b.0@[j0])
                            },
                    decreases bn - j,
                {
                    let pair: Vec<Value> = vec![a.0[i].clone(), b.0[j].clone()];
                    out.push(Value::Array(Array(pair)));
                    proof {
                        crate::sql::value::lemma_val_exact_refl(a.0@[i as int]);
                        crate::sql::value::lemma_val_exact_refl(b.0@[j as int]);
                        assert forall|i0: int, j0: int|
                            (0 <= i0 < i && 0 <= j0 < bn) || (i0 == i as int && 0 <= j0 < j
                                + 1) implies {
                            let p = #[trigger] out@[i0 * bn + j0];
                            &&& p is Array
                            &&& p->Array_0.0@.len() == 2
                            &&& crate::sql::value::val_exact(p->Array_0.0@[0], a.0@[i0])
                            &&& crate::sql::value::val_exact(p->Array_0.0@[1], b.0@[j0])
                        } by {
                            if i0 == i as int && j0 == j as int {
                                assert(i0 * bn + j0 == out@.len() - 1);
                            } else {
                                assert(i0 * bn + j0 < out@.len() - 1) by (nonlinear_arith)
                                    requires
                                        0 <= j0 < bn,
                                        0 <= i0,
                                        (i0 < i as int || (i0 == i as int && j0 < j as int)),
                                        out@.len() == i * bn + j + 1,
                                        0 <= i,
                                        0 <= j,
                                ;
                            }
                        }
                    }
                    j = j + 1;
                }
                proof {
                    assert(i * bn + bn == (i + 1) * bn) by (nonlinear_arith);
                }
                i = i + 1;
            }
            Ok(Value::Array(Array(out)))
        },
        _ => Ok(Value::Nothing),
    }
}

/// Deduplication never invents elements: every kept element stands in the
/// source, every source element is represented, and no two kept elements
/// coincide.  First occurrences survive by construction, so deduplication
/// is idempotent.
pub proof fn lemma_dedup_sound(src: Seq<Value>)
    ensures
        forall|i: int| 0 <= i < spec_dedup(src).len() ==> holds(src, #[trigger] spec_dedup(src)[i]),
        forall|i: int| 0 <= i < src.len() ==> holds(spec_dedup(src), #[trigger] src[i]),
        forall|i: int, j: int|
            0 <= i < j < spec_dedup(src).len() ==> !val_eq(
                #[trigger] spec_dedup(src)[i],
                #[trigger] spec_dedup(src)[j],
            ),
        spec_dedup(spec_dedup(src)) == spec_dedup(src),
    decreases src.len(),
{
    let d = spec_dedup(src);
    if src.len() == 0 {
        assert(spec_dedup(d) =~= d);
    } else {
        lemma_dedup_sound(src.drop_last());
        let rest = spec_dedup(src.drop_last());
        let x = src.last();
        assert forall|i: int| 0 <= i < d.len() implies holds(src, #[trigger] d[i]) by {
            if i < rest.len() {
                assert(d[i] == rest[i]);
                assert(holds(src.drop_last(), rest[i]));
                let w = choose|w: int|
                    0 <= w < src.drop_last().len() && val_eq(#[trigger] src.drop_last()[w], rest[i]);
                assert(val_eq(src[w], d[i]));
            } else {
                assert(d[i] == x);
                crate::sql::value::lemma_val_exact_refl(x);
                lemma_val_exact_is_eq(x, x);
                assert(val_eq(src[src.len() - 1], d[i]));
            }
        }
        assert forall|i: int| 0 <= i < src.len() implies holds(d, #[trigger] src[i]) by {
            if i < src.len() - 1 {
                assert(src.drop_last()[i] == src[i]);
                assert(holds(rest, src[i]));
                let w = choose|w: int| 0 <= w < rest.len() && val_eq(#[trigger] rest[w], src[i]);
                if holds(rest, x) {
                    assert(d[w] == rest[w]);
                } else {
                    assert(d[w] == rest[w]);
                }
                assert(val_eq(d[w], src[i]));
            } else {
                if holds(rest, x) {
                    let w = choose|w: int| 0 <= w < rest.len() && val_eq(#[trigger] rest[w], x);
                    assert(val_eq(d[w], src[i]));
                } else {
                    crate::sql::value::lemma_val_exact_refl(x);
                    lemma_val_exact_is_eq(x, x);
                    assert(val_eq(d[d.len() - 1], src[i]));
                }
            }
        }
        assert forall|i: int, j: int| 0 <= i < j < d.len() implies !val_eq(
            #[trigger] d[i],
            #[trigger] d[j],
        ) by {
            if j < rest.len() {
                assert(d[i] == rest[i] && d[j] == rest[j]);
            } else if !holds(rest, x) && j == rest.len() {
                assert(d[i] == rest[i] && d[j] == x);
                if val_eq(d[i], x) {
                    assert(holds(rest, x));
                }
            }
        }
        lemma_dedup_fixed(d);
    }
}

/// A duplicate-free list deduplicates to itself.
proof fn lemma_dedup_fixed(s: Seq<Value>)
    requires
        forall|i: int, j: int| 0 <= i < j < s.len() ==> !val_eq(#[trigger] s[i], #[trigger] s[j]),
    ensures
        spec_dedup(s) == s,
    decreases s.len(),
{
    if s.len() == 0 {
        assert(spec_dedup(s) =~= s);
    } else {
        assert(forall|i: int, j: int|
            0 <= i < j < s.drop_last().len() ==> !val_eq(
                #[trigger] s.drop_last()[i],
                #[trigger] s.drop_last()[j],
            )) by {
            assert(forall|i: int|
                0 <= i < s.drop_last().len() ==> #[trigger] s.drop_last()[i] == s[i]);
        }
        lemma_dedup_fixed(s.drop_last());
        if holds(s.drop_last(), s.last()) {
            let w = choose|w: int|
                0 <= w < s.drop_last().len() && val_eq(#[trigger] s.drop_last()[w], s.last());
            assert(val_eq(s[w], s[s.len() - 1]));
            assert(false);
        }
        assert(spec_dedup(s) =~= s);
    }
}

/// Exact structural equality implies deep value equality.
proof fn lemma_val_exact_is_eq(a: Value, b: Value)
    requires
        crate::sql::value::val_exact(a, b),
    ensures
        val_eq(a, b),
    decreases a,
{
    match a {
        Value::Array(x) => {
            match b {
                Value::Array(y) => {
                    assert forall|i: int| 0 <= i < x.0.len() implies val_eq(
                        #[trigger] x.0[i],
                        y.0[i],
                    ) by {
                        vstd::std_specs::vec::axiom_vec_index_decreases(x.0, i);
                        lemma_val_exact_is_eq(x.0[i], y.0[i]);
                    }
                },
                _ => {},
            }
        },
        Value::Object(x) => {
            match b {
                Value::Object(y) => {
                    assert forall|i: int| 0 <= i < x.0.len() implies (#[trigger] x.0[i]).0@
                        == y.0[i].0@ && val_eq(x.0[i].1, y.0[i].1) by {
                        vstd::std_specs::vec::axiom_vec_index_decreases(x.0, i);
                        lemma_val_exact_is_eq(x.0[i].1, y.0[i].1);
                    }
                },
                _ => {},
            }
        },
        _ => {},
    }
}

} // verus!
