//! Garbage collection: deleting change-log entries at or below a
//! watermark, bounded by a per-call limit.  No entry with a versionstamp
//! above the watermark is ever deleted; callers needing to collect more
//! than `limit` entries invoke repeatedly.

use vstd::prelude::*;
use crate::err::Error;
use crate::key::cf::{
    cf_encodable, is_cf_key, spec_cf_fields, spec_cf_key, spec_cf_suffix, spec_ts_prefix,
    suffix, ts_prefix,
};
use crate::key::valid_seg_chars;
use crate::kvs::store::{
    has_entry, in_range, spec_delr, Entry, Transaction,
};
use crate::text::bytes_of_chars;
use crate::vs::{be_num, lex_lt, spec_u64_vs, u64_to_versionstamp};

verus! {

broadcast use vstd::std_specs::vec::group_vec_axioms, vstd::seq::group_seq_axioms;

/// The lower bound of a scope's garbage-collection range: its smallest
/// possible key.
pub open spec fn gc_beg(ns: Seq<char>, db: Seq<char>) -> Seq<u8> {
    spec_ts_prefix(bytes_of_chars(ns), bytes_of_chars(db), spec_u64_vs(0))
}

/// The exclusive upper bound of a scope's garbage-collection range: the
/// first key above the watermark, or the whole scope when the watermark
/// saturates the counter range.
pub open spec fn gc_end(ns: Seq<char>, db: Seq<char>, watermark: u64) -> Seq<u8> {
    if watermark < u64::MAX {
        spec_ts_prefix(
            bytes_of_chars(ns),
            bytes_of_chars(db),
            spec_u64_vs((watermark + 1) as u64),
        )
    } else {
        spec_cf_suffix(bytes_of_chars(ns), bytes_of_chars(db))
    }
}

/// Deletes up to `limit` change-log entries of one scope whose
/// versionstamps are at or below the watermark; the boundary is exclusive
/// at the key of `watermark + 1`.
pub fn gc_db(
    tx: &mut Transaction,
    ns: &str,
    db: &str,
    watermark: u64,
    limit: Option<u32>,
) -> (r: Result<(), Error>)
    requires
        old(tx).wf(),
    ensures
        match r {
            Ok(()) => {
                let lim: nat = if limit is Some {
                    limit->0 as nat
                } else {
                    100
                };
                &&& valid_seg_chars(ns@) && valid_seg_chars(db@)
                &&& final(tx).wf()
                &&& final(tx).entries@ == spec_delr(
                    old(tx).entries@,
                    gc_beg(ns@, db@),
                    gc_end(ns@, db@, watermark),
                    lim,
                )
                &&& final(tx).counters@ == old(tx).counters@
                &&& final(tx).cf.buf.b@ == old(tx).cf.buf.b@
            },
            Err(e) => {
                &&& e == Error::Encoding
                &&& !(valid_seg_chars(ns@) && valid_seg_chars(db@))
                &&& *final(tx) == *old(tx)
            },
        },
{
    let beg = match ts_prefix(ns, db, u64_to_versionstamp(0)) {
        Ok(k) => k,
        Err(e) => {
            return Err(e);
        },
    };
    let end = if watermark < u64::MAX {
        match ts_prefix(ns, db, u64_to_versionstamp(watermark + 1)) {
            Ok(k) => k,
            Err(e) => {
                return Err(e);
            },
        }
    } else {
        match suffix(ns, db) {
            Ok(k) => k,
            Err(e) => {
                return Err(e);
            },
        }
    };
    let lim: u32 = match limit {
        Some(x) => x,
        None => 100,
    };
    tx.delr(&beg, &end, lim);
    Ok(())
}

/// The (namespace, database) scope names drawn from the counter list from
/// position `i` on, optionally filtered to one namespace.
pub open spec fn scopes_from(
    counters: Seq<(String, String, u64)>,
    i: int,
    nsf: Option<Seq<char>>,
) -> Seq<(Seq<char>, Seq<char>)>
    decreases counters.len() - i,
{
    if i < 0 || i >= counters.len() {
        Seq::empty()
    } else {
        let rest = scopes_from(counters, i + 1, nsf);
        if nsf is None || counters[i].0@ == nsf->0 {
            seq![(counters[i].0@, counters[i].1@)] + rest
        } else {
            rest
        }
    }
}

/// The store after one bounded garbage-collection pass per listed scope,
/// in list order; the limit bounds each per-scope pass, not the whole.
pub open spec fn spec_gc_scopes(
    entries: Seq<Entry>,
    scopes: Seq<(Seq<char>, Seq<char>)>,
    watermark: u64,
    lim: nat,
) -> Seq<Entry>
    decreases scopes.len(),
{
    if scopes.len() == 0 {
        entries
    } else {
        spec_delr(
            spec_gc_scopes(entries, scopes.drop_last(), watermark, lim),
            gc_beg(scopes.last().0, scopes.last().1),
            gc_end(scopes.last().0, scopes.last().1, watermark),
            lim,
        )
    }
}

/// Collects garbage for every database of one namespace known to the
/// store: one bounded pass per scope of that namespace, in counter-list
/// order.
pub fn gc_ns(
    tx: &mut Transaction,
    ns: &str,
    watermark: u64,
    limit: Option<u32>,
) -> (r: Result<(), Error>)
    requires
        old(tx).wf(),
    ensures
        r is Ok,
        final(tx).wf(),
        final(tx).counters@ == old(tx).counters@,
        final(tx).cf.buf.b@ == old(tx).cf.buf.b@,
        ({
            let lim: nat = if limit is Some {
                limit->0 as nat
            } else {
                100
            };
            final(tx).entries@ == spec_gc_scopes(
                old(tx).entries@,
                scopes_from(old(tx).counters@, 0, Some(ns@)),
                watermark,
                lim,
            )
        }),
{
    let mut scopes: Vec<(String, String)> = Vec::new();
    let n = tx.counters.len();
    let mut i: usize = 0;
    while i < n
        invariant
            0 <= i <= n == tx.counters@.len(),
            tx.wf(),
            scopes_from(tx.counters@, 0, Some(ns@)) == scopes@.map_values(
                |p: (String, String)| (p.0@, p.1@),
            ) + scopes_from(tx.counters@, i as int, Some(ns@)),
            forall|k: int|
                0 <= k < scopes@.len() ==> valid_seg_chars((#[trigger] scopes@[k]).0@)
                    && valid_seg_chars(scopes@[k].1@),
        decreases n - i,
    {
        let ghost views = scopes@.map_values(|p: (String, String)| (p.0@, p.1@));
        if crate::text::str_eq(tx.counters[i].0.as_str(), ns) {
            scopes.push((tx.counters[i].0.clone(), tx.counters[i].1.clone()));
            proof {
                assert(scopes@.map_values(|p: (String, String)| (p.0@, p.1@)) =~= views.push(
                    (tx.counters@[i as int].0@, tx.counters@[i as int].1@),
                ));
                assert(views.push((tx.counters@[i as int].0@, tx.counters@[i as int].1@)) + scopes_from(
                    tx.counters@,
                    i + 1,
                    Some(ns@),
                ) =~= views + (seq![(tx.counters@[i as int].0@, tx.counters@[i as int].1@)]
                    + scopes_from(tx.counters@, i + 1, Some(ns@))));
            }
        } else {
            proof {
                assert(!(tx.counters@[i as int].0@ == ns@));
            }
        }
        i = i + 1;
    }
    proof {
        assert(scopes_from(tx.counters@, n as int, Some(ns@)) =~= Seq::<
            (Seq<char>, Seq<char>),
        >::empty());
        assert(scopes_from(tx.counters@, 0, Some(ns@)) =~= scopes@.map_values(
            |p: (String, String)| (p.0@, p.1@),
        ));
    }
    gc_scopes(tx, &scopes, watermark, limit);
    Ok(())
}

/// Collects garbage for every (namespace, database) scope known to the
/// store: one bounded pass per scope, in counter-list order.
pub fn gc_all(tx: &mut Transaction, watermark: u64, limit: Option<u32>) -> (r: Result<(), Error>)
    requires
        old(tx).wf(),
    ensures
        r is Ok,
        final(tx).wf(),
        final(tx).counters@ == old(tx).counters@,
        final(tx).cf.buf.b@ == old(tx).cf.buf.b@,
        ({
            let lim: nat = if limit is Some {
                limit->0 as nat
            } else {
                100
            };
            final(tx).entries@ == spec_gc_scopes(
                old(tx).entries@,
                scopes_from(old(tx).counters@, 0, None),
                watermark,
                lim,
            )
        }),
{
    let mut scopes: Vec<(String, String)> = Vec::new();
    let n = tx.counters.len();
    let mut i: usize = 0;
    while i < n
        invariant
            0 <= i <= n == tx.counters@.len(),
            tx.wf(),
            scopes_from(tx.counters@, 0, None) == scopes@.map_values(
                |p: (String, String)| (p.0@, p.1@),
            ) + scopes_from(tx.counters@, i as int, None),
            forall|k: int|
                0 <= k < scopes@.len() ==> valid_seg_chars((#[trigger] scopes@[k]).0@)
                    && valid_seg_chars(scopes@[k].1@),
        decreases n - i,
    {
        let ghost views = scopes@.map_values(|p: (String, String)| (p.0@, p.1@));
        scopes.push((tx.counters[i].0.clone(), tx.counters[i].1.clone()));
        proof {
            assert(scopes@.map_values(|p: (String, String)| (p.0@, p.1@)) =~= views.push(
                (tx.counters@[i as int].0@, tx.counters@[i as int].1@),
            ));
            assert(views.push((tx.counters@[i as int].0@, tx.counters@[i as int].1@))
                + scopes_from(tx.counters@, i + 1, None) =~= views + (seq![
                (tx.counters@[i as int].0@, tx.counters@[i as int].1@),
            ] + scopes_from(tx.counters@, i + 1, None)));
        }
        i = i + 1;
    }
    proof {
        assert(scopes_from(tx.counters@, n as int, None) =~= Seq::<
            (Seq<char>, Seq<char>),
        >::empty());
        assert(scopes_from(tx.counters@, 0, None) =~= scopes@.map_values(
            |p: (String, String)| (p.0@, p.1@),
        ));
    }
    gc_scopes(tx, &scopes, watermark, limit);
    Ok(())
}

/// One bounded garbage-collection pass per listed scope, in order.
#[verifier::loop_isolation(false)]
fn gc_scopes(tx: &mut Transaction, scopes: &Vec<(String, String)>, watermark: u64, limit: Option<
    u32,
>)
    requires
        old(tx).wf(),
        forall|k: int|
            0 <= k < scopes@.len() ==> valid_seg_chars((#[trigger] scopes@[k]).0@)
                && valid_seg_chars(scopes@[k].1@),
    ensures
        final(tx).wf(),
        final(tx).counters@ == old(tx).counters@,
        final(tx).cf.buf.b@ == old(tx).cf.buf.b@,
        ({
            let lim: nat = if limit is Some {
                limit->0 as nat
            } else {
                100
            };
            final(tx).entries@ == spec_gc_scopes(
                old(tx).entries@,
                scopes@.map_values(|p: (String, String)| (p.0@, p.1@)),
                watermark,
                lim,
            )
        }),
{
    let ghost views = scopes@.map_values(|p: (String, String)| (p.0@, p.1@));
    let ghost lim_g: nat = if limit is Some {
        limit->0 as nat
    } else {
        100
    };
    let n = scopes.len();
    let mut i: usize = 0;
    proof {
        assert(views.subrange(0, 0) =~= Seq::<(Seq<char>, Seq<char>)>::empty());
    }
    while i < n
        invariant
            0 <= i <= n == scopes@.len(),
            tx.wf(),
            tx.counters@ == old(tx).counters@,
            tx.cf.buf.b@ == old(tx).cf.buf.b@,
            tx.entries@ == spec_gc_scopes(
                old(tx).entries@,
                views.subrange(0, i as int),
                watermark,
                lim_g,
            ),
        decreases n - i,
    {
        let lim: u32 = match limit {
            Some(x) => x,
            None => 100,
        };
        let beg = match crate::key::cf::ts_prefix(
            scopes[i].0.as_str(),
            scopes[i].1.as_str(),
            u64_to_versionstamp(0),
        ) {
            Ok(k) => k,
            Err(_e) => {
                proof {
                    assert(valid_seg_chars(scopes@[i as int].0@));
                    assert(false);
                }
                Vec::new()
            },
        };
        let end = if watermark < u64::MAX {
            match crate::key::cf::ts_prefix(
                scopes[i].0.as_str(),
                scopes[i].1.as_str(),
                u64_to_versionstamp(watermark + 1),
            ) {
                Ok(k) => k,
                Err(_e) => {
                    proof {
                        assert(valid_seg_chars(scopes@[i as int].0@));
                        assert(false);
                    }
                    Vec::new()
                },
            }
        } else {
            match crate::key::cf::suffix(scopes[i].0.as_str(), scopes[i].1.as_str()) {
                Ok(k) => k,
                Err(_e) => {
                    proof {
                        assert(valid_seg_chars(scopes@[i as int].0@));
                        assert(false);
                    }
                    Vec::new()
                },
            }
        };
        proof {
            assert(beg@ == gc_beg(views[i as int].0, views[i as int].1));
            assert(end@ == gc_end(views[i as int].0, views[i as int].1, watermark));
        }
        tx.delr(&beg, &end, lim);
        proof {
            assert(views.subrange(0, i + 1).drop_last() =~= views.subrange(0, i as int));
            assert(views.subrange(0, i + 1).last() == views[i as int]);
            assert(tx.entries@ =~= spec_gc_scopes(
                old(tx).entries@,
                views.subrange(0, i + 1),
                watermark,
                lim_g,
            ));
        }
        i = i + 1;
    }
    proof {
        assert(views.subrange(0, n as int) =~= views);
    }
}

/// An entry of one scope whose versionstamp lies above the watermark never
/// An entry of one scope whose versionstamp lies above the watermark never
/// falls in the scope's garbage-collection range.
pub proof fn lemma_watermark_out_of_range(
    a: Seq<u8>,
    b: Seq<u8>,
    ts: Seq<u8>,
    tb: Seq<u8>,
    ns: Seq<char>,
    db: Seq<char>,
    watermark: u64,
)
    requires
        cf_encodable(a, b, ts, tb),
        valid_seg_chars(ns),
        valid_seg_chars(db),
        watermark < u64::MAX,
        be_num(ts) > watermark * 0x10000 + 0xffff,
    ensures
        !in_range(spec_cf_key(a, b, ts, tb), gc_beg(ns, db), gc_end(ns, db, watermark)),
{
    let k = spec_cf_key(a, b, ts, tb);
    if in_range(k, gc_beg(ns, db), gc_end(ns, db, watermark)) {
        crate::key::lemma_valid_seg_to_bytes(ns);
        crate::key::lemma_valid_seg_to_bytes(db);
        let nsb = bytes_of_chars(ns);
        let dbb = bytes_of_chars(db);
        assert(gc_beg(ns, db) == crate::key::cf::spec_cf_root(nsb, dbb) + spec_u64_vs(0));
        assert(gc_end(ns, db, watermark) == crate::key::cf::spec_cf_root(nsb, dbb) + spec_u64_vs(
            (watermark + 1) as u64,
        ));
        crate::key::cf::lemma_range_same_scope(
            a,
            b,
            ts,
            tb,
            nsb,
            dbb,
            spec_u64_vs(0),
            spec_u64_vs((watermark + 1) as u64),
        );
        crate::vs::lemma_u64_vs_num((watermark + 1) as u64);
        crate::key::cf::lemma_key_vs_ts_prefix(a, b, ts, tb, spec_u64_vs(
            (watermark + 1) as u64,
        ));
        assert(be_num(ts) < (watermark + 1) * 0x10000);
        assert(false);
    }
}

/// Garbage collection respects the watermark: an entry of the collected
/// scope stamped above the watermark survives the pass.
pub proof fn lemma_gc_respects_watermark(
    s: Seq<Entry>,
    e: int,
    ns: Seq<char>,
    db: Seq<char>,
    watermark: u64,
    lim: nat,
)
    requires
        0 <= e < s.len(),
        valid_seg_chars(ns),
        valid_seg_chars(db),
        watermark < u64::MAX,
        is_cf_key(s[e].0@),
        be_num(spec_cf_fields(s[e].0@).2) > watermark * 0x10000 + 0xffff,
    ensures
        has_entry(spec_delr(s, gc_beg(ns, db), gc_end(ns, db, watermark), lim), s[e]),
{
    let f = spec_cf_fields(s[e].0@);
    assert(cf_encodable(f.0, f.1, f.2, f.3) && s[e].0@ == spec_cf_key(f.0, f.1, f.2, f.3)) by {
        let (a2, b2, c2, d2) = choose|a2: Seq<u8>, b2: Seq<u8>, c2: Seq<u8>, d2: Seq<u8>|
            cf_encodable(a2, b2, c2, d2) && s[e].0@ == #[trigger] spec_cf_key(a2, b2, c2, d2);
        assert(cf_encodable(a2, b2, c2, d2) && s[e].0@ == spec_cf_key(a2, b2, c2, d2));
        let w = (a2, b2, c2, d2);
        assert(cf_encodable(w.0, w.1, w.2, w.3) && s[e].0@ == spec_cf_key(w.0, w.1, w.2, w.3));
    }
    lemma_watermark_out_of_range(f.0, f.1, f.2, f.3, ns, db, watermark);
    crate::kvs::store::lemma_delr_keeps_out(s, gc_beg(ns, db), gc_end(ns, db, watermark), lim, e);
}

/// A second pass with the same watermark deletes nothing: a range with no
/// matching entries left is already collected.
pub proof fn lemma_gc_idempotent(s: Seq<Entry>, beg: Seq<u8>, end: Seq<u8>, lim: nat)
    requires
        forall|e: int| 0 <= e < s.len() ==> !in_range((#[trigger] s[e]).0@, beg, end),
    ensures
        spec_delr(s, beg, end, lim) == s,
    decreases s.len(),
{
    if s.len() > 0 {
        assert(!in_range(s[0].0@, beg, end));
        assert(forall|e: int|
            0 <= e < s.drop_first().len() ==> #[trigger] s.drop_first()[e] == s[e + 1]);
        lemma_gc_idempotent(s.drop_first(), beg, end, lim);
        assert(spec_delr(s, beg, end, lim) =~= s);
    } else {
        assert(spec_delr(s, beg, end, lim) =~= s);
    }
}

/// A pass whose limit covers every matching entry leaves none in range, so
/// the next pass with the same bounds deletes nothing.
pub proof fn lemma_gc_complete(s: Seq<Entry>, beg: Seq<u8>, end: Seq<u8>, lim: nat)
    requires
        crate::kvs::store::range_count(s, beg, end) <= lim,
    ensures
        forall|e: int|
            0 <= e < spec_delr(s, beg, end, lim).len() ==> !in_range(
                (#[trigger] spec_delr(s, beg, end, lim)[e]).0@,
                beg,
                end,
            ),
        spec_delr(spec_delr(s, beg, end, lim), beg, end, lim) == spec_delr(s, beg, end, lim),
    decreases s.len(),
{
    crate::kvs::store::lemma_delr_complete(s, beg, end, lim);
    lemma_gc_idempotent(spec_delr(s, beg, end, lim), beg, end, lim);
}

} // verus!
