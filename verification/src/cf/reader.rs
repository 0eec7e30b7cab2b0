//! Reading the change log back: one bounded forward scan, decoded and
//! grouped into change sets.  All entries for one versionstamp are
//! scan-contiguous, so a change-set boundary falls exactly where the
//! decoded versionstamp changes.  An undecodable key aborts the whole read;
//! a filtered-out table only drops that entry from consideration.

use vstd::prelude::*;
use crate::err::Error;
use crate::key::cf::{is_cf_key, spec_cf_fields, spec_cf_suffix, spec_ts_prefix, suffix, ts_prefix, Cf};
use crate::key::valid_seg_chars;
use crate::kvs::store::{spec_scan, Entry, Transaction};
use crate::sql::changefeed::{tms_eq, ChangeSet, DatabaseMutation, TableMutations};
use crate::text::bytes_of_chars;
use crate::vs::{spec_u64_vs, u64_to_versionstamp, Versionstamp};

verus! {

broadcast use vstd::std_specs::vec::group_vec_axioms, vstd::seq::group_seq_axioms;

/// Whether every scanned key is a well-formed change-feed key.
pub open spec fn all_keys_ok(raw: Seq<Entry>) -> bool {
    forall|i: int| 0 <= i < raw.len() ==> is_cf_key((#[trigger] raw[i]).0@)
}

/// Decodes the scanned entries and drops those not matching the table
/// filter: each retained entry becomes its versionstamp paired with its
/// mutations.
pub open spec fn dec_filter(raw: Seq<Entry>, tbf: Option<Seq<char>>) -> Seq<
    (Seq<u8>, TableMutations),
>
    decreases raw.len(),
{
    if raw.len() == 0 {
        Seq::empty()
    } else {
        let f = spec_cf_fields(raw.first().0@);
        let rest = dec_filter(raw.drop_first(), tbf);
        if tbf is Some && crate::text::chars_of_bytes(f.3) != tbf->0 {
            rest
        } else {
            seq![(f.2, raw.first().1)] + rest
        }
    }
}

/// Groups adjacent items by versionstamp equality: each group carries one
/// versionstamp and the mutations of its contiguous run.
pub open spec fn group_by_ts(items: Seq<(Seq<u8>, TableMutations)>) -> Seq<
    (Seq<u8>, Seq<TableMutations>),
>
    decreases items.len(),
{
    if items.len() == 0 {
        Seq::empty()
    } else {
        let x = items.first();
        let rest = group_by_ts(items.drop_first());
        if rest.len() > 0 && rest.first().0 == x.0 {
            seq![(x.0, seq![x.1] + rest.first().1)] + rest.drop_first()
        } else {
            seq![(x.0, seq![x.1])] + rest
        }
    }
}

/// Grouping is maximal: no two adjacent groups carry the same
/// versionstamp, so a change-set boundary falls exactly where the
/// versionstamp changes.
pub proof fn lemma_groups_adjacent_distinct(items: Seq<(Seq<u8>, TableMutations)>, g: int)
    requires
        0 <= g,
        g + 1 < group_by_ts(items).len(),
    ensures
        group_by_ts(items)[g].0 != group_by_ts(items)[g + 1].0,
    decreases items.len(),
{
    let gs = group_by_ts(items);
    if items.len() > 0 {
        let x = items.first();
        let rest = group_by_ts(items.drop_first());
        if rest.len() > 0 && rest.first().0 == x.0 {
            assert(gs == seq![(x.0, seq![x.1] + rest.first().1)] + rest.drop_first());
            if g == 0 {
                if rest.len() > 1 {
                    lemma_groups_adjacent_distinct(items.drop_first(), 0);
                    assert(gs[0].0 == rest[0].0);
                    assert(gs[1] == rest[1]);
                }
            } else {
                lemma_groups_adjacent_distinct(items.drop_first(), g);
                assert(gs[g] == rest[g]);
                assert(gs[g + 1] == rest[g + 1]);
            }
        } else {
            assert(gs == seq![(x.0, seq![x.1])] + rest);
            if g == 0 {
                assert(rest.len() > 0);
                assert(gs[1] == rest[0]);
            } else {
                lemma_groups_adjacent_distinct(items.drop_first(), g - 1);
                assert(gs[g] == rest[g - 1]);
                assert(gs[g + 1] == rest[g]);
            }
        }
    }
}

/// Every group a read produces is non-empty: each carries at least one
/// table's mutations.
pub proof fn lemma_groups_nonempty(items: Seq<(Seq<u8>, TableMutations)>, g: int)
    requires
        0 <= g < group_by_ts(items).len(),
    ensures
        group_by_ts(items)[g].1.len() >= 1,
    decreases items.len(),
{
    let gs = group_by_ts(items);
    if items.len() > 0 {
        let x = items.first();
        let rest = group_by_ts(items.drop_first());
        if rest.len() > 0 && rest.first().0 == x.0 {
            if g > 0 {
                lemma_groups_nonempty(items.drop_first(), g);
                assert(gs[g] == rest[g]);
            }
        } else {
            if g > 0 {
                lemma_groups_nonempty(items.drop_first(), g - 1);
                assert(gs[g] == rest[g - 1]);
            }
        }
    }
}

/// Whether the produced change sets stand for the grouped items: same
/// versionstamps, same group sizes, and structurally equal mutations.
pub open spec fn groups_match(cs: Seq<ChangeSet>, gs: Seq<(Seq<u8>, Seq<TableMutations>)>) -> bool {
    &&& cs.len() == gs.len()
    &&& (forall|i: int|
        0 <= i < cs.len() ==> ((#[trigger] cs[i]).0@ == gs[i].0 && (cs[i].1).0@.len()
            == gs[i].1.len() && (forall|j: int|
            0 <= j < (cs[i].1).0@.len() ==> tms_eq(#[trigger] (cs[i].1).0@[j], (gs[i].1)[j]))))
}

/// Appending one item extends the grouping by joining the last group or
/// opening a new one.
proof fn lemma_group_snoc(items: Seq<(Seq<u8>, TableMutations)>, x: (Seq<u8>, TableMutations))
    ensures
        ({
            let g = group_by_ts(items);
            let g2 = group_by_ts(items.push(x));
            if g.len() > 0 && g.last().0 == x.0 {
                g2 == g.update(g.len() - 1, (g.last().0, g.last().1.push(x.1)))
            } else {
                g2 == g.push((x.0, seq![x.1]))
            }
        }),
    decreases items.len(),
{
    let g = group_by_ts(items);
    let g2 = group_by_ts(items.push(x));
    if items.len() == 0 {
        assert(items.push(x).first() == x);
        assert(items.push(x).drop_first() =~= Seq::<(Seq<u8>, TableMutations)>::empty());
        assert(group_by_ts(items.push(x).drop_first()) =~= Seq::<
            (Seq<u8>, Seq<TableMutations>),
        >::empty());
        assert(g2 =~= seq![(x.0, seq![x.1])]);
        assert(g.push((x.0, seq![x.1])) =~= seq![(x.0, seq![x.1])]);
    } else {
        let y = items.first();
        assert(items.push(x).first() == y);
        assert(items.push(x).drop_first() =~= items.drop_first().push(x));
        lemma_group_snoc(items.drop_first(), x);
        let r = group_by_ts(items.drop_first());
        let r2 = group_by_ts(items.drop_first().push(x));
        if items.drop_first().len() == 0 {
            assert(r.len() == 0);
            assert(r2 =~= seq![(x.0, seq![x.1])]);
            assert(g =~= seq![(y.0, seq![y.1])]);
            if y.0 == x.0 {
                assert(g2 =~= seq![(y.0, seq![y.1] + seq![x.1])]);
                assert(seq![y.1] + seq![x.1] =~= seq![y.1].push(x.1));
                assert(g2 =~= g.update(g.len() - 1, (g.last().0, g.last().1.push(x.1))));
            } else {
                assert(g2 =~= seq![(y.0, seq![y.1]), (x.0, seq![x.1])]);
                assert(g.push((x.0, seq![x.1])) =~= seq![(y.0, seq![y.1]), (x.0, seq![x.1])]);
            }
        } else {
            assert(r.len() > 0);
            assert(r2.len() > 0);
            // the first group of the tail grouping is unchanged by the push
            // unless the tail was all one run that x extends
            if r.len() > 0 && r.last().0 == x.0 {
                assert(r2 == r.update(r.len() - 1, (r.last().0, r.last().1.push(x.1))));
                assert(r2.first().0 == r.first().0);
                if r.first().0 == y.0 {
                    assert(g =~= seq![(y.0, seq![y.1] + r.first().1)] + r.drop_first());
                    assert(g.len() == r.len());
                    assert(g.last().0 == r.last().0);
                    if r.len() == 1 {
                        assert(g2 =~= seq![(y.0, seq![y.1] + r2.first().1)] + r2.drop_first());
                        assert(g2 =~= g.update(g.len() - 1, (g.last().0, g.last().1.push(x.1))))
                            by {
                            assert(r2.first().1 =~= r.first().1.push(x.1));
                            assert((seq![y.1] + r.first().1.push(x.1)) =~= (seq![y.1]
                                + r.first().1).push(x.1));
                            assert(g2.len() == g.len());
                        }
                    } else {
                        assert(r2.first() == r.first());
                        assert(g2 =~= seq![(y.0, seq![y.1] + r.first().1)] + r2.drop_first());
                        assert(g2 =~= g.update(g.len() - 1, (g.last().0, g.last().1.push(x.1))))
                            by {
                            assert(g2.len() == g.len());
                            assert(forall|t: int|
                                0 <= t < g.len() - 1 ==> #[trigger] g2[t] == g[t]);
                            assert(g2[g.len() - 1] == r2.last());
                        }
                    }
                } else {
                    assert(g =~= seq![(y.0, seq![y.1])] + r);
                    if r.len() == 1 {
                        assert(g2 =~= seq![(y.0, seq![y.1])] + r2);
                        assert(g2 =~= g.update(g.len() - 1, (g.last().0, g.last().1.push(x.1))));
                    } else {
                        assert(r2.first() == r.first());
                        assert(g2 =~= seq![(y.0, seq![y.1])] + r2);
                        assert(g2 =~= g.update(g.len() - 1, (g.last().0, g.last().1.push(x.1))))
                            by {
                            assert(g2.len() == g.len());
                            assert(forall|t: int|
                                0 <= t < g.len() - 1 ==> #[trigger] g2[t] == g[t]);
                        }
                    }
                }
            } else {
                assert(r2 == r.push((x.0, seq![x.1])));
                assert(r2.first() == r.first());
                if r.first().0 == y.0 {
                    assert(g =~= seq![(y.0, seq![y.1] + r.first().1)] + r.drop_first());
                    assert(g2 =~= seq![(y.0, seq![y.1] + r.first().1)] + r2.drop_first());
                    assert(r2.drop_first() =~= r.drop_first().push((x.0, seq![x.1])));
                    assert(g.last().0 == (if r.len() > 1 {
                        r.last().0
                    } else {
                        y.0
                    }));
                    assert(g2 =~= g.push((x.0, seq![x.1])));
                } else {
                    assert(g =~= seq![(y.0, seq![y.1])] + r);
                    assert(g2 =~= seq![(y.0, seq![y.1])] + r2);
                    assert(g2 =~= g.push((x.0, seq![x.1])));
                }
            }
        }
    }
}

/// Appending one raw entry extends the decode-and-filter result by nothing
/// or by that entry's decoded form.
proof fn lemma_dec_filter_snoc(raw: Seq<Entry>, x: Entry, tbf: Option<Seq<char>>)
    ensures
        ({
            let f = spec_cf_fields(x.0@);
            if tbf is Some && crate::text::chars_of_bytes(f.3) != tbf->0 {
                dec_filter(raw.push(x), tbf) == dec_filter(raw, tbf)
            } else {
                dec_filter(raw.push(x), tbf) == dec_filter(raw, tbf).push((f.2, x.1))
            }
        }),
    decreases raw.len(),
{
    let f = spec_cf_fields(x.0@);
    if raw.len() == 0 {
        assert(raw.push(x).first() == x);
        assert(raw.push(x).drop_first() =~= Seq::<Entry>::empty());
        assert(dec_filter(raw.push(x).drop_first(), tbf) =~= Seq::<
            (Seq<u8>, TableMutations),
        >::empty());
        assert(dec_filter(raw, tbf) =~= Seq::<(Seq<u8>, TableMutations)>::empty());
        if tbf is Some && crate::text::chars_of_bytes(f.3) != tbf->0 {
            assert(dec_filter(raw.push(x), tbf) =~= dec_filter(raw, tbf));
        } else {
            assert(dec_filter(raw.push(x), tbf) =~= dec_filter(raw, tbf).push((f.2, x.1)));
        }
    } else {
        assert(raw.push(x).first() == raw.first());
        assert(raw.push(x).drop_first() =~= raw.drop_first().push(x));
        lemma_dec_filter_snoc(raw.drop_first(), x, tbf);
        if tbf is Some && crate::text::chars_of_bytes(f.3) != tbf->0 {
            assert(dec_filter(raw.push(x), tbf) =~= dec_filter(raw, tbf));
        } else {
            assert(dec_filter(raw.push(x), tbf) =~= dec_filter(raw, tbf).push((f.2, x.1)));
        }
    }
}

/// The escaped text of one byte: common escapes by name, printable ASCII
/// as itself, anything else as a hexadecimal escape.
pub open spec fn spec_byte_show(b: u8) -> Seq<char> {
    if b == 9 {
        seq!['\\', 't']
    } else if b == 13 {
        seq!['\\', 'r']
    } else if b == 10 {
        seq!['\\', 'n']
    } else if b == 92 {
        seq!['\\', '\\']
    } else if b == 39 {
        seq!['\\', '\'']
    } else if b == 34 {
        seq!['\\', '"']
    } else if 32 <= b && b <= 126 {
        seq![b as char]
    } else {
        seq!['\\', 'x', crate::text::hex_digit((b / 16) as int), crate::text::hex_digit(
            (b % 16) as int,
        )]
    }
}

/// The escaped text of a byte string, byte by byte.
pub open spec fn spec_bytes_show(bs: Seq<u8>) -> Seq<char>
    decreases bs.len(),
{
    if bs.len() == 0 {
        Seq::empty()
    } else {
        spec_bytes_show(bs.drop_last()) + spec_byte_show(bs.last())
    }
}

/// Renders a byte string as visible text, escaping what does not print.
pub fn show(bs: &[u8]) -> (r: String)
    ensures
        r@ == spec_bytes_show(bs@),
{
    let mut out = String::new();
    let n = bs.len();
    let mut i: usize = 0;
    proof {
        assert(bs@.subrange(0, 0) =~= Seq::<u8>::empty());
    }
    while i < n
        invariant
            0 <= i <= n == bs@.len(),
            out@ == spec_bytes_show(bs@.subrange(0, i as int)),
        decreases n - i,
    {
        let b = bs[i];
        proof {
            reveal_strlit("\\t");
            reveal_strlit("\\r");
            reveal_strlit("\\n");
            reveal_strlit("\\\\");
            reveal_strlit("\\'");
            reveal_strlit("\\\"");
            reveal_strlit("\\x");
            assert(bs@.subrange(0, i + 1).drop_last() =~= bs@.subrange(0, i as int));
            assert(bs@.subrange(0, i + 1).last() == bs@[i as int]);
        }
        if b == 9 {
            out.append("\\t");
        } else if b == 13 {
            out.append("\\r");
        } else if b == 10 {
            out.append("\\n");
        } else if b == 92 {
            out.append("\\\\");
        } else if b == 39 {
            out.append("\\'");
        } else if b == 34 {
            out.append("\\\"");
        } else if 32 <= b && b <= 126 {
            let v: Vec<u8> = vec![b];
            let s = crate::text::ascii_to_string(v.as_slice());
            proof {
                assert(s@ =~= seq![b as char]);
            }
            out.append(s.as_str());
        } else {
            out.append("\\x");
            out.append(crate::text::hex_digit_str(b / 16));
            out.append(crate::text::hex_digit_str(b % 16));
        }
        proof {
            assert(out@ =~= spec_bytes_show(bs@.subrange(0, i + 1)));
        }
        i = i + 1;
    }
    proof {
        assert(bs@.subrange(0, n as int) =~= bs@);
    }
    out
}

/// Whether two versionstamps hold the same bytes.
fn vs_same(a: &Versionstamp, b: &Versionstamp) -> (r: bool)
    ensures
        r == (a@ == b@),
{
    let mut i: usize = 0;
    while i < 10
        invariant
            0 <= i <= 10,
            forall|j: int| 0 <= j < i ==> a@[j] == b@[j],
        decreases 10 - i,
    {
        if a[i] != b[i] {
            return false;
        }
        i = i + 1;
    }
    proof {
        assert(a@ =~= b@);
    }
    true
}

/// Reads the change log of one scope from a versionstamp floor, in commit
/// order: one bounded forward scan of at most `limit` raw entries (100 by
/// default), decoded, filtered by table when asked, and grouped into one
/// change set per versionstamp run.  An undecodable key fails the whole
/// read; with no floor the scan starts at the scope's current timestamp
/// cursor.
#[verifier::loop_isolation(false)]
#[verifier::rlimit(100)]
pub fn read(
    tx: &Transaction,
    ns: &str,
    db: &str,
    tb: Option<&str>,
    start: Option<u64>,
    limit: Option<u32>,
) -> (r: Result<Vec<ChangeSet>, Error>)
    ensures
        ({
            let lim: nat = if limit is Some {
                limit->0 as nat
            } else {
                100
            };
            let beg = if start is Some {
                spec_ts_prefix(bytes_of_chars(ns@), bytes_of_chars(db@), spec_u64_vs(start->0))
            } else {
                spec_ts_prefix(
                    bytes_of_chars(ns@),
                    bytes_of_chars(db@),
                    spec_u64_vs(spec_cursor(tx, ns@, db@)),
                )
            };
            let raw = spec_scan(
                tx.entries@,
                beg,
                spec_cf_suffix(bytes_of_chars(ns@), bytes_of_chars(db@)),
                lim,
            );
            let tbf: Option<Seq<char>> = if tb is Some {
                Some(tb->0@)
            } else {
                None
            };
            match r {
                Ok(cs) => {
                    &&& valid_seg_chars(ns@) && valid_seg_chars(db@)
                    &&& all_keys_ok(raw)
                    &&& groups_match(cs@, group_by_ts(dec_filter(raw, tbf)))
                },
                Err(e) => {
                    &&& e == Error::Encoding
                    &&& (!(valid_seg_chars(ns@) && valid_seg_chars(db@)) || !all_keys_ok(raw))
                },
            }
        }),
{
    let beg = match start {
        Some(x) => match ts_prefix(ns, db, u64_to_versionstamp(x)) {
            Ok(k) => k,
            Err(e) => {
                return Err(e);
            },
        },
        None => {
            let cursor = cursor_value(tx, ns, db);
            match ts_prefix(ns, db, u64_to_versionstamp(cursor)) {
                Ok(k) => k,
                Err(e) => {
                    return Err(e);
                },
            }
        },
    };
    let end = match suffix(ns, db) {
        Ok(k) => k,
        Err(e) => {
            return Err(e);
        },
    };
    let lim: u32 = match limit {
        Some(x) => x,
        None => 100,
    };
    let mut raw = tx.scan(&beg, &end, lim);
    let ghost picked = spec_scan(tx.entries@, beg@, end@, lim as nat);
    let ghost tbf: Option<Seq<char>> = if tb is Some {
        Some(tb->0@)
    } else {
        None
    };
    let n = raw.len();
    let mut out: Vec<ChangeSet> = Vec::new();
    let mut cur_vs = u64_to_versionstamp(0);
    let mut cur: Vec<TableMutations> = Vec::new();
    let mut open = false;
    let mut k: usize = 0;
    proof {
        assert(picked.subrange(0, 0) =~= Seq::<Entry>::empty());
    }
    while k < n
        invariant
            0 <= k <= n == picked.len(),
            raw@.len() == n - k,
            forall|t: int|
                0 <= t < raw@.len() ==> (#[trigger] raw@[t]).0@ == picked[t + k].0@ && tms_eq(
                    raw@[t].1,
                    picked[t + k].1,
                ),
            forall|t: int| 0 <= t < k ==> is_cf_key((#[trigger] picked[t]).0@),
            ({
                let g = group_by_ts(dec_filter(picked.subrange(0, k as int), tbf));
                if open {
                    &&& g.len() == out@.len() + 1
                    &&& groups_match(out@, g.subrange(0, g.len() - 1))
                    &&& g.last().0 == cur_vs@
                    &&& cur@.len() == g.last().1.len()
                    &&& (forall|j: int|
                        0 <= j < cur@.len() ==> tms_eq(#[trigger] cur@[j], (g.last().1)[j]))
                } else {
                    &&& g.len() == 0
                    &&& out@.len() == 0
                    &&& groups_match(out@, g)
                }
            }),
        decreases n - k,
    {
        let e = raw.remove(0);
        proof {
            assert(e.0@ == picked[k as int].0@);
            assert(tms_eq(e.1, picked[k as int].1));
            assert(forall|t: int|
                0 <= t < raw@.len() ==> (#[trigger] raw@[t]).0@ == picked[t + k + 1].0@ && tms_eq(
                    raw@[t].1,
                    picked[t + k + 1].1,
                ));
        }
        let dec = match Cf::decode(e.0.as_slice()) {
            Ok(c) => c,
            Err(_e) => {
                return Err(Error::Encoding);
            },
        };
        proof {
            crate::key::lemma_valid_seg_to_bytes(dec.ns@);
            crate::key::lemma_valid_seg_to_bytes(dec.db@);
            crate::key::lemma_valid_seg_to_bytes(dec.tb@);
            crate::key::cf::lemma_cf_fields_of_key(
                bytes_of_chars(dec.ns@),
                bytes_of_chars(dec.db@),
                dec.ts@,
                bytes_of_chars(dec.tb@),
            );
            assert(spec_cf_fields(picked[k as int].0@) == (
                bytes_of_chars(dec.ns@),
                bytes_of_chars(dec.db@),
                dec.ts@,
                bytes_of_chars(dec.tb@),
            ));
            assert(picked.subrange(0, k + 1) =~= picked.subrange(0, k as int).push(
                picked[k as int],
            ));
            lemma_dec_filter_snoc(picked.subrange(0, k as int), picked[k as int], tbf);
        }
        let keep = match tb {
            Some(f) => {
                let same = crate::text::str_eq(dec.tb.as_str(), f);
                proof {
                    crate::text::lemma_chars_bytes_round_trip(dec.tb@);
                    assert(crate::text::chars_of_bytes(bytes_of_chars(dec.tb@)) == dec.tb@);
                }
                same
            },
            None => true,
        };
        if keep {
            proof {
                lemma_group_snoc(
                    dec_filter(picked.subrange(0, k as int), tbf),
                    (dec.ts@, picked[k as int].1),
                );
            }
            if !open {
                open = true;
                cur_vs = dec.ts;
                cur = Vec::new();
                cur.push(e.1);
            } else if vs_same(&cur_vs, &dec.ts) {
                cur.push(e.1);
            } else {
                let done = ChangeSet(cur_vs, DatabaseMutation(cur));
                out.push(done);
                cur_vs = dec.ts;
                cur = Vec::new();
                cur.push(e.1);
            }
        }
        k = k + 1;
    }
    proof {
        assert(picked.subrange(0, n as int) =~= picked);
    }
    if open {
        let done = ChangeSet(cur_vs, DatabaseMutation(cur));
        out.push(done);
        proof {
            let g = group_by_ts(dec_filter(picked, tbf));
            assert(g.subrange(0, g.len() - 1).push(g.last()) =~= g);
        }
    }
    Ok(out)
}

/// The u64 cursor of a scope: the value its counter holds, zero when the
/// scope is unknown.
pub open spec fn spec_cursor(tx: &Transaction, ns: Seq<char>, db: Seq<char>) -> u64 {
    let j = crate::kvs::store::find_scope(tx.counters@, ns, db);
    if j == -1 {
        0
    } else {
        tx.counters@[j].2
    }
}

/// Reads the scope's current counter as the default scan floor.
#[verifier::loop_isolation(false)]
fn cursor_value(tx: &Transaction, ns: &str, db: &str) -> (r: u64)
    ensures
        r == spec_cursor(tx, ns@, db@),
{
    proof {
        crate::kvs::store::lemma_find_scope(tx.counters@, ns@, db@);
    }
    let n = tx.counters.len();
    let mut i: usize = 0;
    while i < n
        invariant
            0 <= i <= n == tx.counters@.len(),
            forall|z: int|
                0 <= z < i ==> !((#[trigger] tx.counters@[z]).0@ == ns@ && tx.counters@[z].1@
                    == db@),
        decreases n - i,
    {
        if crate::text::str_eq(tx.counters[i].0.as_str(), ns) && crate::text::str_eq(
            tx.counters[i].1.as_str(),
            db,
        ) {
            proof {
                let j = crate::kvs::store::find_scope(tx.counters@, ns@, db@);
                if j == -1 {
                    assert(!(tx.counters@[i as int].0@ == ns@ && tx.counters@[i as int].1@
                        == db@));
                    assert(false);
                }
                crate::kvs::store::lemma_find_scope_at(tx.counters@, ns@, db@, i as int);
            }
            return tx.counters[i].2;
        }
        i = i + 1;
    }
    0
}

} // verus!
