//! The per-scope timestamp key: one handle per (namespace, database) under
//! which the backing store keeps the current timestamp cursor.

use vstd::prelude::*;
use crate::err::Error;
use crate::key::{spec_db_key, valid_seg_bytes, valid_seg_chars, check_seg, push_seg, scan_seg};
use crate::text::{ascii_to_string, bytes_of_chars, chars_of_bytes};

verus! {

/// The timestamp key layout: the scope prefix followed by a `!tt` marker.
pub open spec fn spec_tt_key(ns: Seq<u8>, db: Seq<u8>) -> Seq<u8> {
    spec_db_key(ns, db) + seq![33u8, 116u8, 116u8]
}

/// When two byte segments can stand in a timestamp key.
pub open spec fn tt_encodable(ns: Seq<u8>, db: Seq<u8>) -> bool {
    valid_seg_bytes(ns) && valid_seg_bytes(db)
}

/// Where each region of the encoded timestamp key lies.
pub proof fn lemma_tt_layout(ns: Seq<u8>, db: Seq<u8>)
    requires
        tt_encodable(ns, db),
    ensures
        ({
            let k = spec_tt_key(ns, db);
            let a = 2 + ns.len() as int;
            let b = a + 2 + db.len() as int;
            &&& k.len() == ns.len() + db.len() + 8
            &&& k[0] == 47 && k[1] == 42
            &&& (forall|j: int| 2 <= j < a ==> #[trigger] k[j] == ns[j - 2])
            &&& k[a] == 0 && k[a + 1] == 42
            &&& (forall|j: int| a + 2 <= j < b ==> #[trigger] k[j] == db[j - (a + 2)])
            &&& k[b] == 0 && k[b + 1] == 33 && k[b + 2] == 116 && k[b + 3] == 116
        }),
{
    let k = spec_tt_key(ns, db);
    let a = 2 + ns.len() as int;
    let b = a + 2 + db.len() as int;
    assert forall|j: int| 0 <= j < k.len() implies #[trigger] k[j] == ({
        if j < 2 {
            seq![47u8, 42u8][j]
        } else if j < a {
            ns[j - 2]
        } else if j < a + 2 {
            seq![0u8, 42u8][j - a]
        } else if j < b {
            db[j - (a + 2)]
        } else {
            seq![0u8, 33u8, 116u8, 116u8][j - b]
        }
    }) by {}
}

/// A timestamp key: the handle from which the store serves the current
/// timestamp cursor of one (namespace, database) scope.
#[derive(Clone, Debug, PartialEq, Eq)]
pub struct Tt {
    /// Namespace segment.
    pub ns: String,
    /// Database segment.
    pub db: String,
}

impl Tt {
    /// When the key can be encoded.
    pub open spec fn wf(self) -> bool {
        valid_seg_chars(self.ns@) && valid_seg_chars(self.db@)
    }

    /// The encoded bytes this key stands for.
    pub open spec fn key_bytes(self) -> Seq<u8> {
        spec_tt_key(bytes_of_chars(self.ns@), bytes_of_chars(self.db@))
    }

    /// Builds a timestamp key from its two segments.
    pub fn new(ns: String, db: String) -> (r: Tt)
        ensures
            r.ns@ == ns@,
            r.db@ == db@,
    {
        Tt { ns, db }
    }

    /// Encodes the key; fails exactly when a segment holds a NUL or
    /// non-ASCII character.
    pub fn encode(&self) -> (r: Result<Vec<u8>, Error>)
        ensures
            match r {
                Ok(k) => self.wf() && k@ == self.key_bytes(),
                Err(e) => !self.wf() && e == Error::Encoding,
            },
    {
        if !check_seg(self.ns.as_str()) || !check_seg(self.db.as_str()) {
            return Err(Error::Encoding);
        }
        let mut k: Vec<u8> = Vec::new();
        k.push(47u8);
        k.push(42u8);
        push_seg(&mut k, self.ns.as_str());
        k.push(0u8);
        k.push(42u8);
        push_seg(&mut k, self.db.as_str());
        k.push(0u8);
        k.push(33u8);
        k.push(116u8);
        k.push(116u8);
        proof {
            assert(k@ =~= self.key_bytes());
        }
        Ok(k)
    }
}

/// Whether a byte string is a well-formed timestamp key.
pub open spec fn is_tt_key(k: Seq<u8>) -> bool {
    exists|ns: Seq<u8>, db: Seq<u8>| tt_encodable(ns, db) && k == #[trigger] spec_tt_key(ns, db)
}

/// The segments of a well-formed timestamp key.
pub open spec fn spec_tt_fields(k: Seq<u8>) -> (Seq<u8>, Seq<u8>) {
    choose|f: (Seq<u8>, Seq<u8>)| tt_encodable(f.0, f.1) && k == #[trigger] spec_tt_key(f.0, f.1)
}

/// Obtains the segments that a well-formed timestamp key is built from.
proof fn lemma_tt_fields(k: Seq<u8>) -> (f: (Seq<u8>, Seq<u8>))
    requires
        is_tt_key(k),
    ensures
        f == spec_tt_fields(k),
        tt_encodable(f.0, f.1),
        k == spec_tt_key(f.0, f.1),
{
    let (ns, db) = choose|ns: Seq<u8>, db: Seq<u8>|
        tt_encodable(ns, db) && k == #[trigger] spec_tt_key(ns, db);
    assert(tt_encodable(ns, db) && k == spec_tt_key(ns, db));
    let w = (ns, db);
    assert(tt_encodable(w.0, w.1) && k == spec_tt_key(w.0, w.1));
    let f = spec_tt_fields(k);
    assert(tt_encodable(f.0, f.1) && k == spec_tt_key(f.0, f.1));
    f
}

/// In a well-formed timestamp key, the first valid zero ends the namespace
/// region.
proof fn lemma_tt_ns_end_pinned(k: Seq<u8>, a: int)
    requires
        is_tt_key(k),
        2 <= a < k.len(),
        k[a] == 0,
        forall|j: int| 2 <= j < a ==> 0 < #[trigger] k[j] < 128,
    ensures
        a == 2 + spec_tt_fields(k).0.len(),
{
    let f = lemma_tt_fields(k);
    lemma_tt_layout(f.0, f.1);
    let a0 = 2 + f.0.len() as int;
    if a < a0 {
        assert(k[a] == f.0[a - 2]);
        assert(valid_seg_bytes(f.0));
        assert(false);
    }
    if a0 < a {
        assert(0 < k[a0] < 128);
        assert(false);
    }
}

impl Tt {
    /// Decodes an encoded timestamp key; structurally invalid input is
    /// rejected as a whole.
    #[verifier::rlimit(100)]
    pub fn decode(k: &[u8]) -> (r: Result<Tt, Error>)
        ensures
            match r {
                Ok(c) => c.wf() && k@ == c.key_bytes() && is_tt_key(k@),
                Err(e) => e == Error::Encoding && !is_tt_key(k@),
            },
    {
        let n = k.len();
        if n < 8 {
            proof {
                if is_tt_key(k@) {
                    let f = lemma_tt_fields(k@);
                    lemma_tt_layout(f.0, f.1);
                }
            }
            return Err(Error::Encoding);
        }
        if k[0] != 47 || k[1] != 42 {
            proof {
                if is_tt_key(k@) {
                    let f = lemma_tt_fields(k@);
                    lemma_tt_layout(f.0, f.1);
                }
            }
            return Err(Error::Encoding);
        }
        let ns_end = match scan_seg(k, 2) {
            Some(p) => p,
            None => {
                proof {
                    if is_tt_key(k@) {
                        let f = lemma_tt_fields(k@);
                        lemma_tt_layout(f.0, f.1);
                        let a = 2 + f.0.len() as int;
                        assert(k@[a] == 0);
                        let j = choose|j: int| 2 <= j < a && !(0 < #[trigger] k@[j] < 128);
                        assert(k@[j] == f.0[j - 2]);
                        assert(false);
                    }
                }
                return Err(Error::Encoding);
            },
        };
        proof {
            if is_tt_key(k@) {
                lemma_tt_ns_end_pinned(k@, ns_end as int);
            }
        }
        if ns_end + 1 == n || k[ns_end + 1] != 42 {
            proof {
                if is_tt_key(k@) {
                    let f = lemma_tt_fields(k@);
                    lemma_tt_layout(f.0, f.1);
                }
            }
            return Err(Error::Encoding);
        }
        let db_end = match scan_seg(k, ns_end + 2) {
            Some(p) => p,
            None => {
                proof {
                    if is_tt_key(k@) {
                        let f = lemma_tt_fields(k@);
                        lemma_tt_layout(f.0, f.1);
                        let b = ns_end + 2 + f.1.len() as int;
                        assert(k@[b] == 0);
                        let j = choose|j: int|
                            ns_end + 2 <= j < b && !(0 < #[trigger] k@[j] < 128);
                        assert(k@[j] == f.1[j - (ns_end + 2)]);
                        assert(false);
                    }
                }
                return Err(Error::Encoding);
            },
        };
        proof {
            if is_tt_key(k@) {
                let f = lemma_tt_fields(k@);
                lemma_tt_layout(f.0, f.1);
                let b0 = ns_end + 2 + f.1.len() as int;
                if db_end < b0 {
                    assert(k@[db_end as int] == f.1[db_end - (ns_end + 2)]);
                    assert(false);
                }
                if b0 < db_end {
                    assert(0 < k@[b0] < 128);
                    assert(false);
                }
            }
        }
        if n - db_end != 4 || k[db_end + 1] != 33 || k[db_end + 2] != 116 || k[db_end + 3]
            != 116 {
            proof {
                if is_tt_key(k@) {
                    let f = lemma_tt_fields(k@);
                    lemma_tt_layout(f.0, f.1);
                }
            }
            return Err(Error::Encoding);
        }
        let ns = ascii_to_string(&k[2..ns_end]);
        let db = ascii_to_string(&k[ns_end + 2..db_end]);
        let c = Tt { ns, db };
        proof {
            let ns_b = k@.subrange(2, ns_end as int);
            let db_b = k@.subrange(ns_end + 2, db_end as int);
            crate::text::lemma_bytes_chars_round_trip(ns_b);
            crate::text::lemma_bytes_chars_round_trip(db_b);
            assert(valid_seg_chars(c.ns@)) by {
                assert(forall|i: int|
                    0 <= i < ns_b.len() ==> c.ns@[i] == (#[trigger] ns_b[i]) as char);
            }
            assert(valid_seg_chars(c.db@)) by {
                assert(forall|i: int|
                    0 <= i < db_b.len() ==> c.db@[i] == (#[trigger] db_b[i]) as char);
            }
            assert(bytes_of_chars(c.ns@) == ns_b);
            assert(bytes_of_chars(c.db@) == db_b);
            assert(tt_encodable(ns_b, db_b));
            lemma_tt_layout(ns_b, db_b);
            let k2 = spec_tt_key(ns_b, db_b);
            assert(k2.len() == k@.len());
            assert forall|j: int| 0 <= j < k@.len() implies k@[j] == k2[j] by {
                if 2 <= j < ns_end {
                    assert(k2[j] == ns_b[j - 2]);
                } else if ns_end + 2 <= j < db_end {
                    assert(k2[j] == db_b[j - (ns_end + 2)]);
                }
            }
            assert(k@ =~= k2);
        }
        Ok(c)
    }
}

/// Builds a timestamp key from string slices.
pub fn new(ns: &str, db: &str) -> (r: Tt)
    ensures
        r.ns@ == ns@,
        r.db@ == db@,
{
    Tt { ns: ns.to_owned(), db: db.to_owned() }
}

} // verus!
