//! Byte keys of the change-feed subsystem.
//!
//! Every key begins with the namespace/database scope prefix
//! `/ * ns \0 * db \0`; segment bytes are ASCII and never zero, so the
//! null terminators make the layout injective and order-preserving.

pub mod cf;
pub mod tt;

use vstd::prelude::*;
use crate::text::bytes_of_chars;

verus! {

/// A key segment holds only ASCII characters other than NUL, so that the
/// zero terminator after it is unambiguous.
pub open spec fn valid_seg_chars(s: Seq<char>) -> bool {
    forall|i: int| 0 <= i < s.len() ==> '\0' < #[trigger] s[i] <= '\u{7f}'
}

/// The byte-level counterpart of [`valid_seg_chars`].
pub open spec fn valid_seg_bytes(s: Seq<u8>) -> bool {
    forall|i: int| 0 <= i < s.len() ==> 0 < #[trigger] s[i] < 128
}

/// A valid character segment maps to a valid byte segment.
pub proof fn lemma_valid_seg_to_bytes(s: Seq<char>)
    requires
        valid_seg_chars(s),
    ensures
        valid_seg_bytes(bytes_of_chars(s)),
{
    assert forall|i: int| 0 <= i < s.len() implies 0 < #[trigger] bytes_of_chars(s)[i]
        < 128 by {
        assert('\0' < s[i] <= '\u{7f}');
    }
}

/// The scope prefix shared by all keys of one (namespace, database) pair:
/// `/ * ns \0 * db \0`.
pub open spec fn spec_db_key(ns: Seq<u8>, db: Seq<u8>) -> Seq<u8> {
    seq![47u8, 42u8] + ns + seq![0u8, 42u8] + db + seq![0u8]
}

/// Whether a string can stand as a key segment.
pub fn check_seg(s: &str) -> (b: bool)
    ensures
        b == valid_seg_chars(s@),
{
    if !s.is_ascii() {
        proof {
            assert(!valid_seg_chars(s@));
        }
        return false;
    }
    let bytes = s.as_bytes();
    proof {
        vstd::string::is_ascii_spec_bytes(s);
    }
    let mut i: usize = 0;
    while i < bytes.len()
        invariant
            bytes@.len() == s@.len(),
            forall|j: int| 0 <= j < bytes@.len() ==> #[trigger] bytes@[j] == s@[j] as u8,
            forall|j: int| 0 <= j < s@.len() ==> '\0' <= #[trigger] s@[j] <= '\u{7f}',
            i <= bytes@.len(),
            forall|j: int| 0 <= j < i ==> '\0' < #[trigger] s@[j] <= '\u{7f}',
        decreases bytes@.len() - i,
    {
        if bytes[i] == 0 {
            proof {
                assert(s@[i as int] as u8 == 0);
                assert(s@[i as int] == '\0');
            }
            return false;
        }
        proof {
            assert(s@[i as int] as u8 != 0);
            assert(s@[i as int] != '\0');
        }
        i = i + 1;
    }
    true
}

/// Appends the bytes of an ASCII string to a key under construction.
pub fn push_seg(k: &mut Vec<u8>, s: &str)
    requires
        vstd::string::is_ascii(s),
    ensures
        final(k)@ == old(k)@ + bytes_of_chars(s@),
{
    proof {
        vstd::string::is_ascii_spec_bytes(s);
    }
    let bytes = s.as_bytes();
    k.extend_from_slice(bytes);
    proof {
        assert(k@ =~= old(k)@ + bytes_of_chars(s@));
    }
}

/// Scans for the zero byte that terminates a key segment starting at
/// `start`.  Succeeds only when every byte before the terminator could have
/// come from a valid segment.
pub fn scan_seg(k: &[u8], start: usize) -> (r: Option<usize>)
    requires
        start <= k@.len(),
    ensures
        match r {
            Some(p) => start <= p < k@.len() && k@[p as int] == 0 && (forall|j: int|
                start <= j < p ==> 0 < #[trigger] k@[j] < 128),
            None => forall|p: int|
                start <= p < k@.len() && k@[p] == 0 ==> exists|j: int|
                    start <= j < p && !(0 < #[trigger] k@[j] < 128),
        },
{
    let n = k.len();
    let mut i = start;
    while i < n
        invariant
            start <= i <= n == k@.len(),
            forall|j: int| start <= j < i ==> 0 < #[trigger] k@[j] < 128,
        decreases n - i,
    {
        let b = k[i];
        if b == 0 {
            return Some(i);
        }
        if b >= 128 {
            proof {
                assert forall|p: int| start <= p < k@.len() && k@[p] == 0 implies exists|j: int|
                    start <= j < p && !(0 < #[trigger] k@[j] < 128) by {
                    assert(p > i);
                    assert(start <= i < p && !(0 < k@[i as int] < 128));
                }
            }
            return None;
        }
        i = i + 1;
    }
    None
}

/// Compares two keys in lexicographic byte order.
pub fn key_lt(a: &Vec<u8>, b: &Vec<u8>) -> (r: bool)
    ensures
        r == crate::vs::lex_lt(a@, b@),
{
    let an = a.len();
    let bn = b.len();
    let mut i: usize = 0;
    proof {
        assert(a@.skip(0) =~= a@);
        assert(b@.skip(0) =~= b@);
    }
    while i < an && i < bn
        invariant
            0 <= i,
            i <= an == a@.len(),
            i <= bn == b@.len(),
            crate::vs::lex_lt(a@, b@) == crate::vs::lex_lt(a@.skip(i as int), b@.skip(i as int)),
        decreases an - i,
    {
        let ca = a[i];
        let cb = b[i];
        proof {
            assert(a@.skip(i as int).first() == a@[i as int]);
            assert(b@.skip(i as int).first() == b@[i as int]);
            assert(a@.skip(i as int).drop_first() =~= a@.skip(i + 1));
            assert(b@.skip(i as int).drop_first() =~= b@.skip(i + 1));
        }
        if ca < cb {
            return true;
        }
        if cb < ca {
            return false;
        }
        i = i + 1;
    }
    proof {
        if i == an {
            assert(a@.skip(i as int).len() == 0);
        } else {
            assert(b@.skip(i as int).len() == 0);
        }
    }
    an < bn
}

} // verus!
