//! A small cache of definition entries, keyed by encoded key bytes.

use vstd::prelude::*;
use crate::kvs::store::TableDefinition;
use crate::sql::changefeed::TableMutations;

verus! {

broadcast use vstd::std_specs::vec::group_vec_axioms, vstd::seq::group_seq_axioms;

/// A cached definition entry.
#[derive(Clone, Debug)]
pub enum Entry {
    /// A table definition.
    Tb(TableDefinition),
    /// A table's buffered mutations.
    Muts(TableMutations),
}

/// The index of a key in the cache, or -1 when absent.
pub open spec fn cache_find(s: Seq<(Vec<u8>, Entry)>, key: Seq<u8>) -> int
    decreases s.len(),
{
    if s.len() == 0 {
        -1
    } else if s.first().0@ == key {
        0
    } else {
        let r = cache_find(s.drop_first(), key);
        if r == -1 {
            -1
        } else {
            r + 1
        }
    }
}

/// The found index is in range and carries the key.
pub proof fn lemma_cache_find(s: Seq<(Vec<u8>, Entry)>, key: Seq<u8>)
    ensures
        cache_find(s, key) == -1 ==> (forall|i: int|
            0 <= i < s.len() ==> (#[trigger] s[i]).0@ != key),
        cache_find(s, key) != -1 ==> 0 <= cache_find(s, key) < s.len() && s[cache_find(
            s,
            key,
        )].0@ == key,
    decreases s.len(),
{
    if s.len() > 0 {
        lemma_cache_find(s.drop_first(), key);
        assert(forall|i: int| 1 <= i < s.len() ==> #[trigger] s[i] == s.drop_first()[i - 1]);
    }
}

/// A key-to-entry cache, keyed by encoded key bytes.
pub struct Cache(pub Vec<(Vec<u8>, Entry)>);

impl Cache {
    /// An empty cache.
    pub fn new() -> (r: Cache)
        ensures
            r.0@.len() == 0,
    {
        Cache(Vec::new())
    }

    /// Whether the key is cached.
    #[verifier::loop_isolation(false)]
    pub fn exi(&mut self, key: &Vec<u8>) -> (r: bool)
        ensures
            *final(self) == *old(self),
            r == (cache_find(old(self).0@, key@) != -1),
    {
        proof {
            lemma_cache_find(self.0@, key@);
        }
        let n = self.0.len();
        let mut i: usize = 0;
        while i < n
            invariant
                0 <= i <= n == self.0@.len(),
                forall|j: int| 0 <= j < i ==> (#[trigger] self.0@[j]).0@ != key@,
            decreases n - i,
        {
            if bytes_eq(&self.0[i].0, key) {
                return true;
            }
            i = i + 1;
        }
        false
    }

    /// Caches a value under a key; the new entry shadows earlier ones.
    pub fn set(&mut self, key: Vec<u8>, val: Entry)
        ensures
            final(self).0@.len() == old(self).0@.len() + 1,
            final(self).0@.last().0@ == key@,
            final(self).0@.last().1 == val,
            forall|j: int| 0 <= j < old(self).0@.len() ==> final(self).0@[j] == old(self).0@[j],
    {
        self.0.push((key, val));
    }

    /// Reads the first cached entry of a key.
    #[verifier::loop_isolation(false)]
    pub fn get(&mut self, key: &Vec<u8>) -> (r: Option<&Entry>)
        ensures
            *final(self) == *old(self),
            ({
                let j = cache_find(old(self).0@, key@);
                match r {
                    Some(e) => j != -1 && *e == old(self).0@[j].1,
                    None => j == -1,
                }
            }),
    {
        proof {
            lemma_cache_find(self.0@, key@);
        }
        let n = self.0.len();
        let mut i: usize = 0;
        while i < n
            invariant
                0 <= i <= n == self.0@.len(),
                forall|j: int| 0 <= j < i ==> (#[trigger] self.0@[j]).0@ != key@,
            decreases n - i,
        {
            if bytes_eq(&self.0[i].0, key) {
                proof {
                    let j = cache_find(self.0@, key@);
                    if j == -1 {
                        assert(self.0@[i as int].0@ != key@);
                        assert(false);
                    }
                    if j < i as int {
                        assert(self.0@[j].0@ == key@);
                        assert(false);
                    }
                    if j > i as int {
                        lemma_cache_find_first(self.0@, key@, i as int);
                    }
                }
                return Some(&self.0[i].1);
            }
            i = i + 1;
        }
        None
    }
}

/// No match can precede the found index.
proof fn lemma_cache_find_first(s: Seq<(Vec<u8>, Entry)>, key: Seq<u8>, i: int)
    requires
        0 <= i < s.len(),
        s[i].0@ == key,
    ensures
        0 <= cache_find(s, key) <= i,
    decreases s.len(),
{
    if s.first().0@ == key {
        assert(cache_find(s, key) == 0);
    } else {
        assert(s[0] == s.first());
        assert(i > 0);
        assert(s.drop_first()[i - 1] == s[i]);
        lemma_cache_find_first(s.drop_first(), key, i - 1);
        let r = cache_find(s.drop_first(), key);
        assert(cache_find(s, key) == r + 1);
    }
}

/// Whether two byte vectors hold the same bytes.
pub fn bytes_eq(a: &Vec<u8>, b: &Vec<u8>) -> (r: bool)
    ensures
        r == (a@ == b@),
{
    let an = a.len();
    if an != b.len() {
        return false;
    }
    let mut i: usize = 0;
    while i < an
        invariant
            0 <= i <= an == a@.len(),
            an == b@.len(),
            forall|j: int| 0 <= j < i ==> a@[j] == b@[j],
        decreases an - i,
    {
        if a[i] != b[i] {
            return false;
        }
        i = i + 1;
    }
    proof {
        assert(a@ =~= b@);
    }
    true
}

} // verus!
