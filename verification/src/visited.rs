//! The visited set: a claim-if-absent capability, so the crawl core is
//! agnostic to where the set lives. The in-process `MemorySet` is the default
//! backing; an external store can implement the same interface for
//! cross-process deduplication.

use vstd::prelude::*;

verus! {

/// What one claim does to a set of keys: the key is recorded, and the claim is
/// fresh exactly when the key was absent.
pub open spec fn claim_spec(keys: Set<Seq<u8>>, key: Seq<u8>) -> (Set<Seq<u8>>, bool) {
    (keys.insert(key), !keys.contains(key))
}

/// A set of byte-string keys with one atomic operation: record a key and learn
/// whether it was new. The crawl core claims a URL through this interface
/// before its fetch is issued.
pub trait ClaimSet: Sized {
    /// The keys recorded so far.
    spec fn keys(&self) -> Set<Seq<u8>>;

    /// Record `key`; `fresh` says whether it was absent until now.
    fn claim(&mut self, key: Vec<u8>) -> (fresh: bool)
        ensures
            (final(self).keys(), fresh) == claim_spec(old(self).keys(), key@),
    ;
}

/// Claim-before-fetch: once a claim of `key` has been recorded, any later
/// claim of the same key against the same store observes it as already
/// present, so no second fetch of it is ever begun.
pub proof fn lemma_claim_before_fetch(keys: Set<Seq<u8>>, key: Seq<u8>)
    ensures
        !claim_spec(claim_spec(keys, key).0, key).1,
{
}

/// The in-process visited set: the recorded keys, held directly.
pub struct MemorySet {
    items: Vec<Vec<u8>>,
}

impl MemorySet {
    /// An empty set.
    pub fn new() -> (s: Self)
        ensures
            s.keys() == Set::<Seq<u8>>::empty(),
    {
        let s = MemorySet { items: Vec::new() };
        proof {
            assert(s.keys() =~= Set::<Seq<u8>>::empty());
        }
        s
    }
}

impl ClaimSet for MemorySet {
    closed spec fn keys(&self) -> Set<Seq<u8>> {
        Set::new(|k: Seq<u8>| exists|i: int| 0 <= i < self.items@.len() && self.items@[i]@ == k)
    }

    fn claim(&mut self, key: Vec<u8>) -> (fresh: bool) {
        let mut i: usize = 0;
        while i < self.items.len()
            invariant
                i <= self.items@.len(),
                forall|m: int| 0 <= m < i ==> #[trigger] self.items@[m]@ != key@,
            decreases self.items@.len() - i,
        {
            if crate::url::bytes_eq(self.items[i].as_slice(), key.as_slice()) {
                proof {
                    assert(self.keys().contains(key@));
                    assert(self.keys() =~= self.keys().insert(key@));
                }
                return false;
            }
            i = i + 1;
        }
        proof {
            assert(!self.keys().contains(key@));
        }
        let ghost before = self.keys();
        let ghost olditems = self.items@;
        self.items.push(key);
        proof {
            let n = olditems.len() as int;
            assert(self.items@[n]@ == key@);
            assert forall|k: Seq<u8>| self.keys().contains(k) implies before.insert(
                key@,
            ).contains(k) by {
                let w = choose|i: int| 0 <= i < self.items@.len() && self.items@[i]@ == k;
                if w < n {
                    assert(olditems[w]@ == k);
                }
            }
            assert forall|k: Seq<u8>| before.insert(key@).contains(k) implies self.keys().contains(
                k,
            ) by {
                if k == key@ {
                    assert(self.items@[n]@ == k);
                } else {
                    let w = choose|i: int| 0 <= i < olditems.len() && olditems[i]@ == k;
                    assert(self.items@[w]@ == k);
                }
            }
            assert(self.keys() =~= before.insert(key@));
        }
        true
    }
}

} // verus!
