//! A hash map keyed by address.
//!
//! vstd says what the std hash map does only for keys that are integers, and
//! an address is wider than any. So the entries are hashed by the low word of
//! their address; the few that share a low word lie in one bucket and are told
//! apart by the high word.

use std::collections::HashMap;
use vstd::prelude::*;
use crate::primitives::Address;

verus! {

/// The high words of the entries of a bucket, in their order.
spec fn high_words<V>(bucket: Seq<(u32, V)>) -> Seq<u32> {
    Seq::new(bucket.len(), |i: int| bucket[i].0)
}

/// A map from address to `V`.
pub struct AddressMap<V> {
    buckets: HashMap<u128, Vec<(u32, V)>>,
}

impl<V> View for AddressMap<V> {
    type V = Map<Address, V>;

    closed spec fn view(&self) -> Map<Address, V> {
        Map::new(
            |a: Address|
                self.buckets@.contains_key(a.lo) && high_words(self.buckets@[a.lo]@).contains(a.hi),
            |a: Address|
                {
                    let bucket = self.buckets@[a.lo]@;
                    bucket[high_words(bucket).index_of(a.hi)].1
                },
        )
    }
}

impl<V> AddressMap<V> {
    #[verifier::type_invariant]
    spec fn well_formed(self) -> bool {
        forall|lo: u128| #[trigger]
            self.buckets@.contains_key(lo) ==> high_words(self.buckets@[lo]@).no_duplicates()
    }
}

impl<V: Copy> AddressMap<V> {
    /// A map without an entry.
    pub fn new() -> (map: AddressMap<V>)
        ensures
            map@ == Map::<Address, V>::empty(),
    {
        let map = AddressMap { buckets: HashMap::new() };
        assert(map@ =~= Map::<Address, V>::empty());
        map
    }

    /// The value at `address`, if there is one.
    pub fn get(&self, address: Address) -> (value: Option<V>)
        ensures
            match value {
                Some(v) => self@.contains_key(address) && self@[address] == v,
                None => !self@.contains_key(address),
            },
    {
        proof {
            use_type_invariant(self);
        }
        match self.buckets.get(&address.lo) {
            None => None,
            Some(bucket) => {
                assert(self.buckets@.contains_key(address.lo));
                assert(self.buckets@[address.lo] == *bucket);
                let ghost highs = high_words(bucket@);
                let mut i: usize = 0;
                while i < bucket.len()
                    invariant
                        i <= bucket.len(),
                        self.buckets@.contains_key(address.lo),
                        self.buckets@[address.lo] == *bucket,
                        highs == high_words(bucket@),
                        highs.no_duplicates(),
                        forall|k: int| 0 <= k < i ==> highs[k] != address.hi,
                    decreases bucket.len() - i,
                {
                    if bucket[i].0 == address.hi {
                        proof {
                            assert(highs[i as int] == address.hi);
                            assert(highs.contains(address.hi));
                            assert(highs.index_of(address.hi) == i as int);
                        }
                        return Some(bucket[i].1);
                    }
                    i += 1;
                }
                None
            },
        }
    }

    /// Whether there is a value at `address`.
    pub fn contains(&self, address: Address) -> (found: bool)
        ensures
            found == self@.contains_key(address),
    {
        self.get(address).is_some()
    }

    /// Puts `value` at `address` unless there is a value already, and returns
    /// the value that the map now holds there.
    pub fn insert_if_absent(&mut self, address: Address, value: V) -> (held: V)
        ensures
            old(self)@.contains_key(address) ==> final(self)@ == old(self)@,
            !old(self)@.contains_key(address) ==> final(self)@ == old(self)@.insert(address, value),
            final(self)@.contains_key(address),
            held == final(self)@[address],
    {
        match self.get(address) {
            Some(known) => known,
            None => {
                self.insert_new(address, value);
                value
            },
        }
    }

    /// Puts `value` at `address`, where there is none yet.
    fn insert_new(&mut self, address: Address, value: V)
        requires
            !old(self)@.contains_key(address),
        ensures
            final(self)@ == old(self)@.insert(address, value),
    {
        proof {
            use_type_invariant(&*self);
        }
        let ghost before = self.buckets@;
        let mut buckets: HashMap<u128, Vec<(u32, V)>> = HashMap::new();
        core::mem::swap(&mut self.buckets, &mut buckets);
        let mut bucket = match buckets.remove(&address.lo) {
            Some(bucket) => bucket,
            None => Vec::new(),
        };
        let ghost old_bucket = bucket@;
        bucket.push((address.hi, value));
        let ghost new_bucket = bucket@;
        buckets.insert(address.lo, bucket);
        proof {
            let old_highs = high_words(old_bucket);
            let new_highs = high_words(new_bucket);
            assert(new_highs =~= old_highs.push(address.hi));
            assert(!old_highs.contains(address.hi)) by {
                if before.contains_key(address.lo) {
                    assert(before[address.lo]@ == old_bucket);
                } else {
                    assert(old_highs.len() == 0);
                }
            }
            assert(new_highs.no_duplicates());
            assert forall|h: u32| #[trigger] new_highs.contains(h) implies new_bucket[new_highs.index_of(
                h,
            )].1 == (if h == address.hi {
                value
            } else {
                old_bucket[old_highs.index_of(h)].1
            }) by {
                let j = new_highs.index_of(h);
                if h != address.hi {
                    assert(old_highs[j] == h);
                    assert(old_highs.contains(h));
                    assert(old_highs.index_of(h) == j);
                }
            }
            assert forall|h: u32| new_highs.contains(h) <==> (old_highs.contains(h) || h
                == address.hi) by {
                if old_highs.contains(h) {
                    let j = old_highs.index_of(h);
                    assert(new_highs[j] == h);
                }
                if h == address.hi {
                    assert(new_highs[old_highs.len() as int] == h);
                }
            }
        }
        self.buckets = buckets;
        assert(self@ =~= old(self)@.insert(address, value));
    }
}

} // verus!
