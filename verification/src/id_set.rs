//! Sets of object ids.

use crate::oid::ObjectId;
use std::collections::HashMap;
use vstd::prelude::*;

verus! {

/// A set of object ids, in buckets by the first eight bytes of the id.
#[derive(Debug)]
pub struct IdSet {
    buckets: HashMap<u64, Vec<ObjectId>>,
}

/// The key of the bucket that an id belongs to.
pub closed spec fn bucket_key(id: ObjectId) -> u64 {
    (id.bytes[0] as u64) << 56 | (id.bytes[1] as u64) << 48 | (id.bytes[2] as u64) << 40 | (
    id.bytes[3] as u64) << 32 | (id.bytes[4] as u64) << 24 | (id.bytes[5] as u64) << 16 | (
    id.bytes[6] as u64) << 8 | id.bytes[7] as u64
}

/// The key of the bucket that an id belongs to.
fn key_of(id: &ObjectId) -> (r: u64)
    ensures
        r == bucket_key(*id),
{
    (id.bytes[0] as u64) << 56 | (id.bytes[1] as u64) << 48 | (id.bytes[2] as u64) << 40 | (
    id.bytes[3] as u64) << 32 | (id.bytes[4] as u64) << 24 | (id.bytes[5] as u64) << 16 | (
    id.bytes[6] as u64) << 8 | id.bytes[7] as u64
}

impl View for IdSet {
    type V = Set<ObjectId>;

    closed spec fn view(&self) -> Set<ObjectId> {
        Set::new(
            |id: ObjectId|
                self.buckets@.contains_key(bucket_key(id)) && self.buckets@[bucket_key(id)]@.contains(
                    id,
                ),
        )
    }
}

/// Whether `ids` has `id` in it.
fn lists(ids: &Vec<ObjectId>, id: &ObjectId) -> (r: bool)
    ensures
        r == ids@.contains(*id),
{
    let mut i: usize = 0;
    while i < ids.len()
        invariant
            i <= ids@.len(),
            forall|j: int| 0 <= j < i ==> #[trigger] ids@[j] != *id,
        decreases ids@.len() - i,
    {
        if ids[i].same(id) {
            assert(ids@[i as int] == *id);
            return true;
        }
        i += 1;
    }
    false
}

impl IdSet {
    /// The empty set.
    pub fn new() -> (r: IdSet)
        ensures
            r@ == Set::<ObjectId>::empty(),
    {
        let r = IdSet { buckets: HashMap::new() };
        assert(r@ =~= Set::<ObjectId>::empty());
        r
    }

    /// Puts `id` into the set, and tells whether it was new there.
    pub fn insert(&mut self, id: ObjectId) -> (r: bool)
        ensures
            final(self)@ == old(self)@.insert(id),
            r == !old(self)@.contains(id),
    {
        broadcast use vstd::std_specs::hash::group_hash_axioms;

        let ghost before = *self;
        let key = key_of(&id);
        match self.buckets.remove(&key) {
            Some(bucket) => {
                let mut bucket = bucket;
                let ghost listed = bucket@;
                let found = lists(&bucket, &id);
                if !found {
                    bucket.push(id);
                }
                self.buckets.insert(key, bucket);
                proof {
                    assert(before.buckets@[key]@ == listed);
                    assert forall|x: ObjectId| #[trigger] self@.contains(x) <==> before@.insert(
                        id,
                    ).contains(x) by {
                        if bucket_key(x) == key {
                            if !found {
                                assert(bucket@ == listed.push(id));
                                if x == id {
                                    assert(bucket@[listed.len() as int] == id);
                                }
                                if listed.contains(x) {
                                    let j = listed.index_of(x);
                                    assert(bucket@[j] == x);
                                }
                            }
                        } else {
                            assert(self.buckets@.contains_key(bucket_key(x))
                                == before.buckets@.contains_key(bucket_key(x)));
                        }
                    }
                    assert(self@ =~= before@.insert(id));
                }
                !found
            },
            None => {
                let mut bucket: Vec<ObjectId> = Vec::new();
                bucket.push(id);
                self.buckets.insert(key, bucket);
                proof {
                    assert(bucket@[0] == id);
                    assert forall|x: ObjectId| #[trigger] self@.contains(x) <==> before@.insert(
                        id,
                    ).contains(x) by {
                        if bucket_key(x) != key {
                            assert(self.buckets@.contains_key(bucket_key(x))
                                == before.buckets@.contains_key(bucket_key(x)));
                        }
                    }
                    assert(self@ =~= before@.insert(id));
                }
                true
            },
        }
    }
}

} // verus!
