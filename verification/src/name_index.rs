use vstd::prelude::*;

use std::collections::HashMap;
use vstd::utf8::encode_utf8;

use crate::lefdef::{DefPin, LefMacro};
use crate::lookup::{last_index, lemma_last_index_take};

verus! {

/// Something that carries a name.
pub trait Named {
    spec fn name_view(&self) -> Seq<char>;

    fn name_ref(&self) -> (r: &String)
        ensures
            r@ == self.name_view(),
    ;
}

impl<T> Named for LefMacro<T> {
    open spec fn name_view(&self) -> Seq<char> {
        self.name@
    }

    fn name_ref(&self) -> (r: &String) {
        &self.name
    }
}

impl<T> Named for DefPin<T> {
    open spec fn name_view(&self) -> Seq<char> {
        self.name@
    }

    fn name_ref(&self) -> (r: &String) {
        &self.name
    }
}

/// Holds an item whose name is `name`.
pub open spec fn named<A: Named>(name: Seq<char>) -> spec_fn(A) -> bool {
    |a: A| a.name_view() == name
}

/// The names of `items`, in order.
pub open spec fn names_of<A: Named>(items: Seq<A>) -> Seq<Seq<char>> {
    items.map_values(|a: A| a.name_view())
}

/// Polynomial hash of bytes, modulo 2^32.
pub open spec fn bytes_hash(bytes: Seq<u8>) -> u64
    decreases bytes.len(),
{
    if bytes.len() == 0 {
        0
    } else {
        ((bytes_hash(bytes.drop_last()) as int * 31 + bytes.last() as int) % 0x1_0000_0000) as u64
    }
}

/// Hash of a name, taken over its UTF-8 bytes.
pub open spec fn name_hash(name: Seq<char>) -> u64 {
    bytes_hash(encode_utf8(name))
}

/// Computes `name_hash` of a name.
pub fn hash_of(name: &String) -> (h: u64)
    ensures
        h == name_hash(name@),
{
    let bytes = name.as_str().as_bytes();
    let mut h: u64 = 0;
    let mut i: usize = 0;
    while i < bytes.len()
        invariant
            i <= bytes@.len(),
            bytes@ == encode_utf8(name@),
            h == bytes_hash(bytes@.take(i as int)),
            h < 0x1_0000_0000,
        decreases bytes@.len() - i,
    {
        assert(bytes@.take(i + 1).drop_last() =~= bytes@.take(i as int));
        h = (h * 31 + bytes[i] as u64) % 0x1_0000_0000;
        i = i + 1;
    }
    assert(bytes@.take(i as int) =~= bytes@);
    h
}

/// Positions of named items, filed by the hash of their names, so that a
/// name is looked up among the few items that share its hash.
pub struct NameIndex {
    buckets: HashMap<u64, Vec<usize>>,
}

/// Every position in `buckets` is below `n`, and sits in the bucket of its
/// name's hash.
pub open spec fn buckets_sound(buckets: Map<u64, Vec<usize>>, names: Seq<Seq<char>>, n: int) -> bool {
    forall|h: u64, j: int|
        #![trigger buckets[h]@[j]]
        buckets.contains_key(h) && 0 <= j < buckets[h]@.len() ==> {
            &&& (buckets[h]@[j] as int) < n
            &&& n <= names.len()
            &&& name_hash(names[buckets[h]@[j] as int]) == h
        }
}

/// Every position below `n` sits in the bucket of its name's hash.
pub open spec fn buckets_complete(buckets: Map<u64, Vec<usize>>, names: Seq<Seq<char>>, n: int) -> bool {
    forall|i: int|
        0 <= i < n ==> {
            &&& buckets.contains_key(#[trigger] name_hash(names[i]))
            &&& buckets[name_hash(names[i])]@.contains(i as usize)
        }
}

impl NameIndex {
    /// The index files exactly the positions of `names`.
    pub closed spec fn indexes(&self, names: Seq<Seq<char>>) -> bool {
        &&& buckets_sound(self.buckets@, names, names.len() as int)
        &&& buckets_complete(self.buckets@, names, names.len() as int)
    }

    /// Files every item of `items` under its name.
    pub fn build<A: Named>(items: &Vec<A>) -> (r: Self)
        ensures
            r.indexes(names_of(items@)),
    {
        let ghost names = names_of(items@);
        let mut buckets: HashMap<u64, Vec<usize>> = HashMap::new();
        let mut i: usize = 0;
        while i < items.len()
            invariant
                i <= items@.len(),
                names == names_of(items@),
                buckets_sound(buckets@, names, i as int),
                buckets_complete(buckets@, names, i as int),
            decreases items@.len() - i,
        {
            let h = hash_of(items[i].name_ref());
            let ghost before = buckets@;
            let mut bucket = match buckets.remove(&h) {
                Some(b) => b,
                None => Vec::new(),
            };
            let ghost old_bucket = bucket@;
            assert(before.contains_key(h) ==> old_bucket == before[h]@);
            bucket.push(i);
            buckets.insert(h, bucket);
            assert(buckets@ == before.insert(h, bucket));
            assert forall|k: u64, j: int|
                #![trigger buckets@[k]@[j]]
                buckets@.contains_key(k) && 0 <= j < buckets@[k]@.len() implies {
                &&& (buckets@[k]@[j] as int) < i + 1
                &&& i + 1 <= names.len()
                &&& name_hash(names[buckets@[k]@[j] as int]) == k
            } by {
                if k == h {
                    if j < old_bucket.len() {
                        assert(buckets@[k]@[j] == before[k]@[j]);
                    }
                } else {
                    assert(buckets@[k] == before[k]);
                }
            }
            assert forall|e: int| 0 <= e < i + 1 implies {
                &&& buckets@.contains_key(#[trigger] name_hash(names[e]))
                &&& buckets@[name_hash(names[e])]@.contains(e as usize)
            } by {
                if e < i {
                    let k = name_hash(names[e]);
                    assert(before.contains_key(k) && before[k]@.contains(e as usize));
                    if k == h {
                        let j = choose|j: int| 0 <= j < before[k]@.len() && before[k]@[j] == e as usize;
                        assert(buckets@[k]@[j] == e as usize);
                    }
                } else {
                    assert(buckets@[h]@[old_bucket.len() as int] == i);
                }
            }
            i = i + 1;
        }
        NameIndex { buckets }
    }

    /// The position of the last item of `items` named `name`, if any.
    pub fn find_last<A: Named>(&self, items: &Vec<A>, name: &String) -> (r: Option<usize>)
        requires
            self.indexes(names_of(items@)),
        ensures
            r matches Some(k) ==> last_index(items@, named::<A>(name@)) == Some(k as int),
            r is None ==> last_index(items@, named::<A>(name@)) is None,
    {
        let ghost names = names_of(items@);
        let ghost p = named::<A>(name@);
        let h = hash_of(name);
        let bucket = match self.buckets.get(&h) {
            Some(b) => b,
            None => {
                proof {
                    assert forall|j: int| 0 <= j < items@.len() implies !p(#[trigger] items@[j]) by {
                        if p(items@[j]) {
                            assert(names[j] == name@);
                        }
                    }
                    lemma_last_index_take(items@, p, 0);
                }
                return None;
            },
        };
        let mut best: Option<usize> = None;
        let mut j: usize = 0;
        while j < bucket.len()
            invariant
                j <= bucket@.len(),
                bucket == self.buckets@[h],
                self.buckets@.contains_key(h),
                self.indexes(names),
                names == names_of(items@),
                p == named::<A>(name@),
                best matches Some(b) ==> b < items@.len() && p(items@[b as int]),
                forall|q: int|
                    0 <= q < j && p(items@[#[trigger] bucket@[q] as int]) ==> (best matches Some(b)
                        && bucket@[q] <= b),
            decreases bucket@.len() - j,
        {
            let e = bucket[j];
            assert(e < items@.len() && name_hash(names[e as int]) == h);
            let same: bool = *items[e].name_ref() == *name;
            if same {
                let better = match best {
                    Some(b) => e > b,
                    None => true,
                };
                if better {
                    best = Some(e);
                }
            }
            j = j + 1;
        }
        proof {
            assert forall|i: int| 0 <= i < items@.len() && p(#[trigger] items@[i]) implies (best matches Some(
                b,
            ) && i <= b) by {
                assert(i < items.len());
                assert(names[i] == name@);
                assert(name_hash(names[i]) == h);
                assert(bucket@.contains(i as usize));
                let q = choose|q: int| 0 <= q < bucket@.len() && bucket@[q] == i as usize;
                assert(bucket@[q] as int == i);
                assert(p(items@[bucket@[q] as int]));
            }
            match best {
                Some(b) => {
                    assert forall|i: int| b + 1 <= i < items@.len() implies !p(#[trigger] items@[i]) by {}
                    lemma_last_index_take(items@, p, b + 1);
                    assert(items@.take(b + 1).last() == items@[b as int]);
                },
                None => {
                    assert forall|i: int| 0 <= i < items@.len() implies !p(#[trigger] items@[i]) by {}
                    lemma_last_index_take(items@, p, 0);
                },
            }
        }
        best
    }
}

} // verus!
