use vstd::prelude::*;
use std::collections::HashMap;

verus! {

broadcast use vstd::std_specs::hash::group_hash_axioms;

/// FNV-1a offset basis.
pub const FNV_OFFSET: u64 = 0xcbf29ce484222325;

/// FNV-1a prime.
pub const FNV_PRIME: u64 = 0x100000001b3;

/// The 64-bit FNV-1a hash of a byte string.
pub open spec fn fnv1a(bytes: Seq<u8>) -> u64
    decreases bytes.len(),
{
    if bytes.len() == 0 {
        FNV_OFFSET
    } else {
        (fnv1a(bytes.drop_last()) ^ (bytes.last() as u64)).wrapping_mul(FNV_PRIME)
    }
}

/// Computes the 64-bit FNV-1a hash of `bytes`.
pub fn fnv1a_hash(bytes: &[u8]) -> (h: u64)
    ensures
        h == fnv1a(bytes@),
{
    let mut h: u64 = FNV_OFFSET;
    let mut i: usize = 0;
    while i < bytes.len()
        invariant
            i <= bytes@.len(),
            h == fnv1a(bytes@.take(i as int)),
        decreases bytes@.len() - i,
    {
        assert(bytes@.take(i + 1).drop_last() =~= bytes@.take(i as int));
        h = (h ^ (bytes[i] as u64)).wrapping_mul(FNV_PRIME);
        i = i + 1;
    }
    assert(bytes@.take(bytes@.len() as int) =~= bytes@);
    h
}

/// The entries of a bucket map that sit in the bucket of `k`.
pub open spec fn bucket_of(m: Map<u64, Vec<(Vec<u8>, usize)>>, k: Seq<u8>) -> Seq<(Vec<u8>, usize)> {
    if m.contains_key(fnv1a(k)) {
        m[fnv1a(k)]@
    } else {
        seq![]
    }
}

/// `k` sits at position `i` of its bucket.
pub open spec fn at_slot(m: Map<u64, Vec<(Vec<u8>, usize)>>, k: Seq<u8>, i: int) -> bool {
    0 <= i < bucket_of(m, k).len() && bucket_of(m, k)[i].0@ == k
}

/// Every entry sits in the bucket of its key, and no bucket holds a key twice.
pub open spec fn buckets_wf(m: Map<u64, Vec<(Vec<u8>, usize)>>) -> bool {
    &&& forall|h: u64, i: int| #[trigger] m.contains_key(h) && 0 <= i < m[h]@.len() ==> fnv1a(
        #[trigger] m[h]@[i].0@,
    ) == h
    &&& forall|h: u64, i: int, j: int|
        #![trigger m[h]@[i], m[h]@[j]]
        m.contains_key(h) && 0 <= i < j < m[h]@.len() ==> m[h]@[i].0@ != m[h]@[j].0@
}

/// The map from byte strings to ranks that the buckets hold.
pub open spec fn buckets_map(m: Map<u64, Vec<(Vec<u8>, usize)>>) -> Map<Seq<u8>, usize> {
    Map::new(
        |k: Seq<u8>| exists|i: int| at_slot(m, k, i),
        |k: Seq<u8>| bucket_of(m, k)[choose|i: int| at_slot(m, k, i)].1,
    )
}

/// A map from byte strings to token ranks, kept in hash buckets.
pub struct TokenMap {
    buckets: HashMap<u64, Vec<(Vec<u8>, usize)>>,
}

impl View for TokenMap {
    type V = Map<Seq<u8>, usize>;

    closed spec fn view(&self) -> Map<Seq<u8>, usize> {
        buckets_map(self.buckets@)
    }
}

impl TokenMap {
    #[verifier::type_invariant]
    spec fn inv(self) -> bool {
        buckets_wf(self.buckets@)
    }

    /// An empty map.
    pub fn new() -> (m: TokenMap)
        ensures
            m@ == Map::<Seq<u8>, usize>::empty(),
    {
        let m = TokenMap { buckets: HashMap::new() };
        assert(m@ =~= Map::<Seq<u8>, usize>::empty());
        m
    }

    /// The rank of `key`, if present.
    pub fn get(&self, key: &[u8]) -> (r: Option<usize>)
        ensures
            match r {
                Some(v) => self@.contains_key(key@) && self@[key@] == v,
                None => !self@.contains_key(key@),
            },
    {
        proof {
            use_type_invariant(self);
        }
        let h = fnv1a_hash(key);
        match self.buckets.get(&h) {
            None => {
                proof {
                    assert forall|i: int| !at_slot(self.buckets@, key@, i) by {}
                }
                None
            },
            Some(bucket) => {
                let mut i: usize = 0;
                while i < bucket.len()
                    invariant
                        i <= bucket@.len(),
                        self.buckets@.contains_key(h),
                        buckets_wf(self.buckets@),
                        bucket@ == bucket_of(self.buckets@, key@),
                        forall|j: int| 0 <= j < i ==> bucket@[j].0@ != key@,
                    decreases bucket@.len() - i,
                {
                    if slice_eq(bucket[i].0.as_slice(), key) {
                        proof {
                            lemma_slot_unique(self.buckets@, key@, i as int);
                        }
                        return Some(bucket[i].1);
                    }
                    i = i + 1;
                }
                proof {
                    assert forall|c: int| !at_slot(self.buckets@, key@, c) by {
                        if 0 <= c < bucket@.len() {
                            assert(bucket@[c].0@ != key@);
                        }
                    }
                }
                None
            },
        }
    }

    /// Whether `key` is present.
    pub fn contains_key(&self, key: &[u8]) -> (b: bool)
        ensures
            b == self@.contains_key(key@),
    {
        self.get(key).is_some()
    }

    /// Sets the rank of `key`, replacing an earlier one.
    pub fn insert(&mut self, key: Vec<u8>, rank: usize)
        ensures
            final(self)@ == old(self)@.insert(key@, rank),
    {
        proof {
            use_type_invariant(&*self);
        }
        let ghost old_m = self.buckets@;
        let ghost kv = key@;
        let h = fnv1a_hash(key.as_slice());
        let mut buckets: HashMap<u64, Vec<(Vec<u8>, usize)>> = HashMap::new();
        std::mem::swap(&mut buckets, &mut self.buckets);
        let mut bucket: Vec<(Vec<u8>, usize)> = match buckets.remove(&h) {
            Some(b) => b,
            None => Vec::new(),
        };
        let ghost old_bucket = bucket@;
        assert(old_bucket == bucket_of(old_m, kv));
        let pos = find_key(&bucket, key.as_slice());
        let found = pos.is_some();
        let i: usize = match pos {
            Some(j) => j,
            None => 0,
        };
        if found {
            bucket.set(i, (key, rank));
        } else {
            bucket.push((key, rank));
        }
        let ghost new_bucket = bucket;
        proof {
            lemma_insert_bucket(old_m, kv, rank, new_bucket, found, i as int);
        }
        buckets.insert(h, bucket);
        assert(buckets@ == old_m.insert(h, new_bucket));
        self.buckets = buckets;
    }
}

proof fn lemma_slot_unique(m: Map<u64, Vec<(Vec<u8>, usize)>>, k: Seq<u8>, i: int)
    requires
        buckets_wf(m),
        at_slot(m, k, i),
    ensures
        buckets_map(m).contains_key(k),
        buckets_map(m)[k] == bucket_of(m, k)[i].1,
{
    let c = choose|c: int| at_slot(m, k, c);
    assert(at_slot(m, k, c));
    let h = fnv1a(k);
    assert(m.contains_key(h));
    if c < i {
        assert(m[h]@[c].0@ != m[h]@[i].0@);
    } else if c > i {
        assert(m[h]@[i].0@ != m[h]@[c].0@);
    }
}

proof fn lemma_insert_bucket(
    old_m: Map<u64, Vec<(Vec<u8>, usize)>>,
    kv: Seq<u8>,
    rank: usize,
    nb: Vec<(Vec<u8>, usize)>,
    found: bool,
    i: int,
)
    requires
        buckets_wf(old_m),
        found ==> 0 <= i < bucket_of(old_m, kv).len() && bucket_of(old_m, kv)[i].0@ == kv
            && nb@.len() == bucket_of(old_m, kv).len() && nb@[i].0@ == kv && nb@[i].1 == rank
            && forall|j: int| 0 <= j < nb@.len() && j != i ==> nb@[j] == bucket_of(old_m, kv)[j],
        !found ==> (forall|j: int|
            0 <= j < bucket_of(old_m, kv).len() ==> bucket_of(old_m, kv)[j].0@ != kv) && nb@.len()
            == bucket_of(old_m, kv).len() + 1 && (forall|j: int|
            0 <= j < bucket_of(old_m, kv).len() ==> nb@[j] == bucket_of(old_m, kv)[j])
            && nb@[nb@.len() - 1].0@ == kv && nb@[nb@.len() - 1].1 == rank,
    ensures
        buckets_wf(old_m.insert(fnv1a(kv), nb)),
        buckets_map(old_m.insert(fnv1a(kv), nb)) == buckets_map(old_m).insert(kv, rank),
{
    let h = fnv1a(kv);
    let m2 = old_m.insert(h, nb);
    let ob = bucket_of(old_m, kv);
    let slot = if found { i } else { nb@.len() - 1 };
    assert(forall|j: int| 0 <= j < nb@.len() && j != slot ==> nb@[j] == ob[j]);
    assert forall|hh: u64, a: int| #[trigger] m2.contains_key(hh) && 0 <= a < m2[hh]@.len() implies fnv1a(#[trigger] m2[hh]@[a].0@) == hh by {
        if hh == h && a != slot {
            assert(nb@[a] == ob[a]);
            assert(old_m.contains_key(h));
            assert(old_m[h]@[a] == ob[a]);
        }
    }
    assert forall|hh: u64, a: int, b: int| #![trigger m2[hh]@[a], m2[hh]@[b]] m2.contains_key(hh) && 0 <= a < b < m2[hh]@.len() implies m2[hh]@[a].0@ != m2[hh]@[b].0@ by {
        if hh == h {
            if a != slot && b != slot {
                assert(old_m.contains_key(h));
                assert(old_m[h]@[a] == ob[a] && old_m[h]@[b] == ob[b]);
            } else if a == slot {
                assert(nb@[b] == ob[b]);
                if found {
                    assert(old_m.contains_key(h));
                    assert(old_m[h]@[i] == ob[i] && old_m[h]@[b] == ob[b]);
                }
            } else {
                assert(nb@[a] == ob[a]);
                if found {
                    assert(old_m.contains_key(h));
                    assert(old_m[h]@[i] == ob[i] && old_m[h]@[a] == ob[a]);
                }
            }
        }
    }
    let target = buckets_map(old_m).insert(kv, rank);
    assert(at_slot(m2, kv, slot));
    lemma_slot_unique(m2, kv, slot);
    assert forall|k: Seq<u8>| #[trigger] buckets_map(m2).contains_key(k) <==> target.contains_key(k) by {
        if k != kv {
            if fnv1a(k) != h {
                assert(bucket_of(m2, k) == bucket_of(old_m, k));
                if buckets_map(m2).contains_key(k) {
                    let c = choose|c: int| at_slot(m2, k, c);
                    assert(at_slot(old_m, k, c));
                }
                if buckets_map(old_m).contains_key(k) {
                    let c = choose|c: int| at_slot(old_m, k, c);
                    assert(at_slot(m2, k, c));
                }
            } else {
                if buckets_map(m2).contains_key(k) {
                    let c = choose|c: int| at_slot(m2, k, c);
                    assert(c != slot);
                    assert(at_slot(old_m, k, c));
                }
                if buckets_map(old_m).contains_key(k) {
                    let c = choose|c: int| at_slot(old_m, k, c);
                    if found {
                        assert(c != i);
                    }
                    assert(nb@[c] == ob[c]);
                    assert(at_slot(m2, k, c));
                }
            }
        }
    }
    assert forall|k: Seq<u8>| #[trigger] buckets_map(m2).contains_key(k) implies buckets_map(m2)[k] == target[k] by {
        if k != kv {
            if fnv1a(k) != h {
                assert(bucket_of(m2, k) == bucket_of(old_m, k));
            } else {
                let c = choose|c: int| at_slot(m2, k, c);
                assert(c != slot);
                assert(nb@[c] == ob[c]);
                assert(at_slot(old_m, k, c));
                lemma_slot_unique(old_m, k, c);
                lemma_slot_unique(m2, k, c);
            }
        }
    }
    assert(buckets_map(m2) =~= target);
}

/// The position of `key` in `bucket`, if it is there.
fn find_key(bucket: &Vec<(Vec<u8>, usize)>, key: &[u8]) -> (r: Option<usize>)
    ensures
        match r {
            Some(i) => i < bucket@.len() && bucket@[i as int].0@ == key@,
            None => forall|j: int| 0 <= j < bucket@.len() ==> bucket@[j].0@ != key@,
        },
{
    let mut i: usize = 0;
    while i < bucket.len()
        invariant
            i <= bucket@.len(),
            forall|j: int| 0 <= j < i ==> bucket@[j].0@ != key@,
        decreases bucket@.len() - i,
    {
        if slice_eq(bucket[i].0.as_slice(), key) {
            return Some(i);
        }
        i = i + 1;
    }
    None
}

/// Byte strings with the same contents.
pub fn slice_eq(a: &[u8], b: &[u8]) -> (r: bool)
    ensures
        r == (a@ == b@),
{
    if a.len() != b.len() {
        return false;
    }
    let mut i: usize = 0;
    while i < a.len()
        invariant
            a@.len() == b@.len(),
            i <= a@.len(),
            forall|j: int| 0 <= j < i ==> a@[j] == b@[j],
        decreases a@.len() - i,
    {
        if a[i] != b[i] {
            return false;
        }
        i = i + 1;
    }
    assert(a@ =~= b@);
    true
}

} // verus!
