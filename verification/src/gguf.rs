use vstd::prelude::*;

verus! {

/// Largest string length, in bytes, that the GGUF reader accepts.
pub const MAX_STRING_LEN: u64 = 1048576;

/// Largest array length, and metadata key/value count, that the GGUF reader accepts.
pub const MAX_ARRAY_LEN: u64 = 100000;

/// Largest tensor count that the GGUF reader accepts.
pub const MAX_TENSORS: u64 = 100000;

/// The magic number at the start of every GGUF file ("GGUF", little endian).
pub const GGUF_MAGIC: u32 = 0x46554747;

/// A metadata value of a GGUF file.
///
/// The two floating-point kinds hold the IEEE-754 bit pattern of the value as
/// it stands in the file.
#[derive(Debug)]
pub enum GgufValue {
    Uint8(u8),
    Int8(i8),
    Uint16(u16),
    Int16(i16),
    Uint32(u32),
    Int32(i32),
    Float32(u32),
    Bool(bool),
    String(String),
    Array(Vec<GgufValue>),
    Uint64(u64),
    Int64(i64),
    Float64(u64),
}

/// The mathematical content of a [`GgufValue`].
pub enum SpecGgufValue {
    Uint8(u8),
    Int8(i8),
    Uint16(u16),
    Int16(i16),
    Uint32(u32),
    Int32(i32),
    Float32(u32),
    Bool(bool),
    String(Seq<char>),
    Array(Seq<SpecGgufValue>),
    Uint64(u64),
    Int64(i64),
    Float64(u64),
}

pub open spec fn value_view(v: GgufValue) -> SpecGgufValue
    decreases v,
{
    match v {
        GgufValue::Uint8(x) => SpecGgufValue::Uint8(x),
        GgufValue::Int8(x) => SpecGgufValue::Int8(x),
        GgufValue::Uint16(x) => SpecGgufValue::Uint16(x),
        GgufValue::Int16(x) => SpecGgufValue::Int16(x),
        GgufValue::Uint32(x) => SpecGgufValue::Uint32(x),
        GgufValue::Int32(x) => SpecGgufValue::Int32(x),
        GgufValue::Float32(x) => SpecGgufValue::Float32(x),
        GgufValue::Bool(x) => SpecGgufValue::Bool(x),
        GgufValue::String(s) => SpecGgufValue::String(s@),
        GgufValue::Array(items) => SpecGgufValue::Array(
            Seq::new(
                items@.len(),
                |i: int|
                    if 0 <= i < items@.len() {
                        value_view(items@[i])
                    } else {
                        SpecGgufValue::Bool(false)
                    },
            ),
        ),
        GgufValue::Uint64(x) => SpecGgufValue::Uint64(x),
        GgufValue::Int64(x) => SpecGgufValue::Int64(x),
        GgufValue::Float64(x) => SpecGgufValue::Float64(x),
    }
}

/// The contents of a sequence of values.
pub open spec fn values_view(vs: Seq<GgufValue>) -> Seq<SpecGgufValue> {
    Seq::new(vs.len(), |i: int| value_view(vs[i]))
}

pub proof fn lemma_array_view(items: Vec<GgufValue>)
    ensures
        value_view(GgufValue::Array(items)) == SpecGgufValue::Array(values_view(items@)),
{
    assert(value_view(GgufValue::Array(items))->Array_0 =~= values_view(items@));
}

impl View for GgufValue {
    type V = SpecGgufValue;

    open spec fn view(&self) -> SpecGgufValue {
        value_view(*self)
    }
}

/// The unsigned reading of an integer value, as `as_u64` gives it.
pub open spec fn spec_as_u64(v: SpecGgufValue) -> Option<u64> {
    match v {
        SpecGgufValue::Uint64(x) => Some(x),
        SpecGgufValue::Uint32(x) => Some(x as u64),
        SpecGgufValue::Int32(x) => Some(x as u64),
        SpecGgufValue::Int64(x) => Some(x as u64),
        _ => None,
    }
}

impl GgufValue {
    /// The text of a string value.
    pub fn as_str(&self) -> (r: Option<&str>)
        ensures
            match self@ {
                SpecGgufValue::String(s) => r is Some && r->0@ == s,
                _ => r is None,
            },
    {
        match self {
            GgufValue::String(s) => Some(s.as_str()),
            _ => None,
        }
    }

    /// The value of an unsigned 32/64-bit or signed 32/64-bit integer, as a `u64`
    /// (negative values wrap around).
    pub fn as_u64(&self) -> (r: Option<u64>)
        ensures
            r == spec_as_u64(self@),
    {
        match self {
            GgufValue::Uint64(v) => Some(*v),
            GgufValue::Uint32(v) => Some(*v as u64),
            GgufValue::Int32(v) => Some(*v as u64),
            GgufValue::Int64(v) => Some(*v as u64),
            _ => None,
        }
    }
}


/// The map that a list of key/value pairs describes when later pairs replace
/// earlier ones with the same key.
pub open spec fn pairs_map(ps: Seq<(Seq<char>, SpecGgufValue)>) -> Map<Seq<char>, SpecGgufValue>
    decreases ps.len(),
{
    if ps.len() == 0 {
        Map::empty()
    } else {
        pairs_map(ps.drop_last()).insert(ps.last().0, ps.last().1)
    }
}

/// The key/value pairs of metadata entries, by content.
pub open spec fn entries_pairs(es: Seq<(String, GgufValue)>) -> Seq<(Seq<char>, SpecGgufValue)> {
    Seq::new(es.len(), |i: int| (es[i].0@, es[i].1@))
}

/// No key occurs twice.
pub open spec fn distinct_keys(es: Seq<(String, GgufValue)>) -> bool {
    forall|i: int, j: int| 0 <= i < j < es.len() ==> es[i].0@ != es[j].0@
}

proof fn lemma_pairs_map_distinct(ps: Seq<(Seq<char>, SpecGgufValue)>)
    requires
        forall|i: int, j: int| 0 <= i < j < ps.len() ==> ps[i].0 != ps[j].0,
    ensures
        forall|k: Seq<char>| #[trigger] pairs_map(ps).contains_key(k) <==> exists|i: int| 0 <= i < ps.len() && ps[i].0 == k,
        forall|i: int| 0 <= i < ps.len() ==> #[trigger] pairs_map(ps)[ps[i].0] == ps[i].1,
    decreases ps.len(),
{
    if ps.len() > 0 {
        let q = ps.drop_last();
        lemma_pairs_map_distinct(q);
        assert forall|k: Seq<char>| #[trigger] pairs_map(ps).contains_key(k) <==> exists|i: int| 0 <= i < ps.len() && ps[i].0 == k by {
            if pairs_map(ps).contains_key(k) && k != ps.last().0 {
                assert(pairs_map(q).contains_key(k));
                let i = choose|i: int| 0 <= i < q.len() && q[i].0 == k;
                assert(ps[i].0 == k);
            }
            if exists|i: int| 0 <= i < ps.len() && ps[i].0 == k {
                let i = choose|i: int| 0 <= i < ps.len() && ps[i].0 == k;
                if i < q.len() {
                    assert(q[i].0 == k);
                    assert(pairs_map(q).contains_key(q[i].0));
                }
            }
        }
        assert forall|i: int| 0 <= i < ps.len() implies #[trigger] pairs_map(ps)[ps[i].0] == ps[i].1 by {
            if i < q.len() {
                assert(q[i] == ps[i]);
                assert(ps[i].0 != ps[ps.len() - 1].0);
                assert(pairs_map(q)[q[i].0] == q[i].1);
            }
        }
    }
}

/// The metadata of a GGUF file: values by key, each key once, kept in the
/// order in which the keys first appeared.
#[derive(Debug)]
pub struct Metadata {
    entries: Vec<(String, GgufValue)>,
}

impl Metadata {
    #[verifier::type_invariant]
    spec fn inv(self) -> bool {
        distinct_keys(self.entries@)
    }

    /// The key/value map.
    pub closed spec fn map(self) -> Map<Seq<char>, SpecGgufValue> {
        pairs_map(entries_pairs(self.entries@))
    }

    /// The entries, in order.
    pub closed spec fn spec_entries(self) -> Seq<(String, GgufValue)> {
        self.entries@
    }

    proof fn lemma_entries(self)
        requires
            distinct_keys(self.spec_entries()),
        ensures
            forall|k: Seq<char>| #[trigger] self.map().contains_key(k) <==> exists|i: int| 0 <= i < self.spec_entries().len() && self.spec_entries()[i].0@ == k,
            forall|i: int| 0 <= i < self.spec_entries().len() ==> #[trigger] self.map()[self.spec_entries()[i].0@] == self.spec_entries()[i].1@,
    {
        let ps = entries_pairs(self.entries@);
        lemma_pairs_map_distinct(ps);
        assert forall|k: Seq<char>| #[trigger] self.map().contains_key(k) <==> exists|i: int| 0 <= i < self.spec_entries().len() && self.spec_entries()[i].0@ == k by {
            if self.map().contains_key(k) {
                let i = choose|i: int| 0 <= i < ps.len() && ps[i].0 == k;
                assert(self.spec_entries()[i].0@ == k);
            }
            if exists|i: int| 0 <= i < self.spec_entries().len() && self.spec_entries()[i].0@ == k {
                let i = choose|i: int| 0 <= i < self.spec_entries().len() && self.spec_entries()[i].0@ == k;
                assert(ps[i].0 == k);
            }
        }
        assert forall|i: int| 0 <= i < self.spec_entries().len() implies #[trigger] self.map()[self.spec_entries()[i].0@] == self.spec_entries()[i].1@ by {
            assert(ps[i].0 == self.spec_entries()[i].0@);
        }
    }

    /// Empty metadata.
    pub fn new() -> (m: Metadata)
        ensures
            m.map() == Map::<Seq<char>, SpecGgufValue>::empty(),
            m.spec_entries().len() == 0,
    {
        let m = Metadata { entries: Vec::new() };
        assert(entries_pairs(m.entries@) =~= seq![]);
        m
    }

    /// The number of keys.
    pub fn len(&self) -> (n: usize)
        ensures
            n == self.spec_entries().len(),
            n == self.map().dom().len(),
    {
        proof {
            use_type_invariant(self);
            self.lemma_entries();
            lemma_pairs_map_len(entries_pairs(self.entries@));
        }
        self.entries.len()
    }

    /// Whether there are no keys.
    pub fn is_empty(&self) -> (b: bool)
        ensures
            b <==> self.map().dom().len() == 0,
    {
        self.len() == 0
    }

    /// The entries, in the order in which their keys first appeared.
    pub fn entries(&self) -> (es: &Vec<(String, GgufValue)>)
        ensures
            es@ == self.spec_entries(),
    {
        &self.entries
    }

    /// The position of `key` among the entries.
    fn position(&self, key: &str) -> (r: Option<usize>)
        ensures
            match r {
                Some(i) => i < self.spec_entries().len() && self.spec_entries()[i as int].0@ == key@,
                None => forall|i: int| 0 <= i < self.spec_entries().len() ==> self.spec_entries()[i].0@ != key@,
            },
    {
        let mut i: usize = 0;
        while i < self.entries.len()
            invariant
                i <= self.entries@.len(),
                forall|j: int| 0 <= j < i ==> self.entries@[j].0@ != key@,
            decreases self.entries@.len() - i,
        {
            if crate::text::str_eq(self.entries[i].0.as_str(), key) {
                return Some(i);
            }
            i = i + 1;
        }
        None
    }

    /// The value of `key`, if present.
    pub fn get(&self, key: &str) -> (r: Option<&GgufValue>)
        ensures
            match r {
                Some(v) => self.map().contains_key(key@) && self.map()[key@] == v@,
                None => !self.map().contains_key(key@),
            },
    {
        proof {
            use_type_invariant(self);
            self.lemma_entries();
        }
        match self.position(key) {
            Some(i) => Some(&self.entries[i].1),
            None => None,
        }
    }

    /// Whether `key` is present.
    pub fn contains_key(&self, key: &str) -> (b: bool)
        ensures
            b == self.map().contains_key(key@),
    {
        proof {
            use_type_invariant(self);
            self.lemma_entries();
        }
        self.position(key).is_some()
    }

    /// Sets the value of `key`, replacing an earlier value of the same key.
    pub fn insert(&mut self, key: String, value: GgufValue)
        ensures
            final(self).map() == old(self).map().insert(key@, value@),
    {
        proof {
            use_type_invariant(&*self);
            self.lemma_entries();
        }
        let ghost old_map = self.map();
        let ghost old_es = self.entries@;
        let ghost kv = key@;
        let ghost vv = value@;
        let pos = self.position(key.as_str());
        assert(old_es == self.spec_entries());
        let mut es: Vec<(String, GgufValue)> = Vec::new();
        std::mem::swap(&mut es, &mut self.entries);
        match pos {
            Some(i) => {
                es.set(i, (key, value));
                proof {
                    assert(distinct_keys(es@)) by {
                        assert forall|a: int, b: int| 0 <= a < b < es@.len() implies es@[a].0@ != es@[b].0@ by {
                            assert(old_es[a].0@ != old_es[b].0@);
                        }
                    }
                }
                self.entries = es;
                proof {
                    self.lemma_entries();
                    assert(self.map() =~= old_map.insert(kv, vv)) by {
                        assert forall|k: Seq<char>| #[trigger] self.map().contains_key(k) <==> old_map.insert(kv, vv).contains_key(k) by {
                            if self.map().contains_key(k) {
                                let j = choose|j: int| 0 <= j < self.spec_entries().len() && self.spec_entries()[j].0@ == k;
                                if j != i {
                                    assert(old_es[j].0@ == k);
                                    assert(old_map.contains_key(k));
                                }
                            }
                            if old_map.contains_key(k) && k != kv {
                                let j = choose|j: int| 0 <= j < old_es.len() && old_es[j].0@ == k;
                                assert(self.spec_entries()[j].0@ == k);
                            }
                            if k == kv {
                                assert(self.spec_entries()[i as int].0@ == k);
                            }
                        }
                        assert forall|k: Seq<char>| #[trigger] self.map().contains_key(k) implies self.map()[k] == old_map.insert(kv, vv)[k] by {
                            let j = choose|j: int| 0 <= j < self.spec_entries().len() && self.spec_entries()[j].0@ == k;
                            if j != i {
                                assert(old_es[j] == self.spec_entries()[j]);
                            }
                        }
                    }
                }
            },
            None => {
                es.push((key, value));
                proof {
                    assert(distinct_keys(es@)) by {
                        assert forall|a: int, b: int| 0 <= a < b < es@.len() implies es@[a].0@ != es@[b].0@ by {
                            if b < old_es.len() {
                                assert(old_es[a].0@ != old_es[b].0@);
                            } else {
                                assert(old_es[a].0@ != kv);
                            }
                        }
                    }
                }
                self.entries = es;
                proof {
                    assert(entries_pairs(self.entries@).drop_last() =~= entries_pairs(old_es));
                }
            },
        }
    }
}

proof fn lemma_pairs_map_len(ps: Seq<(Seq<char>, SpecGgufValue)>)
    requires
        forall|i: int, j: int| 0 <= i < j < ps.len() ==> ps[i].0 != ps[j].0,
    ensures
        pairs_map(ps).dom().finite(),
        pairs_map(ps).dom().len() == ps.len(),
    decreases ps.len(),
{
    if ps.len() > 0 {
        let q = ps.drop_last();
        lemma_pairs_map_len(q);
        lemma_pairs_map_distinct(q);
        assert(!pairs_map(q).contains_key(ps.last().0)) by {
            if pairs_map(q).contains_key(ps.last().0) {
                let i = choose|i: int| 0 <= i < q.len() && q[i].0 == ps.last().0;
                assert(ps[i].0 == ps[ps.len() - 1].0);
            }
        }
    }
}



/// Where a tensor lies in a GGUF file and how it is laid out.
#[derive(Debug, Clone)]
pub struct GgufTensorInfo {
    pub name: String,
    pub n_dims: u32,
    pub dimensions: Vec<u64>,
    pub dtype: u32,
    pub offset: u64,
}

/// The content of a [`GgufTensorInfo`].
pub struct SpecTensorInfo {
    pub name: Seq<char>,
    pub n_dims: u32,
    pub dimensions: Seq<u64>,
    pub dtype: u32,
    pub offset: u64,
}

impl View for GgufTensorInfo {
    type V = SpecTensorInfo;

    open spec fn view(&self) -> SpecTensorInfo {
        SpecTensorInfo {
            name: self.name@,
            n_dims: self.n_dims,
            dimensions: self.dimensions@,
            dtype: self.dtype,
            offset: self.offset,
        }
    }
}

/// The product of some dimensions.
pub open spec fn dims_product(ds: Seq<u64>) -> nat
    decreases ds.len(),
{
    if ds.len() == 0 {
        1
    } else {
        dims_product(ds.drop_last()) * (ds.last() as nat)
    }
}

/// Some leading run of the dimensions multiplies past `bound`.
pub open spec fn dims_prefix_exceeds(ds: Seq<u64>, bound: nat) -> bool {
    exists|i: int| 0 <= i <= ds.len() && dims_product(#[trigger] ds.take(i)) > bound
}

impl GgufTensorInfo {
    /// The number of elements, the product of the dimensions.
    pub fn n_elems(&self) -> (n: usize)
        requires
            !dims_prefix_exceeds(self.dimensions@, u64::MAX as nat),
            dims_product(self.dimensions@) <= usize::MAX,
        ensures
            n == dims_product(self.dimensions@),
    {
        match product_u64(&self.dimensions) {
            Some(p) => p as usize,
            None => 0,
        }
    }

    /// The number of elements, or `None` when multiplying the dimensions in
    /// order overflows a `u64` on the way.
    pub fn checked_n_elems(&self) -> (n: Option<u64>)
        ensures
            match n {
                Some(p) => p == dims_product(self.dimensions@) && !dims_prefix_exceeds(self.dimensions@, u64::MAX as nat),
                None => dims_prefix_exceeds(self.dimensions@, u64::MAX as nat),
            },
    {
        product_u64(&self.dimensions)
    }
}

/// The product of `ds`, or `None` when multiplying in order overflows.
pub fn product_u64(ds: &Vec<u64>) -> (r: Option<u64>)
    ensures
        match r {
            Some(p) => p == dims_product(ds@) && !dims_prefix_exceeds(ds@, u64::MAX as nat),
            None => dims_prefix_exceeds(ds@, u64::MAX as nat),
        },
{
    let mut acc: u64 = 1;
    let mut i: usize = 0;
    while i < ds.len()
        invariant
            i <= ds@.len(),
            acc == dims_product(ds@.take(i as int)),
            forall|j: int| 0 <= j <= i ==> dims_product(#[trigger] ds@.take(j)) <= u64::MAX,
        decreases ds@.len() - i,
    {
        assert(ds@.take(i + 1).drop_last() =~= ds@.take(i as int));
        match acc.checked_mul(ds[i]) {
            Some(x) => {
                acc = x;
            },
            None => {
                assert(dims_product(ds@.take(i + 1)) > u64::MAX);
                return None;
            },
        }
        i = i + 1;
    }
    assert(ds@.take(ds@.len() as int) =~= ds@);
    assert forall|j: int| 0 <= j <= ds@.len() implies !(dims_product(#[trigger] ds@.take(j)) > u64::MAX) by {}
    Some(acc)
}

/// The reader of GGUF files.
#[derive(Debug, Default)]
pub struct GgufReader;

impl GgufReader {
    pub fn new() -> (r: GgufReader)
        ensures
            r == GgufReader,
    {
        GgufReader
    }
}

/// The header of a GGUF file: format version, metadata, tensor directory and
/// the offset at which tensor data starts.
#[derive(Debug)]
pub struct GgufFile {
    pub path: String,
    pub file_size: u64,
    pub version: u32,
    pub tensor_count: u64,
    pub metadata: Metadata,
    pub tensors: Vec<GgufTensorInfo>,
    pub data_start: u64,
}

/// The content of a GGUF header as the file defines it.
pub struct SpecGgufHeader {
    pub version: u32,
    pub tensor_count: u64,
    pub metadata: Map<Seq<char>, SpecGgufValue>,
    pub tensors: Seq<SpecTensorInfo>,
    pub data_start: u64,
}

/// The content of a sequence of tensor records.
pub open spec fn tensors_view(ts: Seq<GgufTensorInfo>) -> Seq<SpecTensorInfo> {
    Seq::new(ts.len(), |i: int| ts[i]@)
}

impl GgufFile {
    /// The header content of this file.
    pub open spec fn header(&self) -> SpecGgufHeader {
        SpecGgufHeader {
            version: self.version,
            tensor_count: self.tensor_count,
            metadata: self.metadata.map(),
            tensors: tensors_view(self.tensors@),
            data_start: self.data_start,
        }
    }
}



} // verus!
