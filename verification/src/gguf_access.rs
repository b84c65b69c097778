use vstd::prelude::*;
use crate::error::Error;
use crate::gguf::{
    dims_product, spec_as_u64, GgufFile, GgufTensorInfo, SpecGgufValue, SpecTensorInfo, tensors_view,
};
use crate::text::{decimal, push_decimal, push_str};

verus! {

/// The string stored under `k`, if any.
pub open spec fn meta_str(m: Map<Seq<char>, SpecGgufValue>, k: Seq<char>) -> Option<Seq<char>> {
    if m.contains_key(k) && m[k] is String {
        Some(m[k]->String_0)
    } else {
        None
    }
}

/// The integer stored under `k`, read as `as_u64` reads it, if any.
pub open spec fn meta_u64(m: Map<Seq<char>, SpecGgufValue>, k: Seq<char>) -> Option<u64> {
    if m.contains_key(k) {
        spec_as_u64(m[k])
    } else {
        None
    }
}

/// The architecture name, or `unknown`: the prefix of architecture keys.
pub open spec fn arch_prefix(m: Map<Seq<char>, SpecGgufValue>) -> Seq<char> {
    match meta_str(m, "general.architecture"@) {
        Some(a) => a,
        None => "unknown"@,
    }
}

/// `i` is the position of the first tensor named `name`.
pub open spec fn is_first_named(ts: Seq<SpecTensorInfo>, name: Seq<char>, i: int) -> bool {
    0 <= i < ts.len() && ts[i].name == name && forall|j: int| 0 <= j < i ==> ts[j].name != name
}

/// The position of the first tensor named `name`.
pub open spec fn first_tensor(ts: Seq<SpecTensorInfo>, name: Seq<char>) -> Option<int> {
    if exists|i: int| is_first_named(ts, name, i) {
        Some(choose|i: int| is_first_named(ts, name, i))
    } else {
        None
    }
}

/// Elements per block of a GGML type: 32 for Q4_0 (id 2) and Q8_0 (id 8),
/// one for every other type.
pub open spec fn spec_ggml_block_len(dtype: u32) -> usize {
    if dtype == 2 || dtype == 8 {
        32
    } else {
        1
    }
}

/// Bytes per block of a GGML type: four for F32, two for F16, 18 for a Q4_0
/// block (a half-precision scale and 32 four-bit values), 34 for a Q8_0 block
/// (a half-precision scale and 32 signed bytes), one for every other type.
pub open spec fn spec_ggml_type_size(dtype: u32) -> usize {
    if dtype == 0 {
        4
    } else if dtype == 1 {
        2
    } else if dtype == 2 {
        18
    } else if dtype == 8 {
        34
    } else {
        1
    }
}

/// The bytes of `n` elements of a GGML type: whole blocks, the last one
/// counted in full.
pub open spec fn tensor_bytes(dtype: u32, n: nat) -> nat {
    let bl = spec_ggml_block_len(dtype) as nat;
    let blocks = n / bl + if n % bl == 0 { 0nat } else { 1nat };
    blocks * (spec_ggml_type_size(dtype) as nat)
}

/// Elements per block of a GGML type id.
pub fn ggml_block_len(dtype: u32) -> (r: usize)
    ensures
        r == spec_ggml_block_len(dtype),
{
    if dtype == 2 || dtype == 8 {
        32
    } else {
        1
    }
}

/// Bytes per block of a GGML type id.
pub fn ggml_type_size(dtype: u32) -> (r: usize)
    ensures
        r == spec_ggml_type_size(dtype),
{
    match dtype {
        0 => 4,
        1 => 2,
        2 => 18,
        8 => 34,
        _ => 1,
    }
}

/// The bytes of `n` elements of a GGML type, or `None` when they do not fit
/// in a machine word.
pub fn ggml_tensor_bytes(dtype: u32, n: u64) -> (r: Option<usize>)
    ensures
        match r {
            Some(b) => b == tensor_bytes(dtype, n as nat),
            None => tensor_bytes(dtype, n as nat) > usize::MAX,
        },
{
    let bl = ggml_block_len(dtype) as u64;
    let size = ggml_type_size(dtype) as u64;
    let blocks: u64 = n / bl + if n % bl == 0 {
        0
    } else {
        1
    };
    proof {
        assert(n / bl + (if n % bl == 0 { 0int } else { 1int }) <= n + 0) by (nonlinear_arith)
            requires
                bl >= 1,
                n % bl < bl,
                n == bl * (n / bl) + n % bl,
                n / bl >= 0,
        ;
    }
    if blocks > (usize::MAX as u64) / size {
        proof {
            assert(blocks * size > usize::MAX) by (nonlinear_arith)
                requires
                    size >= 1,
                    blocks > (usize::MAX as u64) / size,
            ;
        }
        return None;
    }
    proof {
        assert(blocks * size <= usize::MAX) by (nonlinear_arith)
            requires
                size >= 1,
                blocks <= (usize::MAX as u64) / size,
        ;
    }
    Some((blocks * size) as usize)
}

/// Where the bytes of a tensor lie in its file.
#[derive(Debug, Clone, Copy, PartialEq, Eq)]
pub struct TensorExtent {
    /// Absolute file offset of the first byte.
    pub offset: u64,
    /// Number of bytes.
    pub n_bytes: usize,
    /// GGML type id.
    pub dtype: u32,
    /// Number of elements.
    pub n_elems: usize,
}

/// Fits in machine words: the element count and byte count of `t`, and its
/// absolute offset after `data_start`.
pub open spec fn extent_fits(t: SpecTensorInfo, data_start: u64) -> bool {
    &&& !crate::gguf::dims_prefix_exceeds(t.dimensions, u64::MAX as nat)
    &&& dims_product(t.dimensions) <= usize::MAX
    &&& tensor_bytes(t.dtype, dims_product(t.dimensions)) <= usize::MAX
    &&& data_start + t.offset <= u64::MAX
}

pub open spec fn msg_tensor_not_found(name: Seq<char>) -> Seq<char> {
    "tensor '"@ + name + "' not found"@
}

/// `r` is the extent of the first tensor named `name` in `f`: where its
/// bytes lie, how many there are, of which type; or the error that no tensor
/// has that name.
pub open spec fn extent_is(f: GgufFile, name: Seq<char>, r: Result<TensorExtent, Error>) -> bool {
    match first_tensor(tensors_view(f.tensors@), name) {
        Some(i) => {
            let t = tensors_view(f.tensors@)[i];
            r == Ok::<TensorExtent, Error>(
                TensorExtent {
                    offset: (f.data_start + t.offset) as u64,
                    n_bytes: tensor_bytes(t.dtype, dims_product(t.dimensions)) as usize,
                    dtype: t.dtype,
                    n_elems: dims_product(t.dimensions) as usize,
                },
            )
        },
        None => (r matches Err(Error::Other(m)) && m@ == msg_tensor_not_found(name)),
    }
}

impl GgufFile {
    fn find_tensor(&self, name: &str) -> (r: Option<usize>)
        ensures
            match r {
                Some(k) => k < self.tensors@.len() && first_tensor(tensors_view(self.tensors@), name@) == Some(k as int),
                None => first_tensor(tensors_view(self.tensors@), name@) is None,
            },
    {
        let ghost ts = tensors_view(self.tensors@);
        let mut i: usize = 0;
        while i < self.tensors.len()
            invariant
                i <= self.tensors@.len(),
                ts == tensors_view(self.tensors@),
                forall|j: int| 0 <= j < i ==> ts[j].name != name@,
            decreases self.tensors@.len() - i,
        {
            if crate::text::str_eq(self.tensors[i].name.as_str(), name) {
                proof {
                    assert(is_first_named(ts, name@, i as int));
                    let k = choose|k: int| is_first_named(ts, name@, k);
                    if k < i {
                    } else if k > i {
                        assert(ts[i as int].name == name@);
                    }
                    assert(k == i);
                }
                return Some(i);
            }
            i = i + 1;
        }
        proof {
            assert forall|k: int| !is_first_named(ts, name@, k) by {
                if 0 <= k < ts.len() {
                    assert(ts[k].name != name@);
                }
            }
        }
        None
    }

    /// The record of the first tensor named `name`, if any.
    pub fn tensor_info(&self, name: &str) -> (r: Option<&GgufTensorInfo>)
        ensures
            match first_tensor(tensors_view(self.tensors@), name@) {
                Some(i) => r is Some && r->0@ == tensors_view(self.tensors@)[i],
                None => r is None,
            },
    {
        match self.find_tensor(name) {
            Some(i) => {
                assert(tensors_view(self.tensors@)[i as int] == self.tensors@[i as int]@);
                Some(&self.tensors[i])
            },
            None => None,
        }
    }

    /// Where the bytes of the first tensor named `name` lie, or an error when
    /// there is none.
    pub fn tensor_extent(&self, name: &str) -> (r: Result<TensorExtent, Error>)
        requires
            first_tensor(tensors_view(self.tensors@), name@) matches Some(i) ==> extent_fits(
                tensors_view(self.tensors@)[i],
                self.data_start,
            ),
        ensures
            extent_is(*self, name@, r),
    {
        match self.find_tensor(name) {
            Some(i) => {
                let t = &self.tensors[i];
                assert(tensors_view(self.tensors@)[i as int] == t@);
                let n_elems = t.n_elems();
                let n_bytes = match ggml_tensor_bytes(t.dtype, n_elems as u64) {
                    Some(b) => b,
                    None => 0,
                };
                Ok(TensorExtent { offset: self.data_start + t.offset, n_bytes, dtype: t.dtype, n_elems })
            },
            None => {
                let mut m = "tensor '".to_owned();
                push_str(&mut m, name);
                push_str(&mut m, "' not found");
                Err(Error::Other(m))
            },
        }
    }

    /// The extent of the tensor `name`, or `None` where its element count,
    /// byte count or absolute offset does not fit in a machine word.
    pub fn try_tensor_extent(&self, name: &str) -> (r: Option<Result<TensorExtent, Error>>)
        ensures
            r is None <==> (first_tensor(tensors_view(self.tensors@), name@) matches Some(i) && !extent_fits(
                tensors_view(self.tensors@)[i],
                self.data_start,
            )),
            r matches Some(x) ==> extent_is(*self, name@, x),
    {
        match self.find_tensor(name) {
            Some(i) => {
                let t = &self.tensors[i];
                assert(tensors_view(self.tensors@)[i as int] == t@);
                let n = match t.checked_n_elems() {
                    Some(n) => n,
                    None => {
                        return None;
                    },
                };
                if n > usize::MAX as u64 {
                    return None;
                }
                if ggml_tensor_bytes(t.dtype, n).is_none() {
                    return None;
                }
                if t.offset > u64::MAX - self.data_start {
                    return None;
                }
                Some(self.tensor_extent(name))
            },
            None => Some(self.tensor_extent(name)),
        }
    }

    /// The names of the tensors, in file order.
    pub fn list_tensor_names(&self) -> (r: Vec<String>)
        ensures
            r@.len() == self.tensors@.len(),
            forall|i: int| 0 <= i < r@.len() ==> r@[i]@ == self.tensors@[i].name@,
    {
        let mut out: Vec<String> = Vec::new();
        let mut i: usize = 0;
        while i < self.tensors.len()
            invariant
                i <= self.tensors@.len(),
                out@.len() == i,
                forall|j: int| 0 <= j < i ==> out@[j]@ == self.tensors@[j].name@,
            decreases self.tensors@.len() - i,
        {
            out.push(self.tensors[i].name.clone());
            i = i + 1;
        }
        out
    }

    /// The string stored under `key`, if any.
    fn meta_str_of(&self, key: &str) -> (r: Option<&str>)
        ensures
            match meta_str(self.metadata.map(), key@) {
                Some(s) => r is Some && r->0@ == s,
                None => r is None,
            },
    {
        match self.metadata.get(key) {
            Some(v) => v.as_str(),
            None => None,
        }
    }

    /// The integer stored under `key`, if any.
    fn meta_u64_of(&self, key: &str) -> (r: Option<u64>)
        ensures
            r == meta_u64(self.metadata.map(), key@),
    {
        match self.metadata.get(key) {
            Some(v) => v.as_u64(),
            None => None,
        }
    }

    /// The value of `general.architecture`.
    pub fn architecture(&self) -> (r: Option<&str>)
        ensures
            match meta_str(self.metadata.map(), "general.architecture"@) {
                Some(s) => r is Some && r->0@ == s,
                None => r is None,
            },
    {
        self.meta_str_of("general.architecture")
    }

    /// The value of `general.name`.
    pub fn name(&self) -> (r: Option<&str>)
        ensures
            match meta_str(self.metadata.map(), "general.name"@) {
                Some(s) => r is Some && r->0@ == s,
                None => r is None,
            },
    {
        self.meta_str_of("general.name")
    }

    /// The value of `general.file_type`.
    pub fn file_type(&self) -> (r: Option<u64>)
        ensures
            r == meta_u64(self.metadata.map(), "general.file_type"@),
    {
        self.meta_u64_of("general.file_type")
    }

    /// The integer stored under `{architecture}{suffix}`, the architecture
    /// being `unknown` when the file names none.
    fn arch_u64(&self, suffix: &str) -> (r: Option<u64>)
        ensures
            r == meta_u64(self.metadata.map(), arch_prefix(self.metadata.map()) + suffix@),
    {
        let mut key = match self.architecture() {
            Some(a) => a.to_owned(),
            None => "unknown".to_owned(),
        };
        push_str(&mut key, suffix);
        self.meta_u64_of(key.as_str())
    }

    /// `{architecture}.block_count`.
    pub fn block_count(&self) -> (r: Option<u64>)
        ensures
            r == meta_u64(self.metadata.map(), arch_prefix(self.metadata.map()) + ".block_count"@),
    {
        self.arch_u64(".block_count")
    }

    /// `{architecture}.context_length`.
    pub fn context_length(&self) -> (r: Option<u64>)
        ensures
            r == meta_u64(self.metadata.map(), arch_prefix(self.metadata.map()) + ".context_length"@),
    {
        self.arch_u64(".context_length")
    }

    /// `{architecture}.embedding_length`.
    pub fn embedding_length(&self) -> (r: Option<u64>)
        ensures
            r == meta_u64(
                self.metadata.map(),
                arch_prefix(self.metadata.map()) + ".embedding_length"@,
            ),
    {
        self.arch_u64(".embedding_length")
    }
}

/// How a tensor's bytes are read.
#[allow(non_camel_case_types)]
#[derive(Debug, Clone, Copy, PartialEq, Eq)]
pub enum WeightDecoding {
    /// The bytes are little-endian `f32` values.
    F32,
    /// The first `n` two-byte chunks are little-endian `f16` values.
    F16 { n: usize },
    /// `n` values in Q8_0 blocks, for the Q8_0 kernels.
    Q8_0 { n: usize },
    /// `n` values in Q4_0 blocks, for the Q4_0 kernels.
    Q4_0 { n: usize },
}

pub open spec fn msg_unsupported_dtype(dtype: u32, name: Seq<char>) -> Seq<char> {
    "unsupported GGML dtype "@ + decimal(dtype as nat) + " for tensor '"@ + name + "'"@
}

/// How the tensor `name`, of GGML type `extent.dtype`, is read: F32 as is,
/// F16 widened, Q8_0 (8) and Q4_0 (2) kept in blocks for the quantized
/// kernels, every other type refused.
pub fn weight_decoding(extent: &TensorExtent, name: &str) -> (r: Result<WeightDecoding, Error>)
    ensures
        extent.dtype == 0 ==> r == Ok::<WeightDecoding, Error>(WeightDecoding::F32),
        extent.dtype == 1 ==> r == Ok::<WeightDecoding, Error>(WeightDecoding::F16 { n: extent.n_elems }),
        extent.dtype == 8 ==> r == Ok::<WeightDecoding, Error>(WeightDecoding::Q8_0 { n: extent.n_elems }),
        extent.dtype == 2 ==> r == Ok::<WeightDecoding, Error>(WeightDecoding::Q4_0 { n: extent.n_elems }),
        !(extent.dtype == 0 || extent.dtype == 1 || extent.dtype == 2 || extent.dtype == 8) ==> (r matches Err(
            Error::Other(m),
        ) && m@ == msg_unsupported_dtype(extent.dtype, name@)),
{
    match extent.dtype {
        0 => Ok(WeightDecoding::F32),
        1 => Ok(WeightDecoding::F16 { n: extent.n_elems }),
        8 => Ok(WeightDecoding::Q8_0 { n: extent.n_elems }),
        2 => Ok(WeightDecoding::Q4_0 { n: extent.n_elems }),
        other => {
            let mut m = "unsupported GGML dtype ".to_owned();
            push_decimal(&mut m, other as u64);
            push_str(&mut m, " for tensor '");
            push_str(&mut m, name);
            push_str(&mut m, "'");
            Err(Error::Other(m))
        },
    }
}

} // verus!
