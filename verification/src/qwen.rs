use vstd::prelude::*;
use crate::error::Error;
use crate::gguf::{spec_as_u64, GgufFile, GgufValue, SpecGgufValue};
use crate::gguf_access::{meta_str, meta_u64};
use crate::text::str_eq;
use crate::text::{decimal, push_decimal, push_str};

verus! {

/// The bit pattern of a floating-point metadata value, as the file stores it.
#[derive(Debug, Clone, Copy, PartialEq, Eq)]
pub enum FloatBits {
    /// IEEE-754 single precision.
    Single(u32),
    /// IEEE-754 double precision.
    Double(u64),
}

/// Hyper-parameters of a Qwen3 (or Qwen2 / Llama) model.
///
/// The two floating-point parameters are kept as the file stores them; `None`
/// means the file gives none and the defaults (`1e6` for the RoPE base,
/// `1e-6` for the RMS-norm epsilon) apply.
#[derive(Debug, Clone, Copy, PartialEq, Eq)]
pub struct QwenConfig {
    pub hidden_size: usize,
    pub n_layers: usize,
    pub n_heads: usize,
    pub n_kv_heads: usize,
    pub head_dim: usize,
    pub ffn_dim: usize,
    pub vocab_size: usize,
    pub max_seq_len: usize,
    pub rope_theta: Option<FloatBits>,
    pub rms_norm_eps: Option<FloatBits>,
}

/// Why a configuration cannot be read from metadata.
pub enum ConfigFail {
    /// `general.architecture` is absent (or not a string).
    NoArchitecture,
    /// The architecture is none of `qwen3`, `qwen2`, `llama`.
    Unsupported(Seq<char>),
    /// A required key is absent; the message names it.
    Missing(Seq<char>),
}

/// `e` is the library error for `f`.
pub open spec fn config_error_is(e: Error, f: ConfigFail) -> bool {
    match f {
        ConfigFail::NoArchitecture => e matches Error::Other(m) && m@
            == "no architecture in GGUF metadata"@,
        ConfigFail::Unsupported(a) => e matches Error::UnsupportedArchitecture(m) && m@ == a,
        ConfigFail::Missing(what) => e matches Error::Other(m) && m@ == "missing "@ + what,
    }
}

/// A floating-point value stored under `k`, if any.
pub open spec fn meta_float(m: Map<Seq<char>, SpecGgufValue>, k: Seq<char>) -> Option<FloatBits> {
    if m.contains_key(k) {
        match m[k] {
            SpecGgufValue::Float32(x) => Some(FloatBits::Single(x)),
            SpecGgufValue::Float64(x) => Some(FloatBits::Double(x)),
            _ => None,
        }
    } else {
        None
    }
}

pub open spec fn supported_architecture(a: Seq<char>) -> bool {
    a == "qwen3"@ || a == "qwen2"@ || a == "llama"@
}

/// The integer under `{prefix}{suffix}`, as a machine word.
pub open spec fn arch_usize(m: Map<Seq<char>, SpecGgufValue>, prefix: Seq<char>, suffix: Seq<char>) -> Option<usize> {
    match meta_u64(m, prefix + suffix) {
        Some(v) => Some(v as usize),
        None => None,
    }
}

/// The configuration that the metadata `m` describes.
pub open spec fn spec_config(m: Map<Seq<char>, SpecGgufValue>) -> Result<QwenConfig, ConfigFail> {
    match meta_str(m, "general.architecture"@) {
        None => Err(ConfigFail::NoArchitecture),
        Some(a) => if !supported_architecture(a) {
            Err(ConfigFail::Unsupported(a))
        } else {
            match arch_usize(m, a, ".embedding_length"@) {
                None => Err(ConfigFail::Missing("embedding_length"@)),
                Some(hidden) => match arch_usize(m, a, ".block_count"@) {
                    None => Err(ConfigFail::Missing("block_count"@)),
                    Some(layers) => match arch_usize(m, a, ".attention.head_count"@) {
                        None => Err(ConfigFail::Missing("head_count"@)),
                        Some(heads) => match arch_usize(m, a, ".feed_forward_length"@) {
                            None => Err(ConfigFail::Missing("feed_forward_length"@)),
                            Some(ffn) => match arch_usize(m, a, ".vocab_size"@) {
                                None => Err(ConfigFail::Missing("vocab_size"@)),
                                Some(vocab) => Ok(
                                    QwenConfig {
                                        hidden_size: hidden,
                                        n_layers: layers,
                                        n_heads: heads,
                                        n_kv_heads: match arch_usize(
                                            m,
                                            a,
                                            ".attention.head_count_kv"@,
                                        ) {
                                            Some(kv) => kv,
                                            None => heads,
                                        },
                                        head_dim: (hidden / heads) as usize,
                                        ffn_dim: ffn,
                                        vocab_size: vocab,
                                        max_seq_len: match arch_usize(m, a, ".context_length"@) {
                                            Some(c) => c,
                                            None => 8192,
                                        },
                                        rope_theta: meta_float(m, a + ".rope.freq_base"@),
                                        rms_norm_eps: meta_float(
                                            m,
                                            a + ".attention.layer_norm_rms_epsilon"@,
                                        ),
                                    },
                                ),
                            },
                        },
                    },
                },
            }
        },
    }
}

/// The head count would divide the hidden size by zero: every required key
/// is present and the head count is zero.
pub open spec fn head_count_is_zero(m: Map<Seq<char>, SpecGgufValue>) -> bool {
    match meta_str(m, "general.architecture"@) {
        Some(a) => supported_architecture(a) && arch_usize(m, a, ".embedding_length"@) is Some
            && arch_usize(m, a, ".block_count"@) is Some && arch_usize(
            m,
            a,
            ".attention.head_count"@,
        ) == Some(0usize) && arch_usize(m, a, ".feed_forward_length"@) is Some && arch_usize(
            m,
            a,
            ".vocab_size"@,
        ) is Some,
        None => false,
    }
}

fn arch_key_u64(gguf: &GgufFile, arch: &str, suffix: &str) -> (r: Option<usize>)
    ensures
        r == arch_usize(gguf.metadata.map(), arch@, suffix@),
{
    let mut key = arch.to_owned();
    push_str(&mut key, suffix);
    match gguf.metadata.get(key.as_str()) {
        Some(v) => match v.as_u64() {
            Some(x) => Some(x as usize),
            None => None,
        },
        None => None,
    }
}

fn arch_key_float(gguf: &GgufFile, arch: &str, suffix: &str) -> (r: Option<FloatBits>)
    ensures
        r == meta_float(gguf.metadata.map(), arch@ + suffix@),
{
    let mut key = arch.to_owned();
    push_str(&mut key, suffix);
    match gguf.metadata.get(key.as_str()) {
        Some(GgufValue::Float32(x)) => Some(FloatBits::Single(*x)),
        Some(GgufValue::Float64(x)) => Some(FloatBits::Double(*x)),
        _ => None,
    }
}

fn missing(what: &str) -> (e: Error)
    ensures
        config_error_is(e, ConfigFail::Missing(what@)),
{
    let mut m = "missing ".to_owned();
    push_str(&mut m, what);
    Error::Other(m)
}

/// Whether the metadata has every key that the configuration requires and a
/// head count of zero, which the head size cannot be divided by.
pub fn has_zero_head_count(gguf: &GgufFile) -> (b: bool)
    ensures
        b == head_count_is_zero(gguf.metadata.map()),
{
    let arch = match gguf.architecture() {
        Some(a) => a,
        None => {
            return false;
        },
    };
    if !(str_eq(arch, "qwen3") || str_eq(arch, "qwen2") || str_eq(arch, "llama")) {
        return false;
    }
    arch_key_u64(gguf, arch, ".embedding_length").is_some() && arch_key_u64(gguf, arch, ".block_count").is_some()
        && arch_key_u64(gguf, arch, ".attention.head_count") == Some(0usize) && arch_key_u64(
        gguf,
        arch,
        ".feed_forward_length",
    ).is_some() && arch_key_u64(gguf, arch, ".vocab_size").is_some()
}

impl QwenConfig {
    /// Reads the model configuration from the metadata of a GGUF file.
    pub fn from_gguf(gguf: &GgufFile) -> (r: Result<QwenConfig, Error>)
        requires
            !head_count_is_zero(gguf.metadata.map()),
        ensures
            match spec_config(gguf.metadata.map()) {
                Ok(c) => r == Ok::<QwenConfig, Error>(c),
                Err(f) => r is Err && config_error_is(r->Err_0, f),
            },
    {
        let arch = match gguf.architecture() {
            Some(a) => a,
            None => {
                return Err(Error::Other("no architecture in GGUF metadata".to_owned()));
            },
        };
        if !(str_eq(arch, "qwen3") || str_eq(arch, "qwen2") || str_eq(arch, "llama")) {
            return Err(Error::UnsupportedArchitecture(arch.to_owned()));
        }
        let hidden_size = match arch_key_u64(gguf, arch, ".embedding_length") {
            Some(x) => x,
            None => {
                return Err(missing("embedding_length"));
            },
        };
        let n_layers = match arch_key_u64(gguf, arch, ".block_count") {
            Some(x) => x,
            None => {
                return Err(missing("block_count"));
            },
        };
        let n_heads = match arch_key_u64(gguf, arch, ".attention.head_count") {
            Some(x) => x,
            None => {
                return Err(missing("head_count"));
            },
        };
        let n_kv_heads = match arch_key_u64(gguf, arch, ".attention.head_count_kv") {
            Some(x) => x,
            None => n_heads,
        };
        let ffn_dim = match arch_key_u64(gguf, arch, ".feed_forward_length") {
            Some(x) => x,
            None => {
                return Err(missing("feed_forward_length"));
            },
        };
        let vocab_size = match arch_key_u64(gguf, arch, ".vocab_size") {
            Some(x) => x,
            None => {
                return Err(missing("vocab_size"));
            },
        };
        let max_seq_len = match arch_key_u64(gguf, arch, ".context_length") {
            Some(x) => x,
            None => 8192,
        };
        let rope_theta = arch_key_float(gguf, arch, ".rope.freq_base");
        let rms_norm_eps = arch_key_float(gguf, arch, ".attention.layer_norm_rms_epsilon");
        let head_dim = hidden_size / n_heads;
        Ok(
            QwenConfig {
                hidden_size,
                n_layers,
                n_heads,
                n_kv_heads,
                head_dim,
                ffn_dim,
                vocab_size,
                max_seq_len,
                rope_theta,
                rms_norm_eps,
            },
        )
    }
}


/// The name of a per-layer tensor: `blk.{layer}.{name}`.
pub open spec fn layer_tensor_name(layer: nat, name: Seq<char>) -> Seq<char> {
    "blk."@ + decimal(layer) + "."@ + name
}

/// The name of the per-layer tensor `name` of layer `layer`.
pub fn layer_tensor(layer: usize, name: &str) -> (r: String)
    ensures
        r@ == layer_tensor_name(layer as nat, name@),
{
    let mut t = "blk.".to_owned();
    push_decimal(&mut t, layer as u64);
    push_str(&mut t, ".");
    push_str(&mut t, name);
    t
}

/// The tensors of each layer, in the order in which they are loaded.
pub open spec fn layer_suffix(j: int) -> Seq<char> {
    if j == 0 {
        "attn_norm.weight"@
    } else if j == 1 {
        "attn_q.weight"@
    } else if j == 2 {
        "attn_k.weight"@
    } else if j == 3 {
        "attn_v.weight"@
    } else if j == 4 {
        "attn_output.weight"@
    } else if j == 5 {
        "ffn_norm.weight"@
    } else if j == 6 {
        "ffn_gate.weight"@
    } else if j == 7 {
        "ffn_up.weight"@
    } else {
        "ffn_down.weight"@
    }
}

/// The tensors that loading the weights of an `n_layers`-layer model reads,
/// in order: the token embedding, the nine tensors of each layer, the
/// output norm and the output projection.
pub open spec fn weight_tensor_name(n_layers: nat, k: int) -> Seq<char> {
    if k == 0 {
        "token_embd.weight"@
    } else if k <= 9 * n_layers {
        layer_tensor_name(((k - 1) / 9) as nat, layer_suffix((k - 1) % 9))
    } else if k == 9 * n_layers + 1 {
        "output_norm.weight"@
    } else {
        "output.weight"@
    }
}

/// Lists the tensors that loading the weights reads, in order.
pub fn weight_tensor_names(n_layers: usize) -> (r: Vec<String>)
    requires
        9 * n_layers + 3 <= usize::MAX,
    ensures
        r@.len() == 9 * n_layers + 3,
        forall|k: int| 0 <= k < r@.len() ==> #[trigger] r@[k]@ == weight_tensor_name(n_layers as nat, k),
{
    let suffixes: [&str; 9] = [
        "attn_norm.weight",
        "attn_q.weight",
        "attn_k.weight",
        "attn_v.weight",
        "attn_output.weight",
        "ffn_norm.weight",
        "ffn_gate.weight",
        "ffn_up.weight",
        "ffn_down.weight",
    ];
    let mut r: Vec<String> = Vec::new();
    r.push("token_embd.weight".to_owned());
    let mut i: usize = 0;
    while i < n_layers
        invariant
            i <= n_layers,
            9 * n_layers + 3 <= usize::MAX,
            r@.len() == 9 * i + 1,
            forall|k: int| 0 <= k < r@.len() ==> #[trigger] r@[k]@ == weight_tensor_name(n_layers as nat, k),
            forall|j: int| 0 <= j < 9 ==> #[trigger] suffixes@[j]@ == layer_suffix(j),
        decreases n_layers - i,
    {
        let mut j: usize = 0;
        while j < 9
            invariant
                i < n_layers,
                j <= 9,
                9 * n_layers + 3 <= usize::MAX,
                r@.len() == 9 * i + 1 + j,
                forall|k: int| 0 <= k < r@.len() ==> #[trigger] r@[k]@ == weight_tensor_name(n_layers as nat, k),
                forall|j: int| 0 <= j < 9 ==> #[trigger] suffixes@[j]@ == layer_suffix(j),
            decreases 9 - j,
        {
            let name = layer_tensor(i, suffixes[j]);
            proof {
                let k = 9 * i + 1 + j;
                assert((k - 1) / 9 == i && (k - 1) % 9 == j) by (nonlinear_arith)
                    requires
                        k == 9 * i + 1 + j,
                        0 <= j < 9,
                        0 <= i,
                ;
                assert(suffixes@[j as int]@ == layer_suffix(j as int));
            }
            r.push(name);
            j = j + 1;
        }
        i = i + 1;
    }
    r.push("output_norm.weight".to_owned());
    r.push("output.weight".to_owned());
    r
}

/// The contents of a cache row after storing `x` at slot `pos` (slots of
/// `x.len()` elements).
pub open spec fn row_after_store<T>(row: Seq<T>, pos: int, x: Seq<T>) -> Seq<T> {
    row.take(pos * x.len()) + x + row.skip((pos + 1) * x.len())
}

/// The elements of slot `q` of a row of slots of `n` elements.
pub open spec fn slot<T>(row: Seq<T>, q: int, n: int) -> Seq<T> {
    row.subrange(q * n, (q + 1) * n)
}

/// What a read gives back of a write: after storing `x` at slot `pos`, slot
/// `pos` holds `x`, every other slot holds what it held, and the row keeps
/// its length.
pub proof fn lemma_store_then_read<T>(row: Seq<T>, pos: int, x: Seq<T>, q: int)
    requires
        0 <= pos,
        0 <= q,
        (pos + 1) * x.len() <= row.len(),
        (q + 1) * x.len() <= row.len(),
    ensures
        row_after_store(row, pos, x).len() == row.len(),
        slot(row_after_store(row, pos, x), q, x.len() as int) == if q == pos {
            x
        } else {
            slot(row, q, x.len() as int)
        },
{
    let n = x.len() as int;
    let r2 = row_after_store(row, pos, x);
    assert((pos + 1) * n == pos * n + n) by (nonlinear_arith);
    assert((q + 1) * n == q * n + n) by (nonlinear_arith);
    assert(0 <= pos * n) by (nonlinear_arith)
        requires
            0 <= pos,
            0 <= n,
    ;
    assert(0 <= q * n) by (nonlinear_arith)
        requires
            0 <= q,
            0 <= n,
    ;
    assert(r2.len() == row.len());
    if q == pos {
        assert(slot(r2, q, n) =~= x);
    } else if q < pos {
        assert((q + 1) * n <= pos * n) by (nonlinear_arith)
            requires
                q < pos,
                0 <= n,
        ;
        assert(slot(r2, q, n) =~= slot(row, q, n));
    } else {
        assert((pos + 1) * n <= q * n) by (nonlinear_arith)
            requires
                pos < q,
                0 <= n,
        ;
        assert(slot(r2, q, n) =~= slot(row, q, n));
    }
}

/// The key/value cache of incremental decoding: per layer, the key and value
/// projections of every position so far, `n_kv_heads * head_dim` elements per
/// position.
pub struct KVCache<T> {
    pub k: Vec<Vec<T>>,
    pub v: Vec<Vec<T>>,
    pub max_seq_len: usize,
    pub n_kv_heads: usize,
    pub head_dim: usize,
}

impl<T: Copy> KVCache<T> {
    /// Elements stored per position.
    pub open spec fn slot_len(&self) -> int {
        self.n_kv_heads * self.head_dim
    }

    /// A cache for `max_seq_len` positions of the model `cfg`, every element
    /// set to `zero`.
    pub fn new(cfg: &QwenConfig, max_seq_len: usize, zero: T) -> (c: KVCache<T>)
        requires
            max_seq_len * cfg.n_kv_heads <= usize::MAX,
            max_seq_len * cfg.n_kv_heads * cfg.head_dim <= usize::MAX,
        ensures
            c.max_seq_len == max_seq_len,
            c.n_kv_heads == cfg.n_kv_heads,
            c.head_dim == cfg.head_dim,
            c.k@.len() == cfg.n_layers,
            c.v@.len() == cfg.n_layers,
            forall|l: int| 0 <= l < cfg.n_layers ==> #[trigger] c.k@[l]@ == Seq::new(
                (max_seq_len * cfg.n_kv_heads * cfg.head_dim) as nat,
                |i: int| zero,
            ),
            forall|l: int| 0 <= l < cfg.n_layers ==> #[trigger] c.v@[l]@ == Seq::new(
                (max_seq_len * cfg.n_kv_heads * cfg.head_dim) as nat,
                |i: int| zero,
            ),
    {
        let n_layers = cfg.n_layers;
        let kv_size = max_seq_len * cfg.n_kv_heads * cfg.head_dim;
        let ghost row = Seq::new(kv_size as nat, |i: int| zero);
        let mut k: Vec<Vec<T>> = Vec::new();
        let mut v: Vec<Vec<T>> = Vec::new();
        let mut l: usize = 0;
        while l < n_layers
            invariant
                l <= n_layers,
                k@.len() == l,
                v@.len() == l,
                forall|j: int| 0 <= j < l ==> #[trigger] k@[j]@ == row,
                forall|j: int| 0 <= j < l ==> #[trigger] v@[j]@ == row,
                row == Seq::new(kv_size as nat, |i: int| zero),
            decreases n_layers - l,
        {
            let kr = filled(kv_size, zero);
            let vr = filled(kv_size, zero);
            assert(kr@ =~= row);
            assert(vr@ =~= row);
            k.push(kr);
            v.push(vr);
            l = l + 1;
        }
        KVCache { k, v, max_seq_len, n_kv_heads: cfg.n_kv_heads, head_dim: cfg.head_dim }
    }

    /// Stores the key and value projections of position `pos` in `layer`.
    pub fn insert(&mut self, layer: usize, pos: usize, k: &[T], v: &[T])
        requires
            layer < old(self).k@.len(),
            layer < old(self).v@.len(),
            k@.len() == old(self).slot_len(),
            v@.len() == old(self).slot_len(),
            (pos + 1) * old(self).slot_len() <= old(self).k@[layer as int]@.len(),
            (pos + 1) * old(self).slot_len() <= old(self).v@[layer as int]@.len(),
        ensures
            final(self).max_seq_len == old(self).max_seq_len,
            final(self).n_kv_heads == old(self).n_kv_heads,
            final(self).head_dim == old(self).head_dim,
            final(self).k@.len() == old(self).k@.len(),
            final(self).v@.len() == old(self).v@.len(),
            final(self).k@[layer as int]@ == row_after_store(old(self).k@[layer as int]@, pos as int, k@),
            final(self).v@[layer as int]@ == row_after_store(old(self).v@[layer as int]@, pos as int, v@),
            forall|l: int| 0 <= l < old(self).k@.len() && l != layer ==> #[trigger] final(self).k@[l]
                == old(self).k@[l],
            forall|l: int| 0 <= l < old(self).v@.len() && l != layer ==> #[trigger] final(self).v@[l]
                == old(self).v@[l],
    {
        let klen = self.k[layer].len();
        let vlen = self.v[layer].len();
        proof {
            lemma_slot_bounds(pos as int, self.n_kv_heads as int, self.head_dim as int, klen as int);
            lemma_slot_bounds(pos as int, self.n_kv_heads as int, self.head_dim as int, vlen as int);
        }
        let kv_len = self.n_kv_heads * self.head_dim;
        let base = pos * kv_len;
        let ghost old_k = self.k@;
        let ghost old_v = self.v@;
        let mut krow: Vec<T> = Vec::new();
        std::mem::swap(&mut krow, &mut self.k[layer]);
        store_slot(&mut krow, base, k);
        std::mem::swap(&mut krow, &mut self.k[layer]);
        let mut vrow: Vec<T> = Vec::new();
        std::mem::swap(&mut vrow, &mut self.v[layer]);
        store_slot(&mut vrow, base, v);
        std::mem::swap(&mut vrow, &mut self.v[layer]);
        proof {
            assert(base == pos * k@.len());
            assert(base + k@.len() == (pos + 1) * k@.len()) by (nonlinear_arith)
                requires
                    base == pos * k@.len(),
            ;
        }
    }

    /// The keys of `layer` for the first `seq_len` positions.
    pub fn k(&self, layer: usize, seq_len: usize) -> (r: &[T])
        requires
            layer < self.k@.len(),
            seq_len * self.n_kv_heads <= usize::MAX,
            seq_len * self.slot_len() <= self.k@[layer as int]@.len(),
        ensures
            r@ == self.k@[layer as int]@.take(seq_len * self.slot_len()),
    {
        let row: &Vec<T> = &self.k[layer];
        let len = row.len();
        proof {
            let (a, b, c) = (seq_len as int, self.n_kv_heads as int, self.head_dim as int);
            assert(a * b * c == a * (b * c)) by (nonlinear_arith);
        }
        let n = seq_len * self.n_kv_heads * self.head_dim;
        &row.as_slice()[0..n]
    }

    /// The values of `layer` for the first `seq_len` positions.
    pub fn v(&self, layer: usize, seq_len: usize) -> (r: &[T])
        requires
            layer < self.v@.len(),
            seq_len * self.n_kv_heads <= usize::MAX,
            seq_len * self.slot_len() <= self.v@[layer as int]@.len(),
        ensures
            r@ == self.v@[layer as int]@.take(seq_len * self.slot_len()),
    {
        let row: &Vec<T> = &self.v[layer];
        let len = row.len();
        proof {
            let (a, b, c) = (seq_len as int, self.n_kv_heads as int, self.head_dim as int);
            assert(a * b * c == a * (b * c)) by (nonlinear_arith);
        }
        let n = seq_len * self.n_kv_heads * self.head_dim;
        &row.as_slice()[0..n]
    }
}

proof fn lemma_slot_bounds(pos: int, a: int, b: int, len: int)
    requires
        0 <= pos,
        0 <= a,
        0 <= b,
        (pos + 1) * (a * b) <= len <= usize::MAX,
    ensures
        a * b <= usize::MAX,
        pos * (a * b) + a * b <= len,
        pos * (a * b) == pos * a * b,
{
    assert((pos + 1) * (a * b) == pos * (a * b) + a * b) by (nonlinear_arith);
    assert(pos * (a * b) >= 0) by (nonlinear_arith)
        requires
            pos >= 0,
            a * b >= 0,
    ;
    assert(a * b >= 0) by (nonlinear_arith)
        requires
            a >= 0,
            b >= 0,
    ;
    assert(pos * (a * b) == pos * a * b) by (nonlinear_arith);
}

/// A vector of `n` copies of `x`.
fn filled<T: Copy>(n: usize, x: T) -> (r: Vec<T>)
    ensures
        r@ == Seq::new(n as nat, |i: int| x),
{
    let mut out: Vec<T> = Vec::with_capacity(n);
    let mut i: usize = 0;
    while i < n
        invariant
            i <= n,
            out@ =~= Seq::new(i as nat, |j: int| x),
        decreases n - i,
    {
        out.push(x);
        i = i + 1;
    }
    out
}

/// Overwrites `row[base..base + x.len()]` with `x`.
fn store_slot<T: Copy>(row: &mut Vec<T>, base: usize, x: &[T])
    requires
        base + x@.len() <= old(row)@.len(),
    ensures
        final(row)@ == old(row)@.take(base as int) + x@ + old(row)@.skip(base + x@.len()),
{
    let mut j: usize = 0;
    let n = row.len();
    while j < x.len()
        invariant
            j <= x@.len(),
            n == row@.len(),
            base + x@.len() <= old(row)@.len(),
            row@ == old(row)@.take(base as int) + x@.take(j as int) + old(row)@.skip(base + j),
        decreases x@.len() - j,
    {
        row.set(base + j, x[j]);
        j = j + 1;
        assert(row@ =~= old(row)@.take(base as int) + x@.take(j as int) + old(row)@.skip(base + j));
    }
    assert(x@.take(x@.len() as int) =~= x@);
}


/// The integer stored under `k` in `m`, read as `as_u64` reads it.
pub open spec fn int_at(m: Map<Seq<char>, SpecGgufValue>, k: Seq<char>) -> Option<u64> {
    if m.contains_key(k) {
        spec_as_u64(m[k])
    } else {
        None
    }
}

/// A configuration read from metadata whose architecture is `a` takes each
/// of its sizes from the key `{a}.{name}` of the metadata: the hidden size
/// from `embedding_length`, the layers from `block_count`, the heads from
/// `attention.head_count`, the key/value heads from
/// `attention.head_count_kv` (the head count where that key is absent), the
/// feed-forward size from `feed_forward_length`, the vocabulary from
/// `vocab_size` and the context from `context_length` (8192 where absent);
/// with heads, the head size is the hidden size over the head count.
pub proof fn lemma_config_reads_its_keys(m: Map<Seq<char>, SpecGgufValue>, a: Seq<char>)
    requires
        m.contains_key("general.architecture"@),
        m["general.architecture"@] == SpecGgufValue::String(a),
        spec_config(m) is Ok,
    ensures
        a == "qwen3"@ || a == "qwen2"@ || a == "llama"@,
        ({
            let c = spec_config(m)->Ok_0;
            &&& int_at(m, a + ".embedding_length"@) is Some
            &&& c.hidden_size == int_at(m, a + ".embedding_length"@)->0 as usize
            &&& int_at(m, a + ".block_count"@) is Some
            &&& c.n_layers == int_at(m, a + ".block_count"@)->0 as usize
            &&& int_at(m, a + ".attention.head_count"@) is Some
            &&& c.n_heads == int_at(m, a + ".attention.head_count"@)->0 as usize
            &&& int_at(m, a + ".feed_forward_length"@) is Some
            &&& c.ffn_dim == int_at(m, a + ".feed_forward_length"@)->0 as usize
            &&& int_at(m, a + ".vocab_size"@) is Some
            &&& c.vocab_size == int_at(m, a + ".vocab_size"@)->0 as usize
            &&& int_at(m, a + ".attention.head_count_kv"@) is Some ==> c.n_kv_heads == int_at(
                m,
                a + ".attention.head_count_kv"@,
            )->0 as usize
            &&& int_at(m, a + ".attention.head_count_kv"@) is None ==> c.n_kv_heads == c.n_heads
            &&& int_at(m, a + ".context_length"@) is Some ==> c.max_seq_len == int_at(
                m,
                a + ".context_length"@,
            )->0 as usize
            &&& int_at(m, a + ".context_length"@) is None ==> c.max_seq_len == 8192
            &&& c.n_heads > 0 ==> c.head_dim == c.hidden_size / c.n_heads
        }),
{
    assert(meta_str(m, "general.architecture"@) == Some(a));
}

/// Metadata of a supported architecture `a` that holds every required size
/// as an integer gives a configuration.
pub proof fn lemma_config_ok_with_required_keys(m: Map<Seq<char>, SpecGgufValue>, a: Seq<char>)
    requires
        m.contains_key("general.architecture"@),
        m["general.architecture"@] == SpecGgufValue::String(a),
        a == "qwen3"@ || a == "qwen2"@ || a == "llama"@,
        int_at(m, a + ".embedding_length"@) is Some,
        int_at(m, a + ".block_count"@) is Some,
        int_at(m, a + ".attention.head_count"@) is Some,
        int_at(m, a + ".feed_forward_length"@) is Some,
        int_at(m, a + ".vocab_size"@) is Some,
    ensures
        spec_config(m) is Ok,
{
}

} // verus!
