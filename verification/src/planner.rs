use vstd::prelude::*;
use crate::gguf::Metadata;
use crate::gguf_access::meta_str;
use crate::types::{Modality, ModelKind, QualityPolicy};

verus! {

/// Key/value cache bytes per token and layer that the planner assumes.
pub const KV_BYTES_PER_TOKEN_LAYER: u64 = 576;

/// Layers that the planner assumes.
pub const ASSUMED_LAYERS: u64 = 32;

/// Working memory beyond weights and cache: 64 MiB.
pub const WORKING_SET_BYTES: u64 = 67108864;

/// How fast generation is expected to run, in tokens per second.
#[derive(Debug, Clone, Copy, PartialEq, Eq)]
pub enum ThroughputEstimate {
    /// The model does not fit: zero.
    Infeasible,
    /// Memory-bound: five times the ratio of RAM to weight bytes.
    MemoryBound { ram_bytes: u64, weight_bytes: u64 },
    /// A fixed rate.
    Fixed(u64),
}

/// A remark attached to a plan.
#[derive(Debug, Clone, Copy, PartialEq, Eq)]
pub enum PlanNote {
    Fits,
    /// The plan needs `peak_bytes` of RAM where `ram_bytes` are available.
    NeedsMoreRam { peak_bytes: u64, ram_bytes: u64 },
}

/// What running a model would take, and whether it fits.
#[derive(Debug, Clone)]
pub struct ExecutionPlan {
    pub model_name: String,
    pub model_kind: ModelKind,
    pub modalities: Vec<Modality>,
    pub weight_bytes: u64,
    pub kv_bytes_per_token: u64,
    pub peak_ram_bytes: u64,
    pub peak_vram_bytes: u64,
    pub disk_bytes: u64,
    pub quality: QualityPolicy,
    pub estimated_tok_s: ThroughputEstimate,
    pub bottleneck: String,
    pub feasible: bool,
    pub note: PlanNote,
}

/// Total key/value cache bytes for `context` tokens.
pub open spec fn kv_total(context: nat) -> nat {
    (KV_BYTES_PER_TOKEN_LAYER as nat) * context * (ASSUMED_LAYERS as nat)
}

/// Peak RAM: weights, key/value cache and working set.
pub open spec fn peak_bytes(weight_bytes: nat, context: nat) -> nat {
    weight_bytes + kv_total(context) + (WORKING_SET_BYTES as nat)
}

/// The plan's arithmetic stays within 64 bits.
pub open spec fn plan_fits(weight_bytes: u64, context: usize) -> bool {
    peak_bytes(weight_bytes as nat, context as nat) <= u64::MAX
}

/// What limits the plan.
pub open spec fn spec_bottleneck(weight_bytes: nat, peak: nat, ram_bytes: nat) -> Seq<char> {
    if weight_bytes > ram_bytes {
        "insufficient RAM for weights"@
    } else if peak > ram_bytes {
        "insufficient RAM for full context"@
    } else if ram_bytes < 8000000000 {
        "low system memory"@
    } else {
        "CPU (no GPU backend)"@
    }
}

/// The throughput estimate of a plan.
pub open spec fn spec_throughput(feasible: bool, weight_bytes: u64, ram_bytes: u64) -> ThroughputEstimate {
    if !feasible {
        ThroughputEstimate::Infeasible
    } else if weight_bytes > 10000000000 {
        ThroughputEstimate::MemoryBound { ram_bytes, weight_bytes }
    } else if weight_bytes > 3000000000 {
        ThroughputEstimate::Fixed(8)
    } else {
        ThroughputEstimate::Fixed(25)
    }
}

/// The plan is what the planner's rules give for these inputs.
pub open spec fn plan_is(
    p: ExecutionPlan,
    model_name: Seq<char>,
    weight_bytes: u64,
    context: usize,
    ram_bytes: u64,
    quality: QualityPolicy,
    model_kind: ModelKind,
    modalities: Seq<Modality>,
) -> bool {
    let peak = peak_bytes(weight_bytes as nat, context as nat);
    let feasible = peak <= ram_bytes;
    &&& p.model_name@ == model_name
    &&& p.model_kind == model_kind
    &&& p.modalities@ == modalities
    &&& p.weight_bytes == weight_bytes
    &&& p.kv_bytes_per_token == kv_total(context as nat) / (if context == 0 { 1 } else { context as nat })
    &&& p.peak_ram_bytes == peak
    &&& p.peak_vram_bytes == 0
    &&& p.disk_bytes == weight_bytes
    &&& p.quality == quality
    &&& p.feasible == feasible
    &&& p.estimated_tok_s == spec_throughput(feasible, weight_bytes, ram_bytes)
    &&& p.bottleneck@ == spec_bottleneck(weight_bytes as nat, peak, ram_bytes as nat)
    &&& p.note == if feasible {
        PlanNote::Fits
    } else {
        PlanNote::NeedsMoreRam { peak_bytes: peak as u64, ram_bytes }
    }
}

/// Estimates memory and speed of running a model.
pub fn compute_plan(
    model_name: &str,
    weight_bytes: u64,
    context: usize,
    ram_bytes: u64,
    quality: QualityPolicy,
    model_kind: ModelKind,
    modalities: Vec<Modality>,
) -> (p: ExecutionPlan)
    requires
        plan_fits(weight_bytes, context),
    ensures
        plan_is(p, model_name@, weight_bytes, context, ram_bytes, quality, model_kind, modalities@),
{
    let ctx = context as u64;
    let kv_total = KV_BYTES_PER_TOKEN_LAYER * ctx * ASSUMED_LAYERS;
    let peak = weight_bytes + kv_total + WORKING_SET_BYTES;
    let feasible = peak <= ram_bytes;
    let bottleneck = if weight_bytes > ram_bytes {
        "insufficient RAM for weights".to_owned()
    } else if peak > ram_bytes {
        "insufficient RAM for full context".to_owned()
    } else if ram_bytes < 8000000000 {
        "low system memory".to_owned()
    } else {
        "CPU (no GPU backend)".to_owned()
    };
    let estimated_tok_s = if !feasible {
        ThroughputEstimate::Infeasible
    } else if weight_bytes > 10000000000 {
        ThroughputEstimate::MemoryBound { ram_bytes, weight_bytes }
    } else if weight_bytes > 3000000000 {
        ThroughputEstimate::Fixed(8)
    } else {
        ThroughputEstimate::Fixed(25)
    };
    let note = if !feasible {
        PlanNote::NeedsMoreRam { peak_bytes: peak, ram_bytes }
    } else {
        PlanNote::Fits
    };
    let divisor = if ctx > 1 {
        ctx
    } else {
        1
    };
    ExecutionPlan {
        model_name: model_name.to_owned(),
        model_kind,
        modalities,
        weight_bytes,
        kv_bytes_per_token: kv_total / divisor,
        peak_ram_bytes: peak,
        peak_vram_bytes: 0,
        disk_bytes: weight_bytes,
        quality,
        estimated_tok_s,
        bottleneck,
        feasible,
        note,
    }
}

/// A plan for a dense text model of `weight_bytes`.
pub fn plan(model_name: &str, weight_bytes: u64, context: usize, ram_bytes: u64, quality: QualityPolicy) -> (p: ExecutionPlan)
    requires
        plan_fits(weight_bytes, context),
    ensures
        plan_is(p, model_name@, weight_bytes, context, ram_bytes, quality, ModelKind::Dense, seq![Modality::Text]),
{
    let mut mods: Vec<Modality> = Vec::new();
    mods.push(Modality::Text);
    compute_plan(model_name, weight_bytes, context, ram_bytes, quality, ModelKind::Dense, mods)
}

/// The weight bytes of a GGUF file of `file_size` bytes: a fifth of it, less
/// the rounding of tenths (`file_size - min(file_size, file_size / 10 * 8)`).
pub fn gguf_weight_bytes(file_size: u64) -> (w: u64)
    ensures
        w == file_size - (file_size / 10 * 8),
{
    let guess = if file_size < file_size / 10 * 8 {
        file_size
    } else {
        file_size / 10 * 8
    };
    file_size - guess
}

/// The weight bytes of a Safetensors file: what follows the header.
pub fn safetensors_weight_bytes(file_size: u64, header_size: u64) -> (w: u64)
    requires
        header_size <= u64::MAX - 8,
    ensures
        w == if file_size >= 8 + header_size { file_size - 8 - header_size } else { 0 },
{
    file_size.saturating_sub(8 + header_size)
}

/// `sub` occurs in `s`.
pub open spec fn contains_sub(s: Seq<char>, sub: Seq<char>) -> bool {
    exists|i: int| 0 <= i <= s.len() - sub.len() && #[trigger] s.subrange(i, i + sub.len()) == sub
}

/// Whether `sub` occurs in `s`.
pub fn str_contains(s: &str, sub: &str) -> (b: bool)
    ensures
        b == contains_sub(s@, sub@),
{
    let cs = crate::text::str_chars(s);
    let ps = crate::text::str_chars(sub);
    let n = cs.len();
    let m = ps.len();
    if m > n {
        return false;
    }
    let mut i: usize = 0;
    while i <= n - m
        invariant
            cs@ == s@,
            ps@ == sub@,
            n == cs@.len(),
            m == ps@.len(),
            m <= n,
            i <= n - m + 1,
            forall|k: int| 0 <= k < i ==> #[trigger] cs@.subrange(k, k + m) != ps@,
        decreases n - m + 1 - i,
    {
        let mut j: usize = 0;
        while j < m && cs[i + j] == ps[j]
            invariant
                j <= m,
                i + m <= n,
                n == cs@.len(),
                m == ps@.len(),
                forall|x: int| 0 <= x < j ==> cs@[i + x] == ps@[x],
            decreases m - j,
        {
            j = j + 1;
        }
        if j == m {
            assert(cs@.subrange(i as int, i + m) =~= ps@);
            return true;
        }
        assert(cs@.subrange(i as int, i + m)[j as int] != ps@[j as int]);
        i = i + 1;
    }
    false
}

/// Dense or mixture-of-experts, from GGUF metadata: an architecture name
/// containing `moe` or `MoE`, or an expert count, marks a mixture.
pub open spec fn spec_model_kind(m: Map<Seq<char>, crate::gguf::SpecGgufValue>) -> ModelKind {
    let arch = match meta_str(m, "general.architecture"@) {
        Some(a) => a,
        None => ""@,
    };
    if contains_sub(arch, "moe"@) || contains_sub(arch, "MoE"@) {
        ModelKind::MoE
    } else if m.contains_key("llama.expert_count"@) || m.contains_key("qwen3.expert_count"@) {
        ModelKind::MoE
    } else {
        ModelKind::Dense
    }
}

pub fn detect_model_kind(metadata: &Metadata) -> (k: ModelKind)
    ensures
        k == spec_model_kind(metadata.map()),
{
    let arch: &str = match metadata.get("general.architecture") {
        Some(v) => match v.as_str() {
            Some(s) => s,
            None => "",
        },
        None => "",
    };
    if str_contains(arch, "moe") || str_contains(arch, "MoE") {
        return ModelKind::MoE;
    }
    if metadata.contains_key("llama.expert_count") || metadata.contains_key("qwen3.expert_count") {
        return ModelKind::MoE;
    }
    ModelKind::Dense
}

/// What a plan is made from: the header of the model file that was read.
pub enum PlanSource<'a> {
    /// A GGUF file of `file_size` bytes with this metadata.
    Gguf { file_size: u64, metadata: &'a Metadata },
    /// A Safetensors file of `file_size` bytes whose JSON header has `header_size` bytes.
    Safetensors { file_size: u64, header_size: u64 },
    /// Any other file, of `file_size` bytes.
    Raw { file_size: u64 },
}

/// The weight bytes and the kind of model that a file stands for.
pub open spec fn source_weights(src: PlanSource) -> (u64, ModelKind) {
    match src {
        PlanSource::Gguf { file_size, metadata } => (
            (file_size - (file_size / 10 * 8)) as u64,
            spec_model_kind(metadata.map()),
        ),
        PlanSource::Safetensors { file_size, header_size } => (
            if file_size >= 8 + header_size { (file_size - 8 - header_size) as u64 } else { 0u64 },
            ModelKind::Dense,
        ),
        PlanSource::Raw { file_size } => (file_size, ModelKind::Dense),
    }
}

/// The weight bytes that a file stands for.
pub fn source_weight_bytes(source: &PlanSource) -> (w: u64)
    requires
        *source matches PlanSource::Safetensors { header_size, .. } ==> header_size <= u64::MAX - 8,
    ensures
        w == source_weights(*source).0,
{
    match source {
        PlanSource::Gguf { file_size, .. } => gguf_weight_bytes(*file_size),
        PlanSource::Safetensors { file_size, header_size } => safetensors_weight_bytes(*file_size, *header_size),
        PlanSource::Raw { file_size } => *file_size,
    }
}

/// Whether the plan's arithmetic for these weights and this context stays
/// within 64 bits.
pub fn fits_in_u64(weight_bytes: u64, context: usize) -> (b: bool)
    ensures
        b == plan_fits(weight_bytes, context),
{
    let ctx = context as u64;
    if ctx > (u64::MAX - WORKING_SET_BYTES) / (KV_BYTES_PER_TOKEN_LAYER * ASSUMED_LAYERS) {
        proof {
            assert(kv_total(context as nat) == 18432 * context) by (nonlinear_arith);
        }
        return false;
    }
    proof {
        assert(kv_total(context as nat) == 18432 * context) by (nonlinear_arith);
    }
    let kv = KV_BYTES_PER_TOKEN_LAYER * ctx * ASSUMED_LAYERS;
    weight_bytes <= u64::MAX - WORKING_SET_BYTES - kv
}

/// A plan for the text model in a file, from what its header gives.
pub fn plan_from_source(
    model_name: &str,
    source: PlanSource,
    context: usize,
    quality: QualityPolicy,
    ram_bytes: u64,
) -> (p: ExecutionPlan)
    requires
        source matches PlanSource::Safetensors { header_size, .. } ==> header_size <= u64::MAX - 8,
        plan_fits(source_weights(source).0, context),
    ensures
        plan_is(
            p,
            model_name@,
            source_weights(source).0,
            context,
            ram_bytes,
            quality,
            source_weights(source).1,
            seq![Modality::Text],
        ),
{
    let (weight_bytes, kind) = match source {
        PlanSource::Gguf { file_size, metadata } => (gguf_weight_bytes(file_size), detect_model_kind(metadata)),
        PlanSource::Safetensors { file_size, header_size } => (
            safetensors_weight_bytes(file_size, header_size),
            ModelKind::Dense,
        ),
        PlanSource::Raw { file_size } => (file_size, ModelKind::Dense),
    };
    let mut mods: Vec<Modality> = Vec::new();
    mods.push(Modality::Text);
    proof {
        assert(mods@ =~= seq![Modality::Text]);
    }
    compute_plan(model_name, weight_bytes, context, ram_bytes, quality, kind, mods)
}

/// Every token of a non-empty context costs the same key/value cache bytes:
/// 576 per layer, over 32 layers.
pub proof fn lemma_kv_per_token(context: nat)
    requires
        context > 0,
    ensures
        kv_total(context) / context == 18432,
        peak_bytes(0, context) == 18432 * context + 67108864,
{
    assert(kv_total(context) == 18432 * context) by (nonlinear_arith);
    assert((18432 * context) / context == 18432) by (nonlinear_arith)
        requires
            context > 0,
    ;
}


/// The architecture name, or the empty name where the metadata gives none.
pub open spec fn arch_or_empty(m: Map<Seq<char>, crate::gguf::SpecGgufValue>) -> Seq<char> {
    match meta_str(m, "general.architecture"@) {
        Some(a) => a,
        None => ""@,
    }
}

/// `sub` occurs in `s` at position `i`.
pub open spec fn occurs_at(s: Seq<char>, sub: Seq<char>, i: int) -> bool {
    0 <= i && i + sub.len() <= s.len() && forall|k: int| 0 <= k < sub.len() ==> #[trigger] s[i + k] == sub[k]
}

/// Metadata with an expert count, under `llama.expert_count` or
/// `qwen3.expert_count`, describes a mixture-of-experts model, and so does
/// metadata whose architecture name contains `moe` or `MoE`; metadata with
/// neither describes a dense model.
pub proof fn lemma_model_kind_classes(m: Map<Seq<char>, crate::gguf::SpecGgufValue>)
    ensures
        m.contains_key("llama.expert_count"@) ==> spec_model_kind(m) == ModelKind::MoE,
        m.contains_key("qwen3.expert_count"@) ==> spec_model_kind(m) == ModelKind::MoE,
        forall|a: Seq<char>, i: int|
            m.contains_key("general.architecture"@) && m["general.architecture"@] == crate::gguf::SpecGgufValue::String(a)
                && (#[trigger] occurs_at(a, "moe"@, i) || occurs_at(a, "MoE"@, i)) ==> spec_model_kind(m) == ModelKind::MoE,
        !m.contains_key("llama.expert_count"@) && !m.contains_key("qwen3.expert_count"@) && (forall|i: int| !#[trigger] occurs_at(arch_or_empty(m), "moe"@, i))
            && (forall|i: int| !#[trigger] occurs_at(arch_or_empty(m), "MoE"@, i)) ==> spec_model_kind(m) == ModelKind::Dense,
{
    assert forall|a: Seq<char>, i: int|
        m.contains_key("general.architecture"@) && m["general.architecture"@] == crate::gguf::SpecGgufValue::String(a)
            && (#[trigger] occurs_at(a, "moe"@, i) || occurs_at(a, "MoE"@, i)) implies spec_model_kind(m) == ModelKind::MoE by {
        assert(meta_str(m, "general.architecture"@) == Some(a));
        if occurs_at(a, "moe"@, i) {
            assert forall|k: int| 0 <= k < "moe"@.len() implies a.subrange(i, i + "moe"@.len())[k] == "moe"@[k] by {
                assert(a[i + k] == "moe"@[k]);
            }
            assert(a.subrange(i, i + "moe"@.len()) =~= "moe"@);
            assert(contains_sub(a, "moe"@));
        } else {
            assert forall|k: int| 0 <= k < "MoE"@.len() implies a.subrange(i, i + "MoE"@.len())[k] == "MoE"@[k] by {
                assert(a[i + k] == "MoE"@[k]);
            }
            assert(a.subrange(i, i + "MoE"@.len()) =~= "MoE"@);
            assert(contains_sub(a, "MoE"@));
        }
    }
    let arch = arch_or_empty(m);
    if contains_sub(arch, "moe"@) {
        let i = choose|i: int| 0 <= i <= arch.len() - "moe"@.len() && #[trigger] arch.subrange(i, i + "moe"@.len()) == "moe"@;
        assert forall|k: int| 0 <= k < "moe"@.len() implies #[trigger] arch[i + k] == "moe"@[k] by {
            assert(arch.subrange(i, i + "moe"@.len())[k] == arch[i + k]);
        }
        assert(occurs_at(arch, "moe"@, i));
    }
    if contains_sub(arch, "MoE"@) {
        let i = choose|i: int| 0 <= i <= arch.len() - "MoE"@.len() && #[trigger] arch.subrange(i, i + "MoE"@.len()) == "MoE"@;
        assert forall|k: int| 0 <= k < "MoE"@.len() implies #[trigger] arch[i + k] == "MoE"@[k] by {
            assert(arch.subrange(i, i + "MoE"@.len())[k] == arch[i + k]);
        }
        assert(occurs_at(arch, "MoE"@, i));
    }
}

} // verus!
