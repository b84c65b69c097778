use vstd::prelude::*;
use crate::dtype::DType;
use crate::shape::Shape;
use crate::text::{decimal, push_decimal, push_str};

verus! {

/// A compute device.
#[derive(Debug, Clone, Copy, PartialEq, Eq, Hash)]
pub enum Device {
    Cpu,
    Cuda(u32),
    Metal,
    Rocm(u32),
}

impl Device {
    pub fn is_cpu(&self) -> (b: bool)
        ensures
            b == (*self is Cpu),
    {
        match self {
            Device::Cpu => true,
            _ => false,
        }
    }
}

/// The name under which a device is shown.
pub open spec fn device_text(d: Device) -> Seq<char> {
    match d {
        Device::Cpu => "CPU"@,
        Device::Cuda(i) => "CUDA("@ + decimal(i as nat) + ")"@,
        Device::Metal => "Metal"@,
        Device::Rocm(i) => "ROCm("@ + decimal(i as nat) + ")"@,
    }
}

impl Device {
    /// The name under which the device is shown.
    pub fn display(&self) -> (s: String)
        ensures
            s@ == device_text(*self),
    {
        match self {
            Device::Cpu => "CPU".to_owned(),
            Device::Cuda(i) => {
                let mut t = "CUDA(".to_owned();
                push_decimal(&mut t, *i as u64);
                push_str(&mut t, ")");
                t
            },
            Device::Metal => "Metal".to_owned(),
            Device::Rocm(i) => {
                let mut t = "ROCm(".to_owned();
                push_decimal(&mut t, *i as u64);
                push_str(&mut t, ")");
                t
            },
        }
    }
}

/// Dense or mixture-of-experts.
#[derive(Debug, Clone, Copy, PartialEq, Eq, Hash)]
pub enum ModelKind {
    Dense,
    MoE,
}

/// What a model takes in or puts out.
#[derive(Debug, Clone, Copy, PartialEq, Eq, Hash)]
pub enum Modality {
    Text,
    Vision,
    Audio,
    Embedding,
    ImageGeneration,
}

/// How much quality to trade for speed and size.
#[derive(Debug, Clone, Copy, PartialEq, Eq)]
pub enum QualityPolicy {
    Exact,
    Quality,
    Balanced,
    Fast,
    Tiny,
}

/// The lowercase name of a policy.
pub open spec fn policy_name(p: QualityPolicy) -> Seq<char> {
    match p {
        QualityPolicy::Exact => "exact"@,
        QualityPolicy::Quality => "quality"@,
        QualityPolicy::Balanced => "balanced"@,
        QualityPolicy::Fast => "fast"@,
        QualityPolicy::Tiny => "tiny"@,
    }
}

impl QualityPolicy {
    pub fn as_str(&self) -> (s: &'static str)
        ensures
            s@ == policy_name(*self),
    {
        match self {
            QualityPolicy::Exact => "exact",
            QualityPolicy::Quality => "quality",
            QualityPolicy::Balanced => "balanced",
            QualityPolicy::Fast => "fast",
            QualityPolicy::Tiny => "tiny",
        }
    }
}

/// A compute backend.
#[derive(Debug, Clone, Copy, PartialEq, Eq, Hash)]
pub enum BackendKind {
    Cpu,
    Cuda,
    Metal,
    Vulkan,
    Rocm,
}

/// The name under which a backend is shown.
pub open spec fn backend_name(b: BackendKind) -> Seq<char> {
    match b {
        BackendKind::Cpu => "CPU"@,
        BackendKind::Cuda => "CUDA"@,
        BackendKind::Metal => "Metal"@,
        BackendKind::Vulkan => "Vulkan"@,
        BackendKind::Rocm => "ROCm"@,
    }
}

impl BackendKind {
    /// The name under which the backend is shown.
    pub fn name(&self) -> (s: &'static str)
        ensures
            s@ == backend_name(*self),
    {
        match self {
            BackendKind::Cpu => "CPU",
            BackendKind::Cuda => "CUDA",
            BackendKind::Metal => "Metal",
            BackendKind::Vulkan => "Vulkan",
            BackendKind::Rocm => "ROCm",
        }
    }
}

/// What the machine offers.
#[derive(Debug, Clone)]
pub struct HardwareInventory {
    pub os: String,
    pub arch: String,
    pub logical_cpus: usize,
    pub physical_cpus: usize,
    pub total_ram_bytes: u64,
    pub available_ram_bytes: u64,
    pub storage_free_bytes: u64,
    pub backends: Vec<BackendKind>,
}

/// The name of a tensor.
#[derive(Debug, Clone, PartialEq, Eq, Hash)]
pub struct TensorId(pub String);

/// One tensor of a model manifest.
#[derive(Debug, Clone)]
pub struct TensorEntry {
    pub id: TensorId,
    pub dtype: DType,
    pub shape: Shape,
    pub offset: u64,
    pub size_bytes: u64,
}

/// What is known of a model before it is loaded.
#[derive(Debug, Clone)]
pub struct ModelManifest {
    pub name: String,
    pub kind: ModelKind,
    pub architecture: String,
    pub modalities: Vec<Modality>,
    pub tensors: Vec<TensorEntry>,
    /// Metadata pairs, each key once.
    pub metadata: Vec<(String, String)>,
    pub source_url: Option<String>,
    pub source_revision: Option<String>,
    pub license: Option<String>,
}

/// Errors of the model cache.
#[derive(Debug, Clone, PartialEq, Eq)]
pub enum ModelError {
    NotFound(String),
    Download(String),
    ChecksumMismatch,
    /// An input/output failure, with the message of the underlying error.
    Io(String),
}

} // verus!
