use vstd::prelude::*;

verus! {

/// The unified error of the runtime.
#[derive(Debug, Clone, PartialEq, Eq)]
pub enum Error {
    UnsupportedArchitecture(String),
    MissingTensor(String),
    TensorShape { expected: Vec<usize>, got: Vec<usize> },
    InsufficientMemory { required: String, available: String },
    /// An input/output failure, with the message of the underlying error.
    Io(String),
    Parse(String),
    Format(String),
    InvalidOperation(String),
    ContextOverflow { max: usize, requested: usize },
    Other(String),
}

} // verus!
