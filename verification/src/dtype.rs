use vstd::prelude::*;
use crate::text::push_str;

verus! {

/// Element type of a tensor.
#[derive(Debug, Clone, PartialEq, Eq, Hash)]
pub enum DType {
    F32,
    F16,
    BF16,
    I32,
    I64,
    U8,
    Q4K,
    Q4KM,
    Q5K,
    Q6K,
    Q8K,
    Unknown(String),
}

/// Bytes taken by one element (one byte for the quantized kinds), if known.
pub open spec fn dtype_size(d: DType) -> Option<usize> {
    match d {
        DType::F32 => Some(4),
        DType::F16 | DType::BF16 => Some(2),
        DType::I32 => Some(4),
        DType::I64 => Some(8),
        DType::U8 => Some(1),
        DType::Q4K | DType::Q4KM | DType::Q5K | DType::Q6K | DType::Q8K => Some(1),
        DType::Unknown(_) => None,
    }
}

impl DType {
    pub fn size_in_bytes(&self) -> (r: Option<usize>)
        ensures
            r == dtype_size(*self),
    {
        match self {
            DType::F32 => Some(4),
            DType::F16 | DType::BF16 => Some(2),
            DType::I32 => Some(4),
            DType::I64 => Some(8),
            DType::U8 => Some(1),
            DType::Q4K => Some(1),
            DType::Q4KM => Some(1),
            DType::Q5K => Some(1),
            DType::Q6K => Some(1),
            DType::Q8K => Some(1),
            DType::Unknown(_) => None,
        }
    }
}

/// The name under which an element type is shown.
pub open spec fn dtype_text(d: DType) -> Seq<char> {
    match d {
        DType::F32 => "f32"@,
        DType::F16 => "f16"@,
        DType::BF16 => "bf16"@,
        DType::I32 => "i32"@,
        DType::I64 => "i64"@,
        DType::U8 => "u8"@,
        DType::Q4K => "q4k"@,
        DType::Q4KM => "q4km"@,
        DType::Q5K => "q5k"@,
        DType::Q6K => "q6k"@,
        DType::Q8K => "q8k"@,
        DType::Unknown(s) => "unknown("@ + s@ + ")"@,
    }
}

impl DType {
    /// The name under which the element type is shown.
    pub fn display(&self) -> (s: String)
        ensures
            s@ == dtype_text(*self),
    {
        match self {
            DType::F32 => "f32".to_owned(),
            DType::F16 => "f16".to_owned(),
            DType::BF16 => "bf16".to_owned(),
            DType::I32 => "i32".to_owned(),
            DType::I64 => "i64".to_owned(),
            DType::U8 => "u8".to_owned(),
            DType::Q4K => "q4k".to_owned(),
            DType::Q4KM => "q4km".to_owned(),
            DType::Q5K => "q5k".to_owned(),
            DType::Q6K => "q6k".to_owned(),
            DType::Q8K => "q8k".to_owned(),
            DType::Unknown(name) => {
                let mut t = "unknown(".to_owned();
                push_str(&mut t, name.as_str());
                push_str(&mut t, ")");
                t
            },
        }
    }
}

} // verus!
