use neural_forge::cli::{chat_input, detect_format, parse_policy, push_answer, push_user_turn, ChatInput};
use neural_forge::dtype::DType;
use neural_forge::error::Error;
use neural_forge::shape::Shape;
use neural_forge::sorting::name_less;
use neural_forge::types::{BackendKind, Device, QualityPolicy};

#[test]
fn dtype_sizes() {
    assert_eq!(DType::F32.size_in_bytes(), Some(4));
    assert_eq!(DType::F16.size_in_bytes(), Some(2));
    assert_eq!(DType::BF16.size_in_bytes(), Some(2));
    assert_eq!(DType::I64.size_in_bytes(), Some(8));
    assert_eq!(DType::U8.size_in_bytes(), Some(1));
    assert_eq!(DType::Q4KM.size_in_bytes(), Some(1));
    assert_eq!(DType::Unknown("x".to_string()).size_in_bytes(), None);
}

#[test]
fn dtype_display_names() {
    assert_eq!(DType::F32.display(), "f32");
    assert_eq!(DType::Q8K.display(), "q8k");
    assert_eq!(DType::Unknown("mxfp4".to_string()).display(), "unknown(mxfp4)");
}

#[test]
fn shape_counts_elements() {
    let s = Shape::new(vec![2, 3, 4]);
    assert_eq!(s.num_elements(), Some(24));
    assert_eq!(s.ndim(), 3);
    assert_eq!(s.dims(), &[2, 3, 4]);
    assert!(!s.is_scalar());
}

#[test]
fn shape_overflow_is_none() {
    let s = Shape::new(vec![usize::MAX, 2]);
    assert_eq!(s.num_elements(), None);
    let z = Shape::new(vec![0, usize::MAX, 2]);
    assert_eq!(z.num_elements(), Some(0));
    let late = Shape::new(vec![2, usize::MAX, 0]);
    assert_eq!(late.num_elements(), None);
}

#[test]
fn shape_scalars() {
    assert!(Shape::new(vec![]).is_scalar());
    assert!(Shape::new(vec![1]).is_scalar());
    assert!(!Shape::new(vec![1, 1]).is_scalar());
    assert_eq!(Shape::new(vec![]).num_elements(), Some(1));
    let from: Shape = vec![5usize, 6].into();
    assert_eq!(from.num_elements(), Some(30));
    assert_eq!(from.dims(), &[5, 6]);
    assert_eq!(Shape::from(vec![7usize]).dims(), &[7]);
}

#[test]
fn shape_display_joins_dims() {
    assert_eq!(Shape::new(vec![2, 3]).display(), "[2 × 3]");
    assert_eq!(Shape::new(vec![7]).display(), "[7]");
    assert_eq!(Shape::new(vec![]).display(), "[]");
}

#[test]
fn device_names() {
    assert!(Device::Cpu.is_cpu());
    assert!(!Device::Cuda(0).is_cpu());
    assert_eq!(Device::Cuda(1).display(), "CUDA(1)");
    assert_eq!(Device::Rocm(12).display(), "ROCm(12)");
    assert_eq!(Device::Metal.display(), "Metal");
}

#[test]
fn policy_and_backend_names() {
    assert_eq!(QualityPolicy::Exact.as_str(), "exact");
    assert_eq!(QualityPolicy::Tiny.as_str(), "tiny");
    assert_eq!(BackendKind::Rocm.name(), "ROCm");
    assert_eq!(BackendKind::Cpu.name(), "CPU");
}

#[test]
fn policy_words() {
    assert_eq!(parse_policy("exact"), QualityPolicy::Exact);
    assert_eq!(parse_policy("balanced"), QualityPolicy::Balanced);
    assert_eq!(parse_policy("fast"), QualityPolicy::Fast);
    assert_eq!(parse_policy("tiny"), QualityPolicy::Tiny);
    assert_eq!(parse_policy("quality"), QualityPolicy::Quality);
    assert_eq!(parse_policy("FAST"), QualityPolicy::Quality);
    assert_eq!(parse_policy(""), QualityPolicy::Quality);
}

#[test]
fn format_by_magic_and_extension() {
    assert_eq!(detect_format(*b"GGUF", "model.bin").unwrap(), "gguf");
    assert_eq!(detect_format([1, 2, 3, 4], "m.safetensors").unwrap(), "safetensors");
    assert_eq!(detect_format([1, 2, 3, 4], "m.sft").unwrap(), "safetensors");
    match detect_format([0x7f, 0x45, 0x4c, 0x0a], "m.bin") {
        Err(Error::Other(m)) => assert_eq!(m, "unknown format (magic: 7f 45 4c 0a)"),
        other => panic!("unexpected {:?}", other),
    }
}

#[test]
fn names_order_by_code_point() {
    assert!(name_less("a", "b"));
    assert!(name_less("a", "ab"));
    assert!(!name_less("ab", "a"));
    assert!(!name_less("x", "x"));
    assert!(name_less("Z", "a"));
    assert!(name_less("z", "é"));
    assert!(name_less("", "a"));
}

#[test]
fn chat_lines_and_turns() {
    assert_eq!(chat_input("/q\n"), ChatInput::Quit);
    assert_eq!(chat_input("  :q "), ChatInput::Quit);
    assert_eq!(chat_input("/exit"), ChatInput::Quit);
    assert_eq!(chat_input(" \t\n"), ChatInput::Empty);
    assert_eq!(chat_input("  hello there \n"), ChatInput::Message("hello there".to_string()));
    let mut c = String::new();
    push_user_turn(&mut c, "hi");
    assert_eq!(c, "<|user|>\nhi\n<|assistant|>\n");
    push_answer(&mut c, "hello");
    assert_eq!(c, "<|user|>\nhi\n<|assistant|>\nhello\n");
}
