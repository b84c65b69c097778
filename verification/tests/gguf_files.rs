use neural_forge::error::Error;
use neural_forge::gguf::{GgufFile, GgufReader, GgufValue};
use neural_forge::gguf_parse::{read_gguf_string, read_gguf_value, read_gguf_value_typed};
use neural_forge::gguf_access::{ggml_block_len, ggml_tensor_bytes, ggml_type_size, weight_decoding, WeightDecoding};
use neural_forge::planner::{detect_model_kind, plan_from_source, PlanSource, ThroughputEstimate};
use neural_forge::qwen::{has_zero_head_count, weight_tensor_names, FloatBits, QwenConfig};
use neural_forge::types::{ModelKind, QualityPolicy};

fn put_u32(v: &mut Vec<u8>, x: u32) {
    v.extend_from_slice(&x.to_le_bytes());
}

fn put_u64(v: &mut Vec<u8>, x: u64) {
    v.extend_from_slice(&x.to_le_bytes());
}

fn put_str(v: &mut Vec<u8>, s: &str) {
    put_u64(v, s.len() as u64);
    v.extend_from_slice(s.as_bytes());
}

fn header(v: &mut Vec<u8>, tensors: u64, kvs: u64) {
    v.extend_from_slice(b"GGUF");
    put_u32(v, 3);
    put_u64(v, tensors);
    put_u64(v, kvs);
}

fn kv_u32(v: &mut Vec<u8>, key: &str, x: u32) {
    put_str(v, key);
    put_u32(v, 4);
    put_u32(v, x);
}

fn kv_str(v: &mut Vec<u8>, key: &str, s: &str) {
    put_str(v, key);
    put_u32(v, 8);
    put_str(v, s);
}

fn tensor(v: &mut Vec<u8>, name: &str, dims: &[u64], dtype: u32, offset: u64) {
    put_str(v, name);
    put_u32(v, dims.len() as u32);
    for d in dims {
        put_u64(v, *d);
    }
    put_u32(v, dtype);
    put_u64(v, offset);
}

/// A small Qwen3 header: ten metadata keys and two tensors.
fn sample() -> (Vec<u8>, usize) {
    let mut v = Vec::new();
    header(&mut v, 2, 10);
    kv_str(&mut v, "general.architecture", "qwen3");
    kv_str(&mut v, "general.name", "tiny");
    kv_u32(&mut v, "qwen3.block_count", 2);
    kv_u32(&mut v, "qwen3.embedding_length", 8);
    kv_u32(&mut v, "qwen3.attention.head_count", 2);
    put_str(&mut v, "qwen3.feed_forward_length");
    put_u32(&mut v, 10);
    put_u64(&mut v, 16);
    kv_u32(&mut v, "qwen3.vocab_size", 32);
    kv_u32(&mut v, "qwen3.context_length", 128);
    put_str(&mut v, "qwen3.rope.freq_base");
    put_u32(&mut v, 6);
    put_u32(&mut v, 1_000_000.0f32.to_bits());
    put_str(&mut v, "tokenizer.ggml.tokens");
    put_u32(&mut v, 9);
    put_u32(&mut v, 8);
    put_u64(&mut v, 2);
    put_str(&mut v, "a");
    put_str(&mut v, "b");
    tensor(&mut v, "token_embd.weight", &[8, 32], 1, 0);
    tensor(&mut v, "output.weight", &[8, 32], 0, 512);
    let end = v.len();
    (v, end)
}

fn parse(bytes: &[u8], file_size: u64) -> Result<GgufFile, Error> {
    GgufReader::from_bytes("m.gguf".to_string(), file_size, bytes)
}

#[test]
fn gguf_header_reads_back() {
    let (bytes, end) = sample();
    let fs = 4096u64;
    let f = parse(&bytes, fs).unwrap();
    assert_eq!(f.path, "m.gguf");
    assert_eq!(f.file_size, fs);
    assert_eq!(f.version, 3);
    assert_eq!(f.tensor_count, 2);
    assert_eq!(f.metadata.len(), 10);
    assert_eq!(f.data_start, ((end as u64 + 31) / 32) * 32);
    assert_eq!(f.data_start % 32, 0);
    assert_eq!(f.architecture(), Some("qwen3"));
    assert_eq!(f.name(), Some("tiny"));
    assert_eq!(f.block_count(), Some(2));
    assert_eq!(f.embedding_length(), Some(8));
    assert_eq!(f.context_length(), Some(128));
    assert_eq!(f.file_type(), None);
    assert_eq!(f.list_tensor_names(), vec!["token_embd.weight".to_string(), "output.weight".to_string()]);
    match f.metadata.get("tokenizer.ggml.tokens") {
        Some(GgufValue::Array(items)) => {
            assert_eq!(items.len(), 2);
            assert_eq!(items[0].as_str(), Some("a"));
        }
        other => panic!("unexpected {:?}", other),
    }
    match f.metadata.get("qwen3.rope.freq_base") {
        Some(GgufValue::Float32(bits)) => assert_eq!(f32::from_bits(*bits), 1_000_000.0),
        other => panic!("unexpected {:?}", other),
    }
    assert_eq!(f.metadata.get("qwen3.feed_forward_length").unwrap().as_u64(), Some(16));
}

#[test]
fn gguf_tensor_records_and_extents() {
    let (bytes, _) = sample();
    let f = parse(&bytes, 8192).unwrap();
    let t = f.tensor_info("output.weight").unwrap();
    assert_eq!(t.dimensions, vec![8, 32]);
    assert_eq!(t.n_dims, 2);
    assert_eq!(t.n_elems(), 256);
    assert_eq!(t.checked_n_elems(), Some(256));
    let e = f.tensor_extent("output.weight").unwrap();
    assert_eq!(e.offset, f.data_start + 512);
    assert_eq!(e.n_bytes, 1024);
    assert_eq!(e.n_elems, 256);
    assert_eq!(weight_decoding(&e, "output.weight").unwrap(), WeightDecoding::F32);
    let h = f.tensor_extent("token_embd.weight").unwrap();
    assert_eq!(h.n_bytes, 512);
    assert_eq!(weight_decoding(&h, "token_embd.weight").unwrap(), WeightDecoding::F16 { n: 256 });
    match f.tensor_extent("missing.weight") {
        Err(Error::Other(m)) => assert_eq!(m, "tensor 'missing.weight' not found"),
        other => panic!("unexpected {:?}", other),
    }
    assert!(f.try_tensor_extent("output.weight").unwrap().is_ok());
}

#[test]
fn gguf_type_sizes_and_unsupported_dtype() {
    assert_eq!(ggml_type_size(0), 4);
    assert_eq!(ggml_type_size(1), 2);
    assert_eq!(ggml_type_size(8), 34);
    assert_eq!(ggml_type_size(2), 18);
    assert_eq!(ggml_type_size(12), 1);
    assert_eq!(ggml_block_len(8), 32);
    assert_eq!(ggml_block_len(2), 32);
    assert_eq!(ggml_block_len(0), 1);
    assert_eq!(ggml_tensor_bytes(8, 64), Some(68));
    assert_eq!(ggml_tensor_bytes(2, 64), Some(36));
    assert_eq!(ggml_tensor_bytes(8, 40), Some(68));
    assert_eq!(ggml_tensor_bytes(0, 10), Some(40));
    assert_eq!(ggml_tensor_bytes(0, u64::MAX), None);
    let e = neural_forge::gguf_access::TensorExtent { offset: 0, n_bytes: 34, dtype: 12, n_elems: 32 };
    match weight_decoding(&e, "w") {
        Err(Error::Other(m)) => assert_eq!(m, "unsupported GGML dtype 12 for tensor 'w'"),
        other => panic!("unexpected {:?}", other),
    }
    let q8 = neural_forge::gguf_access::TensorExtent { offset: 0, n_bytes: 34, dtype: 8, n_elems: 32 };
    assert_eq!(weight_decoding(&q8, "w").unwrap(), WeightDecoding::Q8_0 { n: 32 });
    let q4 = neural_forge::gguf_access::TensorExtent { offset: 0, n_bytes: 18, dtype: 2, n_elems: 32 };
    assert_eq!(weight_decoding(&q4, "w").unwrap(), WeightDecoding::Q4_0 { n: 32 });
}

#[test]
fn gguf_quantized_extents_use_blocks() {
    let mut v = Vec::new();
    header(&mut v, 2, 0);
    tensor(&mut v, "q8", &[64, 2], 8, 0);
    tensor(&mut v, "q4", &[64, 2], 2, 136);
    let n = v.len() as u64;
    let f = parse(&v, n).unwrap();
    let a = f.tensor_extent("q8").unwrap();
    assert_eq!(a.n_bytes, 136);
    assert_eq!(a.n_elems, 128);
    assert_eq!(a.offset, f.data_start);
    let b = f.tensor_extent("q4").unwrap();
    assert_eq!(b.n_bytes, 72);
    assert_eq!(b.offset, f.data_start + 136);
}

#[test]
fn gguf_small_values_keep_their_width() {
    let mut v = Vec::new();
    header(&mut v, 0, 4);
    put_str(&mut v, "u8");
    put_u32(&mut v, 0);
    v.push(200);
    put_str(&mut v, "i16");
    put_u32(&mut v, 3);
    v.extend_from_slice(&(-5i16).to_le_bytes());
    put_str(&mut v, "flag");
    put_u32(&mut v, 7);
    v.push(1);
    put_str(&mut v, "i8");
    put_u32(&mut v, 1);
    v.push(0xff);
    let end = v.len();
    let f = parse(&v, end as u64).unwrap();
    assert!(matches!(f.metadata.get("u8"), Some(GgufValue::Uint8(200))));
    assert!(matches!(f.metadata.get("i16"), Some(GgufValue::Int16(-5))));
    assert!(matches!(f.metadata.get("flag"), Some(GgufValue::Bool(true))));
    assert!(matches!(f.metadata.get("i8"), Some(GgufValue::Int8(-1))));
    assert_eq!(f.data_start, ((end as u64 + 31) / 32) * 32);
}

#[test]
fn gguf_errors_name_the_problem() {
    match parse(b"GGU", 3) {
        Err(Error::Io(m)) => assert_eq!(m, "failed to fill whole buffer"),
        other => panic!("unexpected {:?}", other),
    }
    match parse(b"LLAMA-not-gguf-at-all-xxxx", 26) {
        Err(Error::Format(m)) => assert_eq!(m, "not a GGUF file (magic: 0x4d414c4c)"),
        other => panic!("unexpected {:?}", other),
    }
    let mut many = Vec::new();
    header(&mut many, 100_001, 0);
    match parse(&many, 24) {
        Err(Error::Format(m)) => assert_eq!(m, "tensor count 100001 exceeds safety limit 100000"),
        other => panic!("unexpected {:?}", other),
    }
    let mut kvs = Vec::new();
    header(&mut kvs, 0, 100_001);
    match parse(&kvs, 24) {
        Err(Error::Format(m)) => assert_eq!(m, "metadata KV count 100001 exceeds safety limit 100000"),
        other => panic!("unexpected {:?}", other),
    }
    let mut long = Vec::new();
    header(&mut long, 0, 1);
    put_u64(&mut long, 2_000_000);
    match parse(&long, 10_000_000) {
        Err(Error::Format(m)) => assert_eq!(m, "GGUF string length 2000000 exceeds safety limit 1048576"),
        other => panic!("unexpected {:?}", other),
    }
    let mut past = Vec::new();
    header(&mut past, 0, 1);
    put_u64(&mut past, 100);
    let n = past.len() as u64;
    match parse(&past, n + 10) {
        Err(Error::Format(m)) => assert_eq!(m, "GGUF string exceeds file bounds"),
        other => panic!("unexpected {:?}", other),
    }
    let mut tag = Vec::new();
    header(&mut tag, 0, 1);
    put_str(&mut tag, "k");
    put_u32(&mut tag, 99);
    let n = tag.len() as u64;
    match parse(&tag, n) {
        Err(Error::Format(m)) => assert_eq!(m, "unknown GGUF value type tag: 99"),
        other => panic!("unexpected {:?}", other),
    }
    let mut arr = Vec::new();
    header(&mut arr, 0, 1);
    put_str(&mut arr, "k");
    put_u32(&mut arr, 9);
    put_u32(&mut arr, 4);
    put_u64(&mut arr, 100_001);
    let n = arr.len() as u64;
    match parse(&arr, n) {
        Err(Error::Format(m)) => assert_eq!(m, "GGUF array length 100001 exceeds safety limit 100000"),
        other => panic!("unexpected {:?}", other),
    }
    let mut bad = Vec::new();
    header(&mut bad, 0, 1);
    put_u64(&mut bad, 2);
    bad.extend_from_slice(&[0xff, 0xfe]);
    let n = bad.len() as u64;
    match parse(&bad, n) {
        Err(Error::Format(m)) => assert_eq!(m, "GGUF string is not valid UTF-8"),
        other => panic!("unexpected {:?}", other),
    }
    let mut dims = Vec::new();
    header(&mut dims, 1, 0);
    put_str(&mut dims, "t");
    put_u32(&mut dims, 1000);
    let n = dims.len() as u64;
    match parse(&dims, n + 16) {
        Err(Error::Format(m)) => assert_eq!(m, "tensor dimensions exceed file bounds"),
        other => panic!("unexpected {:?}", other),
    }
}

#[test]
fn gguf_prefix_reads_the_same() {
    let (bytes, end) = sample();
    let fs = (end + 100) as u64;
    let mut full = bytes.clone();
    full.extend_from_slice(&[0u8; 100]);
    let short = parse(&bytes[..end - 1], fs);
    assert!(matches!(short, Err(Error::Io(_))));
    let a = parse(&bytes, fs).unwrap();
    let b = parse(&full, fs).unwrap();
    assert_eq!(a.data_start, b.data_start);
    assert_eq!(a.list_tensor_names(), b.list_tensor_names());
    assert_eq!(a.metadata.len(), b.metadata.len());
}

#[test]
fn qwen_config_from_metadata() {
    let (bytes, _) = sample();
    let f = parse(&bytes, 4096).unwrap();
    assert!(!has_zero_head_count(&f));
    let c = QwenConfig::from_gguf(&f).unwrap();
    assert_eq!(c.hidden_size, 8);
    assert_eq!(c.n_layers, 2);
    assert_eq!(c.n_heads, 2);
    assert_eq!(c.n_kv_heads, 2);
    assert_eq!(c.head_dim, 4);
    assert_eq!(c.ffn_dim, 16);
    assert_eq!(c.vocab_size, 32);
    assert_eq!(c.max_seq_len, 128);
    assert_eq!(c.rope_theta, Some(FloatBits::Single(1_000_000.0f32.to_bits())));
    assert_eq!(c.rms_norm_eps, None);
}

#[test]
fn qwen_config_errors() {
    let mut v = Vec::new();
    header(&mut v, 0, 1);
    kv_str(&mut v, "general.architecture", "gpt2");
    let n = v.len() as u64;
    let f = parse(&v, n).unwrap();
    assert!(matches!(QwenConfig::from_gguf(&f), Err(Error::UnsupportedArchitecture(a)) if a == "gpt2"));

    let mut w = Vec::new();
    header(&mut w, 0, 2);
    kv_str(&mut w, "general.architecture", "llama");
    kv_u32(&mut w, "llama.embedding_length", 8);
    let n = w.len() as u64;
    let f = parse(&w, n).unwrap();
    assert!(matches!(QwenConfig::from_gguf(&f), Err(Error::Other(m)) if m == "missing block_count"));

    let mut e = Vec::new();
    header(&mut e, 0, 0);
    let f = parse(&e, 24).unwrap();
    assert!(matches!(QwenConfig::from_gguf(&f), Err(Error::Other(m)) if m == "no architecture in GGUF metadata"));
}

#[test]
fn weight_tensors_in_load_order() {
    let names = weight_tensor_names(2);
    assert_eq!(names.len(), 21);
    assert_eq!(names[0], "token_embd.weight");
    assert_eq!(names[1], "blk.0.attn_norm.weight");
    assert_eq!(names[9], "blk.0.ffn_down.weight");
    assert_eq!(names[10], "blk.1.attn_norm.weight");
    assert_eq!(names[19], "output_norm.weight");
    assert_eq!(names[20], "output.weight");
}

#[test]
fn planner_reads_model_kind() {
    let (bytes, _) = sample();
    let f = parse(&bytes, 4096).unwrap();
    assert_eq!(detect_model_kind(&f.metadata), ModelKind::Dense);
    let mut v = Vec::new();
    header(&mut v, 0, 1);
    kv_str(&mut v, "general.architecture", "qwen3moe");
    let n = v.len() as u64;
    let g = parse(&v, n).unwrap();
    assert_eq!(detect_model_kind(&g.metadata), ModelKind::MoE);
    let mut x = Vec::new();
    header(&mut x, 0, 1);
    kv_u32(&mut x, "qwen3.expert_count", 8);
    let n = x.len() as u64;
    let h = parse(&x, n).unwrap();
    assert_eq!(detect_model_kind(&h.metadata), ModelKind::MoE);

    let p = plan_from_source(
        "m.gguf",
        PlanSource::Gguf { file_size: 1_000_000_000, metadata: &f.metadata },
        4096,
        QualityPolicy::Quality,
        16_000_000_000,
    );
    assert_eq!(p.weight_bytes, 200_000_000);
    assert_eq!(p.model_kind, ModelKind::Dense);
    assert!(p.feasible);
    assert_eq!(p.estimated_tok_s, ThroughputEstimate::Fixed(25));
}

#[test]
fn gguf_later_keys_replace_earlier_ones() {
    let mut v = Vec::new();
    header(&mut v, 0, 2);
    kv_str(&mut v, "a", "x");
    kv_u32(&mut v, "a", 5);
    let n = v.len() as u64;
    let f = parse(&v, n).unwrap();
    assert_eq!(f.metadata.len(), 1);
    assert_eq!(f.metadata.get("a").unwrap().as_u64(), Some(5));
    assert!(f.metadata.contains_key("a"));
    assert!(!f.metadata.contains_key("b"));
}

#[test]
fn gguf_oversized_tensor_has_no_extent() {
    let mut v = Vec::new();
    header(&mut v, 1, 0);
    tensor(&mut v, "huge", &[u64::MAX, 2], 0, 0);
    let n = v.len() as u64;
    let f = parse(&v, n).unwrap();
    assert_eq!(f.tensors[0].checked_n_elems(), None);
    assert!(f.try_tensor_extent("huge").is_none());
    assert!(matches!(f.try_tensor_extent("other"), Some(Err(Error::Other(_)))));
}

#[test]
fn gguf_string_bounds_use_the_file_size() {
    let bytes = vec![2u8, 0, 0, 0, 0, 0, 0, 0, 0x68, 0x69];
    let (s, end) = read_gguf_string(&bytes, 10, 0).unwrap();
    assert_eq!(s, "hi");
    assert_eq!(end, 10);
    match read_gguf_string(&bytes, 9, 0) {
        Err(Error::Format(m)) => assert_eq!(m, "GGUF string exceeds file bounds"),
        other => panic!("unexpected {:?}", other),
    }
    match read_gguf_string(&bytes, 4, 0) {
        Err(Error::Format(m)) => assert_eq!(m, "GGUF string exceeds file bounds"),
        other => panic!("unexpected {:?}", other),
    }
}

#[test]
fn gguf_value_is_tag_then_payload() {
    for tag in 0u32..=12 {
        let mut payload: Vec<u8> = match tag {
            8 => vec![2, 0, 0, 0, 0, 0, 0, 0, b'o', b'k'],
            9 => vec![0, 0, 0, 0, 2, 0, 0, 0, 0, 0, 0, 0, 7, 9],
            _ => vec![0x11, 0x22, 0x33, 0x44, 0x55, 0x66, 0x77, 0x88],
        };
        payload.extend_from_slice(&[0xaa, 0xbb]);
        let mut tagged = tag.to_le_bytes().to_vec();
        tagged.extend_from_slice(&payload);
        let fs = tagged.len() as u64;
        let (v1, p1) = read_gguf_value(&tagged, fs, 0).unwrap();
        let (v2, p2) = read_gguf_value_typed(&payload, fs - 4, 0, tag).unwrap();
        assert_eq!(format!("{:?}", v1), format!("{:?}", v2));
        assert_eq!(p1, p2 + 4);
    }
}
