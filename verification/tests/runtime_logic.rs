use neural_forge::api::{
    build_chat_prompt, check_auth, check_prompt, prompt_too_long_message, request_max_tokens, screen_request,
    ApiRejection, ChatMessage,
};
use neural_forge::error::Error;
use neural_forge::generation::{check_context, GenAction, Generation, Schedule};
use neural_forge::hardware::{
    available_ram, available_ram_from_stats, detect_gpu_backends, discover, page_size, VmPageCounts,
};
use neural_forge::models::{
    cached_models, download_url, gguf_files, is_up_to_date, pull_target, repo_dir_name, repo_id_from_dir, tree_url,
    RepoEntry,
};
use neural_forge::planner::{
    compute_plan, gguf_weight_bytes, plan, plan_from_source, safetensors_weight_bytes, str_contains, PlanNote,
    PlanSource, ThroughputEstimate,
};
use neural_forge::quant::{check_matmul_shapes, f16_to_f32, f32_to_f16, q4_0_block, q8_0_block};
use neural_forge::qwen::{layer_tensor, KVCache, QwenConfig};
use neural_forge::safetensors::{SafetensorEntry, SafetensorsReader};
use neural_forge::types::{BackendKind, Modality, ModelKind, QualityPolicy};

fn msg(role: &str, content: &str) -> ChatMessage {
    ChatMessage { role: role.to_string(), content: content.to_string() }
}

#[test]
fn chat_prompt_uses_qwen_roles() {
    let p = build_chat_prompt(&[
        msg("system", "You are a helpful assistant."),
        msg("user", "What is the meaning of life?"),
    ]);
    assert_eq!(p, "<|system|>\nYou are a helpful assistant.\n<|user|>\nWhat is the meaning of life?\n<|assistant|>\n");
    let q = build_chat_prompt(&[msg("assistant", "hi"), msg("tool", "x")]);
    assert_eq!(q, "<|assistant|>\nhi\nx\n<|assistant|>\n");
    assert_eq!(build_chat_prompt(&[]), "<|assistant|>\n");
}

#[test]
fn bearer_key_is_required() {
    assert!(check_auth(None, None));
    assert!(check_auth(None, Some("junk")));
    assert!(check_auth(Some("sk-1"), Some("Bearer sk-1")));
    assert!(!check_auth(Some("sk-1"), Some("Bearer sk-2")));
    assert!(!check_auth(Some("sk-1"), Some("sk-1")));
    assert!(!check_auth(Some("sk-1"), None));
    assert!(!check_auth(Some(""), None));
    assert!(check_auth(Some(""), Some("Bearer ")));
    assert!(!check_auth(Some(""), Some("Basic x")));
}

#[test]
fn requests_are_screened_in_order() {
    assert_eq!(screen_request(Some("k"), None, Some(true)), Err(ApiRejection::Unauthorized));
    assert_eq!(screen_request(Some("k"), Some("Bearer k"), Some(true)), Err(ApiRejection::StreamingUnsupported));
    assert_eq!(screen_request(Some("k"), Some("Bearer k"), Some(false)), Ok(()));
    assert_eq!(screen_request(None, None, None), Ok(()));
    assert_eq!(ApiRejection::Unauthorized.status(), 401);
    assert_eq!(ApiRejection::StreamingUnsupported.status(), 501);
    assert_eq!(ApiRejection::StreamingUnsupported.message(), "streaming not yet supported");
    assert_eq!(ApiRejection::Inference("boom".to_string()).status(), 500);
}

#[test]
fn prompt_must_fit_context() {
    assert_eq!(request_max_tokens(None, 4096), 512);
    assert_eq!(request_max_tokens(None, 100), 100);
    assert_eq!(request_max_tokens(Some(7), 100), 7);
    assert_eq!(check_prompt(10, 20, 30), Ok(()));
    let r = check_prompt(11, 20, 30).unwrap_err();
    assert_eq!(r.status(), 400);
    assert_eq!(r.message(), "prompt too long: 11 tokens, max context is 30");
    assert_eq!(prompt_too_long_message(5, 4), "prompt too long: 5 tokens, max context is 4");
    assert_eq!(check_context(3, 4, 7), Ok(()));
    assert_eq!(check_context(3, 5, 7), Err(Error::ContextOverflow { max: 7, requested: 8 }));
}

fn run(g: &mut Generation, samples: &[u32]) -> Vec<GenAction> {
    let mut trace = Vec::new();
    let mut next = samples.iter();
    loop {
        let a = g.next_action();
        trace.push(a);
        match a {
            GenAction::Forward { .. } => g.forward_done(),
            GenAction::Sample => g.sampled(*next.next().unwrap()),
            GenAction::Finish => break,
        }
    }
    trace
}

#[test]
fn generation_schedule_keeps_prefill_logits() {
    let mut g = Generation::new(vec![1, 2, 3], 2, Schedule::KeepPrefillLogits);
    let trace = run(&mut g, &[7, 8]);
    assert_eq!(
        trace,
        vec![
            GenAction::Forward { token: 1, pos: 0 },
            GenAction::Forward { token: 2, pos: 1 },
            GenAction::Forward { token: 3, pos: 2 },
            GenAction::Sample,
            GenAction::Forward { token: 7, pos: 3 },
            GenAction::Sample,
            GenAction::Finish,
        ]
    );
    assert_eq!(g.generated(), vec![7, 8]);
    assert_eq!(g.prompt_len(), 3);
}

#[test]
fn generation_schedule_refeeds_last_prompt_token() {
    let mut g = Generation::new(vec![4, 5], 1, Schedule::RefeedLastPrompt);
    let trace = run(&mut g, &[9]);
    assert_eq!(
        trace,
        vec![
            GenAction::Forward { token: 4, pos: 0 },
            GenAction::Forward { token: 5, pos: 1 },
            GenAction::Forward { token: 5, pos: 1 },
            GenAction::Sample,
            GenAction::Finish,
        ]
    );
    let mut none = Generation::new(vec![], 0, Schedule::KeepPrefillLogits);
    assert_eq!(none.next_action(), GenAction::Finish);
    assert!(run(&mut none, &[]).len() == 1);
}

fn tiny_config() -> QwenConfig {
    QwenConfig {
        hidden_size: 8,
        n_layers: 2,
        n_heads: 2,
        n_kv_heads: 1,
        head_dim: 4,
        ffn_dim: 16,
        vocab_size: 32,
        max_seq_len: 4,
        rope_theta: None,
        rms_norm_eps: None,
    }
}

#[test]
fn kv_cache_reads_back_writes() {
    let cfg = tiny_config();
    let mut c: KVCache<i32> = KVCache::new(&cfg, 4, 0);
    assert_eq!(c.k.len(), 2);
    assert_eq!(c.k[0].len(), 16);
    c.insert(1, 0, &[1, 2, 3, 4], &[5, 6, 7, 8]);
    c.insert(1, 2, &[9, 9, 9, 9], &[0, 1, 0, 1]);
    assert_eq!(c.k(1, 1), &[1, 2, 3, 4]);
    assert_eq!(c.k(1, 3), &[1, 2, 3, 4, 0, 0, 0, 0, 9, 9, 9, 9]);
    assert_eq!(c.v(1, 3)[8..12], [0, 1, 0, 1]);
    assert_eq!(c.k(0, 4), &[0; 16]);
    c.insert(1, 0, &[4, 3, 2, 1], &[0, 0, 0, 0]);
    assert_eq!(c.k(1, 3), &[4, 3, 2, 1, 0, 0, 0, 0, 9, 9, 9, 9]);
    assert_eq!(layer_tensor(3, "attn_q.weight"), "blk.3.attn_q.weight");
}

#[test]
fn plan_arithmetic() {
    let p = plan("m", 1_000_000_000, 4096, 16_000_000_000, QualityPolicy::Quality);
    assert_eq!(p.kv_bytes_per_token, 18432);
    assert_eq!(p.peak_ram_bytes, 1_000_000_000 + 75_497_472 + 67_108_864);
    assert!(p.feasible);
    assert_eq!(p.bottleneck, "CPU (no GPU backend)");
    assert_eq!(p.estimated_tok_s, ThroughputEstimate::Fixed(25));
    assert_eq!(p.note, PlanNote::Fits);
    assert_eq!(p.modalities, vec![Modality::Text]);
    assert_eq!(p.peak_vram_bytes, 0);
    assert_eq!(p.disk_bytes, 1_000_000_000);

    let q = plan("m", 20_000_000_000, 0, 16_000_000_000, QualityPolicy::Fast);
    assert!(!q.feasible);
    assert_eq!(q.kv_bytes_per_token, 0);
    assert_eq!(q.bottleneck, "insufficient RAM for weights");
    assert_eq!(q.estimated_tok_s, ThroughputEstimate::Infeasible);
    assert_eq!(q.note, PlanNote::NeedsMoreRam { peak_bytes: 20_067_108_864, ram_bytes: 16_000_000_000 });

    let r = compute_plan("m", 12_000_000_000, 1, 12_100_000_000, QualityPolicy::Exact, ModelKind::MoE, vec![]);
    assert!(r.feasible);
    assert_eq!(r.bottleneck, "CPU (no GPU backend)");
    assert_eq!(r.estimated_tok_s, ThroughputEstimate::MemoryBound { ram_bytes: 12_100_000_000, weight_bytes: 12_000_000_000 });

    let s = plan("m", 4_000_000_000, 100_000, 4_100_000_000, QualityPolicy::Quality);
    assert_eq!(s.bottleneck, "insufficient RAM for full context");
    let t = plan("m", 1_000, 1, 4_000_000_000, QualityPolicy::Quality);
    assert_eq!(t.bottleneck, "low system memory");
    let u = plan("m", 5_000_000_000, 1, 64_000_000_000, QualityPolicy::Quality);
    assert_eq!(u.estimated_tok_s, ThroughputEstimate::Fixed(8));
}

#[test]
fn plan_weights_from_files() {
    assert_eq!(gguf_weight_bytes(1000), 200);
    assert_eq!(gguf_weight_bytes(9), 9);
    assert_eq!(gguf_weight_bytes(15), 7);
    assert_eq!(safetensors_weight_bytes(1000, 92), 900);
    assert_eq!(safetensors_weight_bytes(50, 92), 0);
    let p = plan_from_source("x.bin", PlanSource::Raw { file_size: 123 }, 10, QualityPolicy::Quality, 1 << 40);
    assert_eq!(p.weight_bytes, 123);
    let s = plan_from_source(
        "x.safetensors",
        PlanSource::Safetensors { file_size: 1000, header_size: 92 },
        10,
        QualityPolicy::Quality,
        1 << 40,
    );
    assert_eq!(s.weight_bytes, 900);
    assert!(str_contains("qwen3moe", "moe"));
    assert!(!str_contains("qwen3", "moe"));
    assert!(str_contains("abc", ""));
}

#[test]
fn repo_names_map_to_cache_dirs() {
    assert_eq!(repo_dir_name("Qwen/Qwen3-1.5B-GGUF"), "Qwen__Qwen3-1.5B-GGUF");
    assert_eq!(repo_id_from_dir("Qwen__Qwen3-1.5B-GGUF"), "Qwen/Qwen3-1.5B-GGUF");
    assert_eq!(repo_id_from_dir(&repo_dir_name("org/my_model")), "org/my_model");
    assert_eq!(repo_id_from_dir(&repo_dir_name("a_/b")), "a/_b");
    assert_eq!(repo_id_from_dir("a___b"), "a/_b");
    assert_eq!(
        download_url("Qwen/Q", "q.gguf"),
        "https://huggingface.co/Qwen/Q/resolve/main/q.gguf"
    );
    assert_eq!(tree_url("Qwen/Q"), "https://huggingface.co/api/models/Qwen/Q/tree/main");
}

#[test]
fn listing_and_cache_decisions() {
    let entries = vec![
        RepoEntry { kind: Some("file".into()), path: Some("README.md".into()), size: Some(5) },
        RepoEntry { kind: Some("file".into()), path: Some("a-q4.gguf".into()), size: Some(10) },
        RepoEntry { kind: Some("directory".into()), path: Some("sub.gguf".into()), size: None },
        RepoEntry { kind: Some("file".into()), path: Some("b-q8.gguf".into()), size: None },
    ];
    let files = gguf_files(&entries);
    assert_eq!(files, vec![("a-q4.gguf".to_string(), 10), ("b-q8.gguf".to_string(), 0)]);
    assert_eq!(pull_target(&files, "o/r").unwrap(), ("a-q4.gguf".to_string(), 10));
    match pull_target(&vec![], "o/r") {
        Err(Error::Other(m)) => assert_eq!(m, "no GGUF files found in o/r"),
        other => panic!("unexpected {:?}", other),
    }
    assert!(is_up_to_date(Some(10), 10));
    assert!(!is_up_to_date(Some(9), 10));
    assert!(!is_up_to_date(None, 0));
    let models = cached_models(vec![
        ("zeta__m".to_string(), "/c/zeta__m/x.gguf".to_string(), 3),
        ("alpha__m".to_string(), "/c/alpha__m/y.gguf".to_string(), 4),
    ]);
    assert_eq!(models.len(), 2);
    assert_eq!(models[0].repo_id, "alpha/m");
    assert_eq!(models[0].file_size, 4);
    assert_eq!(models[1].repo_id, "zeta/m");
    assert_eq!(models[1].path, "/c/zeta__m/x.gguf");
}

#[test]
fn hardware_estimates() {
    assert_eq!(available_ram(Some(16_000_000_000)), 8_800_000_000);
    assert_eq!(available_ram(None), 4_400_000_000);
    assert_eq!(available_ram(Some(99)), 54);
    let counts = VmPageCounts { free: 1000, inactive: 500, compressed: 100 };
    assert_eq!(available_ram_from_stats(Some(16_000_000_000), 16384, Some(counts)), 1600 * 16384);
    assert_eq!(available_ram_from_stats(Some(1000), 16384, Some(counts)), 1000);
    assert_eq!(available_ram_from_stats(Some(16_000_000_000), 16384, None), 8_800_000_000);
    assert_eq!(available_ram_from_stats(Some(1_000_000_000), 16384, None), 600_000_000);
    assert_eq!(available_ram_from_stats(None, 4096, None), 4_400_000_000);
    assert_eq!(page_size(Some(4096)), 4096);
    assert_eq!(page_size(None), 16384);
    let mut b = vec![BackendKind::Cpu];
    detect_gpu_backends(&mut b, false);
    assert_eq!(b, vec![BackendKind::Cpu]);
    detect_gpu_backends(&mut b, true);
    assert_eq!(b, vec![BackendKind::Cpu, BackendKind::Metal]);
}

#[test]
fn discover_reports_first_failure() {
    let inv = discover("linux".into(), "x86_64".into(), 8, Ok(1 << 34), 1 << 33, Ok(1 << 30), false).unwrap();
    assert_eq!(inv.logical_cpus, 8);
    assert_eq!(inv.physical_cpus, 8);
    assert_eq!(inv.backends, vec![BackendKind::Cpu]);
    assert_eq!(inv.total_ram_bytes, 1 << 34);
    let err = discover(
        "linux".into(),
        "x86_64".into(),
        8,
        Err(Error::Other("total_ram not implemented for this OS".into())),
        1,
        Err(Error::Other("free_disk not implemented for this OS".into())),
        false,
    );
    assert_eq!(err.unwrap_err(), Error::Other("total_ram not implemented for this OS".into()));
    let err2 = discover("macos".into(), "aarch64".into(), 8, Ok(1), 1, Err(Error::Other("disk".into())), true);
    assert_eq!(err2.unwrap_err(), Error::Other("disk".into()));
    let mac = discover("macos".into(), "aarch64".into(), 10, Ok(2), 1, Ok(3), true).unwrap();
    assert_eq!(mac.backends, vec![BackendKind::Cpu, BackendKind::Metal]);
}

fn entry(dtype: &str) -> SafetensorEntry {
    SafetensorEntry { dtype: dtype.to_string(), shape: vec![2, 2], data_offsets: [0, 16] }
}

#[test]
fn safetensors_header_checks() {
    let mut prefix = 92u64.to_le_bytes().to_vec();
    assert_eq!(SafetensorsReader::header_size(&prefix, 200), Ok(92));
    assert_eq!(
        SafetensorsReader::header_size(&prefix, 99),
        Err(Error::Format("safetensors header exceeds file bounds".into()))
    );
    assert_eq!(SafetensorsReader::header_size(&prefix[..5], 200), Err(Error::Io("failed to fill whole buffer".into())));
    prefix = 0u64.to_le_bytes().to_vec();
    assert_eq!(
        SafetensorsReader::header_size(&prefix, 200),
        Err(Error::Format("safetensors header size is zero".into()))
    );
    prefix = 104_857_601u64.to_le_bytes().to_vec();
    assert_eq!(
        SafetensorsReader::header_size(&prefix, u64::MAX),
        Err(Error::Format("safetensors header size 104857601 exceeds safety limit 104857600".into()))
    );
    prefix = 104_857_600u64.to_le_bytes().to_vec();
    assert_eq!(SafetensorsReader::header_size(&prefix, 200_000_000), Ok(104_857_600));
}

#[test]
fn safetensors_tensors_sorted_by_name() {
    let f = SafetensorsReader::from_header(
        "m.safetensors".into(),
        1000,
        92,
        vec![("lm_head".into(), entry("F32")), ("embed".into(), entry("F16")), ("layers.0".into(), entry("BF16"))],
    );
    assert_eq!(f.tensor_count(), 3);
    let names: Vec<&str> = f.tensors.iter().map(|t| t.0.as_str()).collect();
    assert_eq!(names, vec!["embed", "layers.0", "lm_head"]);
    assert_eq!(f.tensors[0].1.dtype, "F16");
    assert_eq!(f.header_size, 92);
    let _ = SafetensorsReader::new();
}

#[test]
fn half_precision_conversions() {
    assert_eq!(f32_to_f16(1.0f32.to_bits()), 0x3c00);
    assert_eq!(f32_to_f16((-2.0f32).to_bits()), 0xc000);
    assert_eq!(f32_to_f16(0.0f32.to_bits()), 0);
    assert_eq!(f32_to_f16(f32::INFINITY.to_bits()), 0x7c00);
    assert_eq!(f32_to_f16(f32::NAN.to_bits()), 0x7e00);
    assert_eq!(f32_to_f16(1e-10f32.to_bits()), 0);
    assert_eq!(f32_to_f16(1e10f32.to_bits()), 0x7e00);
    assert_eq!(f32_to_f16(65536.0f32.to_bits()), 0x7c00);
    assert_eq!(f16_to_f32(0x3c00), 1.0f32.to_bits());
    assert_eq!(f16_to_f32(0xc000), (-2.0f32).to_bits());
    assert_eq!(f16_to_f32(0x7c00), f32::INFINITY.to_bits());
    assert_eq!(f16_to_f32(0x0001), (2.0f32).powi(-24).to_bits());
    assert_eq!(f16_to_f32(0x8001), (-(2.0f32).powi(-24)).to_bits());
    assert_eq!(f16_to_f32(0x03ff), (1023.0f32 * (2.0f32).powi(-24)).to_bits());
    for h in 0u16..=u16::MAX {
        let is_nan = (h >> 10) & 0x1f == 0x1f && h & 0x3ff != 0;
        if !is_nan {
            assert_eq!(f16_to_f32(h), half::f16::from_bits(h).to_f32().to_bits(), "half {:#06x}", h);
        }
    }
    for h in [0u16, 0x8000, 0x3c00, 0x3555, 0x7bff, 0x0400, 0x7c00, 0xfc00] {
        assert_eq!(f32_to_f16(f16_to_f32(h)), h);
    }
}

#[test]
fn quantized_blocks_decode() {
    let mut w = vec![0x00u8, 0x3c];
    w.extend((0..32).map(|i| (i as i8 - 16) as u8));
    let b = q8_0_block(&w, 0, 32);
    assert_eq!(b.scale_bits, 0x3c00);
    assert_eq!(b.values[0], -16);
    assert_eq!(b.values[31], 15);
    let q = vec![0x00u8, 0x3c, 0x21, 0xf0, 0, 0, 0, 0, 0, 0, 0, 0, 0, 0, 0, 0, 0, 0];
    let c = q4_0_block(&q, 0, 4);
    assert_eq!(c.values, vec![1 - 8, 2 - 8, 0 - 8, 15 - 8]);
    assert!(check_matmul_shapes(6, 6, Some(9), 2, 3, 3).is_ok());
    assert_eq!(
        check_matmul_shapes(5, 6, Some(9), 2, 3, 3),
        Err(Error::TensorShape { expected: vec![2, 3], got: vec![5] })
    );
    assert!(check_matmul_shapes(6, 6, Some(8), 2, 3, 3).is_err());
}
