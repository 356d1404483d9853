use tokamak::llama::{
    best_binary, build_args, classify_backend, classify_lowered, exited_immediately, health_label,
    is_library_extension, parse_metrics, plan_launch, preferred_binary, resolve_binaries,
    tail_start, BackendFolder, HealthReply, LlamaBinary, LlamaManager, LlamaServerConfig,
    ManagedRuntime, Observation,
};

#[test]
fn builds_expected_args() {
    let cfg = LlamaServerConfig {
        model_path: "C:/models/foo.gguf".into(),
        n_gpu_layers: Some(999),
        ctx_size: Some(8192),
        port: 8137,
        binary_path: None,
        flash_attn: true,
        cache_type_k: None,
        cache_type_v: None,
        context_shift: false,
        extra_args: vec!["--verbose".into()],
        ..Default::default()
    };
    let args = build_args(&cfg);
    assert_eq!(args[0], "--model");
    assert_eq!(args[1], "C:/models/foo.gguf");
    assert!(args.windows(2).any(|w| w[0] == "-ngl" && w[1] == "999"));
    assert!(args.windows(2).any(|w| w[0] == "-c" && w[1] == "8192"));
    assert!(args.contains(&"-fa".to_string()));
    assert!(args.contains(&"--verbose".to_string()));
}

/// Helper: find the value following a flag, if the flag is present.
fn val_after<'a>(args: &'a [String], flag: &str) -> Option<&'a str> {
    args.windows(2).find(|w| w[0] == flag).map(|w| w[1].as_str())
}

#[test]
fn speculative_decoding_uses_the_current_flag_spelling() {
    let cfg = LlamaServerConfig {
        model_path: "target.gguf".into(),
        draft_model_path: Some("draft.gguf".into()),
        draft_n_max: Some(5),
        draft_n_min: Some(1),
        draft_n_gpu_layers: Some(99),
        ..Default::default()
    };
    let args = build_args(&cfg);
    // Without this the draft loads, costs VRAM, and never speculates:
    // --spec-type defaults to `none`.
    assert_eq!(val_after(&args, "--spec-type"), Some("draft-simple"));
    assert_eq!(val_after(&args, "--spec-draft-model"), Some("draft.gguf"));
    assert_eq!(val_after(&args, "--spec-draft-n-max"), Some("5"));
    assert_eq!(val_after(&args, "--spec-draft-n-min"), Some("1"));
    assert_eq!(val_after(&args, "--spec-draft-ngl"), Some("99"));

    // llama.cpp removed these; emitting one would make the server exit
    // with "the argument has been removed" instead of speculating.
    for dead in ["--draft-max", "--draft-min", "--draft", "--draft-n"] {
        assert!(
            !args.iter().any(|a| a == dead),
            "must not emit the removed flag {dead}"
        );
    }
}

#[test]
fn no_draft_flags_without_a_draft_model() {
    // The knobs are meaningless alone, and passing them without
    // --spec-draft-model would be a launch failure rather than a no-op.
    let cfg = LlamaServerConfig {
        model_path: "m.gguf".into(),
        draft_n_max: Some(5),
        draft_cache_type_k: Some("q8_0".into()),
        ..Default::default()
    };
    let args = build_args(&cfg);
    assert!(!args.iter().any(|a| a.starts_with("--spec-draft")));
    assert!(!args.iter().any(|a| a == "--spec-type"));
}

#[test]
fn a_quantized_draft_cache_forces_flash_attention_on() {
    let cfg = LlamaServerConfig {
        model_path: "m.gguf".into(),
        draft_model_path: Some("d.gguf".into()),
        draft_cache_type_k: Some("q8_0".into()),
        draft_cache_type_v: Some("q8_0".into()),
        ..Default::default()
    };
    let args = build_args(&cfg);
    assert_eq!(val_after(&args, "-fa"), Some("on"), "quantized KV needs -fa");
    assert_eq!(val_after(&args, "--spec-draft-type-k"), Some("q8_0"));
    assert_eq!(val_after(&args, "--spec-draft-type-v"), Some("q8_0"));
}

/// `-fa` must not be passed twice when both caches are quantized: the main
/// cache already forces it on further up.
#[test]
fn flash_attention_is_only_forced_once() {
    let cfg = LlamaServerConfig {
        model_path: "m.gguf".into(),
        cache_type_k: Some("q8_0".into()),
        draft_model_path: Some("d.gguf".into()),
        draft_cache_type_k: Some("q8_0".into()),
        ..Default::default()
    };
    let args = build_args(&cfg);
    assert_eq!(args.iter().filter(|a| *a == "-fa").count(), 1, "got: {args:?}");
}

#[test]
fn omits_optional_args_when_unset() {
    let cfg = LlamaServerConfig {
        model_path: "m.gguf".into(),
        n_gpu_layers: None,
        ctx_size: None,
        port: 8137,
        binary_path: None,
        flash_attn: false,
        cache_type_k: None,
        cache_type_v: None,
        context_shift: false,
        extra_args: vec![],
        ..Default::default()
    };
    let args = build_args(&cfg);
    assert!(!args.contains(&"-ngl".to_string()));
    assert!(!args.contains(&"-c".to_string()));
    assert!(!args.contains(&"-fa".to_string()));
}

#[test]
fn kv_quant_and_context_shift_args() {
    let cfg = LlamaServerConfig {
        model_path: "m.gguf".into(),
        n_gpu_layers: None,
        ctx_size: Some(32768),
        port: 8137,
        binary_path: None,
        flash_attn: false,
        cache_type_k: Some("q8_0".into()),
        cache_type_v: Some("q8_0".into()),
        context_shift: true,
        extra_args: vec![],
        ..Default::default()
    };
    let args = build_args(&cfg);
    assert!(args.windows(2).any(|w| w[0] == "-ctk" && w[1] == "q8_0"));
    assert!(args.windows(2).any(|w| w[0] == "-ctv" && w[1] == "q8_0"));
    assert!(args.contains(&"--context-shift".to_string()));
    // Quantized KV is only valid with flash attention, so it must be forced
    // on even though the caller left flash_attn false.
    assert!(args.windows(2).any(|w| w[0] == "-fa" && w[1] == "on"));
}

/// The number that a metric's value says, 0 where there is none.
fn value(s: &Option<String>) -> f64 {
    s.as_deref().and_then(|v| v.parse().ok()).unwrap_or(0.0)
}

#[test]
fn parses_prometheus_metrics() {
    let body = "\
# HELP llamacpp:prompt_tokens_total Number of prompt tokens processed.
# TYPE llamacpp:prompt_tokens_total counter
llamacpp:prompt_tokens_total 42
llamacpp:tokens_predicted_total 128
llamacpp:prompt_tokens_seconds 512.5
llamacpp:predicted_tokens_seconds 87.3
llamacpp:kv_cache_usage_ratio 0.25
llamacpp:kv_cache_tokens 1024
llamacpp:requests_processing 1
";
    let m = parse_metrics(body);
    assert_eq!(value(&m.prompt_tokens_total), 42.0);
    assert_eq!(value(&m.predicted_tokens_total), 128.0);
    assert_eq!(value(&m.predicted_tokens_per_sec), 87.3);
    assert_eq!(value(&m.kv_cache_usage_ratio), 0.25);
    assert_eq!(value(&m.requests_processing), 1.0);
}

#[test]
fn parses_metrics_with_labels() {
    let m = parse_metrics("llamacpp:predicted_tokens_seconds{model=\"x\"} 12.5\n");
    assert_eq!(value(&m.predicted_tokens_per_sec), 12.5);
}

#[test]
fn labels_may_hold_blanks() {
    let m = parse_metrics(
        "llamacpp:kv_cache_tokens{model=\"a b\",slot=\"{0}\"} 7 1700\n\
         llamacpp:requests_processing{model=\"a b\"}\n\
         llamacpp:prompt_tokens_total 3 }\n",
    );
    assert_eq!(value(&m.kv_cache_tokens), 7.0);
    assert!(m.requests_processing.is_none());
    assert_eq!(value(&m.prompt_tokens_total), 3.0);
    let m = parse_metrics("llamacpp:kv_cache_tokens{a=\"x\\\" } y\", b=\"z\"} 8\n");
    assert_eq!(value(&m.kv_cache_tokens), 8.0);
}

/// The value stands behind the word in which the labels end; a line without labels
/// is read by its words.
#[test]
fn values_stand_behind_the_labels() {
    let tokens = |line: &str| parse_metrics(line).kv_cache_tokens;
    let text = |line: &str| tokens(line).unwrap_or_default();
    assert_eq!(text("llamacpp:kv_cache_tokens{a=\"b\"} 17 # {c=\"d\"} 0.5"), "17");
    assert_eq!(tokens("llamacpp:kv_cache_tokens{a=\"b\"}5"), None);
    assert_eq!(text("llamacpp:kv_cache_tokens{a=\"b\"}5 6"), "6");
    assert_eq!(text("llamacpp:kv_cache_tokens{ 5 }"), "5");
    assert_eq!(text("llamacpp:kv_cache_tokens{ 5 } 7"), "5");
    assert_eq!(text("llamacpp:kv_cache_tokens{a=\"b\"}{c} 4"), "4");
    assert_eq!(text("llamacpp:kv_cache_tokens{a=\"b 5"), "5");
    assert_eq!(text("llamacpp:kv_cache_tokens{ 5"), "5");
    assert_eq!(text("llamacpp:kv_cache_tokens 5 {a} 6"), "5");
}

#[test]
fn ranks_cuda_over_vulkan_over_cpu() {
    let cuda = classify_backend("llama.cpp-win-x86_64-nvidia-cuda12-avx2-2.24.0").0;
    let vulkan = classify_backend("llama.cpp-win-x86_64-vulkan-avx2-2.23.1").0;
    let cpu = classify_backend("llama.cpp-win-x86_64-avx2-2.23.1").0;
    assert!(cuda > vulkan && vulkan > cpu);
}

#[test]
fn the_last_line_of_a_metric_counts() {
    let m = parse_metrics("llamacpp:kv_cache_tokens 1\nllamacpp:kv_cache_tokens 2 x\nalone\n");
    assert_eq!(m.kv_cache_tokens.as_deref(), Some("2"));
    assert_eq!(m.prompt_tokens_total, None);
}

#[test]
fn backends_are_named_whatever_their_letter_case() {
    let (rank, backend, label) = classify_backend("Llama-CUDA12-2.24.0");
    assert_eq!((rank, backend.as_str()), (420, "cuda"));
    assert_eq!(label, "CUDA 12 2.24.0");
    let (rank, backend, label) = classify_backend("Some-Folder");
    assert_eq!((rank, backend.as_str(), label.as_str()), (50, "unknown", "Some-Folder"));
    assert_eq!(classify_lowered("X-VULKAN-1.0", "x-vulkan-1.0").1, "vulkan");
}

fn folder(path: &str, name: &str) -> BackendFolder {
    BackendFolder { path: path.to_string(), name: name.to_string() }
}

#[test]
fn the_best_backend_comes_first() {
    let managed = Some(ManagedRuntime {
        path: "/r/llama-server".to_string(),
        backend: Some("vulkan".to_string()),
        version: Some("b1".to_string()),
    });
    let folders = vec![
        folder("/l/cpu", "llama.cpp-linux-avx2-2.23.1"),
        folder("/l/vk", "llama.cpp-linux-vulkan-avx2-2.23.1"),
        folder("/l/cuda", "llama.cpp-linux-nvidia-cuda12-avx2-2.24.0"),
    ];
    let all = resolve_binaries(&managed, &folders, &vec!["/usr/bin/llama-server".to_string()]);
    assert_eq!(all.len(), 5);
    assert_eq!(all[0].path, "/l/cuda");
    assert_eq!(all[1].path, "/r/llama-server");
    assert_eq!(all[1].source, "managed");
    assert!(all[1].rank > 300);
    assert!(all.windows(2).all(|w| w[0].rank >= w[1].rank));
    assert_eq!(best_binary(&all).map(|b| b.path), Some("/l/cuda".to_string()));
    assert!(best_binary(&vec![]).is_none());
}

#[test]
fn a_managed_runtime_is_preferred_at_equal_backend() {
    let managed = Some(ManagedRuntime {
        path: "/r/llama-server".to_string(),
        backend: Some("cuda".to_string()),
        version: None,
    });
    let folders = vec![folder("/l/cuda", "llama.cpp-nvidia-cuda12-avx2-2.24.0")];
    let all = resolve_binaries(&managed, &folders, &vec![]);
    assert_eq!(all[0].source, "managed");
    assert_eq!((all[0].rank, all[1].rank), (500, 420));
    assert_eq!(all[0].label, "CUDA cuda (managed)");
}

fn binary(path: &str) -> LlamaBinary {
    LlamaBinary {
        path: path.to_string(),
        label: "CUDA".to_string(),
        backend: "cuda".to_string(),
        source: "lm-studio".to_string(),
        rank: 400,
    }
}

#[test]
fn a_launch_takes_the_binary_that_was_named() {
    let cfg = LlamaServerConfig { model_path: "m.gguf".into(), ..Default::default() };
    let found = vec![binary("/a/llama-server"), binary("/B/llama-server")];
    let best = plan_launch(&cfg, &None, false, &found, true).unwrap();
    assert_eq!(best.binary.path, "/a/llama-server");
    assert_eq!(best.args, build_args(&cfg));
    let saved = Some("/b/LLAMA-server".to_string());
    assert_eq!(preferred_binary(&cfg, &saved), saved);
    let named = plan_launch(&cfg, &saved, true, &found, true).unwrap();
    assert_eq!(named.binary.path, "/B/llama-server");
    let custom = plan_launch(&cfg, &Some("/x".to_string()), true, &found, true).unwrap();
    assert_eq!(custom.binary.label, "custom (/x)");
    assert_eq!(custom.binary.rank, 0);
}

#[test]
fn a_launch_without_a_binary_or_a_model_is_refused() {
    let cfg = LlamaServerConfig { model_path: "m.gguf".into(), ..Default::default() };
    assert_eq!(
        plan_launch(&cfg, &None, false, &vec![], true).unwrap_err(),
        "no llama-server binary found (looked on PATH and in LM Studio backends)"
    );
    assert_eq!(
        plan_launch(&cfg, &None, false, &vec![binary("/a")], false).unwrap_err(),
        "model file not found: m.gguf"
    );
}

#[test]
fn the_manager_follows_its_server() {
    let mut m = LlamaManager::new();
    let alive = Observation::Alive { reply: HealthReply::Refused(503), uptime_ms: 7 };
    assert_eq!(m.status(&alive).health, "stopped");
    assert_eq!(m.base_url(), None);
    let cfg = LlamaServerConfig { model_path: "m.gguf".into(), port: 9000, ..Default::default() };
    let s = m.start(&cfg, &binary("/a"), 42, 600);
    assert!(s.running);
    assert_eq!(s.health, "starting");
    assert_eq!(s.pid, Some(42));
    assert_eq!(m.base_url().as_deref(), Some("http://127.0.0.1:9000"));
    let s = m.status(&alive);
    assert_eq!(s.health, "loading");
    assert_eq!(s.uptime_ms, Some(7));
    let s = m.status(&Observation::Exited { exit: "1".to_string(), tail: "boom".to_string() });
    assert_eq!(s.health, "error");
    assert!(s.error.unwrap().contains("boom"));
    assert_eq!(m.status(&alive).health, "stopped");
    assert!(m.stop().is_none());
}

#[test]
fn health_follows_the_answer() {
    assert_eq!(health_label(HealthReply::Answered), "ok");
    assert_eq!(health_label(HealthReply::Refused(503)), "loading");
    assert_eq!(health_label(HealthReply::Refused(500)), "error");
    assert_eq!(health_label(HealthReply::Failed), "unreachable");
    assert!(exited_immediately("code 1", "tail").starts_with("llama-server exited immediately ("));
}

#[test]
fn logs_and_libraries() {
    assert_eq!(tail_start(100, 30), 70);
    assert_eq!(tail_start(10, 30), 0);
    assert!(is_library_extension("DLL") && is_library_extension("so"));
    assert!(!is_library_extension("exe"));
}
