use tokamak::commands::{
    download_plan, estimate_config, gpu_name, model_dirs, running_url, scan_roots, DownloadPlan,
    GpuInfo, SavedDir,
};
use tokamak::gguf::GgufMetadata;
use tokamak::scanner::ScanRoot;

fn text(s: &str) -> Option<String> {
    Some(s.to_string())
}

#[test]
fn a_download_needs_the_parts_of_its_source() {
    match download_plan("huggingface", text("o/m"), text("f"), None, None).unwrap() {
        DownloadPlan::Hub { repo, file } => assert!(repo == "o/m" && file == "f"),
        other => panic!("got {other:?}"),
    }
    let err = |source: &str, repo, file| {
        download_plan(source, repo, file, None, None).unwrap_err()
    };
    assert_eq!(err("huggingface", None, None), "missing repo");
    assert_eq!(err("huggingface", text("o/m"), None), "missing file");
    assert_eq!(err("url", None, None), "missing url");
    assert_eq!(err("ollama", None, None), "missing model");
    assert_eq!(err("ftp", None, None), "unknown download source: ftp");
    assert!(matches!(
        download_plan("url", None, None, text("u"), None),
        Ok(DownloadPlan::Direct { .. })
    ));
    assert!(matches!(
        download_plan("ollama", None, None, None, text("m")),
        Ok(DownloadPlan::Pull { .. })
    ));
}

#[test]
fn folders_are_listed_in_order() {
    let saved = vec!["a".to_string(), "b".to_string()];
    assert_eq!(model_dirs(&saved, &vec!["c".to_string()]), ["a", "b", "c"]);
    let usual =
        vec![ScanRoot { path: "u".to_string(), source: "hf".to_string(), exists: true }];
    let roots = scan_roots(usual, &vec![SavedDir { path: "s".to_string(), is_dir: false }]);
    assert_eq!(roots.len(), 2);
    assert_eq!((roots[1].path.as_str(), roots[1].source.as_str()), ("s", "folder"));
    assert!(roots[0].exists && !roots[1].exists);
}

#[test]
fn chatting_needs_a_running_model() {
    assert_eq!(running_url(text("http://h")), Ok("http://h".to_string()));
    assert_eq!(running_url(None), Err("no model is running — launch one first".to_string()));
}

fn header(blocks: Option<u64>) -> GgufMetadata {
    GgufMetadata {
        version: 3,
        tensor_count: 0,
        metadata_kv_count: 0,
        architecture: None,
        name: None,
        quant_label: text("Q4_K_M"),
        file_type: None,
        context_length: Some(32768),
        block_count: blocks,
        embedding_length: Some(4096),
        head_count: Some(32),
        head_count_kv: Some(8),
        key_length: None,
        value_length: None,
        parameter_count: Some(7_000_000_000),
        size_label: None,
        split_count: None,
        split_no: None,
        expert_count: None,
        expert_used_count: None,
        has_norm_epsilon: true,
        vocab_type: None,
        vocab_size: None,
        bos_token_id: None,
        eos_token_id: None,
        add_bos_token: None,
        add_eos_token: None,
    }
}

fn gpu(total: u64, used: u64) -> Vec<GpuInfo> {
    vec![GpuInfo { name: "RTX".to_string(), vram_total_bytes: total, vram_used_bytes: used }]
}

#[test]
fn an_estimate_needs_a_gpu_and_a_header() {
    let md = header(Some(32));
    let none = estimate_config(&md, 4_300_000_000, &vec![], None).unwrap();
    assert_eq!(none.unwrap_err(), "no GPU detected to estimate against");
    let bare = estimate_config(&header(None), 1, &gpu(10, 0), None).unwrap();
    assert_eq!(bare.unwrap_err(), "insufficient model metadata to estimate");
    let est = estimate_config(&md, 4_300_000_000, &gpu(24_000_000_000, 30_000_000_000), Some("q8_0"))
        .unwrap()
        .unwrap();
    assert!(est.full_offload);
    assert_eq!(est.gpu_free_bytes, 0);
    assert_eq!(est.quant_advice.unwrap().current_label.as_deref(), Some("Q4_K_M"));
    assert!(estimate_config(&md, u64::MAX, &gpu(10, 0), None).is_none());
    assert_eq!(gpu_name(&gpu(1, 0)), "RTX");
    assert_eq!(gpu_name(&vec![]), "unknown GPU");
}
