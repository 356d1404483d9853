use tokamak::binary64::Binary64;
use tokamak::estimator::{
    bpw_for, budget_bytes, estimate, estimate_pair, is_advice_countable, is_countable, is_estimable,
    kv_bytes, max_layers_at, quant_advice, shape_from_metadata, weights_bytes, KvType, ModelShape,
    PairVerdict, VramEstimate, OVERHEAD_BYTES, VRAM_HEADROOM,
};
use tokamak::gguf::GgufMetadata;

fn float(x: Binary64) -> f64 {
    f64::from_bits(x.bits)
}

// A ~7B-ish shape: 32 layers, GQA 8 kv heads, head_dim 128, 4.3 GB file.
fn shape_7b() -> ModelShape {
    ModelShape {
        file_size: 4_300_000_000,
        n_layers: 32,
        n_head_kv: 8,
        head_dim_k: 128,
        head_dim_v: 128,
        native_ctx: 131072,
    }
}

#[test]
fn full_offload_on_a_big_gpu() {
    // 24 GB GPU easily fits a 4.3 GB 7B model; should recommend full offload.
    let est = estimate(&shape_7b(), 24 * 1_000_000_000, 22 * 1_000_000_000, KvType::F16, vec![]);
    assert!(est.fits);
    assert!(est.full_offload);
    assert_eq!(est.n_gpu_layers, 32);
    assert!(est.ctx_size >= 4096);
    assert!(est.est_total_bytes <= est.budget_bytes);
}

#[test]
fn larger_gpu_allows_larger_context() {
    let small = estimate(&shape_7b(), 8 * 1_000_000_000, 8 * 1_000_000_000, KvType::F16, vec![]);
    let big = estimate(&shape_7b(), 24 * 1_000_000_000, 24 * 1_000_000_000, KvType::F16, vec![]);
    assert!(big.ctx_size >= small.ctx_size);
}

#[test]
fn quant_advisor_recommends_downsizing_for_fp16() {
    // A 14B model at F16 on a 16 GB GPU: F16/Q8 can't fit, a mid quant can.
    let shape = ModelShape {
        file_size: 28_000_000_000, // ~14B * 16bpw
        n_layers: 40,
        n_head_kv: 8,
        head_dim_k: 128,
        head_dim_v: 128,
        native_ctx: 32768,
    };
    let advice = quant_advice(&shape, Some("F16"), Some(14_000_000_000), 16_000_000_000, KvType::F16)
        .expect("advice");
    assert!(!advice.current_fits, "F16 14B must not fit in 16GB");
    let rec = advice.recommended.expect("some quant should fit");
    assert!(
        ["Q6_K", "Q5_K_M", "Q4_K_M"].contains(&rec.as_str()),
        "expected a mid quant, got {rec}"
    );
    // Ladder must be ordered best-first and the recommended one must fit
    // with headroom.
    let rec_opt = advice.options.iter().find(|o| o.label == rec).unwrap();
    assert!(rec_opt.fits && rec_opt.headroom_bytes > 0);
}

#[test]
fn quant_advisor_keeps_small_models_at_high_quality() {
    // A 4B model on a 16 GB GPU: even Q8_0 fits; F16 likely too.
    let shape = ModelShape {
        file_size: 2_800_000_000,
        n_layers: 36,
        n_head_kv: 8,
        head_dim_k: 128,
        head_dim_v: 128,
        native_ctx: 32768,
    };
    let advice =
        quant_advice(&shape, Some("Q4_K_M"), Some(4_000_000_000), 16_000_000_000, KvType::F16)
            .unwrap();
    assert!(advice.current_fits);
    let rec = advice.recommended.unwrap();
    assert!(
        ["F16", "Q8_0"].contains(&rec.as_str()),
        "small model should recommend high quality, got {rec}"
    );
}

#[test]
fn quant_advisor_derives_params_from_file_size() {
    // No metadata param count: derive from size/bpw (4.85 bpw Q4_K_M).
    let shape = ModelShape {
        file_size: 4_850_000_000,
        n_layers: 32,
        n_head_kv: 8,
        head_dim_k: 128,
        head_dim_v: 128,
        native_ctx: 8192,
    };
    let advice = quant_advice(&shape, Some("Q4_K_M"), None, 24_000_000_000, KvType::F16).unwrap();
    let est_params_b = float(advice.est_params_b);
    assert!((est_params_b - 8.0).abs() < 0.5, "~8B expected, got {}", est_params_b);
}

#[test]
fn partial_offload_when_weights_exceed_vram() {
    // A 40 GB model on an 8 GB GPU can't fully offload.
    let mut shape = shape_7b();
    shape.file_size = 40_000_000_000;
    let est = estimate(&shape, 8 * 1_000_000_000, 8 * 1_000_000_000, KvType::F16, vec![]);
    assert!(!est.full_offload);
    assert!(est.n_gpu_layers < shape.n_layers as u32);
}

fn ladder_shape(file_size: u64, n_layers: u64) -> ModelShape {
    ModelShape {
        file_size,
        n_layers,
        n_head_kv: 8,
        head_dim_k: 128,
        head_dim_v: 128,
        native_ctx: 262_144,
    }
}

/// A model too big to fully offload is still perfectly usable: every rung says how
/// many layers fit.
#[test]
fn partial_rungs_report_usable_layers() {
    // 27B Q4_K_M on a 17.1 GB card: never fully offloads.
    let est = estimate(
        &ladder_shape(16_500_000_000, 64),
        17_100_000_000,
        17_100_000_000,
        KvType::F16,
        vec![],
    );
    assert!(!est.full_offload);
    assert!(est.context_options.iter().all(|o| !o.fits));
    // ...yet every rung up to a large context still runs partially.
    for o in est.context_options.iter().filter(|o| o.ctx <= 32_768) {
        assert!(o.n_gpu_layers > 0, "{}K should be usable", o.ctx / 1024);
    }
    // Bigger context costs layers — the tradeoff must be monotonic.
    let layers_at =
        |c: u32| est.context_options.iter().find(|o| o.ctx == c).unwrap().n_gpu_layers;
    assert!(layers_at(4096) > layers_at(8192));
    assert!(layers_at(8192) > layers_at(16384));
}

#[test]
fn partial_offload_targets_a_usable_context() {
    let est = estimate(
        &ladder_shape(16_500_000_000, 64),
        17_100_000_000,
        17_100_000_000,
        KvType::F16,
        vec![],
    );
    assert_eq!(est.ctx_size, 8192);
    assert!(est.n_gpu_layers > 0 && est.n_gpu_layers < 64);
}

/// A model that fits comfortably should still prefer full offload at the
/// largest context, not get dragged down by the partial-path target.
#[test]
fn small_model_still_fully_offloads_at_a_large_context() {
    let est = estimate(
        &ladder_shape(4_700_000_000, 28),
        17_100_000_000,
        17_100_000_000,
        KvType::F16,
        vec![],
    );
    assert!(est.full_offload);
    assert!(est.ctx_size >= 32_768, "got {}", est.ctx_size);
}

fn shape_27b() -> ModelShape {
    ModelShape {
        file_size: 16_500_000_000,
        n_layers: 64,
        n_head_kv: 8,
        head_dim_k: 128,
        head_dim_v: 128,
        native_ctx: 262_144,
    }
}

#[test]
fn quantized_kv_costs_proportionally_less() {
    let s = shape_27b();
    let f16 = kv_bytes(&s, 8192, 64, KvType::F16);
    let q8 = kv_bytes(&s, 8192, 64, KvType::Q8_0);
    let q4 = kv_bytes(&s, 8192, 64, KvType::Q4_0);
    // 8.5 and 4.5 bpw against 16 — block scales included, so not exactly
    // half and a quarter.
    assert_eq!(q8, f16 * 17 / 32);
    assert_eq!(q4, f16 * 9 / 32);
    assert!(q8 < f16 && q4 < q8);
}

/// The point of the feature: the same card holds more context.
#[test]
fn quantized_kv_buys_layers_and_context() {
    let s = shape_27b();
    let gpu = 17_100_000_000;
    let f16 = estimate(&s, gpu, gpu, KvType::F16, vec![]);
    let q8 = estimate(&s, gpu, gpu, KvType::Q8_0, vec![]);

    let layers_at = |e: &VramEstimate, c: u32| {
        e.context_options.iter().find(|o| o.ctx == c).unwrap().n_gpu_layers
    };
    // At any given context, quantized KV leaves room for more layers.
    assert!(layers_at(&q8, 16384) > layers_at(&f16, 16384));
    assert!(layers_at(&q8, 32768) > layers_at(&f16, 32768));
    // And the KV term itself is smaller at the chosen config.
    assert!(q8.est_kv_bytes < f16.est_kv_bytes);
}

#[test]
fn parses_names() {
    assert_eq!(KvType::parse(Some("q8_0")), KvType::Q8_0);
    assert_eq!(KvType::parse(Some("Q4_0")), KvType::Q4_0);
    assert_eq!(KvType::parse(Some("f16")), KvType::F16);
    // Unknown/absent must fall back to f16 so we never promise context
    // that the server will not actually have room for.
    assert_eq!(KvType::parse(Some("nonsense")), KvType::F16);
    assert_eq!(KvType::parse(None), KvType::F16);
}

fn pair_shape(file_size: u64, n_layers: u64) -> ModelShape {
    ModelShape {
        file_size,
        n_layers,
        n_head_kv: 8,
        head_dim_k: 128,
        head_dim_v: 128,
        native_ctx: 131072,
    }
}

/// A plausible small draft: ~0.6B at Q4, few layers.
fn draft_shape() -> ModelShape {
    ModelShape {
        file_size: 500_000_000,
        n_layers: 28,
        n_head_kv: 8,
        head_dim_k: 128,
        head_dim_v: 128,
        native_ctx: 32768,
    }
}

#[test]
fn a_small_draft_on_a_big_gpu_costs_the_target_nothing() {
    let e = estimate_pair(&shape_7b(), &draft_shape(), 8192, 24 * 1_000_000_000, KvType::F16);
    assert_eq!(e.verdict, PairVerdict::Fits);
    assert_eq!(e.target_layers_evicted, 0);
    assert_eq!(e.target_layers_on_gpu, 32);
    assert_eq!(e.draft_layers_on_gpu, 28);
    assert!(e.est_total_bytes <= e.budget_bytes);
}

/// The verdict that matters. On a GPU where the target only just fits,
/// adding a draft has to come out of the target's layers.
#[test]
fn a_draft_that_evicts_target_layers_is_called_out() {
    let target = pair_shape(10_000_000_000, 40);
    let alone = estimate(&target, 12 * 1_000_000_000, 12 * 1_000_000_000, KvType::F16, vec![]);
    let pair = estimate_pair(&target, &draft_shape(), 8192, 12 * 1_000_000_000, KvType::F16);
    assert_eq!(pair.verdict, PairVerdict::CostsTargetLayers);
    assert!(
        pair.target_layers_evicted > 0,
        "expected the draft to cost layers; target alone got {}",
        alone.n_gpu_layers
    );
    assert!(pair.notes.iter().any(|n| n.contains("costs")));
}

#[test]
fn a_draft_too_big_for_the_gpu_is_rejected_outright() {
    let e = estimate_pair(
        &shape_7b(),
        &pair_shape(30_000_000_000, 60),
        8192,
        8 * 1_000_000_000,
        KvType::F16,
    );
    assert_eq!(e.verdict, PairVerdict::TooBig);
    assert_eq!(e.target_layers_on_gpu, 0);
}

/// The draft's cache is charged at the target's context, so a longer
/// window costs VRAM twice over.
#[test]
fn draft_kv_scales_with_the_targets_context() {
    let short = estimate_pair(&shape_7b(), &draft_shape(), 2048, 24 * 1_000_000_000, KvType::F16);
    let long = estimate_pair(&shape_7b(), &draft_shape(), 16384, 24 * 1_000_000_000, KvType::F16);
    assert!(
        long.est_draft_bytes > short.est_draft_bytes,
        "draft KV must grow with context: {} vs {}",
        short.est_draft_bytes,
        long.est_draft_bytes
    );
}

#[test]
fn quantized_kv_buys_back_room_for_the_pair() {
    let f16 = estimate_pair(&shape_7b(), &draft_shape(), 32768, 12 * 1_000_000_000, KvType::F16);
    let q8 = estimate_pair(&shape_7b(), &draft_shape(), 32768, 12 * 1_000_000_000, KvType::Q8_0);
    assert!(
        q8.est_total_bytes < f16.est_total_bytes,
        "q8_0 must shrink the pair's footprint"
    );
    assert!(q8.target_layers_on_gpu >= f16.target_layers_on_gpu);
}

/// A target that was already partially offloaded before any draft existed
/// should not have that blamed on the draft.
#[test]
fn a_pre_existing_partial_target_is_not_charged_to_the_draft() {
    let target = pair_shape(20_000_000_000, 60);
    let gpu = 10 * 1_000_000_000;
    let alone = max_layers_at(
        &target,
        8192,
        (gpu as f64 * f64::from_bits(VRAM_HEADROOM)) as u64,
        KvType::F16,
    );
    assert!(alone > 0 && alone < 60, "target must start out partial");
    let pair = estimate_pair(&target, &draft_shape(), 8192, gpu, KvType::F16);
    if pair.target_layers_evicted == 0 && pair.verdict == PairVerdict::Fits {
        assert!(pair.notes.iter().any(|n| n.contains("already partial")));
    }
}

// Exact values.

#[test]
fn the_budget_is_nine_tenths_of_the_memory() {
    assert_eq!(f64::from_bits(VRAM_HEADROOM), 0.90);
    for total in [0u64, 1, 10, 17_100_000_000, 24 * 1_000_000_000, u64::MAX] {
        assert_eq!(budget_bytes(total), (total as f64 * 0.90) as u64);
    }
}

#[test]
fn cache_and_weights_are_charged_per_layer() {
    let s = shape_7b();
    // 8192 tokens * 8 heads * (128 + 128) elements * 2 bytes * 32 layers
    assert_eq!(kv_bytes(&s, 8192, 32, KvType::F16), 1_073_741_824);
    assert_eq!(kv_bytes(&s, 8192, 16, KvType::F16), 536_870_912);
    assert_eq!(weights_bytes(&s, 32), 4_300_000_000);
    assert_eq!(weights_bytes(&s, 16), 2_150_000_000);
    assert_eq!(OVERHEAD_BYTES, 400 * 1024 * 1024);
    let est = estimate(&s, 24_000_000_000, 22_000_000_000, KvType::F16, vec![]);
    assert_eq!(est.ctx_size, 65536);
    assert_eq!(est.est_total_bytes, 4_300_000_000 + OVERHEAD_BYTES + 8 * 1_073_741_824);
    assert_eq!(est.gpu_free_bytes, 22_000_000_000);
}

#[test]
fn no_room_means_no_layers() {
    let est = estimate(&shape_7b(), 100_000_000, 0, KvType::F16, vec!["seen".to_string()]);
    assert!(!est.fits);
    assert!(!est.full_offload);
    assert_eq!(est.n_gpu_layers, 0);
    assert_eq!(est.notes[0], "seen");
}

#[test]
fn bits_per_weight_of_known_quants() {
    assert_eq!(bpw_for("Q4_K_M").map(float), Some(4.85));
    assert_eq!(bpw_for("q8_0").map(float), Some(8.5));
    assert_eq!(bpw_for("F16").map(float), Some(16.0));
    assert_eq!(bpw_for("something else"), None);
    assert_eq!(bpw_for("Q4_0_4_4"), None);
}

/// A mixed label spells out its size.
#[test]
fn bits_per_weight_of_mixed_labels() {
    assert_eq!(bpw_for("Q4_K - Medium").map(float), Some(4.85));
    assert_eq!(bpw_for("q4_k-medium").map(float), Some(4.85));
    assert_eq!(bpw_for("Q5_K - Medium").map(float), Some(5.69));
    assert_eq!(bpw_for("Q2_K - Medium").map(float), Some(2.63));
    assert_eq!(bpw_for("Q4_K - Small").map(float), Some(4.58));
    assert_eq!(bpw_for("Q3_K - Large").map(float), Some(4.27));
    assert_eq!(bpw_for("Q 8_0").map(float), Some(8.5));
    assert_eq!(bpw_for("Q9_K - Medium"), None);
    assert_eq!(bpw_for("- Medium"), None);
    // a dash and blanks are read only where a size follows in words
    assert_eq!(bpw_for("Q8-0"), None);
    assert_eq!(bpw_for("Q4-K-M"), None);
    assert_eq!(bpw_for("Q4 _0"), None);
    assert_eq!(bpw_for("Q4_K_SMALL"), None);
    assert_eq!(bpw_for("Q4-K - Medium"), None);
}

#[test]
fn unusable_advice_is_withheld() {
    assert!(quant_advice(&shape_7b(), None, None, 24_000_000_000, KvType::F16).is_none());
    let a = quant_advice(&shape_7b(), Some("Q4_K_M"), Some(7_000_000_000), 1_000, KvType::F16)
        .unwrap();
    assert_eq!(a.recommended, None);
    assert!(!a.current_fits);
    assert_eq!(a.options.len(), 9);
    assert!(a.options.iter().any(|o| o.label == "Q4_K_M" && o.is_current));
}

fn header() -> GgufMetadata {
    GgufMetadata {
        version: 3,
        tensor_count: 0,
        metadata_kv_count: 0,
        architecture: None,
        name: None,
        quant_label: None,
        file_type: None,
        context_length: None,
        block_count: None,
        embedding_length: None,
        head_count: None,
        head_count_kv: None,
        key_length: None,
        value_length: None,
        parameter_count: None,
        size_label: None,
        split_count: None,
        split_no: None,
        expert_count: None,
        expert_used_count: None,
        has_norm_epsilon: true,
        vocab_type: None,
        vocab_size: None,
        bos_token_id: None,
        eos_token_id: None,
        add_bos_token: None,
        add_eos_token: None,
    }
}

#[test]
fn a_header_without_layers_has_no_shape() {
    let mut notes = Vec::new();
    assert!(shape_from_metadata(&header(), 1, &mut notes).is_none());
    assert_eq!(notes, vec!["block_count missing; cannot estimate layers"]);
}

#[test]
fn missing_header_fields_are_assumed_and_noted() {
    let mut md = header();
    md.block_count = Some(40);
    let mut notes = vec!["first".to_string()];
    let s = shape_from_metadata(&md, 7, &mut notes).unwrap();
    assert_eq!(s.n_layers, 40);
    assert_eq!(s.n_head_kv, 8);
    assert_eq!(s.head_dim_k, 128);
    assert_eq!(s.head_dim_v, 128);
    assert_eq!(s.file_size, 7);
    assert!(notes.len() > 1);
    assert_eq!(notes[0], "first");
}

#[test]
fn a_stated_header_is_taken_as_it_is() {
    let mut md = header();
    md.block_count = Some(40);
    md.head_count = Some(40);
    md.head_count_kv = Some(8);
    md.embedding_length = Some(5120);
    md.context_length = Some(32768);
    let mut notes = Vec::new();
    let s = shape_from_metadata(&md, 9_000_000_000, &mut notes).unwrap();
    assert_eq!(s.head_dim_k, 128);
    assert_eq!(s.native_ctx, 32768);
    assert!(notes.is_empty(), "{notes:?}");
}

#[test]
fn absurd_shapes_are_told_apart() {
    let s = shape_7b();
    assert!(is_countable(&s, 8192, KvType::F16));
    assert!(is_estimable(&s, KvType::F16));
    assert!(is_advice_countable(&s, Some("Q4_K_M"), None, KvType::F16));
    let mut huge = s;
    huge.file_size = u64::MAX;
    assert!(!is_countable(&huge, 8192, KvType::F16));
    assert!(!is_estimable(&huge, KvType::F16));
    let mut wide = s;
    wide.head_dim_k = u64::MAX;
    assert!(!is_countable(&wide, 1, KvType::F16));
}
