use tokamak::estimator::{KvType, PairVerdict};
use tokamak::gguf::GgufMetadata;
use tokamak::scanner::ModelEntry;
use tokamak::speculative::{
    active_params, check_draft, is_ranking_countable, rank_drafts, total_params, DraftEconomics,
    DraftVerdict, PairContext, MARGINAL_MAX_RATIO, MAX_VOCAB_SIZE_DIFFERENCE, RECOMMEND_MAX_RATIO,
};

/// A metadata block with a complete, self-consistent tokenizer identity.
fn meta(vocab_type: &str, vocab_size: u64) -> GgufMetadata {
    GgufMetadata {
        version: 3,
        tensor_count: 0,
        metadata_kv_count: 0,
        architecture: Some("qwen3".into()),
        name: None,
        quant_label: None,
        file_type: None,
        context_length: None,
        block_count: None,
        embedding_length: None,
        head_count: None,
        head_count_kv: None,
        key_length: None,
        value_length: None,
        parameter_count: None,
        size_label: None,
        split_count: None,
        split_no: None,
        expert_count: None,
        expert_used_count: None,
        has_norm_epsilon: true,
        vocab_type: Some(vocab_type.into()),
        vocab_size: Some(vocab_size),
        bos_token_id: Some(151643),
        eos_token_id: Some(151645),
        add_bos_token: Some(false),
        add_eos_token: Some(false),
    }
}

#[test]
fn identical_tokenizers_are_compatible() {
    let t = meta("gpt2", 151936);
    let d = meta("gpt2", 151936);
    assert_eq!(check_draft(&t, &d), DraftVerdict::Compatible);
}

#[test]
fn small_vocab_difference_is_tolerated() {
    // Same family, a handful of padding tokens apart. llama.cpp allows
    // this, so rejecting it would cost the user a working pair.
    let t = meta("gpt2", 151936);
    let d = meta("gpt2", 151936 - 64);
    assert_eq!(check_draft(&t, &d), DraftVerdict::Compatible);
    // Tolerance is inclusive at the boundary.
    let edge = meta("gpt2", 151936 - MAX_VOCAB_SIZE_DIFFERENCE);
    assert_eq!(check_draft(&t, &edge), DraftVerdict::Compatible);
}

#[test]
fn large_vocab_difference_is_rejected() {
    let t = meta("gpt2", 151936);
    let d = meta("gpt2", 32000);
    match check_draft(&t, &d) {
        DraftVerdict::Incompatible { reasons } => {
            assert!(reasons.iter().any(|r| r.contains("vocab size differs")));
        }
        other => panic!("expected incompatible, got {other:?}"),
    }
}

#[test]
fn vocab_type_mismatch_is_rejected() {
    let t = meta("gpt2", 32000);
    let d = meta("llama", 32000);
    assert!(matches!(check_draft(&t, &d), DraftVerdict::Incompatible { .. }));
}

#[test]
fn special_token_mismatch_is_rejected() {
    let t = meta("gpt2", 151936);
    let mut d = meta("gpt2", 151936);
    d.eos_token_id = Some(2);
    match check_draft(&t, &d) {
        DraftVerdict::Incompatible { reasons } => {
            assert!(reasons.iter().any(|r| r.contains("EOS token id differs")));
        }
        other => panic!("expected incompatible, got {other:?}"),
    }
}

#[test]
fn add_flags_must_agree_when_both_present() {
    let t = meta("gpt2", 151936);
    let mut d = meta("gpt2", 151936);
    d.add_bos_token = Some(true);
    assert!(matches!(check_draft(&t, &d), DraftVerdict::Incompatible { .. }));
}

#[test]
fn absent_add_flags_on_both_sides_still_agree() {
    // llama.cpp derives a default from the vocab type, so two files that
    // both omit the key do not disagree.
    let mut t = meta("gpt2", 151936);
    let mut d = meta("gpt2", 151936);
    t.add_bos_token = None;
    d.add_bos_token = None;
    assert_eq!(check_draft(&t, &d), DraftVerdict::Compatible);
}

#[test]
fn missing_metadata_is_unverifiable_not_compatible() {
    let t = meta("gpt2", 151936);
    let mut d = meta("gpt2", 151936);
    d.vocab_size = None;
    match check_draft(&t, &d) {
        DraftVerdict::Unverifiable { reasons } => {
            assert!(reasons.iter().any(|r| r.contains("vocab size")));
        }
        other => panic!("expected unverifiable, got {other:?}"),
    }
}

fn entry(path: &str, size: u64, meta: Option<GgufMetadata>) -> ModelEntry {
    ModelEntry {
        path: path.into(),
        file_name: path.into(),
        size_bytes: size,
        source: "folder".into(),
        display_name: None,
        is_shard_continuation: false,
        shard_total: None,
        is_mmproj: false,
        metadata: meta,
        parse_error: None,
        load_blocker: None,
    }
}

/// Same tokenizer as `meta`, with a parameter count so economics apply.
fn dense(params: u64) -> GgufMetadata {
    let mut m = meta("gpt2", 151936);
    m.parameter_count = Some(params);
    m
}

/// A mixture-of-experts model: `used` of `total` experts run per token.
fn moe(params: u64, used: u64, total: u64) -> GgufMetadata {
    let mut m = dense(params);
    m.expert_used_count = Some(used);
    m.expert_count = Some(total);
    m
}

#[test]
fn active_params_discounts_unused_experts() {
    assert_eq!(active_params(&dense(14_000_000_000), 0), Some(14_000_000_000));
    // 8 of 256 experts => ~3% of the parameters run per token.
    let a = active_params(&moe(35_000_000_000, 8, 256), 0).unwrap();
    assert!(
        (1_000_000_000..=1_200_000_000).contains(&a),
        "expected ~1.09B active, got {a}"
    );
}

/// `general.parameter_count` is absent from most real GGUFs, so the size
/// derivation is the path that actually runs. Pinned against a real file:
/// Qwen3.6-27B Q4_K_M measures 15.41 GiB on disk.
#[test]
fn parameter_count_is_derived_from_file_size_when_absent() {
    let mut m = meta("gpt2", 248320);
    m.parameter_count = None;
    m.quant_label = Some("Q4_K_M".into());
    let bytes = (15.41 * 1024.0 * 1024.0 * 1024.0) as u64;
    let p = total_params(&m, bytes).expect("derivable from size + quant");
    assert!(
        (25_000_000_000..=28_000_000_000).contains(&p),
        "expected ~26-27B for a 15.41GiB Q4_K_M file, got {p}"
    );
}

#[test]
fn a_stated_parameter_count_wins_over_the_derivation() {
    let mut m = meta("gpt2", 151936);
    m.parameter_count = Some(14_000_000_000);
    m.quant_label = Some("Q4_K_M".into());
    assert_eq!(total_params(&m, 999_999_999), Some(14_000_000_000));
}

#[test]
fn params_are_unknown_without_a_count_or_a_quant_label() {
    let mut m = meta("gpt2", 151936);
    m.parameter_count = None;
    m.quant_label = None;
    assert_eq!(total_params(&m, 5_000_000_000), None);
}

#[test]
fn ranking_puts_cheapest_compatible_draft_first() {
    let target = dense(14_000_000_000);
    let models = vec![
        entry("incompatible.gguf", 1_000, Some(meta("llama", 32000))),
        entry("mid.gguf", 9_000, Some(dense(4_000_000_000))),
        entry("tiny.gguf", 2_000, Some(dense(600_000_000))),
    ];
    let ranked = rank_drafts("target.gguf", &target, 30_000, &models, None);
    assert_eq!(ranked[0].path, "tiny.gguf");
    assert_eq!(ranked[0].economics, DraftEconomics::Recommended);
    assert_eq!(ranked[1].path, "mid.gguf");
    // 4B against 14B is 29% — cheaper, but not by enough to promise.
    assert_eq!(ranked[1].economics, DraftEconomics::Marginal);
    // The incompatible one is still listed: the user should see *why* it
    // is unavailable rather than have it silently vanish.
    assert_eq!(ranked[2].path, "incompatible.gguf");
    assert!(matches!(ranked[2].verdict, DraftVerdict::Incompatible { .. }));
}

/// The case that a file-size comparison gets catastrophically wrong: a
/// dense 27B "draft" is smaller than a 35B MoE file, but runs ~25x the parameters
/// per token.
#[test]
fn dense_draft_for_an_moe_target_is_counterproductive() {
    let target = moe(35_000_000_000, 8, 256); // ~1.1B active
    let models = vec![entry("dense-27b.gguf", 15_000, Some(dense(27_000_000_000)))];
    let ranked = rank_drafts("target.gguf", &target, 30_000, &models, None);
    assert_eq!(ranked[0].economics, DraftEconomics::Counterproductive);
    assert!(ranked[0].size_bytes < 30_000, "the file really is smaller");
}

/// Cheap to run is not the same as affordable to load, and both models are
/// resident at once.
#[test]
fn a_draft_larger_than_its_target_is_never_recommended() {
    let target = dense(27_000_000_000);
    let models = vec![entry("sparse-but-huge.gguf", 40_000, Some(moe(35_000_000_000, 8, 256)))];
    let ranked = rank_drafts("target.gguf", &target, 30_000, &models, None);
    // ~1.1B active against 27B is 4% — cheap by compute alone.
    assert!(f64::from_bits(ranked[0].cost_ratio.unwrap().bits) < f64::from_bits(RECOMMEND_MAX_RATIO));
    assert_eq!(ranked[0].economics, DraftEconomics::Marginal);
}

/// A draft can be cheap per token and still be the wrong call: if loading
/// it pushes target layers onto the CPU, every token the target produces
/// gets slower.
#[test]
fn a_draft_that_evicts_target_layers_is_demoted_once_vram_is_known() {
    let mut target = dense(14_000_000_000);
    target.block_count = Some(40);
    target.head_count = Some(40);
    target.head_count_kv = Some(8);
    target.embedding_length = Some(5120);
    target.context_length = Some(32768);
    let mut draft_md = dense(600_000_000);
    draft_md.block_count = Some(28);
    draft_md.head_count = Some(16);
    draft_md.head_count_kv = Some(8);
    draft_md.embedding_length = Some(2048);
    draft_md.context_length = Some(32768);

    let models = vec![entry("draft.gguf", 500_000_000, Some(draft_md))];

    // On a roomy card the draft is free and stays recommended.
    let roomy = rank_drafts(
        "target.gguf",
        &target,
        9_000_000_000,
        &models,
        Some(PairContext {
            gpu_total_bytes: 24 * 1024 * 1024 * 1024,
            ctx: 8192,
            kv: KvType::F16,
        }),
    );
    assert_eq!(roomy[0].economics, DraftEconomics::Recommended);
    assert_eq!(roomy[0].pair.as_ref().unwrap().verdict, PairVerdict::Fits);

    // On a card where the target only just fits, the same draft is a loss.
    let tight = rank_drafts(
        "target.gguf",
        &target,
        9_000_000_000,
        &models,
        Some(PairContext {
            gpu_total_bytes: 10 * 1024 * 1024 * 1024,
            ctx: 8192,
            kv: KvType::F16,
        }),
    );
    let p = tight[0].pair.as_ref().unwrap();
    assert!(p.target_layers_evicted > 0, "expected evicted layers");
    assert_eq!(tight[0].economics, DraftEconomics::Counterproductive);
    // The compute argument is unchanged — only the VRAM reality differs.
    assert!(f64::from_bits(tight[0].cost_ratio.unwrap().bits) < f64::from_bits(RECOMMEND_MAX_RATIO));
}

#[test]
fn missing_parameter_counts_leave_economics_unknown() {
    let target = meta("gpt2", 151936); // no parameter_count
    let models = vec![entry("x.gguf", 500, Some(dense(600_000_000)))];
    let ranked = rank_drafts("target.gguf", &target, 30_000, &models, None);
    assert_eq!(ranked[0].economics, DraftEconomics::Unknown);
    assert_eq!(ranked[0].cost_ratio, None);
}

#[test]
fn target_shards_and_projectors_are_not_offered() {
    let target = dense(14_000_000_000);
    let mut shard = entry("shard-2.gguf", 100, Some(dense(600_000_000)));
    shard.is_shard_continuation = true;
    let mut proj = entry("mmproj.gguf", 100, Some(dense(600_000_000)));
    proj.is_mmproj = true;
    let models = vec![
        entry("target.gguf", 30_000, Some(dense(14_000_000_000))),
        shard,
        proj,
        entry("ok.gguf", 500, Some(dense(600_000_000))),
    ];
    let ranked = rank_drafts("target.gguf", &target, 30_000, &models, None);
    assert_eq!(ranked.len(), 1);
    assert_eq!(ranked[0].path, "ok.gguf");
}

/// A model stock llama.cpp refuses to load is not a draft candidate,
/// however compatible its tokenizer looks.
#[test]
fn models_the_runtime_rejects_are_not_offered() {
    let target = dense(14_000_000_000);
    let mut blocked = entry("unloadable.gguf", 500, Some(dense(600_000_000)));
    blocked.load_blocker = Some("missing gemma3.attention.layer_norm_rms_epsilon".into());
    let models = vec![blocked, entry("fine.gguf", 500, Some(dense(600_000_000)))];
    let ranked = rank_drafts("target.gguf", &target, 30_000, &models, None);
    assert_eq!(ranked.len(), 1);
    assert_eq!(ranked[0].path, "fine.gguf");
}

#[test]
fn unparsed_models_are_skipped_entirely() {
    let target = dense(14_000_000_000);
    let models = vec![entry("broken.gguf", 500, None)];
    assert!(rank_drafts("target.gguf", &target, 30_000, &models, None).is_empty());
}

#[test]
fn definite_mismatch_outranks_missing_metadata() {
    // A pair that is already disqualified should not be softened to
    // "unverifiable" just because some other key happens to be absent.
    let t = meta("gpt2", 151936);
    let mut d = meta("llama", 151936);
    d.bos_token_id = None;
    assert!(matches!(check_draft(&t, &d), DraftVerdict::Incompatible { .. }));
}

// Exact values.

#[test]
fn a_vocab_one_beyond_the_tolerance_is_rejected() {
    let t = meta("gpt2", 151936);
    let d = meta("gpt2", 151936 - MAX_VOCAB_SIZE_DIFFERENCE - 1);
    assert!(matches!(check_draft(&t, &d), DraftVerdict::Incompatible { .. }));
    assert!(matches!(check_draft(&d, &t), DraftVerdict::Incompatible { .. }));
}

#[test]
fn ratios_and_experts_are_computed_exactly() {
    assert_eq!(f64::from_bits(RECOMMEND_MAX_RATIO), 0.20);
    assert_eq!(f64::from_bits(MARGINAL_MAX_RATIO), 0.60);
    let models = vec![entry("half.gguf", 2_000, Some(dense(7_000_000_000)))];
    let ranked = rank_drafts("t", &dense(14_000_000_000), 30_000, &models, None);
    assert_eq!(f64::from_bits(ranked[0].cost_ratio.unwrap().bits), 0.5);
    assert_eq!(ranked[0].economics, DraftEconomics::Marginal);
    assert_eq!(active_params(&moe(35_000_000_000, 8, 256), 0), Some(1_093_750_000));
}

#[test]
fn a_draft_without_a_discount_is_counterproductive() {
    let models = vec![entry("near.gguf", 2_000, Some(dense(13_000_000_000)))];
    let ranked = rank_drafts("t", &dense(14_000_000_000), 30_000, &models, None);
    assert_eq!(ranked[0].economics, DraftEconomics::Counterproductive);
    assert_eq!(ranked[0].label, "near.gguf");
}

#[test]
fn a_ranking_of_ordinary_sizes_is_countable() {
    let models = vec![entry("draft.gguf", 2_000, Some(dense(600_000_000)))];
    let cx = PairContext { gpu_total_bytes: 10_000_000_000, ctx: 8192, kv: KvType::Q8_0 };
    assert!(is_ranking_countable("t", &dense(14_000_000_000), 30_000, &models, None));
    assert!(is_ranking_countable("t", &dense(14_000_000_000), 30_000, &models, Some(cx)));
    let mut target = dense(14_000_000_000);
    target.block_count = Some(40);
    let mut draft = dense(600_000_000);
    draft.block_count = Some(28);
    let huge = vec![entry("draft.gguf", u64::MAX, Some(draft))];
    assert!(!is_ranking_countable("t", &target, u64::MAX, &huge, Some(cx)));
}
