use tokamak::benchmark::{
    after_generation, after_launch, after_poll, bench_server, best_decode, check_rows,
    completion_body, completion_url, measurement, merge_speculative, parse_draft_stats,
    parse_timings, report, report_name, row_numbers, BenchConfig, BenchResult, BenchStep, Measured,
    ReportRow, RowTexts, SpecResult, Suite, GIB, HUNDRED, THOUSAND,
};
use tokamak::binary64::Binary64;
use tokamak::json::parse_json;
use tokamak::llama::ServerStatus;

fn num(x: f64) -> Binary64 {
    Binary64 { bits: x.to_bits() }
}

fn float(x: Binary64) -> f64 {
    f64::from_bits(x.bits)
}

#[test]
fn parses_completion_timings() {
    // 40 prompt tokens in 100 ms => 400 tok/s; 96 predicted in 500 ms => 192 tok/s.
    let body = r#"{"content":"...","timings":{"prompt_n":40,"prompt_ms":100.0,"predicted_n":96,"predicted_ms":500.0}}"#;
    let (prefill, decode) = parse_timings(body).unwrap();
    assert_eq!(float(prefill), 400.0);
    assert_eq!(float(decode), 192.0);
}

fn result(decode: f64, loaded: bool) -> BenchResult {
    BenchResult {
        n_gpu_layers: 99,
        ctx_size: 4096,
        loaded,
        load_ms: 1000,
        prefill_tok_s: num(500.0),
        decode_tok_s: num(decode),
        peak_vram_bytes: 8_000_000_000,
        speculative: None,
        error: None,
    }
}

#[test]
fn reads_draft_stats_from_timings() {
    let body = r#"{"content":"x","timings":{"predicted_n":96,"predicted_ms":500.0,
                      "draft_n":120,"draft_n_accepted":78}}"#;
    assert_eq!(parse_draft_stats(body), Some((120, 78)));
}

/// The counters have moved between llama.cpp releases, so the top level is
/// checked too. Reading neither would report a 0% accept rate, which is
/// indistinguishable from a genuinely useless draft.
#[test]
fn reads_draft_stats_from_the_top_level_too() {
    let body = r#"{"draft_n":50,"draft_n_accepted":25,"timings":{"predicted_n":96}}"#;
    assert_eq!(parse_draft_stats(body), Some((50, 25)));
}

#[test]
fn absent_draft_stats_are_none_not_zero() {
    let body = r#"{"timings":{"predicted_n":96,"predicted_ms":500.0}}"#;
    assert_eq!(parse_draft_stats(body), None);
}

fn stats(draft_n: u64, draft_n_accepted: u64, decode: f64) -> SpecResult {
    SpecResult {
        draft_n,
        draft_n_accepted,
        accept_rate: num(0.0),
        baseline_decode_tok_s: num(0.0),
        decode_tok_s: num(decode),
        speedup: num(0.0),
    }
}

#[test]
fn merge_reports_accept_rate_and_speedup() {
    let baseline = result(40.0, true);
    let mut spec = result(68.0, true);
    spec.speculative = Some(stats(200, 150, 68.0));
    let merged = merge_speculative(baseline, spec);
    let s = merged.speculative.expect("speculative result");
    assert_eq!(float(s.accept_rate), 0.75);
    assert_eq!(float(s.baseline_decode_tok_s), 40.0);
    assert_eq!(float(s.speedup), 1.7);
    // The headline numbers become the speculative ones, since that is the
    // configuration being proposed.
    assert_eq!(float(merged.decode_tok_s), 68.0);
}

/// A draft that makes things slower is a real outcome and must be visible,
/// not rounded away into "no difference".
#[test]
fn a_slower_draft_reports_a_speedup_below_one() {
    let baseline = result(50.0, true);
    let mut spec = result(35.0, true);
    spec.speculative = Some(stats(200, 20, 35.0));
    let s = merge_speculative(baseline, spec).speculative.unwrap();
    assert_eq!(float(s.accept_rate), 0.1);
    assert!(float(s.speedup) < 1.0, "got {}", float(s.speedup));
}

/// If the speculative half never loaded, the baseline is kept and the error
/// surfaced. Reporting a bare baseline would read as "speculation changed nothing".
#[test]
fn a_failed_speculative_half_keeps_the_error() {
    let baseline = result(40.0, true);
    let mut failed = result(0.0, false);
    failed.error = Some("draft model vocab must match target model".into());
    let merged = merge_speculative(baseline, failed);
    assert!(merged.speculative.is_none());
    assert_eq!(float(merged.decode_tok_s), 40.0);
    assert!(merged.error.unwrap().contains("vocab must match"));
}

#[test]
fn a_zero_baseline_does_not_produce_infinite_speedup() {
    let baseline = result(0.0, true);
    let mut spec = result(30.0, true);
    spec.speculative = Some(stats(10, 5, 30.0));
    let s = merge_speculative(baseline, spec).speculative.unwrap();
    assert_eq!(float(s.speedup), 0.0);
    assert!(float(s.speedup).is_finite());
}

#[test]
fn timings_zero_ms_is_safe() {
    let body = r#"{"timings":{"prompt_n":5,"prompt_ms":0.0,"predicted_n":0,"predicted_ms":0.0}}"#;
    assert_eq!(parse_timings(body).map(|(a, b)| (float(a), float(b))), Some((0.0, 0.0)));
}

#[test]
fn timings_missing_is_none() {
    assert!(parse_timings(r#"{"content":"x"}"#).is_none());
}

fn with_stats(decode: f64) -> BenchResult {
    BenchResult { speculative: Some(stats(0, 0, decode)), ..result(decode, true) }
}

#[test]
fn the_smallest_loss_is_still_a_loss() {
    let slower = f64::from_bits(50.0f64.to_bits() - 1);
    let s = merge_speculative(result(50.0, true), with_stats(slower)).speculative.unwrap();
    assert!(float(s.speedup) < 1.0);
    let s = merge_speculative(result(50.0, true), with_stats(50.0)).speculative.unwrap();
    assert_eq!(float(s.speedup), 1.0);
    assert_eq!(float(s.accept_rate), 0.0);
    assert_eq!(s.draft_n, 0);
}

/// A pair that counted no drafts is broken, and must not read as a draft that made
/// no difference.
#[test]
fn a_half_without_draft_statistics_gives_the_baseline() {
    let mut silent = result(60.0, true);
    silent.load_ms = 7;
    silent.prefill_tok_s = num(1.0);
    silent.peak_vram_bytes = 1;
    let merged = merge_speculative(result(50.0, true), silent.clone());
    assert!(merged.speculative.is_none() && merged.error.is_none() && merged.loaded);
    assert_eq!(float(merged.decode_tok_s), 50.0);
    assert_eq!(float(merged.prefill_tok_s), 500.0);
    assert_eq!((merged.load_ms, merged.peak_vram_bytes), (1000, 8_000_000_000));
    let mut baseline = result(50.0, true);
    baseline.error = Some("first".to_string());
    assert_eq!(merge_speculative(baseline.clone(), silent.clone()).error.as_deref(), Some("first"));
    silent.error = Some("second".to_string());
    assert_eq!(merge_speculative(baseline, silent).error.as_deref(), Some("second"));
}

#[test]
fn the_accept_rate_is_a_share() {
    let mut all = result(60.0, true);
    all.speculative = Some(stats(7, 7, 60.0));
    let s = merge_speculative(result(50.0, true), all).speculative.unwrap();
    assert_eq!(float(s.accept_rate), 1.0);
    let mut some = result(60.0, true);
    some.speculative = Some(stats(u64::MAX, u64::MAX - 1, 60.0));
    let s = merge_speculative(result(50.0, true), some).speculative.unwrap();
    assert!(float(s.accept_rate) <= 1.0);
}

fn config(draft: Option<&str>) -> BenchConfig {
    BenchConfig {
        n_gpu_layers: 12,
        ctx_size: 4096,
        draft_model_path: draft.map(str::to_string),
        draft_n_max: Some(4),
    }
}

#[test]
fn a_candidate_gets_a_server_of_its_own() {
    let c = bench_server("m.gguf", &config(None), None);
    assert_eq!((c.port, c.n_gpu_layers, c.ctx_size), (8139, Some(12), Some(4096)));
    assert_eq!((c.draft_model_path, c.draft_n_gpu_layers), (None, None));
    let d = bench_server("m.gguf", &config(Some("d.gguf")), Some("d.gguf"));
    assert_eq!(d.draft_model_path.as_deref(), Some("d.gguf"));
    assert_eq!((d.draft_n_gpu_layers, d.draft_n_max), (Some(999), Some(4)));
    assert_eq!(completion_url(8139), "http://127.0.0.1:8139/completion");
    let body = parse_json(&completion_body()).unwrap();
    assert_eq!(tokamak::json::as_whole(tokamak::json::get(Some(&body), "n_predict")), Some(96));
}

fn status(health: &str, error: Option<&str>) -> ServerStatus {
    let mut s = ServerStatus::stopped();
    s.health = health.to_string();
    s.error = error.map(str::to_string);
    s
}

fn error_of(s: BenchStep) -> (bool, Option<String>) {
    match s {
        BenchStep::Fail { stop, result } => {
            assert!(!result.loaded);
            (stop, result.error)
        }
        other => panic!("got {other:?}"),
    }
}

#[test]
fn a_run_waits_until_its_server_is_healthy() {
    let cfg = config(None);
    assert!(matches!(after_launch(&cfg, Ok(())), BenchStep::Wait));
    assert_eq!(
        error_of(after_launch(&cfg, Err("no binary".to_string()))),
        (false, Some("no binary".to_string()))
    );
    assert!(matches!(after_poll(&cfg, true, &status("loading", None)), BenchStep::Wait));
    assert!(matches!(after_poll(&cfg, true, &status("ok", None)), BenchStep::Generate));
    assert_eq!(
        error_of(after_poll(&cfg, true, &status("error", Some("died")))),
        (true, Some("died".to_string()))
    );
    assert_eq!(
        error_of(after_poll(&cfg, false, &status("loading", None))),
        (true, Some("did not become healthy in time".to_string()))
    );
}

#[test]
fn a_run_is_measured_from_its_reply() {
    let body = r#"{"timings":{"prompt_n":40,"prompt_ms":100.0,"predicted_n":96,
        "predicted_ms":500.0,"draft_n":4,"draft_n_accepted":3}}"#;
    let m = Measured { load_ms: 7, peak_vram_bytes: 9, with_draft: true };
    let r = after_generation(&config(Some("d")), &m, Some(body));
    assert!(r.loaded && r.error.is_none());
    assert_eq!((r.load_ms, r.peak_vram_bytes), (7, 9));
    assert_eq!(float(r.decode_tok_s), 192.0);
    assert_eq!(r.speculative.map(|s| (s.draft_n, s.draft_n_accepted)), Some((4, 3)));
    let plain = Measured { with_draft: false, ..m };
    assert!(after_generation(&config(None), &plain, Some(body)).speculative.is_none());
    let none = after_generation(&config(None), &plain, None);
    assert_eq!(none.error.as_deref(), Some("generation request failed"));
    assert_eq!(float(none.decode_tok_s), 0.0);
    assert!(measurement(&config(None), &plain, true, None).error.is_none());
}

#[test]
fn a_candidate_with_a_draft_is_run_twice() {
    let configs = vec![config(None), config(Some("d")), config(Some("d"))];
    let mut suite = Suite::new();
    let job = suite.next(&configs).unwrap();
    assert_eq!((job.config, job.draft), (0, None));
    assert!(suite.take(&configs, result(40.0, true)));
    let job = suite.next(&configs).unwrap();
    assert_eq!((job.config, job.draft), (1, None));
    assert!(!suite.take(&configs, result(40.0, true)));
    let job = suite.next(&configs).unwrap();
    assert_eq!((job.config, job.draft.as_deref()), (1, Some("d")));
    assert!(suite.take(&configs, with_stats(60.0)));
    assert_eq!(float(suite.results[1].speculative.unwrap().speedup), 1.5);
    // a candidate that did not load is not run again
    assert!(suite.take(&configs, result(0.0, false)));
    assert!(suite.next(&configs).is_none());
    assert_eq!(suite.results.len(), 3);
}

#[test]
fn every_candidate_is_run() {
    let configs: Vec<BenchConfig> = (0..9)
        .map(|i| BenchConfig { n_gpu_layers: i, ctx_size: 100 + i, ..BenchConfig::default() })
        .collect();
    let mut suite = Suite::new();
    let mut complete = 0;
    while let Some(job) = suite.next(&configs) {
        assert_eq!(job.config, complete);
        let failed = BenchResult::failed(&configs[job.config], "no".to_string());
        assert!(suite.take(&configs, failed));
        complete += 1;
    }
    assert_eq!(complete, 9);
    let layers: Vec<u32> = suite.results.iter().map(|r| r.n_gpu_layers).collect();
    assert_eq!(layers, [0, 1, 2, 3, 4, 5, 6, 7, 8]);
    assert_eq!(suite.results[8].ctx_size, 108);
}

fn row(model: &str, quant: Option<&str>, decode: f64) -> ReportRow {
    ReportRow {
        model: model.to_string(),
        quant: quant.map(str::to_string),
        n_gpu_layers: 32,
        ctx_size: 4096,
        load_ms: 1500,
        prefill_tok_s: num(500.0),
        decode_tok_s: num(decode),
        peak_vram_bytes: 3 * 1024 * 1024 * 1024,
    }
}

#[test]
fn a_report_compares_with_the_best() {
    assert_eq!(f64::from_bits(HUNDRED), 100.0);
    assert_eq!(f64::from_bits(THOUSAND), 1000.0);
    assert_eq!(f64::from_bits(GIB), 1024.0 * 1024.0 * 1024.0);
    let rows = vec![row("a", Some("Q4_K_M"), 20.0), row("b", None, 40.0), row("c", None, f64::NAN)];
    let best = best_decode(&rows);
    assert_eq!(float(best), 40.0);
    let n = row_numbers(&rows[0], best);
    assert_eq!(n.relative.map(float), Some(50.0));
    assert_eq!(float(n.load_secs), 1.5);
    assert_eq!(float(n.peak_gib), 3.0);
    assert!(row_numbers(&rows[0], num(0.0)).relative.is_none());
    assert_eq!(float(best_decode(&vec![])), 0.0);
}

#[test]
fn a_report_is_a_table() {
    let rows = vec![row("a", Some("Q4_K_M"), 20.0), row("b", None, 0.0)];
    let cells = |relative: Option<&str>| RowTexts {
        load_secs: "1.5".to_string(),
        prefill_tok_s: "500".to_string(),
        decode_tok_s: "20.0".to_string(),
        peak_gib: "3.00".to_string(),
        relative: relative.map(str::to_string),
    };
    let md = report("RTX", &rows, &vec![cells(Some("100")), cells(None)]);
    assert!(md.starts_with("# Tokamak benchmark report\n\nGPU: **RTX**  \n"));
    assert!(md.contains("\n| a | Q4_K_M | 32 | 4096 | 1.5s | 500 | **20.0** | 3.00 GB | 100% |\n"));
    assert!(md.ends_with("\n| b | ? | 32 | 4096 | 1.5s | 500 | **20.0** | 3.00 GB | — |\n\n"));
    assert_eq!(check_rows(&vec![]), Err("no benchmark rows to export".to_string()));
    assert_eq!(check_rows(&rows), Ok(()));
    assert_eq!(report_name(17), "bench-report-17.md");
}
