//! Measured benchmarks.
//!
//! Every candidate is launched for real on a port of its own, loads the model and
//! generates a fixed number of tokens. What is decided here is what to launch, how
//! to go on after each observation, and what the measured numbers say.

use crate::binary64::{
    at_most, below, is_finite, is_nan, law_quotient_tells_which_is_less, lemma_ratio_of_whole,
    lemma_whole_monotone, lemma_whole_range, magnitude, negative, of_whole, over, signed, times,
    Binary64, ONE,
};
use crate::json::{
    as_float, as_whole, document, field, field_of, float_of, get, opt_tree, parse_json, whole_of,
    Json, JsonView,
};
use crate::llama::{local_url, LlamaServerConfig, ServerStatus};
use crate::text::{
    clone_opt, decimal, lemma_decimal_injective, number, opt_str_view, opt_view, same,
};
use vstd::prelude::*;

verus! {

/// The port of benchmark servers, which is not the user's.
pub const BENCH_PORT: u16 = 8139;

/// How many tokens every candidate generates.
pub const N_PREDICT: u64 = 96;

/// How many seconds a server may take to become healthy.
pub const HEALTH_TIMEOUT_SECS: u64 = 90;

/// The prompt, long enough to give prefill measurable work.
pub const BENCH_PROMPT: &'static str =
    "The quick brown fox jumps over the lazy dog. Sphinx of black quartz, judge my vow. Pack my box with five dozen liquor jugs. How razorback jumping frogs can level six piqued gymnasts. Summarize the above.";

/// The encoding of 100.
pub const HUNDRED: u64 = 0x4059_0000_0000_0000;

/// The encoding of 1000.
pub const THOUSAND: u64 = 0x408f_4000_0000_0000;

/// The encoding of 2^30, the bytes of a GiB.
pub const GIB: u64 = 0x41d0_0000_0000_0000;

/// A candidate.
#[derive(Debug, Clone)]
pub struct BenchConfig {
    pub n_gpu_layers: u32,
    pub ctx_size: u32,
    /// Draft model for speculative decoding. With one, the candidate is run
    /// twice, without it and with it.
    pub draft_model_path: Option<String>,
    /// Tokens to draft per step.
    pub draft_n_max: Option<u32>,
}

impl Default for BenchConfig {
    fn default() -> (c: Self)
        ensures
            c.n_gpu_layers == 0,
            c.ctx_size == 0,
            c.draft_model_path is None,
            c.draft_n_max is None,
    {
        BenchConfig { n_gpu_layers: 0, ctx_size: 0, draft_model_path: None, draft_n_max: None }
    }
}

/// What speculative decoding bought.
#[derive(Debug, Clone, Copy)]
pub struct SpecResult {
    /// Tokens that the draft model proposed.
    pub draft_n: u64,
    /// Those of them that the target accepted.
    pub draft_n_accepted: u64,
    /// The share of accepted tokens.
    pub accept_rate: Binary64,
    /// Decode speed without the draft.
    pub baseline_decode_tok_s: Binary64,
    /// Decode speed with it.
    pub decode_tok_s: Binary64,
    /// The second speed over the first.
    pub speedup: Binary64,
}

/// The row of one candidate.
#[derive(Debug, Clone)]
pub struct BenchResult {
    pub n_gpu_layers: u32,
    pub ctx_size: u32,
    pub loaded: bool,
    pub load_ms: u64,
    pub prefill_tok_s: Binary64,
    pub decode_tok_s: Binary64,
    pub peak_vram_bytes: u64,
    /// Present where the candidate names a draft model.
    pub speculative: Option<SpecResult>,
    pub error: Option<String>,
}

/// Zero.
pub open spec fn zero() -> Binary64 {
    signed(false, 0)
}

/// The row of a candidate that failed.
pub open spec fn failure(cfg: BenchConfig, error: String) -> BenchResult {
    BenchResult {
        n_gpu_layers: cfg.n_gpu_layers,
        ctx_size: cfg.ctx_size,
        loaded: false,
        load_ms: 0,
        prefill_tok_s: zero(),
        decode_tok_s: zero(),
        peak_vram_bytes: 0,
        speculative: None,
        error: Some(error),
    }
}

impl BenchResult {
    /// The row of a candidate that failed.
    pub fn failed(cfg: &BenchConfig, error: String) -> (r: BenchResult)
        ensures
            r == failure(*cfg, error),
    {
        BenchResult {
            n_gpu_layers: cfg.n_gpu_layers,
            ctx_size: cfg.ctx_size,
            loaded: false,
            load_ms: 0,
            prefill_tok_s: Binary64::zero(),
            decode_tok_s: Binary64::zero(),
            peak_vram_bytes: 0,
            speculative: None,
            error: Some(error),
        }
    }
}

// ---------------------------------------------------------------------------
// Merging the two runs of a candidate
// ---------------------------------------------------------------------------

/// The share of accepted tokens; none of none is 0.
pub open spec fn share(accepted: u64, n: u64) -> Binary64 {
    if n > 0 {
        over(of_whole(accepted as nat), of_whole(n as nat))
    } else {
        zero()
    }
}

/// One speed over another, 0 where the other is not above 0.
pub open spec fn speedup_of(speed: Binary64, baseline: Binary64) -> Binary64 {
    if below(zero(), baseline) {
        over(speed, baseline)
    } else {
        zero()
    }
}

/// A run with a draft drafted: it loaded and counted what was drafted.
pub open spec fn drafted(spec_run: BenchResult) -> bool {
    spec_run.loaded && spec_run.speculative is Some
}

/// What a run that drafted says beside its baseline.
pub open spec fn compared(baseline: BenchResult, spec_run: BenchResult) -> SpecResult {
    let counted = spec_run.speculative->0;
    SpecResult {
        draft_n: counted.draft_n,
        draft_n_accepted: counted.draft_n_accepted,
        accept_rate: share(counted.draft_n_accepted, counted.draft_n),
        baseline_decode_tok_s: baseline.decode_tok_s,
        decode_tok_s: spec_run.decode_tok_s,
        speedup: speedup_of(spec_run.decode_tok_s, baseline.decode_tok_s),
    }
}

/// The row of a candidate that was run without and with its draft: that of the
/// run with the draft, with the comparison; where that run did not draft, the
/// baseline, with the error. A broken pair must not read as a draft that made no
/// difference.
pub open spec fn merged(baseline: BenchResult, spec_run: BenchResult) -> BenchResult {
    if drafted(spec_run) {
        BenchResult { speculative: Some(compared(baseline, spec_run)), ..spec_run }
    } else {
        BenchResult {
            error: match spec_run.error {
                Some(e) => Some(e),
                None => baseline.error,
            },
            ..baseline
        }
    }
}

/// Folds the run of a candidate with its draft into the run without it.
pub fn merge_speculative(baseline: BenchResult, spec_run: BenchResult) -> (r: BenchResult)
    ensures
        r == merged(baseline, spec_run),
{
    let counted: Option<SpecResult> = if spec_run.loaded {
        spec_run.speculative
    } else {
        None
    };
    let (draft_n, draft_n_accepted): (u64, u64) = match counted {
        Some(s) => (s.draft_n, s.draft_n_accepted),
        None => {
            let error = match spec_run.error {
                Some(e) => Some(e),
                None => baseline.error,
            };
            return BenchResult {
                n_gpu_layers: baseline.n_gpu_layers,
                ctx_size: baseline.ctx_size,
                loaded: baseline.loaded,
                load_ms: baseline.load_ms,
                prefill_tok_s: baseline.prefill_tok_s,
                decode_tok_s: baseline.decode_tok_s,
                peak_vram_bytes: baseline.peak_vram_bytes,
                speculative: baseline.speculative,
                error,
            };
        },
    };
    let speedup = if Binary64::zero().below(baseline.decode_tok_s) {
        spec_run.decode_tok_s.over(baseline.decode_tok_s)
    } else {
        Binary64::zero()
    };
    let accept_rate = if draft_n > 0 {
        Binary64::of(draft_n_accepted).over(Binary64::of(draft_n))
    } else {
        Binary64::zero()
    };
    BenchResult {
        n_gpu_layers: spec_run.n_gpu_layers,
        ctx_size: spec_run.ctx_size,
        loaded: spec_run.loaded,
        load_ms: spec_run.load_ms,
        prefill_tok_s: spec_run.prefill_tok_s,
        decode_tok_s: spec_run.decode_tok_s,
        peak_vram_bytes: spec_run.peak_vram_bytes,
        speculative: Some(
            SpecResult {
                draft_n,
                draft_n_accepted,
                accept_rate,
                baseline_decode_tok_s: baseline.decode_tok_s,
                decode_tok_s: spec_run.decode_tok_s,
                speedup,
            },
        ),
        error: spec_run.error,
    }
}

/// Where the run with the draft failed to load, or loaded and drafted nothing that
/// was counted, the row is the baseline in every number, it shows no comparison
/// that the baseline does not show, and it carries the error of that run, or else
/// the baseline's.
pub proof fn law_broken_half_keeps_the_baseline_and_the_error(
    baseline: BenchResult,
    spec_run: BenchResult,
)
    requires
        !spec_run.loaded || spec_run.speculative is None,
    ensures
        ({
            let r = merged(baseline, spec_run);
            &&& r.n_gpu_layers == baseline.n_gpu_layers
            &&& r.ctx_size == baseline.ctx_size
            &&& r.loaded == baseline.loaded
            &&& r.load_ms == baseline.load_ms
            &&& r.prefill_tok_s == baseline.prefill_tok_s
            &&& r.decode_tok_s == baseline.decode_tok_s
            &&& r.peak_vram_bytes == baseline.peak_vram_bytes
            &&& r.speculative == baseline.speculative
            &&& spec_run.error is Some ==> r.error == spec_run.error
            &&& spec_run.error is None ==> r.error == baseline.error
        }),
{
}

/// The row of a pair that drafted shows the numbers of the run with the draft, and
/// the baseline's speed in the comparison.
pub proof fn law_merged_row_shows_both_speeds(baseline: BenchResult, spec_run: BenchResult)
    requires
        spec_run.loaded,
        spec_run.speculative is Some,
    ensures
        ({
            let r = merged(baseline, spec_run);
            &&& r.decode_tok_s == spec_run.decode_tok_s
            &&& r.prefill_tok_s == spec_run.prefill_tok_s
            &&& r.peak_vram_bytes == spec_run.peak_vram_bytes
            &&& r.speculative is Some
            &&& (r.speculative->0).baseline_decode_tok_s == baseline.decode_tok_s
            &&& (r.speculative->0).decode_tok_s == spec_run.decode_tok_s
        }),
{
}

/// A baseline that measured no speed gives a speedup of 0, never an infinite one.
pub proof fn law_zero_baseline_gives_no_speedup(baseline: BenchResult, spec_run: BenchResult)
    requires
        spec_run.loaded,
        spec_run.speculative is Some,
        !below(zero(), baseline.decode_tok_s),
    ensures
        (merged(baseline, spec_run).speculative->0).speedup == zero(),
        is_finite((merged(baseline, spec_run).speculative->0).speedup),
{
}

/// A draft that made generation slower shows a speedup below 1, and only such a
/// draft does.
pub proof fn law_slower_draft_is_visible(baseline: BenchResult, spec_run: BenchResult)
    requires
        spec_run.loaded,
        spec_run.speculative is Some,
        is_finite(spec_run.decode_tok_s),
        !negative(spec_run.decode_tok_s),
        is_finite(baseline.decode_tok_s),
        below(zero(), baseline.decode_tok_s),
    ensures
        below((merged(baseline, spec_run).speculative->0).speedup, Binary64 { bits: ONE }) <==> below(
            spec_run.decode_tok_s,
            baseline.decode_tok_s,
        ),
{
    law_quotient_tells_which_is_less(spec_run.decode_tok_s, baseline.decode_tok_s);
}

/// The share of accepted tokens lies between 0 and 1, and is 1 where all were
/// accepted.
pub proof fn law_accept_rate_is_a_share(accepted: u64, n: u64)
    requires
        accepted <= n,
    ensures
        at_most(zero(), share(accepted, n)),
        at_most(share(accepted, n), Binary64 { bits: ONE }),
        accepted == n && n > 0 ==> share(accepted, n) == (Binary64 { bits: ONE }),
{
    if n > 0 {
        let x = of_whole(accepted as nat);
        let y = of_whole(n as nat);
        lemma_ratio_of_whole(accepted as nat, n as nat);
        lemma_whole_range(accepted as nat);
        lemma_whole_range(n as nat);
        lemma_whole_monotone(accepted as nat, n as nat);
        assert(is_finite(x) && is_finite(y) && !negative(x) && !negative(y) && magnitude(y) > 0
            && magnitude(x) <= magnitude(y)) by {
            reveal(of_whole);
        }
        law_quotient_tells_which_is_less(x, y);
        assert(x.bits == magnitude(x) && y.bits == magnitude(y));
    }
}

// ---------------------------------------------------------------------------
// Reading a completion
// ---------------------------------------------------------------------------

/// Tokens per second from a count and milliseconds, 0 where one is missing and
/// where no time passed.
pub open spec fn rate_of(n: Option<Binary64>, ms: Option<Binary64>) -> Binary64 {
    match (n, ms) {
        (Some(n), Some(ms)) => if below(zero(), ms) {
            over(times(n, Binary64 { bits: THOUSAND }), ms)
        } else {
            zero()
        },
        _ => zero(),
    }
}

/// The speeds of prefill and decode that a completion reports.
pub open spec fn timings_of(reply: JsonView) -> Option<(Binary64, Binary64)> {
    match field(reply, "timings"@) {
        Some(t) => Some(
            (
                rate_of(float_of(field(t, "prompt_n"@)), float_of(field(t, "prompt_ms"@))),
                rate_of(float_of(field(t, "predicted_n"@)), float_of(field(t, "predicted_ms"@))),
            ),
        ),
        None => None,
    }
}

/// The counts of drafted and accepted tokens in an object.
pub open spec fn stats_in(j: Option<JsonView>) -> Option<(u64, u64)> {
    match (whole_of(field_of(j, "draft_n"@)), whole_of(field_of(j, "draft_n_accepted"@))) {
        (Some(n), Some(accepted)) => Some((n, accepted)),
        _ => None,
    }
}

/// The counts of drafted and accepted tokens that a completion reports, among its
/// timings or at the top.
pub open spec fn draft_stats_of(reply: JsonView) -> Option<(u64, u64)> {
    match stats_in(field(reply, "timings"@)) {
        Some(s) => Some(s),
        None => stats_in(Some(reply)),
    }
}

/// Tokens per second from a count and milliseconds.
fn rate(n: Option<Binary64>, ms: Option<Binary64>) -> (r: Binary64)
    ensures
        r == rate_of(n, ms),
{
    match (n, ms) {
        (Some(n), Some(ms)) => {
            if Binary64::zero().below(ms) {
                n.times(Binary64 { bits: THOUSAND }).over(ms)
            } else {
                Binary64::zero()
            }
        },
        _ => Binary64::zero(),
    }
}

/// The speeds of prefill and decode that a completion reports. They are computed
/// from the counts and times, since the rates in a reply can be out of range.
pub fn timings_in(reply: &Json) -> (r: Option<(Binary64, Binary64)>)
    ensures
        r == timings_of(reply@),
{
    let t = get(Some(reply), "timings");
    if t.is_none() {
        return None;
    }
    let prefill = rate(as_float(get(t, "prompt_n")), as_float(get(t, "prompt_ms")));
    let decode = rate(as_float(get(t, "predicted_n")), as_float(get(t, "predicted_ms")));
    Some((prefill, decode))
}

/// The counts of drafted and accepted tokens in an object.
fn pick_stats(j: Option<&Json>) -> (r: Option<(u64, u64)>)
    ensures
        r == stats_in(opt_tree(j)),
{
    match (as_whole(get(j, "draft_n")), as_whole(get(j, "draft_n_accepted"))) {
        (Some(n), Some(accepted)) => Some((n, accepted)),
        _ => None,
    }
}

/// The counts of drafted and accepted tokens that a completion reports. They have
/// moved between releases, so both places are looked at.
pub fn draft_stats_in(reply: &Json) -> (r: Option<(u64, u64)>)
    ensures
        r == draft_stats_of(reply@),
{
    match pick_stats(get(Some(reply), "timings")) {
        Some(s) => Some(s),
        None => pick_stats(Some(reply)),
    }
}

/// What a text says, if it is a document.
pub open spec fn read_as_document(body: Seq<char>) -> Option<JsonView> {
    match document(body) {
        Ok(j) => Some(j),
        Err(_) => None,
    }
}

/// The speeds of prefill and decode in the text of a completion.
pub fn parse_timings(body: &str) -> (r: Option<(Binary64, Binary64)>)
    ensures
        r == (match read_as_document(body@) {
            Some(j) => timings_of(j),
            None => None,
        }),
{
    match parse_json(body) {
        Ok(j) => timings_in(&j),
        Err(_) => None,
    }
}

/// The counts of drafted and accepted tokens in the text of a completion.
pub fn parse_draft_stats(body: &str) -> (r: Option<(u64, u64)>)
    ensures
        r == (match read_as_document(body@) {
            Some(j) => draft_stats_of(j),
            None => None,
        }),
{
    match parse_json(body) {
        Ok(j) => draft_stats_in(&j),
        Err(_) => None,
    }
}

// ---------------------------------------------------------------------------
// One run
// ---------------------------------------------------------------------------

/// `c` is the server of a candidate.
pub open spec fn is_bench_server(
    c: LlamaServerConfig,
    model_path: Seq<char>,
    cfg: BenchConfig,
    draft: Option<Seq<char>>,
) -> bool {
    &&& c.model_path@ == model_path
    &&& c.n_gpu_layers == Some(cfg.n_gpu_layers)
    &&& c.ctx_size == Some(cfg.ctx_size)
    &&& c.port == BENCH_PORT
    &&& c.binary_path is None
    &&& !c.flash_attn
    &&& c.cache_type_k is None
    &&& c.cache_type_v is None
    &&& !c.context_shift
    &&& opt_view(c.draft_model_path) == draft
    &&& c.draft_n_gpu_layers == (if draft is Some {
        Some(999u32)
    } else {
        None
    })
    &&& c.draft_n_max == cfg.draft_n_max
    &&& c.draft_n_min is None
    &&& c.draft_p_min is None
    &&& c.draft_cache_type_k is None
    &&& c.draft_cache_type_v is None
    &&& c.extra_args@.len() == 0
}

/// The server of a candidate: with the whole draft on the GPU where there is one,
/// and everything else as it is by default.
pub fn bench_server(model_path: &str, cfg: &BenchConfig, draft: Option<&str>) -> (c:
    LlamaServerConfig)
    ensures
        is_bench_server(c, model_path@, *cfg, opt_str_view(draft)),
{
    let mut c = LlamaServerConfig::default();
    c.model_path = String::from_str(model_path);
    c.n_gpu_layers = Some(cfg.n_gpu_layers);
    c.ctx_size = Some(cfg.ctx_size);
    c.port = BENCH_PORT;
    c.draft_n_max = cfg.draft_n_max;
    match draft {
        Some(d) => {
            c.draft_model_path = Some(String::from_str(d));
            c.draft_n_gpu_layers = Some(999);
        },
        None => {},
    }
    c
}

/// How a run goes on.
#[derive(Debug, Clone)]
pub enum BenchStep {
    /// Ask the server again, after a moment.
    Wait,
    /// The model is loaded: generate.
    Generate,
    /// The run is over; the server is stopped first if it is running.
    Fail { stop: bool, result: BenchResult },
}

/// `s` is how a run goes on after the launch.
pub open spec fn is_launched(s: BenchStep, cfg: BenchConfig, launched: Result<(), String>) -> bool {
    match launched {
        Ok(_) => s is Wait,
        Err(e) => s == (BenchStep::Fail { stop: false, result: failure(cfg, e) }),
    }
}

/// Goes on after the launch.
pub fn after_launch(cfg: &BenchConfig, launched: Result<(), String>) -> (s: BenchStep)
    ensures
        is_launched(s, *cfg, launched),
{
    match launched {
        Ok(_) => BenchStep::Wait,
        Err(e) => BenchStep::Fail { stop: false, result: BenchResult::failed(cfg, e) },
    }
}

/// `s` is how a run goes on after the server was asked, or after the time is up.
pub open spec fn is_next_step(
    s: BenchStep,
    cfg: BenchConfig,
    in_time: bool,
    status: ServerStatus,
) -> bool {
    if !in_time {
        &&& s matches BenchStep::Fail { stop, result }
        &&& stop
        &&& result.error is Some
        &&& (result.error->0)@ == "did not become healthy in time"@
        &&& result == failure(cfg, result.error->0)
    } else if status.health@ == "ok"@ {
        s is Generate
    } else if status.error is Some {
        &&& s matches BenchStep::Fail { stop, result }
        &&& stop
        &&& result.error is Some
        &&& (result.error->0)@ == (status.error->0)@
        &&& result == failure(cfg, result.error->0)
    } else {
        s is Wait
    }
}

/// Goes on after the server was asked, or after the time is up.
pub fn after_poll(cfg: &BenchConfig, in_time: bool, status: &ServerStatus) -> (s: BenchStep)
    ensures
        is_next_step(s, *cfg, in_time, *status),
{
    if !in_time {
        return BenchStep::Fail {
            stop: true,
            result: BenchResult::failed(
                cfg,
                String::from_str("did not become healthy in time"),
            ),
        };
    }
    if same(status.health.as_str(), "ok") {
        return BenchStep::Generate;
    }
    match &status.error {
        Some(e) => BenchStep::Fail { stop: true, result: BenchResult::failed(cfg, e.clone()) },
        None => BenchStep::Wait,
    }
}

/// Where a server answers completions.
pub open spec fn completion_link(port: u16) -> Seq<char> {
    "http://127.0.0.1:"@ + decimal(port as nat) + "/completion"@
}

/// Where completions are asked for.
pub fn completion_url(port: u16) -> (s: String)
    ensures
        s@ == completion_link(port),
{
    let mut s = String::from_str("http://127.0.0.1:");
    s.append(number(port as u64).as_str());
    s.append("/completion");
    s
}

/// The request for the fixed number of tokens.
pub fn completion_body() -> (s: String)
    ensures
        s@ == "{\"prompt\":\""@ + BENCH_PROMPT@ + "\",\"n_predict\":"@ + decimal(N_PREDICT as nat)
            + ",\"ignore_eos\":true,\"stream\":false}"@,
{
    let mut s = String::from_str("{\"prompt\":\"");
    s.append(BENCH_PROMPT);
    s.append("\",\"n_predict\":");
    s.append(number(N_PREDICT).as_str());
    s.append(",\"ignore_eos\":true,\"stream\":false}");
    s
}

/// What was measured besides the reply.
#[derive(Debug, Clone, Copy)]
pub struct Measured {
    pub load_ms: u64,
    pub peak_vram_bytes: u64,
    /// The run had the draft model.
    pub with_draft: bool,
}

/// The comparison that a run with a draft begins: only the counts and its own
/// speed are known.
pub open spec fn counted(stats: Option<(u64, u64)>, decode: Binary64) -> Option<SpecResult> {
    match stats {
        Some((n, accepted)) => Some(
            SpecResult {
                draft_n: n,
                draft_n_accepted: accepted,
                accept_rate: zero(),
                baseline_decode_tok_s: zero(),
                decode_tok_s: decode,
                speedup: zero(),
            },
        ),
        None => None,
    }
}

/// `r` is the row of a run that generated: `answered` says whether there was a
/// reply, and `reply` is what it says if it is a document.
pub open spec fn is_measurement(
    r: BenchResult,
    cfg: BenchConfig,
    m: Measured,
    answered: bool,
    reply: Option<JsonView>,
) -> bool {
    let timings = match reply {
        Some(j) => timings_of(j),
        None => None,
    };
    let (prefill, decode) = match timings {
        Some(t) => t,
        None => (zero(), zero()),
    };
    let stats = match reply {
        Some(j) => if m.with_draft {
            draft_stats_of(j)
        } else {
            None
        },
        None => None,
    };
    &&& r.n_gpu_layers == cfg.n_gpu_layers
    &&& r.ctx_size == cfg.ctx_size
    &&& r.loaded
    &&& r.load_ms == m.load_ms
    &&& r.prefill_tok_s == prefill
    &&& r.decode_tok_s == decode
    &&& r.peak_vram_bytes == m.peak_vram_bytes
    &&& r.speculative == counted(stats, decode)
    &&& r.error is None == answered
    &&& r.error is Some ==> (r.error->0)@ == "generation request failed"@
}

/// The row of a run that generated, from a reply that was read.
pub fn measurement(cfg: &BenchConfig, m: &Measured, answered: bool, reply: Option<&Json>) -> (r:
    BenchResult)
    ensures
        is_measurement(r, *cfg, *m, answered, opt_tree(reply)),
{
    let timings = match reply {
        Some(j) => timings_in(j),
        None => None,
    };
    let (prefill_tok_s, decode_tok_s) = match timings {
        Some(t) => t,
        None => (Binary64::zero(), Binary64::zero()),
    };
    let stats = match reply {
        Some(j) => if m.with_draft {
            draft_stats_in(j)
        } else {
            None
        },
        None => None,
    };
    let speculative = match stats {
        Some((draft_n, draft_n_accepted)) => Some(
            SpecResult {
                draft_n,
                draft_n_accepted,
                accept_rate: Binary64::zero(),
                baseline_decode_tok_s: Binary64::zero(),
                decode_tok_s,
                speedup: Binary64::zero(),
            },
        ),
        None => None,
    };
    let error = if answered {
        None
    } else {
        Some(String::from_str("generation request failed"))
    };
    BenchResult {
        n_gpu_layers: cfg.n_gpu_layers,
        ctx_size: cfg.ctx_size,
        loaded: true,
        load_ms: m.load_ms,
        prefill_tok_s,
        decode_tok_s,
        peak_vram_bytes: m.peak_vram_bytes,
        speculative,
        error,
    }
}

/// The row of a run that generated, from the text of the reply if there is one.
pub fn after_generation(cfg: &BenchConfig, m: &Measured, body: Option<&str>) -> (r: BenchResult)
    ensures
        is_measurement(
            r,
            *cfg,
            *m,
            body is Some,
            match body {
                Some(b) => read_as_document(b@),
                None => None,
            },
        ),
{
    match body {
        Some(b) => match parse_json(b) {
            Ok(j) => measurement(cfg, m, true, Some(&j)),
            Err(_) => measurement(cfg, m, true, None),
        },
        None => measurement(cfg, m, false, None),
    }
}

// ---------------------------------------------------------------------------
// All candidates
// ---------------------------------------------------------------------------

/// A benchmark of several candidates: the rows so far, and the first run of the
/// candidate that is to be run again with its draft.
#[derive(Debug, Clone)]
pub struct Suite {
    pub results: Vec<BenchResult>,
    pub baseline: Option<BenchResult>,
}

/// A run to make.
#[derive(Debug, Clone)]
pub struct Job {
    /// Which candidate.
    pub config: usize,
    /// The draft model to run it with.
    pub draft: Option<String>,
}

/// `r` is a row of the candidate.
pub open spec fn is_row_of(r: BenchResult, cfg: BenchConfig) -> bool {
    r.n_gpu_layers == cfg.n_gpu_layers && r.ctx_size == cfg.ctx_size
}

/// `r` is the run that follows.
pub open spec fn is_next_job(suite: Suite, configs: Seq<BenchConfig>, r: Option<Job>) -> bool {
    match r {
        Some(job) => {
            &&& suite.results@.len() < configs.len()
            &&& job.config == suite.results@.len()
            &&& opt_view(job.draft) == (if suite.baseline is Some {
                opt_view(configs[job.config as int].draft_model_path)
            } else {
                None
            })
        },
        None => suite.results@.len() >= configs.len(),
    }
}

/// `after` is `before` with the outcome of a run, which completes a row or not.
pub open spec fn is_taken(
    before: Suite,
    after: Suite,
    configs: Seq<BenchConfig>,
    result: BenchResult,
    complete: bool,
) -> bool {
    match before.baseline {
        Some(b) => {
            &&& complete
            &&& after.baseline is None
            &&& after.results@ == before.results@.push(merged(b, result))
        },
        None => if result.loaded
            && configs[before.results@.len() as int].draft_model_path is Some {
            &&& !complete
            &&& after.baseline == Some(result)
            &&& after.results@ == before.results@
        } else {
            &&& complete
            &&& after.baseline is None
            &&& after.results@ == before.results@.push(result)
        },
    }
}

impl Suite {
    /// A first run is only kept for a candidate that loaded and names a draft.
    pub open spec fn wf(&self, configs: Seq<BenchConfig>) -> bool {
        &&& self.results@.len() <= configs.len()
        &&& match self.baseline {
            Some(b) => {
                &&& b.loaded
                &&& self.results@.len() < configs.len()
                &&& configs[self.results@.len() as int].draft_model_path is Some
            },
            None => true,
        }
    }

    /// Every row so far is one of the candidate at its place.
    pub open spec fn rows_match(&self, configs: Seq<BenchConfig>) -> bool {
        &&& forall|i: int|
            0 <= i < self.results@.len() ==> is_row_of(#[trigger] self.results@[i], configs[i])
        &&& self.baseline is Some ==> is_row_of(
            self.baseline->0,
            configs[self.results@.len() as int],
        )
    }

    /// How many runs at most are still to be made.
    pub open spec fn ahead(&self, configs: Seq<BenchConfig>) -> int {
        2 * (configs.len() - self.results@.len()) - (if self.baseline is Some {
            1int
        } else {
            0int
        })
    }

    /// Nothing has run.
    pub fn new() -> (s: Suite)
        ensures
            s.results@.len() == 0,
            s.baseline is None,
            forall|configs: Seq<BenchConfig>| #[trigger] s.wf(configs),
            forall|configs: Seq<BenchConfig>| #[trigger] s.rows_match(configs),
    {
        Suite { results: Vec::new(), baseline: None }
    }

    /// The next run, until every candidate has its row: the candidates in their
    /// order, each without a draft first.
    pub fn next(&self, configs: &Vec<BenchConfig>) -> (r: Option<Job>)
        requires
            self.wf(configs@),
        ensures
            is_next_job(*self, configs@, r),
    {
        let k = self.results.len();
        if k >= configs.len() {
            return None;
        }
        let draft = match &self.baseline {
            Some(_) => clone_opt(&configs[k].draft_model_path),
            None => None,
        };
        Some(Job { config: k, draft })
    }

    /// Takes the outcome of the run. A candidate that loaded and names a draft is
    /// run again; otherwise its row is complete, and this is said. Rows of their
    /// candidates stay so, and fewer runs are ahead.
    pub fn take(&mut self, configs: &Vec<BenchConfig>, result: BenchResult) -> (complete: bool)
        requires
            old(self).wf(configs@),
            old(self).results@.len() < configs@.len(),
        ensures
            final(self).wf(configs@),
            final(self).ahead(configs@) < old(self).ahead(configs@),
            old(self).rows_match(configs@) && is_row_of(
                result,
                configs@[old(self).results@.len() as int],
            ) ==> final(self).rows_match(configs@),
            is_taken(*old(self), *final(self), configs@, result, complete),
    {
        let k = self.results.len();
        match self.baseline.take() {
            Some(b) => {
                self.results.push(merge_speculative(b, result));
                true
            },
            None => {
                if result.loaded && configs[k].draft_model_path.is_some() {
                    self.baseline = Some(result);
                    false
                } else {
                    self.results.push(result);
                    true
                }
            },
        }
    }
}

/// A suite with no run ahead has benchmarked each candidate, in its order and
/// once, however many there are; and while a candidate has no row there is a run
/// ahead.
pub proof fn law_every_candidate_gets_its_row(suite: Suite, configs: Seq<BenchConfig>)
    requires
        suite.wf(configs),
        suite.rows_match(configs),
    ensures
        suite.ahead(configs) >= 0,
        suite.ahead(configs) == 0 <==> suite.results@.len() == configs.len(),
        suite.ahead(configs) == 0 ==> forall|i: int|
            0 <= i < configs.len() ==> is_row_of(#[trigger] suite.results@[i], configs[i]),
{
}

// ---------------------------------------------------------------------------
// The report
// ---------------------------------------------------------------------------

/// A row of a report over several models.
#[derive(Debug, Clone)]
pub struct ReportRow {
    pub model: String,
    pub quant: Option<String>,
    pub n_gpu_layers: u32,
    pub ctx_size: u32,
    pub load_ms: u64,
    pub prefill_tok_s: Binary64,
    pub decode_tok_s: Binary64,
    pub peak_vram_bytes: u64,
}

/// The best decode speed among the first `k` rows, at least 0.
pub open spec fn best_of(rows: Seq<ReportRow>, k: int) -> Binary64
    decreases k,
{
    if k <= 0 {
        zero()
    } else {
        let m = best_of(rows, k - 1);
        if below(m, rows[k - 1].decode_tok_s) {
            rows[k - 1].decode_tok_s
        } else {
            m
        }
    }
}

/// The best decode speed of a report.
pub fn best_decode(rows: &Vec<ReportRow>) -> (b: Binary64)
    ensures
        b == best_of(rows@, rows@.len() as int),
{
    let mut b = Binary64::zero();
    for i in 0..rows.len()
        invariant
            b == best_of(rows@, i as int),
    {
        if b.below(rows[i].decode_tok_s) {
            b = rows[i].decode_tok_s;
        }
    }
    b
}

/// No row that measured a speed is faster than the best.
pub proof fn law_best_is_best(rows: Seq<ReportRow>, k: int, i: int)
    requires
        0 <= i < k <= rows.len(),
    ensures
        !below(best_of(rows, k), rows[i].decode_tok_s),
    decreases k,
{
    lemma_best_is_number(rows, k - 1);
    if i < k - 1 {
        law_best_is_best(rows, k - 1, i);
    }
}

/// The best is a number.
proof fn lemma_best_is_number(rows: Seq<ReportRow>, k: int)
    ensures
        !is_nan(best_of(rows, k)),
    decreases k,
{
    if k > 0 {
        lemma_best_is_number(rows, k - 1);
    }
}

/// The numbers that a row shows.
#[derive(Debug, Clone, Copy)]
pub struct RowNumbers {
    pub load_secs: Binary64,
    pub prefill_tok_s: Binary64,
    pub decode_tok_s: Binary64,
    pub peak_gib: Binary64,
    /// Percent of the best decode speed, where there is one.
    pub relative: Option<Binary64>,
}

/// `n` are the numbers that a row shows.
pub open spec fn are_numbers(n: RowNumbers, row: ReportRow, best: Binary64) -> bool {
    &&& n.load_secs == over(of_whole(row.load_ms as nat), Binary64 { bits: THOUSAND })
    &&& n.prefill_tok_s == row.prefill_tok_s
    &&& n.decode_tok_s == row.decode_tok_s
    &&& n.peak_gib == over(of_whole(row.peak_vram_bytes as nat), Binary64 { bits: GIB })
    &&& n.relative == (if below(zero(), best) {
        Some(times(over(row.decode_tok_s, best), Binary64 { bits: HUNDRED }))
    } else {
        None
    })
}

/// The numbers that a row shows.
pub fn row_numbers(row: &ReportRow, best: Binary64) -> (n: RowNumbers)
    ensures
        are_numbers(n, *row, best),
{
    let relative = if Binary64::zero().below(best) {
        Some(row.decode_tok_s.over(best).times(Binary64 { bits: HUNDRED }))
    } else {
        None
    };
    RowNumbers {
        load_secs: Binary64::of(row.load_ms).over(Binary64 { bits: THOUSAND }),
        prefill_tok_s: row.prefill_tok_s,
        decode_tok_s: row.decode_tok_s,
        peak_gib: Binary64::of(row.peak_vram_bytes).over(Binary64 { bits: GIB }),
        relative,
    }
}

/// The numbers that a row shows, written out in decimal.
#[derive(Debug, Clone)]
pub struct RowTexts {
    pub load_secs: String,
    pub prefill_tok_s: String,
    pub decode_tok_s: String,
    pub peak_gib: String,
    pub relative: Option<String>,
}

/// The start of a report.
pub open spec fn report_head(gpu_name: Seq<char>) -> Seq<char> {
    "# Tokamak benchmark report\n\nGPU: **"@ + gpu_name
        + "**  \nConfigs: auto-recommended per model (max offload + context that fit).  \nAll numbers measured on this machine, not estimates.\n\n"@
        + "| Model | Quant | GPU layers | Ctx | Load | Prefill tok/s | Decode tok/s | Peak VRAM | vs best |\n|---|---|---|---|---|---|---|---|---|\n"@
}

/// The quantization as a report shows it.
pub open spec fn shown_quant(row: ReportRow) -> Seq<char> {
    match row.quant {
        Some(q) => q@,
        None => "?"@,
    }
}

/// The comparison with the best as a report shows it.
pub open spec fn shown_relative(t: RowTexts) -> Seq<char> {
    match t.relative {
        Some(r) => r@ + "%"@,
        None => "—"@,
    }
}

/// The line of a row.
pub open spec fn report_line(row: ReportRow, t: RowTexts) -> Seq<char> {
    "| "@ + row.model@ + " | "@ + shown_quant(row) + " | "@ + decimal(row.n_gpu_layers as nat)
        + " | "@ + decimal(row.ctx_size as nat) + " | "@ + t.load_secs@ + "s | "@ + t.prefill_tok_s@
        + " | **"@ + t.decode_tok_s@ + "** | "@ + t.peak_gib@ + " GB | "@ + shown_relative(t)
        + " |\n"@
}

/// The lines of the first `k` rows.
pub open spec fn report_lines(rows: Seq<ReportRow>, cells: Seq<RowTexts>, k: int) -> Seq<char>
    decreases k,
{
    if k <= 0 {
        Seq::empty()
    } else {
        report_lines(rows, cells, k - 1) + report_line(rows[k - 1], cells[k - 1])
    }
}

/// Adds the line of a row.
fn add_line(md: &mut String, row: &ReportRow, t: &RowTexts)
    ensures
        final(md)@ == old(md)@ + report_line(*row, *t),
{
    let mut line = String::from_str("| ");
    line.append(row.model.as_str());
    line.append(" | ");
    match &row.quant {
        Some(q) => line.append(q.as_str()),
        None => line.append("?"),
    }
    line.append(" | ");
    line.append(number(row.n_gpu_layers as u64).as_str());
    line.append(" | ");
    line.append(number(row.ctx_size as u64).as_str());
    line.append(" | ");
    line.append(t.load_secs.as_str());
    line.append("s | ");
    line.append(t.prefill_tok_s.as_str());
    line.append(" | **");
    line.append(t.decode_tok_s.as_str());
    line.append("** | ");
    line.append(t.peak_gib.as_str());
    line.append(" GB | ");
    let mut relative = String::from_str("—");
    if let Some(r) = &t.relative {
        relative = r.clone();
        relative.append("%");
    }
    line.append(relative.as_str());
    line.append(" |\n");
    md.append(line.as_str());
}

/// A report can be written: there is a row.
pub fn check_rows(rows: &Vec<ReportRow>) -> (r: Result<(), String>)
    ensures
        r is Ok <==> rows@.len() > 0,
        r is Err ==> r->Err_0@ == "no benchmark rows to export"@,
{
    if rows.len() == 0 {
        return Err(String::from_str("no benchmark rows to export"));
    }
    Ok(())
}

/// The file of a report that is written at this time.
pub open spec fn report_file(now: u64) -> Seq<char> {
    "bench-report-"@ + decimal(now as nat) + ".md"@
}

/// The file name of a report that is written at this time, in seconds.
pub fn report_name(now: u64) -> (s: String)
    ensures
        s@ == report_file(now),
{
    let mut s = String::from_str("bench-report-");
    s.append(number(now).as_str());
    s.append(".md");
    s
}

/// `md` is the text of a report.
pub open spec fn is_report(
    md: Seq<char>,
    gpu_name: Seq<char>,
    rows: Seq<ReportRow>,
    cells: Seq<RowTexts>,
) -> bool {
    md == report_head(gpu_name) + report_lines(rows, cells, rows.len() as int) + "\n"@
}

/// The text of a report, the rows in the order given.
pub fn report(gpu_name: &str, rows: &Vec<ReportRow>, cells: &Vec<RowTexts>) -> (md: String)
    requires
        cells@.len() == rows@.len(),
    ensures
        is_report(md@, gpu_name@, rows@, cells@),
{
    let mut md = String::from_str("# Tokamak benchmark report\n\nGPU: **");
    md.append(gpu_name);
    md.append(
        "**  \nConfigs: auto-recommended per model (max offload + context that fit).  \nAll numbers measured on this machine, not estimates.\n\n",
    );
    md.append(
        "| Model | Quant | GPU layers | Ctx | Load | Prefill tok/s | Decode tok/s | Peak VRAM | vs best |\n|---|---|---|---|---|---|---|---|---|\n",
    );
    let ghost head = md@;
    assert(head + report_lines(rows@, cells@, 0) =~= md@);
    for i in 0..rows.len()
        invariant
            cells@.len() == rows@.len(),
            md@ == head + report_lines(rows@, cells@, i as int),
    {
        add_line(&mut md, &rows[i], &cells[i]);
        assert(head + report_lines(rows@, cells@, i as int) + report_line(
            rows@[i as int],
            cells@[i as int],
        ) =~= head + report_lines(rows@, cells@, i + 1));
    }
    md.append("\n");
    md
}

// ---------------------------------------------------------------------------
// Laws
// ---------------------------------------------------------------------------

/// A candidate that failed shows its settings and the error, and no number.
pub proof fn law_failed_candidate_shows_no_numbers(cfg: BenchConfig, error: String)
    ensures
        ({
            let r = failure(cfg, error);
            &&& r.n_gpu_layers == cfg.n_gpu_layers
            &&& r.ctx_size == cfg.ctx_size
            &&& !r.loaded
            &&& r.load_ms == 0 && r.peak_vram_bytes == 0
            &&& r.prefill_tok_s == zero() && r.decode_tok_s == zero()
            &&& r.speculative is None
            &&& r.error == Some(error)
        }),
{
}

/// The comparison shows what the run with the draft counted, and the share of the
/// drafted tokens that were accepted.
pub proof fn law_comparison_shows_what_was_drafted(baseline: BenchResult, spec_run: BenchResult)
    requires
        spec_run.loaded,
        spec_run.speculative is Some,
    ensures
        ({
            let r = merged(baseline, spec_run);
            let s = r.speculative->0;
            let c = spec_run.speculative->0;
            &&& s.draft_n == c.draft_n
            &&& s.draft_n_accepted == c.draft_n_accepted
            &&& c.draft_n == 0 ==> s.accept_rate == zero()
            &&& c.draft_n > 0 ==> s.accept_rate == over(
                of_whole(c.draft_n_accepted as nat),
                of_whole(c.draft_n as nat),
            )
            &&& below(zero(), baseline.decode_tok_s) ==> s.speedup == over(
                spec_run.decode_tok_s,
                baseline.decode_tok_s,
            )
            &&& r.n_gpu_layers == spec_run.n_gpu_layers
            &&& r.ctx_size == spec_run.ctx_size
            &&& r.loaded
            &&& r.load_ms == spec_run.load_ms
            &&& r.error == spec_run.error
        }),
{
}

/// A speed is a thousand times the tokens over the milliseconds that they took, of the
/// prompt and of what was generated, each of its own.
pub proof fn law_speed_is_tokens_over_time(
    reply: JsonView,
    t: JsonView,
    prompt_n: Binary64,
    prompt_ms: Binary64,
    predicted_n: Binary64,
    predicted_ms: Binary64,
)
    requires
        field(reply, "timings"@) == Some(t),
        float_of(field(t, "prompt_n"@)) == Some(prompt_n),
        float_of(field(t, "prompt_ms"@)) == Some(prompt_ms),
        float_of(field(t, "predicted_n"@)) == Some(predicted_n),
        float_of(field(t, "predicted_ms"@)) == Some(predicted_ms),
    ensures
        timings_of(reply) is Some,
        ({
            let (prefill, decode) = timings_of(reply)->0;
            &&& below(zero(), prompt_ms) ==> prefill == over(
                times(prompt_n, Binary64 { bits: THOUSAND }),
                prompt_ms,
            )
            &&& !below(zero(), prompt_ms) ==> prefill == zero()
            &&& below(zero(), predicted_ms) ==> decode == over(
                times(predicted_n, Binary64 { bits: THOUSAND }),
                predicted_ms,
            )
            &&& !below(zero(), predicted_ms) ==> decode == zero()
        }),
{
}

/// A speed whose count or time is missing is 0, and there is none at all without
/// timings.
pub proof fn law_speed_needs_count_and_time(reply: JsonView)
    ensures
        field(reply, "timings"@) is None <==> timings_of(reply) is None,
        field(reply, "timings"@) matches Some(t) ==> {
            &&& float_of(field(t, "prompt_n"@)) is None || float_of(field(t, "prompt_ms"@)) is None
                ==> (timings_of(reply)->0).0 == zero()
            &&& float_of(field(t, "predicted_n"@)) is None || float_of(
                field(t, "predicted_ms"@),
            ) is None ==> (timings_of(reply)->0).1 == zero()
        },
{
}

/// What was drafted is read among the timings, and at the top where it does not stand
/// there; both counts are needed.
pub proof fn law_drafted_tokens_are_read(reply: JsonView, t: JsonView, n: u64, accepted: u64)
    requires
        field(reply, "timings"@) == Some(t),
    ensures
        whole_of(field(t, "draft_n"@)) == Some(n) && whole_of(field(t, "draft_n_accepted"@))
            == Some(accepted) ==> draft_stats_of(reply) == Some((n, accepted)),
        whole_of(field(t, "draft_n"@)) is None && whole_of(field(reply, "draft_n"@)) == Some(n)
            && whole_of(field(reply, "draft_n_accepted"@)) == Some(accepted) ==> draft_stats_of(
            reply,
        ) == Some((n, accepted)),
        whole_of(field(t, "draft_n"@)) is None && whole_of(field(reply, "draft_n"@)) is None
            ==> draft_stats_of(reply) is None,
        whole_of(field(t, "draft_n_accepted"@)) is None && whole_of(
            field(reply, "draft_n_accepted"@),
        ) is None ==> draft_stats_of(reply) is None,
{
}

/// A candidate is launched as it is asked for, on the port of benchmarks; a draft
/// goes to the GPU whole, and without one nothing of it is set.
pub proof fn law_candidate_is_launched_as_asked(
    c: LlamaServerConfig,
    model_path: Seq<char>,
    cfg: BenchConfig,
    draft: Option<Seq<char>>,
)
    requires
        is_bench_server(c, model_path, cfg, draft),
    ensures
        c.model_path@ == model_path,
        c.n_gpu_layers == Some(cfg.n_gpu_layers),
        c.ctx_size == Some(cfg.ctx_size),
        c.port == 8139,
        draft is None ==> c.draft_model_path is None && c.draft_n_gpu_layers is None,
        draft matches Some(d) ==> c.draft_model_path is Some && c.draft_model_path->0@ == d
            && c.draft_n_gpu_layers == Some(999u32),
        c.draft_n_max == cfg.draft_n_max,
        c.draft_n_min is None && c.draft_p_min is None,
        !c.flash_attn && !c.context_shift,
        c.cache_type_k is None && c.cache_type_v is None,
        c.draft_cache_type_k is None && c.draft_cache_type_v is None,
        c.binary_path is None && c.extra_args@.len() == 0,
{
}

/// A run waits until its server is healthy and then generates; it gives up when the
/// time is over or the server says what is wrong, and the server is stopped.
pub proof fn law_run_waits_until_its_server_is_healthy(
    s: BenchStep,
    cfg: BenchConfig,
    in_time: bool,
    status: ServerStatus,
)
    requires
        is_next_step(s, cfg, in_time, status),
    ensures
        s is Generate <==> in_time && status.health@ == "ok"@,
        s is Wait <==> in_time && status.health@ != "ok"@ && status.error is None,
        s matches BenchStep::Fail { stop, result } ==> {
            &&& stop
            &&& !result.loaded
            &&& result.n_gpu_layers == cfg.n_gpu_layers
            &&& result.ctx_size == cfg.ctx_size
            &&& result.error is Some
            &&& !in_time ==> result.error->0@ == "did not become healthy in time"@
            &&& in_time ==> status.error is Some && result.error->0@ == status.error->0@
        },
{
}

/// The row of a run that generated shows its settings, what was measured and the
/// speeds of the reply; drafted tokens are shown for a run with a draft only, and an
/// error only where there was no reply.
pub proof fn law_row_shows_what_was_measured(
    r: BenchResult,
    cfg: BenchConfig,
    m: Measured,
    answered: bool,
    reply: Option<JsonView>,
)
    requires
        is_measurement(r, cfg, m, answered, reply),
    ensures
        r.n_gpu_layers == cfg.n_gpu_layers,
        r.ctx_size == cfg.ctx_size,
        r.loaded,
        r.load_ms == m.load_ms,
        r.peak_vram_bytes == m.peak_vram_bytes,
        reply matches Some(j) ==> timings_of(j) matches Some(t) ==> r.prefill_tok_s == t.0
            && r.decode_tok_s == t.1,
        reply is None ==> r.prefill_tok_s == zero() && r.decode_tok_s == zero(),
        reply matches Some(j) ==> timings_of(j) is None ==> r.prefill_tok_s == zero()
            && r.decode_tok_s == zero(),
        !m.with_draft || reply is None ==> r.speculative is None,
        reply matches Some(j) ==> m.with_draft && draft_stats_of(j) is Some ==> (
        r.speculative matches Some(s) && s.draft_n == (draft_stats_of(j)->0).0
            && s.draft_n_accepted == (draft_stats_of(j)->0).1 && s.decode_tok_s == r.decode_tok_s),
        reply matches Some(j) ==> draft_stats_of(j) is None ==> r.speculative is None,
        answered ==> r.error is None,
        !answered ==> (r.error matches Some(e) && e@ == "generation request failed"@),
{
}

/// A candidate that names a draft is run without it and, once it has loaded, with it;
/// its row is made of both runs. Any other is run once.
pub proof fn law_candidate_with_a_draft_is_run_twice(
    before: Suite,
    between: Suite,
    after: Suite,
    configs: Seq<BenchConfig>,
    first: Option<Job>,
    plain: BenchResult,
    second: Option<Job>,
    drafting: BenchResult,
    draft: String,
)
    requires
        before.baseline is None,
        before.results@.len() < configs.len(),
        configs[before.results@.len() as int].draft_model_path == Some(draft),
        is_next_job(before, configs, first),
        plain.loaded,
        is_taken(before, between, configs, plain, false),
        is_next_job(between, configs, second),
        is_taken(between, after, configs, drafting, true),
    ensures
        first matches Some(job) && job.config == before.results@.len() && job.draft is None,
        second matches Some(job) && job.config == before.results@.len() && job.draft is Some
            && job.draft->0@ == draft@,
        after.results@.len() == before.results@.len() + 1,
        after.results@.last() == merged(plain, drafting),
        after.baseline is None,
{
    assert(opt_view((second->0).draft) == Some(draft@));
    assert(opt_view((first->0).draft) == None::<Seq<char>>);
}

/// A candidate without a draft, or one that did not load, has its row after one run,
/// and the next run is the next candidate's.
pub proof fn law_candidate_without_a_draft_is_run_once(
    before: Suite,
    after: Suite,
    configs: Seq<BenchConfig>,
    result: BenchResult,
    complete: bool,
    next: Option<Job>,
)
    requires
        before.baseline is None,
        before.results@.len() < configs.len(),
        configs[before.results@.len() as int].draft_model_path is None || !result.loaded,
        is_taken(before, after, configs, result, complete),
        is_next_job(after, configs, next),
    ensures
        complete,
        after.results@ == before.results@.push(result),
        before.results@.len() + 1 == configs.len() ==> next is None,
        before.results@.len() + 1 < configs.len() ==> (next matches Some(job) && job.config
            == before.results@.len() + 1 && job.draft is None),
{
    if let Some(job) = next {
        assert(opt_view(job.draft) == None::<Seq<char>>);
    }
}

/// The best speed is one that was measured, or 0.
pub proof fn law_best_is_measured(rows: Seq<ReportRow>, k: int)
    requires
        0 <= k <= rows.len(),
    ensures
        best_of(rows, k) == zero() || exists|i: int|
            0 <= i < k && (#[trigger] rows[i]).decode_tok_s == best_of(rows, k),
    decreases k,
{
    if k > 0 {
        law_best_is_measured(rows, k - 1);
        if best_of(rows, k) != best_of(rows, k - 1) {
            assert(rows[k - 1].decode_tok_s == best_of(rows, k));
        } else if best_of(rows, k) != zero() {
            let i = choose|i: int|
                0 <= i < k - 1 && (#[trigger] rows[i]).decode_tok_s == best_of(rows, k - 1);
            assert(rows[i].decode_tok_s == best_of(rows, k));
        }
    }
}

/// A row shows its load time in seconds, its memory in GiB, its own speeds, and its
/// speed of generation as percent of the best, where there is a best.
pub proof fn law_row_shows_its_own_numbers(n: RowNumbers, row: ReportRow, best: Binary64)
    requires
        are_numbers(n, row, best),
    ensures
        n.load_secs == over(of_whole(row.load_ms as nat), Binary64 { bits: THOUSAND }),
        n.peak_gib == over(of_whole(row.peak_vram_bytes as nat), Binary64 { bits: GIB }),
        n.prefill_tok_s == row.prefill_tok_s,
        n.decode_tok_s == row.decode_tok_s,
        below(zero(), best) ==> n.relative == Some(
            times(over(row.decode_tok_s, best), Binary64 { bits: HUNDRED }),
        ),
        !below(zero(), best) ==> n.relative is None,
{
}

/// The report has a line for each row, in their order, behind its head: one more row
/// is one more line.
pub proof fn law_report_has_a_line_for_each_row(
    md: Seq<char>,
    longer: Seq<char>,
    gpu_name: Seq<char>,
    rows: Seq<ReportRow>,
    cells: Seq<RowTexts>,
    row: ReportRow,
    t: RowTexts,
)
    requires
        cells.len() == rows.len(),
        is_report(md, gpu_name, rows, cells),
        is_report(longer, gpu_name, rows.push(row), cells.push(t)),
    ensures
        longer == md.drop_last() + ("| "@ + row.model@ + " | "@ + (match row.quant {
            Some(q) => q@,
            None => "?"@,
        }) + " | "@ + decimal(row.n_gpu_layers as nat) + " | "@ + decimal(row.ctx_size as nat)
            + " | "@ + t.load_secs@ + "s | "@ + t.prefill_tok_s@ + " | **"@ + t.decode_tok_s@
            + "** | "@ + t.peak_gib@ + " GB | "@ + (match t.relative {
            Some(r) => r@ + "%"@,
            None => "—"@,
        }) + " |\n"@) + "\n"@,
        md.len() > 0 && md.last() == '\n',
{
    reveal_strlit("\n");
    let n = rows.len() as int;
    lemma_lines_agree(rows, rows.push(row), cells, cells.push(t), n);
    let body = report_head(gpu_name) + report_lines(rows, cells, n);
    assert(md == body + "\n"@);
    assert(md.drop_last() =~= body);
    assert(md.last() == "\n"@[0]);
    let line = report_line(row, t);
    assert(report_lines(rows.push(row), cells.push(t), n + 1) == report_lines(rows, cells, n)
        + line);
    assert(report_head(gpu_name) + (report_lines(rows, cells, n) + line) =~= body + line);
    assert(longer == body + line + "\n"@);
}

/// The lines of the first rows do not depend on those that follow.
proof fn lemma_lines_agree(
    a: Seq<ReportRow>,
    b: Seq<ReportRow>,
    x: Seq<RowTexts>,
    y: Seq<RowTexts>,
    n: int,
)
    requires
        forall|i: int| 0 <= i < n ==> a[i] == b[i],
        forall|i: int| 0 <= i < n ==> x[i] == y[i],
    ensures
        report_lines(a, x, n) == report_lines(b, y, n),
    decreases n,
{
    if n > 0 {
        lemma_lines_agree(a, b, x, y, n - 1);
        assert(a[n - 1] == b[n - 1]);
        assert(x[n - 1] == y[n - 1]);
    }
}

/// Completions are asked of the server at its own address.
pub proof fn law_completions_are_asked_of_the_server(port: u16)
    ensures
        completion_link(port) == local_url(port) + "/completion"@,
{
}

/// Reports that are written at different times have different names.
pub proof fn law_reports_have_their_own_names(a: u64, b: u64)
    requires
        report_file(a) == report_file(b),
    ensures
        a == b,
{
    let head = "bench-report-"@;
    let end = ".md"@;
    let x = report_file(a);
    let y = report_file(b);
    assert(x.subrange(head.len() as int, x.len() - end.len()) =~= decimal(a as nat));
    assert(y.subrange(head.len() as int, y.len() - end.len()) =~= decimal(b as nat));
    lemma_decimal_injective(a as nat, b as nat);
}

/// A launch that failed ends the run with its error, and there is no server to stop.
pub proof fn law_failed_launch_ends_the_run(
    s: BenchStep,
    cfg: BenchConfig,
    launched: Result<(), String>,
)
    requires
        is_launched(s, cfg, launched),
    ensures
        launched is Ok ==> s is Wait,
        launched matches Err(e) ==> (s matches BenchStep::Fail { stop, result } && !stop
            && !result.loaded && result.error == Some(e) && result.n_gpu_layers == cfg.n_gpu_layers
            && result.ctx_size == cfg.ctx_size),
{
}

/// A report begins with the name of the GPU that it is about.
pub proof fn law_report_names_the_gpu(
    md: Seq<char>,
    gpu_name: Seq<char>,
    rows: Seq<ReportRow>,
    cells: Seq<RowTexts>,
)
    requires
        is_report(md, gpu_name, rows, cells),
    ensures
        ({
            let head = "# Tokamak benchmark report\n\nGPU: **"@ + gpu_name;
            md.len() >= head.len() && md.take(head.len() as int) == head
        }),
{
    let head = "# Tokamak benchmark report\n\nGPU: **"@ + gpu_name;
    assert(md.take(head.len() as int) =~= head);
}

} // verus!
