//! Running `llama-server`.
//!
//! Which binary to launch, with which arguments, what its state looks like from
//! outside, and what its metrics say. One server runs at a time.

use crate::order::{every, is_order, is_sorted_pick, lemma_insert, placed};
use crate::text::{
    after_word, before, begins, chars_of, clone_opt, contains, decimal, digits_value, drop_while,
    head_of, is_ascii_text, is_space, is_text_below, lemma_decimal_injective, lemma_decimal_value,
    lemma_text_order, lower, lowercase, next_word, non_spaces, number, occurs, occurs_at, opt_view,
    pieces, pieces_view, push_text, same, same_chars, skip_while, spaces, split, starts_with,
    str_contains, string_of, text_below, texts, to_lower, to_lowercase, trim, trimmed, word,
};
use vstd::prelude::*;
use vstd::slice::slice_subrange;

verus! {

/// A `llama-server` binary and the backend it was built for.
#[derive(Debug, Clone)]
pub struct LlamaBinary {
    pub path: String,
    pub label: String,
    /// "cuda", "vulkan", "cpu" or "unknown".
    pub backend: String,
    /// "managed", "lm-studio" or "path".
    pub source: String,
    /// The higher, the better.
    pub rank: u32,
}

/// Launch parameters of a server.
#[derive(Debug, Clone)]
pub struct LlamaServerConfig {
    pub model_path: String,
    pub n_gpu_layers: Option<u32>,
    pub ctx_size: Option<u32>,
    pub port: u16,
    /// An explicit binary; without one the best is taken.
    pub binary_path: Option<String>,
    pub flash_attn: bool,
    /// Element type of the KV cache.
    pub cache_type_k: Option<String>,
    pub cache_type_v: Option<String>,
    /// Slide the window when the context is full, instead of halting.
    pub context_shift: bool,
    /// Draft model for speculative decoding. Without it, the other draft fields
    /// are ignored.
    pub draft_model_path: Option<String>,
    /// Tokens to draft per step.
    pub draft_n_max: Option<u32>,
    pub draft_n_min: Option<u32>,
    /// Minimum probability of a draft token, as a decimal number.
    pub draft_p_min: Option<String>,
    pub draft_n_gpu_layers: Option<u32>,
    pub draft_cache_type_k: Option<String>,
    pub draft_cache_type_v: Option<String>,
    pub extra_args: Vec<String>,
}

/// The port that a server listens on unless told otherwise.
pub fn default_port() -> (p: u16)
    ensures
        p == 8137,
{
    8137
}

/// Everything is off.
pub open spec fn is_plain(c: LlamaServerConfig) -> bool {
    &&& c.model_path@ == ""@
    &&& c.n_gpu_layers is None
    &&& c.ctx_size is None
    &&& c.port == 8137
    &&& c.binary_path is None
    &&& !c.flash_attn
    &&& c.cache_type_k is None
    &&& c.cache_type_v is None
    &&& !c.context_shift
    &&& c.draft_model_path is None
    &&& c.draft_n_max is None
    &&& c.draft_n_min is None
    &&& c.draft_p_min is None
    &&& c.draft_n_gpu_layers is None
    &&& c.draft_cache_type_k is None
    &&& c.draft_cache_type_v is None
    &&& c.extra_args@.len() == 0
}

impl Default for LlamaServerConfig {
    fn default() -> (c: Self)
        ensures
            is_plain(c),
    {
        LlamaServerConfig {
            model_path: String::from_str(""),
            n_gpu_layers: None,
            ctx_size: None,
            port: default_port(),
            binary_path: None,
            flash_attn: false,
            cache_type_k: None,
            cache_type_v: None,
            context_shift: false,
            draft_model_path: None,
            draft_n_max: None,
            draft_n_min: None,
            draft_p_min: None,
            draft_n_gpu_layers: None,
            draft_cache_type_k: None,
            draft_cache_type_v: None,
            extra_args: Vec::new(),
        }
    }
}

// ---------------------------------------------------------------------------
// Arguments
// ---------------------------------------------------------------------------

/// A flag with its value, if there is one.
pub open spec fn with_value(flag: Seq<char>, value: Option<Seq<char>>) -> Seq<Seq<char>> {
    match value {
        Some(v) => seq![flag, v],
        None => seq![],
    }
}

/// A flag with a count, if there is one.
pub open spec fn with_count(flag: Seq<char>, value: Option<u32>) -> Seq<Seq<char>> {
    match value {
        Some(n) => seq![flag, decimal(n as nat)],
        None => seq![],
    }
}

/// Some arguments, under a condition.
pub open spec fn args_if(b: bool, args: Seq<Seq<char>>) -> Seq<Seq<char>> {
    if b {
        args
    } else {
        seq![]
    }
}

/// The target's cache has a type of its own.
pub open spec fn main_cache_typed(c: LlamaServerConfig) -> bool {
    c.cache_type_k is Some || c.cache_type_v is Some
}

/// The draft's cache has a type of its own.
pub open spec fn draft_cache_typed(c: LlamaServerConfig) -> bool {
    c.draft_cache_type_k is Some || c.draft_cache_type_v is Some
}

/// What every launch states.
pub open spec fn base_args(c: LlamaServerConfig) -> Seq<Seq<char>> {
    seq![
        "--model"@,
        c.model_path@,
        "--host"@,
        "127.0.0.1"@,
        "--port"@,
        decimal(c.port as nat),
        "--metrics"@,
    ]
}

/// Flash attention for the target: as asked for, or forced on, since a typed cache
/// needs it.
pub open spec fn main_flash_args(c: LlamaServerConfig) -> Seq<Seq<char>> {
    if c.flash_attn {
        seq!["-fa"@]
    } else {
        args_if(main_cache_typed(c), seq!["-fa"@, "on"@])
    }
}

/// What is said of the target.
pub open spec fn main_args(c: LlamaServerConfig) -> Seq<Seq<char>> {
    base_args(c) + with_count("-ngl"@, c.n_gpu_layers) + with_count("-c"@, c.ctx_size)
        + main_flash_args(c) + with_value("-ctk"@, opt_view(c.cache_type_k)) + with_value(
        "-ctv"@,
        opt_view(c.cache_type_v),
    ) + args_if(c.context_shift, seq!["--context-shift"@])
}

/// Flash attention for the draft: forced on where its cache is the only reason.
pub open spec fn draft_flash_args(c: LlamaServerConfig) -> Seq<Seq<char>> {
    args_if(
        draft_cache_typed(c) && !main_cache_typed(c) && !c.flash_attn,
        seq!["-fa"@, "on"@],
    )
}

/// What is said of the draft, if there is one.
pub open spec fn draft_args(c: LlamaServerConfig) -> Seq<Seq<char>> {
    match c.draft_model_path {
        Some(draft) => seq!["--spec-type"@, "draft-simple"@, "--spec-draft-model"@, draft@]
            + with_count("--spec-draft-n-max"@, c.draft_n_max) + with_count(
            "--spec-draft-n-min"@,
            c.draft_n_min,
        ) + with_value("--spec-draft-p-min"@, opt_view(c.draft_p_min)) + with_count(
            "--spec-draft-ngl"@,
            c.draft_n_gpu_layers,
        ) + draft_flash_args(c) + with_value(
            "--spec-draft-type-k"@,
            opt_view(c.draft_cache_type_k),
        ) + with_value("--spec-draft-type-v"@, opt_view(c.draft_cache_type_v)),
        None => seq![],
    }
}

/// The arguments of a launch.
pub open spec fn launch_args(c: LlamaServerConfig) -> Seq<Seq<char>> {
    main_args(c) + draft_args(c) + texts(c.extra_args@)
}

/// Adds a flag with its value, if there is one.
fn push_value(args: &mut Vec<String>, flag: &str, value: &Option<String>)
    ensures
        texts(final(args)@) == texts(old(args)@) + with_value(flag@, opt_view(*value)),
{
    let ghost before = texts(args@);
    if let Some(v) = value {
        push_text(args, flag);
        push_text(args, v.as_str());
    }
    assert(texts(args@) =~= before + with_value(flag@, opt_view(*value)));
}

/// Adds a flag with a count, if there is one.
fn push_count(args: &mut Vec<String>, flag: &str, value: Option<u32>)
    ensures
        texts(final(args)@) == texts(old(args)@) + with_count(flag@, value),
{
    let ghost before = texts(args@);
    if let Some(n) = value {
        push_text(args, flag);
        push_text(args, number(n as u64).as_str());
    }
    assert(texts(args@) =~= before + with_count(flag@, value));
}

/// Adds some arguments.
fn push_all(args: &mut Vec<String>, more: &Vec<String>)
    ensures
        texts(final(args)@) == texts(old(args)@) + texts(more@),
{
    let ghost start = texts(args@);
    assert(start + texts(more@.take(0)) =~= start);
    for i in 0..more.len()
        invariant
            texts(args@) == start + texts(more@.take(i as int)),
    {
        push_text(args, more[i].as_str());
        assert(start + texts(more@.take(i + 1)) =~= (start + texts(more@.take(i as int))).push(
            more@[i as int]@,
        ));
    }
    assert(more@.take(more@.len() as int) =~= more@);
}

/// What every launch states.
fn base_args_of(cfg: &LlamaServerConfig) -> (args: Vec<String>)
    ensures
        texts(args@) == base_args(*cfg),
{
    let mut args: Vec<String> = Vec::new();
    push_text(&mut args, "--model");
    push_text(&mut args, cfg.model_path.as_str());
    push_text(&mut args, "--host");
    push_text(&mut args, "127.0.0.1");
    push_text(&mut args, "--port");
    push_text(&mut args, number(cfg.port as u64).as_str());
    push_text(&mut args, "--metrics");
    assert(texts(args@) =~= base_args(*cfg));
    args
}

/// Adds flash attention for the target.
fn push_main_flash(args: &mut Vec<String>, cfg: &LlamaServerConfig)
    ensures
        texts(final(args)@) == texts(old(args)@) + main_flash_args(*cfg),
{
    let ghost start = texts(args@);
    if cfg.flash_attn {
        push_text(args, "-fa");
    } else if cfg.cache_type_k.is_some() || cfg.cache_type_v.is_some() {
        push_text(args, "-fa");
        push_text(args, "on");
    }
    assert(texts(args@) =~= start + main_flash_args(*cfg));
}

/// Adds the flag for a sliding window.
fn push_shift(args: &mut Vec<String>, shift: bool)
    ensures
        texts(final(args)@) == texts(old(args)@) + args_if(shift, seq!["--context-shift"@]),
{
    let ghost start = texts(args@);
    if shift {
        push_text(args, "--context-shift");
    }
    assert(texts(args@) =~= start + args_if(shift, seq!["--context-shift"@]));
}

/// Adds flash attention for the draft.
fn push_draft_flash(args: &mut Vec<String>, cfg: &LlamaServerConfig)
    ensures
        texts(final(args)@) == texts(old(args)@) + draft_flash_args(*cfg),
{
    let ghost start = texts(args@);
    let draft_typed = cfg.draft_cache_type_k.is_some() || cfg.draft_cache_type_v.is_some();
    let main_typed = cfg.cache_type_k.is_some() || cfg.cache_type_v.is_some();
    if draft_typed && !main_typed && !cfg.flash_attn {
        push_text(args, "-fa");
        push_text(args, "on");
    }
    assert(texts(args@) =~= start + draft_flash_args(*cfg));
}

/// How a draft is announced.
fn draft_head(draft: &str) -> (args: Vec<String>)
    ensures
        texts(args@) == seq!["--spec-type"@, "draft-simple"@, "--spec-draft-model"@, draft@],
{
    let mut args: Vec<String> = Vec::new();
    push_text(&mut args, "--spec-type");
    push_text(&mut args, "draft-simple");
    push_text(&mut args, "--spec-draft-model");
    push_text(&mut args, draft);
    assert(texts(args@) =~= seq![
        "--spec-type"@,
        "draft-simple"@,
        "--spec-draft-model"@,
        draft@,
    ]);
    args
}

/// What is said of the target.
fn main_args_of(cfg: &LlamaServerConfig) -> (args: Vec<String>)
    ensures
        texts(args@) == main_args(*cfg),
{
    let mut args = base_args_of(cfg);
    push_count(&mut args, "-ngl", cfg.n_gpu_layers);
    push_count(&mut args, "-c", cfg.ctx_size);
    push_main_flash(&mut args, cfg);
    push_value(&mut args, "-ctk", &cfg.cache_type_k);
    push_value(&mut args, "-ctv", &cfg.cache_type_v);
    push_shift(&mut args, cfg.context_shift);
    args
}

/// What is said of the draft.
fn draft_args_of(cfg: &LlamaServerConfig) -> (args: Vec<String>)
    ensures
        texts(args@) == draft_args(*cfg),
{
    match &cfg.draft_model_path {
        Some(draft) => {
            let mut args = draft_head(draft.as_str());
            push_count(&mut args, "--spec-draft-n-max", cfg.draft_n_max);
            push_count(&mut args, "--spec-draft-n-min", cfg.draft_n_min);
            push_value(&mut args, "--spec-draft-p-min", &cfg.draft_p_min);
            push_count(&mut args, "--spec-draft-ngl", cfg.draft_n_gpu_layers);
            push_draft_flash(&mut args, cfg);
            push_value(&mut args, "--spec-draft-type-k", &cfg.draft_cache_type_k);
            push_value(&mut args, "--spec-draft-type-v", &cfg.draft_cache_type_v);
            args
        },
        None => {
            let args: Vec<String> = Vec::new();
            assert(texts(args@) =~= draft_args(*cfg));
            args
        },
    }
}

/// The arguments of `llama-server`, without the binary itself.
///
/// A draft model is announced with `--spec-type draft-simple`: without that flag
/// the server loads the draft and never speculates.
pub fn build_args(cfg: &LlamaServerConfig) -> (args: Vec<String>)
    ensures
        texts(args@) == launch_args(*cfg),
{
    let mut args = main_args_of(cfg);
    let draft = draft_args_of(cfg);
    push_all(&mut args, &draft);
    push_all(&mut args, &cfg.extra_args);
    args
}

// ---------------------------------------------------------------------------
// Metrics
// ---------------------------------------------------------------------------

/// What the metrics endpoint says, each value as the decimal number that it
/// stands there as. A value that is absent counts as 0.
#[derive(Debug, Clone)]
pub struct InferenceMetrics {
    pub prompt_tokens_total: Option<String>,
    pub predicted_tokens_total: Option<String>,
    /// Prefill speed, tokens per second.
    pub prompt_tokens_per_sec: Option<String>,
    /// Decode speed, tokens per second.
    pub predicted_tokens_per_sec: Option<String>,
    /// How full the KV cache is, from 0 to 1.
    pub kv_cache_usage_ratio: Option<String>,
    pub kv_cache_tokens: Option<String>,
    pub requests_processing: Option<String>,
}

/// Where the labels of a metrics line end, read on from index `i` inside them: the
/// first closing brace outside quotes. A backslash in quotes takes the character
/// behind it.
pub open spec fn labels_end(t: Seq<char>, i: int, quoted: bool) -> Option<int>
    decreases t.len() - i,
{
    if i < 0 || i >= t.len() {
        None
    } else if quoted && t[i] == '\\' && i + 1 < t.len() {
        labels_end(t, i + 2, true)
    } else if t[i] == '"' {
        labels_end(t, i + 1, !quoted)
    } else if !quoted && t[i] == '}' {
        Some(i)
    } else {
        labels_end(t, i + 1, quoted)
    }
}

/// The first word of a metrics line begins labels: a brace, and the quoted value of
/// a label.
pub open spec fn begins_labels(key: Seq<char>) -> bool {
    occurs(key, "{"@) && occurs(key, "=\""@)
}

/// What follows the name of a metrics line: the rest behind its first word or,
/// where that word begins labels, behind the word in which they end.
pub open spec fn after_name(t: Seq<char>) -> Seq<char> {
    let name = head_of(word(t), "{"@);
    match labels_end(t, name.len() as int + 1, false) {
        Some(i) => if begins_labels(word(t)) {
            after_word(t.skip(i))
        } else {
            after_word(t)
        },
        None => after_word(t),
    }
}

/// The name and the value of a metrics line: its first word without the labels in
/// braces, which may hold blanks, and the word behind it. Comments and shorter
/// lines have none.
pub open spec fn metric_entry(line: Seq<char>) -> Option<(Seq<char>, Seq<char>)> {
    let t = trim(line);
    let key = word(t);
    let value = word(after_name(t));
    if begins(t, "#"@) || key.len() == 0 || value.len() == 0 {
        None
    } else {
        Some((head_of(key, "{"@), value))
    }
}

/// The value that the last of the first `n` lines with this name states.
pub open spec fn last_value(lines: Seq<Seq<char>>, name: Seq<char>, n: int) -> Option<Seq<char>>
    decreases n,
{
    if n <= 0 {
        None
    } else {
        match metric_entry(lines[n - 1]) {
            Some((key, value)) => if key == name {
                Some(value)
            } else {
                last_value(lines, name, n - 1)
            },
            None => last_value(lines, name, n - 1),
        }
    }
}

/// The value of a metric in a response.
pub open spec fn metric(body: Seq<char>, name: Seq<char>) -> Option<Seq<char>> {
    let lines = split(body, seq!['\n']);
    last_value(lines, name, lines.len() as int)
}

/// The end of the labels that begin behind index `brace`.
fn find_labels_end(t: &[char], brace: usize) -> (r: Option<usize>)
    ensures
        match r {
            Some(i) => i < t@.len() && labels_end(t@, brace + 1, false) == Some(i as int),
            None => labels_end(t@, brace + 1, false) is None,
        },
{
    if brace >= t.len() {
        return None;
    }
    let mut i: usize = brace + 1;
    let mut quoted = false;
    while i < t.len()
        invariant
            i <= t@.len(),
            labels_end(t@, brace + 1, false) == labels_end(t@, i as int, quoted),
        decreases t@.len() - i,
    {
        let c = t[i];
        if quoted && c == '\\' && t.len() - i > 1 {
            i = i + 2;
        } else if !quoted && c == '}' {
            return Some(i);
        } else {
            if c == '"' {
                quoted = !quoted;
            }
            i = i + 1;
        }
    }
    None
}

/// `metric_entry`, computed.
fn entry_of(line: &[char]) -> (r: Option<(String, String)>)
    ensures
        match r {
            Some((k, v)) => metric_entry(line@) == Some((k@, v@)),
            None => metric_entry(line@) is None,
        },
{
    let t = trimmed(line);
    if starts_with(t, "#") {
        return None;
    }
    let (key, behind) = next_word(t);
    let brace = chars_of("{");
    let label = chars_of("=\"");
    let name = before(key, brace.as_slice());
    let rest = match find_labels_end(t, name.len()) {
        Some(i) => if contains(key, brace.as_slice()) && contains(key, label.as_slice()) {
            assert(t@.skip(i as int) =~= t@.subrange(i as int, t@.len() as int));
            let (_labels, rest) = next_word(slice_subrange(t, i, t.len()));
            rest
        } else {
            behind
        },
        None => behind,
    };
    let (value, _tail) = next_word(rest);
    if key.len() == 0 || value.len() == 0 {
        return None;
    }
    Some((string_of(name), string_of(value)))
}

/// Takes the value of an entry whose name is `name`.
fn take_value(slot: &mut Option<String>, entry: &Option<(String, String)>, name: &str)
    ensures
        opt_view(*final(slot)) == (match *entry {
            Some((k, v)) => if k@ == name@ {
                Some(v@)
            } else {
                opt_view(*old(slot))
            },
            None => opt_view(*old(slot)),
        }),
{
    if let Some((k, v)) = entry {
        if same(k.as_str(), name) {
            *slot = Some(v.clone());
        }
    }
}

/// `m` holds the values of the first `n` lines.
pub open spec fn holds_metrics(m: InferenceMetrics, lines: Seq<Seq<char>>, n: int) -> bool {
    &&& opt_view(m.prompt_tokens_total) == last_value(lines, "llamacpp:prompt_tokens_total"@, n)
    &&& opt_view(m.predicted_tokens_total) == last_value(
        lines,
        "llamacpp:tokens_predicted_total"@,
        n,
    )
    &&& opt_view(m.prompt_tokens_per_sec) == last_value(
        lines,
        "llamacpp:prompt_tokens_seconds"@,
        n,
    )
    &&& opt_view(m.predicted_tokens_per_sec) == last_value(
        lines,
        "llamacpp:predicted_tokens_seconds"@,
        n,
    )
    &&& opt_view(m.kv_cache_usage_ratio) == last_value(lines, "llamacpp:kv_cache_usage_ratio"@, n)
    &&& opt_view(m.kv_cache_tokens) == last_value(lines, "llamacpp:kv_cache_tokens"@, n)
    &&& opt_view(m.requests_processing) == last_value(lines, "llamacpp:requests_processing"@, n)
}

/// `m` holds the metrics that a response states.
pub open spec fn are_metrics(m: InferenceMetrics, body: Seq<char>) -> bool {
    let lines = split(body, seq!['\n']);
    holds_metrics(m, lines, lines.len() as int)
}

/// Reads the metrics that are shown. Lines are a name and a value; the name may
/// carry labels in braces, and comments begin with `#`.
pub fn parse_metrics(body: &str) -> (m: InferenceMetrics)
    ensures
        are_metrics(m, body@),
        opt_view(m.prompt_tokens_total) == metric(body@, "llamacpp:prompt_tokens_total"@),
        opt_view(m.predicted_tokens_total) == metric(body@, "llamacpp:tokens_predicted_total"@),
        opt_view(m.prompt_tokens_per_sec) == metric(body@, "llamacpp:prompt_tokens_seconds"@),
        opt_view(m.predicted_tokens_per_sec) == metric(
            body@,
            "llamacpp:predicted_tokens_seconds"@,
        ),
        opt_view(m.kv_cache_usage_ratio) == metric(body@, "llamacpp:kv_cache_usage_ratio"@),
        opt_view(m.kv_cache_tokens) == metric(body@, "llamacpp:kv_cache_tokens"@),
        opt_view(m.requests_processing) == metric(body@, "llamacpp:requests_processing"@),
{
    let cs = chars_of(body);
    let mut newline: Vec<char> = Vec::new();
    newline.push('\n');
    assert(newline@ =~= seq!['\n']);
    let lines = pieces(cs.as_slice(), newline.as_slice());
    let ghost all = pieces_view(lines@);
    let mut m = InferenceMetrics {
        prompt_tokens_total: None,
        predicted_tokens_total: None,
        prompt_tokens_per_sec: None,
        predicted_tokens_per_sec: None,
        kv_cache_usage_ratio: None,
        kv_cache_tokens: None,
        requests_processing: None,
    };
    for i in 0..lines.len()
        invariant
            all == pieces_view(lines@),
            holds_metrics(m, all, i as int),
    {
        assert(all[i as int] == lines@[i as int]@);
        let entry = entry_of(lines[i].as_slice());
        take_value(&mut m.prompt_tokens_total, &entry, "llamacpp:prompt_tokens_total");
        take_value(&mut m.predicted_tokens_total, &entry, "llamacpp:tokens_predicted_total");
        take_value(&mut m.prompt_tokens_per_sec, &entry, "llamacpp:prompt_tokens_seconds");
        take_value(&mut m.predicted_tokens_per_sec, &entry, "llamacpp:predicted_tokens_seconds");
        take_value(&mut m.kv_cache_usage_ratio, &entry, "llamacpp:kv_cache_usage_ratio");
        take_value(&mut m.kv_cache_tokens, &entry, "llamacpp:kv_cache_tokens");
        take_value(&mut m.requests_processing, &entry, "llamacpp:requests_processing");
    }
    m
}

// ---------------------------------------------------------------------------
// Binaries
// ---------------------------------------------------------------------------

/// A binary, seen as texts.
pub struct BinaryView {
    pub path: Seq<char>,
    pub label: Seq<char>,
    pub backend: Seq<char>,
    pub source: Seq<char>,
    pub rank: u32,
}

impl View for LlamaBinary {
    type V = BinaryView;

    open spec fn view(&self) -> BinaryView {
        BinaryView {
            path: self.path@,
            label: self.label@,
            backend: self.backend@,
            source: self.source@,
            rank: self.rank,
        }
    }
}

/// A managed runtime: its binary, and what was recorded when it was installed.
#[derive(Debug, Clone)]
pub struct ManagedRuntime {
    pub path: String,
    pub backend: Option<String>,
    pub version: Option<String>,
}

/// A backend folder of LM Studio: its binary and its name.
#[derive(Debug, Clone)]
pub struct BackendFolder {
    pub path: String,
    pub name: String,
}

/// The last segment of a name, between hyphens.
pub open spec fn last_segment(s: Seq<char>) -> Seq<char> {
    split(s, seq!['-']).last()
}

/// Rank, backend and label of a backend folder, from its name and that name in
/// lower case.
pub open spec fn backend_class(name: Seq<char>, low: Seq<char>) -> (u32, Seq<char>, Seq<char>) {
    let version = last_segment(low);
    if occurs(low, "cuda12"@) {
        (420, "cuda"@, "CUDA 12 "@ + version)
    } else if occurs(low, "cuda"@) {
        (400, "cuda"@, "CUDA "@ + version)
    } else if occurs(low, "vulkan"@) {
        (300, "vulkan"@, "Vulkan "@ + version)
    } else if occurs(low, "avx"@) || occurs(low, "cpu"@) {
        (100, "cpu"@, "CPU "@ + version)
    } else {
        (50, "unknown"@, name)
    }
}

/// The last segment of a name.
fn version_of(low: &[char]) -> (s: String)
    ensures
        s@ == last_segment(low@),
{
    let mut hyphen: Vec<char> = Vec::new();
    hyphen.push('-');
    assert(hyphen@ =~= seq!['-']);
    let parts = pieces(low, hyphen.as_slice());
    let n = parts.len();
    assert(pieces_view(parts@).last() == parts@[n - 1]@);
    string_of(parts[n - 1].as_slice())
}

/// A text with another behind it.
fn joined(a: &str, b: &str) -> (s: String)
    ensures
        s@ == a@ + b@,
{
    let mut s = String::from_str(a);
    s.append(b);
    s
}

/// Rank, backend and label of a backend folder whose name in lower case is known.
pub fn classify_lowered(name: &str, low: &str) -> (r: (u32, String, String))
    ensures
        (r.0, r.1@, r.2@) == backend_class(name@, low@),
{
    let cs = chars_of(low);
    let version = version_of(cs.as_slice());
    if str_contains(low, "cuda12") {
        (420, String::from_str("cuda"), joined("CUDA 12 ", version.as_str()))
    } else if str_contains(low, "cuda") {
        (400, String::from_str("cuda"), joined("CUDA ", version.as_str()))
    } else if str_contains(low, "vulkan") {
        (300, String::from_str("vulkan"), joined("Vulkan ", version.as_str()))
    } else if str_contains(low, "avx") || str_contains(low, "cpu") {
        (100, String::from_str("cpu"), joined("CPU ", version.as_str()))
    } else {
        (50, String::from_str("unknown"), String::from_str(name))
    }
}

/// Ranks and labels a backend from the name of its folder.
pub fn classify_backend(dir_name: &str) -> (r: (u32, String, String))
    ensures
        (r.0, r.1@, r.2@) == backend_class(dir_name@, lowercase(dir_name@)),
        is_ascii_text(dir_name@) ==> (r.0, r.1@, r.2@) == backend_class(
            dir_name@,
            lower(dir_name@),
        ),
{
    let low = to_lowercase(dir_name);
    classify_lowered(dir_name, low.as_str())
}

/// What a managed runtime is classified by: its backend and version as recorded,
/// since its folder is named after neither.
pub open spec fn managed_hint(m: ManagedRuntime) -> Seq<char> {
    match (opt_view(m.backend), opt_view(m.version)) {
        (Some(b), Some(v)) => b + "-"@ + v,
        (Some(b), None) => b,
        _ => "unknown"@,
    }
}

/// A managed runtime as a binary. It ranks above an equal build from elsewhere:
/// it was chosen for this machine on purpose.
pub open spec fn managed_binary(m: ManagedRuntime) -> BinaryView {
    let (rank, backend, label) = backend_class(managed_hint(m), lowercase(managed_hint(m)));
    BinaryView {
        path: m.path@,
        label: label + " (managed)"@,
        backend,
        source: "managed"@,
        rank: (rank + 100) as u32,
    }
}

/// A backend folder of LM Studio as a binary.
pub open spec fn folder_binary(f: BackendFolder) -> BinaryView {
    let (rank, backend, label) = backend_class(f.name@, lowercase(f.name@));
    BinaryView {
        path: f.path@,
        label: label + " (LM Studio)"@,
        backend,
        source: "lm-studio"@,
        rank,
    }
}

/// A binary found on PATH.
pub open spec fn path_binary(path: Seq<char>) -> BinaryView {
    BinaryView {
        path,
        label: "llama-server (PATH)"@,
        backend: "unknown"@,
        source: "path"@,
        rank: 250,
    }
}

/// All that was found: the managed runtime, LM Studio's folders, then PATH.
pub open spec fn discovered(
    managed: Option<ManagedRuntime>,
    folders: Seq<BackendFolder>,
    on_path: Seq<String>,
) -> Seq<BinaryView> {
    (match managed {
        Some(m) => seq![managed_binary(m)],
        None => seq![],
    }) + folders.map_values(|f: BackendFolder| folder_binary(f)) + on_path.map_values(
        |s: String| path_binary(s@),
    )
}

/// Which binary is which.
pub open spec fn shows_binary(found: Seq<BinaryView>) -> spec_fn(LlamaBinary, int) -> bool {
    |b: LlamaBinary, i: int| b@ == found[i]
}

/// Higher ranks come first, and of equal ranks the later label.
pub open spec fn best_first() -> spec_fn(LlamaBinary, LlamaBinary) -> bool {
    |a: LlamaBinary, b: LlamaBinary|
        a.rank > b.rank || (a.rank == b.rank && text_below(b.label@, a.label@))
}

/// That order is one.
proof fn lemma_best_first()
    ensures
        is_order(best_first()),
{
    let f = best_first();
    assert forall|a: LlamaBinary, b: LlamaBinary| #[trigger] f(a, b) implies !f(b, a) by {
        lemma_text_order(b.label@, a.label@, a.label@);
    }
    assert forall|a: LlamaBinary, b: LlamaBinary, c: LlamaBinary| #[trigger]
        f(a, b) && !#[trigger] f(c, b) implies f(a, c) by {
        if a.rank == b.rank && b.rank == c.rank {
            lemma_text_order(c.label@, b.label@, a.label@);
            lemma_text_order(b.label@, c.label@, a.label@);
            lemma_text_order(b.label@, a.label@, c.label@);
        }
    }
}

/// `best_first`, computed.
fn comes_first(a: &LlamaBinary, b: &LlamaBinary) -> (r: bool)
    ensures
        r == best_first()(*a, *b),
{
    if a.rank != b.rank {
        return a.rank > b.rank;
    }
    let x = chars_of(a.label.as_str());
    let y = chars_of(b.label.as_str());
    is_text_below(y.as_slice(), x.as_slice())
}

/// `managed_hint`, computed.
fn hint_of(m: &ManagedRuntime) -> (s: String)
    ensures
        s@ == managed_hint(*m),
{
    match (&m.backend, &m.version) {
        (Some(b), Some(v)) => {
            let mut s = b.clone();
            s.append("-");
            s.append(v.as_str());
            s
        },
        (Some(b), None) => b.clone(),
        _ => String::from_str("unknown"),
    }
}

/// A managed runtime as a binary.
fn binary_of_managed(m: &ManagedRuntime) -> (b: LlamaBinary)
    ensures
        b@ == managed_binary(*m),
{
    let hint = hint_of(m);
    let (rank, backend, label) = classify_backend(hint.as_str());
    LlamaBinary {
        path: m.path.clone(),
        label: joined(label.as_str(), " (managed)"),
        backend,
        source: String::from_str("managed"),
        rank: rank + 100,
    }
}

/// A backend folder as a binary.
fn binary_of_folder(f: &BackendFolder) -> (b: LlamaBinary)
    ensures
        b@ == folder_binary(*f),
{
    let (rank, backend, label) = classify_backend(f.name.as_str());
    LlamaBinary {
        path: f.path.clone(),
        label: joined(label.as_str(), " (LM Studio)"),
        backend,
        source: String::from_str("lm-studio"),
        rank,
    }
}

/// A binary found on PATH.
fn binary_of_path(path: &String) -> (b: LlamaBinary)
    ensures
        b@ == path_binary(path@),
{
    LlamaBinary {
        path: path.clone(),
        label: String::from_str("llama-server (PATH)"),
        backend: String::from_str("unknown"),
        source: String::from_str("path"),
        rank: 250,
    }
}

/// Where a binary goes among those that are sorted already.
fn binary_place(sorted: &Vec<LlamaBinary>, b: &LlamaBinary) -> (p: usize)
    ensures
        p <= sorted@.len(),
        forall|k: int| 0 <= k < p ==> !best_first()(*b, #[trigger] sorted@[k]),
        p < sorted@.len() ==> best_first()(*b, sorted@[p as int]),
{
    let mut p: usize = 0;
    while p < sorted.len() && !comes_first(b, &sorted[p])
        invariant
            p <= sorted@.len(),
            forall|k: int| 0 <= k < p ==> !best_first()(*b, #[trigger] sorted@[k]),
        decreases sorted@.len() - p,
    {
        p = p + 1;
    }
    p
}

/// Puts the next binary that was found in its place.
fn add_binary(
    sorted: &mut Vec<LlamaBinary>,
    b: LlamaBinary,
    Ghost(from): Ghost<Seq<int>>,
    Ghost(n): Ghost<int>,
    Ghost(found): Ghost<Seq<BinaryView>>,
) -> (r: Ghost<Seq<int>>)
    requires
        0 <= n < found.len(),
        b@ == found[n],
        is_sorted_pick(old(sorted)@, from, n, every(), shows_binary(found), best_first()),
    ensures
        is_sorted_pick(final(sorted)@, r@, n + 1, every(), shows_binary(found), best_first()),
{
    let p = binary_place(sorted, &b);
    proof {
        lemma_best_first();
        assert(every()(n));
        assert(shows_binary(found)(b, n));
        lemma_insert(
            sorted@,
            from,
            n,
            p as int,
            b,
            every(),
            shows_binary(found),
            best_first(),
        );
    }
    sorted.insert(p, b);
    Ghost(from.insert(p as int, n))
}

/// All `llama-server` binaries that were found, the best first.
pub fn resolve_binaries(
    managed: &Option<ManagedRuntime>,
    folders: &Vec<BackendFolder>,
    on_path: &Vec<String>,
) -> (sorted: Vec<LlamaBinary>)
    ensures
        exists|from: Seq<int>|
            is_sorted_pick(
                sorted@,
                from,
                discovered(*managed, folders@, on_path@).len() as int,
                every(),
                shows_binary(discovered(*managed, folders@, on_path@)),
                best_first(),
            ),
{
    let ghost found = discovered(*managed, folders@, on_path@);
    let mut sorted: Vec<LlamaBinary> = Vec::new();
    let mut from: Ghost<Seq<int>> = Ghost(Seq::empty());
    let ghost mut head: int = 0;
    if let Some(m) = managed {
        let b = binary_of_managed(m);
        from = add_binary(&mut sorted, b, from, Ghost(0), Ghost(found));
        proof {
            head = 1;
        }
    }
    for i in 0..folders.len()
        invariant
            found == discovered(*managed, folders@, on_path@),
            head == (if managed is Some {
                1int
            } else {
                0int
            }),
            is_sorted_pick(
                sorted@,
                from@,
                head + i,
                every(),
                shows_binary(found),
                best_first(),
            ),
    {
        let b = binary_of_folder(&folders[i]);
        from = add_binary(&mut sorted, b, from, Ghost(head + i), Ghost(found));
    }
    for i in 0..on_path.len()
        invariant
            found == discovered(*managed, folders@, on_path@),
            head == (if managed is Some {
                1int
            } else {
                0int
            }),
            is_sorted_pick(
                sorted@,
                from@,
                head + folders@.len() + i,
                every(),
                shows_binary(found),
                best_first(),
            ),
    {
        let b = binary_of_path(&on_path[i]);
        from = add_binary(
            &mut sorted,
            b,
            from,
            Ghost(head + folders@.len() + i),
            Ghost(found),
        );
    }
    assert(is_sorted_pick(
        sorted@,
        from@,
        found.len() as int,
        every(),
        shows_binary(found),
        best_first(),
    ));
    sorted
}

/// A copy of a binary.
fn copy_binary(b: &LlamaBinary) -> (r: LlamaBinary)
    ensures
        r@ == b@,
{
    LlamaBinary {
        path: b.path.clone(),
        label: b.label.clone(),
        backend: b.backend.clone(),
        source: b.source.clone(),
        rank: b.rank,
    }
}

/// The view of an optional binary.
pub open spec fn opt_binary(b: Option<LlamaBinary>) -> Option<BinaryView> {
    match b {
        Some(x) => Some(x@),
        None => None,
    }
}

/// The best of the binaries, listed best first.
pub fn best_binary(binaries: &Vec<LlamaBinary>) -> (r: Option<LlamaBinary>)
    ensures
        opt_binary(r) == (if binaries@.len() > 0 {
            Some(binaries@[0]@)
        } else {
            None
        }),
{
    if binaries.len() > 0 {
        Some(copy_binary(&binaries[0]))
    } else {
        None
    }
}

/// A binary that was named and is not among those found.
pub open spec fn custom_binary(path: Seq<char>) -> BinaryView {
    BinaryView {
        path,
        label: "custom ("@ + path + ")"@,
        backend: "unknown"@,
        source: "path"@,
        rank: 0,
    }
}

/// The first binary, from index `i` on, at this path; letter case is ignored.
pub open spec fn binary_named(binaries: Seq<LlamaBinary>, path: Seq<char>, i: int) -> Option<
    BinaryView,
>
    decreases binaries.len() - i,
{
    if i < 0 || i >= binaries.len() {
        None
    } else if lower(binaries[i].path@) == lower(path) {
        Some(binaries[i]@)
    } else {
        binary_named(binaries, path, i + 1)
    }
}

/// The binary to launch: the one named, where that file exists, or else the best.
pub open spec fn launch_binary(
    named: Option<Seq<char>>,
    named_is_file: bool,
    binaries: Seq<LlamaBinary>,
) -> Option<BinaryView> {
    if named is Some && named_is_file {
        match binary_named(binaries, named->0, 0) {
            Some(b) => Some(b),
            None => Some(custom_binary(named->0)),
        }
    } else if binaries.len() > 0 {
        Some(binaries[0]@)
    } else {
        None
    }
}

/// What to launch.
#[derive(Debug, Clone)]
pub struct LaunchPlan {
    pub binary: LlamaBinary,
    pub args: Vec<String>,
}

/// The binary that a launch names: the configuration's own, or else the saved
/// preference.
pub open spec fn named_binary(cfg: LlamaServerConfig, saved: Option<String>) -> Option<Seq<char>> {
    match cfg.binary_path {
        Some(p) => Some(p@),
        None => opt_view(saved),
    }
}

/// The binary that a launch names.
pub fn preferred_binary(cfg: &LlamaServerConfig, saved: &Option<String>) -> (r: Option<String>)
    ensures
        opt_view(r) == named_binary(*cfg, *saved),
{
    match &cfg.binary_path {
        Some(p) => Some(p.clone()),
        None => clone_opt(saved),
    }
}

/// The binary at a path, if it is among those found.
fn find_binary(binaries: &Vec<LlamaBinary>, path: &str) -> (r: Option<LlamaBinary>)
    ensures
        opt_binary(r) == binary_named(binaries@, path@, 0),
{
    let cs = chars_of(path);
    let want = to_lower(cs.as_slice());
    for i in 0..binaries.len()
        invariant
            want@ == lower(path@),
            binary_named(binaries@, path@, 0) == binary_named(binaries@, path@, i as int),
    {
        let have = chars_of(binaries[i].path.as_str());
        let low = to_lower(have.as_slice());
        if same_chars(low.as_slice(), want.as_slice()) {
            return Some(copy_binary(&binaries[i]));
        }
    }
    None
}

/// Decides what to launch, from what was found on disk.
pub fn plan_launch(
    cfg: &LlamaServerConfig,
    saved: &Option<String>,
    named_is_file: bool,
    binaries: &Vec<LlamaBinary>,
    model_is_file: bool,
) -> (r: Result<LaunchPlan, String>)
    ensures
        match launch_binary(named_binary(*cfg, *saved), named_is_file, binaries@) {
            None => r is Err && r->Err_0@
                == "no llama-server binary found (looked on PATH and in LM Studio backends)"@,
            Some(b) => if model_is_file {
                r is Ok && r->Ok_0.binary@ == b && texts(r->Ok_0.args@) == launch_args(*cfg)
            } else {
                r is Err && r->Err_0@ == "model file not found: "@ + cfg.model_path@
            },
        },
{
    let chosen: Option<LlamaBinary> = match preferred_binary(cfg, saved) {
        Some(p) => {
            if named_is_file {
                match find_binary(binaries, p.as_str()) {
                    Some(b) => Some(b),
                    None => {
                        let mut label = String::from_str("custom (");
                        label.append(p.as_str());
                        label.append(")");
                        Some(
                            LlamaBinary {
                                label,
                                backend: String::from_str("unknown"),
                                source: String::from_str("path"),
                                rank: 0,
                                path: p,
                            },
                        )
                    },
                }
            } else {
                best_binary(binaries)
            }
        },
        None => best_binary(binaries),
    };
    match chosen {
        Some(binary) => {
            if !model_is_file {
                return Err(joined("model file not found: ", cfg.model_path.as_str()));
            }
            Ok(LaunchPlan { binary, args: build_args(cfg) })
        },
        None => Err(
            String::from_str(
                "no llama-server binary found (looked on PATH and in LM Studio backends)",
            ),
        ),
    }
}

// ---------------------------------------------------------------------------
// The server's state
// ---------------------------------------------------------------------------

/// What the manager's state looks like from outside.
#[derive(Debug, Clone)]
pub struct ServerStatus {
    pub running: bool,
    /// "starting", "loading", "ok", "error", "unreachable" or "stopped".
    pub health: String,
    pub pid: Option<u32>,
    pub base_url: Option<String>,
    pub model_path: Option<String>,
    pub binary_label: Option<String>,
    pub uptime_ms: Option<u128>,
    pub error: Option<String>,
}

/// Nothing is running.
pub open spec fn is_stopped(s: ServerStatus) -> bool {
    &&& !s.running
    &&& s.health@ == "stopped"@
    &&& s.pid is None
    &&& s.base_url is None
    &&& s.model_path is None
    &&& s.binary_label is None
    &&& s.uptime_ms is None
    &&& s.error is None
}

impl ServerStatus {
    /// Nothing is running.
    pub fn stopped() -> (s: ServerStatus)
        ensures
            is_stopped(s),
    {
        ServerStatus {
            running: false,
            health: String::from_str("stopped"),
            pid: None,
            base_url: None,
            model_path: None,
            binary_label: None,
            uptime_ms: None,
            error: None,
        }
    }
}

/// A server that was launched.
#[derive(Debug, Clone)]
pub struct RunningServer {
    pub pid: u32,
    pub base_url: String,
    pub model_path: String,
    pub binary_label: String,
}

/// What a probe of the health endpoint met.
#[derive(Debug, Clone, Copy, PartialEq, Eq, Structural)]
pub enum HealthReply {
    /// An answer.
    Answered,
    /// An answer with an error status.
    Refused(u16),
    /// No answer.
    Failed,
}

/// How a health reply is called: 503 means that the model is still loading.
pub open spec fn health_name(h: HealthReply) -> Seq<char> {
    match h {
        HealthReply::Answered => "ok"@,
        HealthReply::Refused(code) => if code == 503 {
            "loading"@
        } else {
            "error"@
        },
        HealthReply::Failed => "unreachable"@,
    }
}

/// `health_name`, computed.
pub fn health_label(h: HealthReply) -> (s: &'static str)
    ensures
        s@ == health_name(h),
{
    match h {
        HealthReply::Answered => "ok",
        HealthReply::Refused(code) => if code == 503 {
            "loading"
        } else {
            "error"
        },
        HealthReply::Failed => "unreachable",
    }
}

/// `s` shows a running server.
pub open spec fn shows_running(
    s: ServerStatus,
    server: RunningServer,
    health: Seq<char>,
    uptime_ms: u128,
) -> bool {
    &&& s.running
    &&& s.health@ == health
    &&& s.pid == Some(server.pid)
    &&& opt_view(s.base_url) == Some(server.base_url@)
    &&& opt_view(s.model_path) == Some(server.model_path@)
    &&& opt_view(s.binary_label) == Some(server.binary_label@)
    &&& s.uptime_ms == Some(uptime_ms)
    &&& s.error is None
}

/// How a running server looks.
pub fn status_of(server: &RunningServer, health: &str, uptime_ms: u128) -> (s: ServerStatus)
    ensures
        shows_running(s, *server, health@, uptime_ms),
{
    ServerStatus {
        running: true,
        health: String::from_str(health),
        pid: Some(server.pid),
        base_url: Some(server.base_url.clone()),
        model_path: Some(server.model_path.clone()),
        binary_label: Some(server.binary_label.clone()),
        uptime_ms: Some(uptime_ms),
        error: None,
    }
}

/// What a look at the server process met.
#[derive(Debug, Clone)]
pub enum Observation {
    /// The process has ended, with this exit status; the tail of its log.
    Exited { exit: String, tail: String },
    /// The process runs, and its health endpoint was probed.
    Alive { reply: HealthReply, uptime_ms: u128 },
}

/// The URL of a server on this machine.
pub open spec fn local_url(port: u16) -> Seq<char> {
    "http://127.0.0.1:"@ + decimal(port as nat)
}

/// The message about a server that ended on its own.
pub open spec fn exit_message(head: Seq<char>, exit: Seq<char>, tail: Seq<char>) -> Seq<char> {
    head + exit + "):\n"@ + tail
}

/// `exit_message`, computed.
fn exit_text(head: &str, exit: &str, tail: &str) -> (s: String)
    ensures
        s@ == exit_message(head@, exit@, tail@),
{
    let mut s = String::from_str(head);
    s.append(exit);
    s.append("):\n");
    s.append(tail);
    s
}

/// The error of a launch whose process ended at once.
pub fn exited_immediately(exit: &str, tail: &str) -> (s: String)
    ensures
        s@ == exit_message("llama-server exited immediately ("@, exit@, tail@),
{
    exit_text("llama-server exited immediately (", exit, tail)
}

/// Keeps track of the one server.
#[derive(Debug)]
pub struct LlamaManager {
    pub server: Option<RunningServer>,
}

/// The server that runs is the one that was launched.
pub open spec fn is_started(
    m: LlamaManager,
    cfg: LlamaServerConfig,
    binary: LlamaBinary,
    pid: u32,
) -> bool {
    &&& m.server is Some
    &&& m.server->0.pid == pid
    &&& m.server->0.base_url@ == local_url(cfg.port)
    &&& m.server->0.model_path@ == cfg.model_path@
    &&& m.server->0.binary_label@ == binary.label@
}

/// `s` is the status after a look at the process, and `after` the manager then.
pub open spec fn is_observed(
    before: LlamaManager,
    after: LlamaManager,
    seen: Observation,
    s: ServerStatus,
) -> bool {
    match (before.server, seen) {
        (None, _) => is_stopped(s) && after.server is None,
        (Some(server), Observation::Exited { exit, tail }) => {
            &&& after.server is None
            &&& !s.running
            &&& s.health@ == "error"@
            &&& opt_view(s.model_path) == Some(server.model_path@)
            &&& opt_view(s.error) == Some(exit_message("llama-server exited ("@, exit@, tail@))
            &&& s.pid is None
            &&& s.base_url is None
            &&& s.binary_label is None
            &&& s.uptime_ms is None
        },
        (Some(server), Observation::Alive { reply, uptime_ms }) => {
            &&& after.server == before.server
            &&& shows_running(s, server, health_name(reply), uptime_ms)
        },
    }
}

impl LlamaManager {
    /// No server yet.
    pub fn new() -> (m: LlamaManager)
        ensures
            m.server is None,
    {
        LlamaManager { server: None }
    }

    /// Records a server that was launched and has survived its first moment. It
    /// takes the place of one that ran before.
    pub fn start(&mut self, cfg: &LlamaServerConfig, binary: &LlamaBinary, pid: u32, uptime_ms: u128) -> (s:
        ServerStatus)
        ensures
            is_started(*final(self), *cfg, *binary, pid),
            shows_running(s, final(self).server->0, "starting"@, uptime_ms),
    {
        let server = RunningServer {
            pid,
            base_url: joined("http://127.0.0.1:", number(cfg.port as u64).as_str()),
            model_path: cfg.model_path.clone(),
            binary_label: binary.label.clone(),
        };
        let s = status_of(&server, "starting", uptime_ms);
        self.server = Some(server);
        s
    }

    /// Forgets the server, and says which one there was to end.
    pub fn stop(&mut self) -> (r: Option<RunningServer>)
        ensures
            final(self).server is None,
            r == old(self).server,
    {
        self.server.take()
    }

    /// Base URL of the running server.
    pub fn base_url(&self) -> (r: Option<String>)
        ensures
            opt_view(r) == (match self.server {
                Some(s) => Some(s.base_url@),
                None => None,
            }),
    {
        match &self.server {
            Some(s) => Some(s.base_url.clone()),
            None => None,
        }
    }

    /// The status after a look at the process. A server that ended on its own is
    /// reported once, with the tail of its log, and then forgotten.
    pub fn status(&mut self, seen: &Observation) -> (s: ServerStatus)
        ensures
            is_observed(*old(self), *final(self), *seen, s),
    {
        let server = match self.server.take() {
            Some(x) => x,
            None => {
                return ServerStatus::stopped();
            },
        };
        match seen {
            Observation::Exited { exit, tail } => {
                let mut st = ServerStatus::stopped();
                st.health = String::from_str("error");
                st.model_path = Some(server.model_path.clone());
                st.error = Some(exit_text("llama-server exited (", exit.as_str(), tail.as_str()));
                st
            },
            Observation::Alive { reply, uptime_ms } => {
                let st = status_of(&server, health_label(*reply), *uptime_ms);
                self.server = Some(server);
                st
            },
        }
    }
}

impl Default for LlamaManager {
    fn default() -> (m: Self)
        ensures
            m.server is None,
    {
        LlamaManager::new()
    }
}

/// Where the last `max_bytes` of a log begin.
pub open spec fn tail_at(len: u64, max_bytes: u64) -> int {
    if len > max_bytes {
        len - max_bytes
    } else {
        0
    }
}

/// Where to begin reading so as to see at most the last `max_bytes` of a log.
pub fn tail_start(len: u64, max_bytes: u64) -> (start: u64)
    ensures
        start as int == tail_at(len, max_bytes),
{
    if len > max_bytes {
        len - max_bytes
    } else {
        0
    }
}

/// Whether a file extension, in any case, is that of a shared library.
pub fn is_library_extension(ext: &str) -> (r: bool)
    ensures
        r == (lower(ext@) == "dll"@ || lower(ext@) == "so"@ || lower(ext@) == "dylib"@),
{
    let cs = chars_of(ext);
    let low = to_lower(cs.as_slice());
    let s = string_of(low.as_slice());
    same(s.as_str(), "dll") || same(s.as_str(), "so") || same(s.as_str(), "dylib")
}

// ---------------------------------------------------------------------------
// Laws
// ---------------------------------------------------------------------------

/// Without a draft model nothing is said of one, whatever the draft fields hold.
pub proof fn law_no_draft_flags_without_a_draft_model(c: LlamaServerConfig)
    requires
        c.draft_model_path is None,
    ensures
        launch_args(c) == main_args(c) + texts(c.extra_args@),
{
    assert(launch_args(c) =~= main_args(c) + texts(c.extra_args@));
}

/// How often a text stands among some arguments.
pub open spec fn occurrences(args: Seq<Seq<char>>, s: Seq<char>) -> nat
    decreases args.len(),
{
    if args.len() == 0 {
        0
    } else {
        occurrences(args.drop_last(), s) + (if args.last() == s {
            1nat
        } else {
            0nat
        })
    }
}

proof fn lemma_occurrences_add(a: Seq<Seq<char>>, b: Seq<Seq<char>>, s: Seq<char>)
    ensures
        occurrences(a + b, s) == occurrences(a, s) + occurrences(b, s),
    decreases b.len(),
{
    if b.len() == 0 {
        assert(a + b =~= a);
    } else {
        lemma_occurrences_add(a, b.drop_last(), s);
        assert((a + b).drop_last() =~= a + b.drop_last());
    }
}

proof fn lemma_occurrences_none(a: Seq<Seq<char>>, s: Seq<char>)
    requires
        forall|i: int| 0 <= i < a.len() ==> #[trigger] a[i] != s,
    ensures
        occurrences(a, s) == 0,
    decreases a.len(),
{
    if a.len() > 0 {
        assert(a.last() == a[a.len() - 1]);
        assert forall|i: int| 0 <= i < a.len() - 1 implies #[trigger] a.drop_last()[i] != s by {
            assert(a[i] != s);
        }
        lemma_occurrences_none(a.drop_last(), s);
    }
}

/// A number is never a flag.
proof fn lemma_number_is_no_flag(n: nat)
    ensures
        decimal(n) != "-fa"@,
{
    reveal_strlit("-fa");
    lemma_decimal_value(n);
    assert(crate::text::is_digit(decimal(n)[0]));
}

/// No text that the caller chose is this one.
pub open spec fn free_of(c: LlamaServerConfig, s: Seq<char>) -> bool {
    &&& c.model_path@ != s
    &&& opt_view(c.cache_type_k) != Some(s)
    &&& opt_view(c.cache_type_v) != Some(s)
    &&& opt_view(c.draft_model_path) != Some(s)
    &&& opt_view(c.draft_p_min) != Some(s)
    &&& opt_view(c.draft_cache_type_k) != Some(s)
    &&& opt_view(c.draft_cache_type_v) != Some(s)
    &&& forall|i: int| 0 <= i < c.extra_args@.len() ==> (#[trigger] c.extra_args@[i])@ != s
}

/// One argument, a pair of arguments and none.
proof fn lemma_occurrences_pair(a: Seq<char>, b: Seq<char>, s: Seq<char>)
    ensures
        occurrences(seq![a], s) == (if a == s {
            1nat
        } else {
            0nat
        }),
        occurrences(seq![a, b], s) == (if a == s {
            1nat
        } else {
            0nat
        }) + (if b == s {
            1nat
        } else {
            0nat
        }),
        occurrences(seq![], s) == 0,
{
    reveal_with_fuel(occurrences, 3);
    assert(seq![a].drop_last() =~= Seq::<Seq<char>>::empty());
    assert(seq![a, b].drop_last() =~= seq![a]);
}

/// A flag with a count, where the flag is another one.
proof fn lemma_other_count(flag: Seq<char>, value: Option<u32>)
    requires
        flag.len() != 3,
    ensures
        occurrences(with_count(flag, value), "-fa"@) == 0,
{
    reveal_strlit("-fa");
    lemma_occurrences_pair(flag, flag, "-fa"@);
    if let Some(n) = value {
        lemma_number_is_no_flag(n as nat);
        lemma_occurrences_pair(flag, decimal(n as nat), "-fa"@);
    }
}

/// A flag with a value, where the flag is another one.
proof fn lemma_other_value(flag: Seq<char>, value: Option<Seq<char>>)
    requires
        flag.len() != 3,
        value != Some("-fa"@),
    ensures
        occurrences(with_value(flag, value), "-fa"@) == 0,
{
    reveal_strlit("-fa");
    lemma_occurrences_pair(flag, flag, "-fa"@);
    if let Some(v) = value {
        lemma_occurrences_pair(flag, v, "-fa"@);
    }
}

/// The flags of counts and values are other flags.
proof fn lemma_plain_flags(c: LlamaServerConfig)
    requires
        free_of(c, "-fa"@),
    ensures
        occurrences(base_args(c), "-fa"@) == 0,
        occurrences(with_count("-ngl"@, c.n_gpu_layers), "-fa"@) == 0,
        occurrences(with_count("-c"@, c.ctx_size), "-fa"@) == 0,
        occurrences(with_value("-ctk"@, opt_view(c.cache_type_k)), "-fa"@) == 0,
        occurrences(with_value("-ctv"@, opt_view(c.cache_type_v)), "-fa"@) == 0,
        occurrences(args_if(c.context_shift, seq!["--context-shift"@]), "-fa"@) == 0,
        occurrences(texts(c.extra_args@), "-fa"@) == 0,
{
    let fa = "-fa"@;
    reveal_strlit("-fa");
    reveal_strlit("--model");
    reveal_strlit("--host");
    reveal_strlit("127.0.0.1");
    reveal_strlit("--port");
    reveal_strlit("--metrics");
    reveal_strlit("-ngl");
    reveal_strlit("-c");
    reveal_strlit("-ctk");
    reveal_strlit("-ctv");
    reveal_strlit("--context-shift");
    lemma_number_is_no_flag(c.port as nat);
    let a = base_args(c);
    assert forall|i: int| 0 <= i < a.len() implies #[trigger] a[i] != fa by {
        assert(i == 0 || i == 1 || i == 2 || i == 3 || i == 4 || i == 5 || i == 6);
        assert(a[0].len() == 7 && a[2].len() == 6 && a[3].len() == 9 && a[4].len() == 6
            && a[6].len() == 9);
    }
    lemma_occurrences_none(a, fa);
    lemma_other_count("-ngl"@, c.n_gpu_layers);
    lemma_other_count("-c"@, c.ctx_size);
    lemma_other_value("-ctk"@, opt_view(c.cache_type_k));
    lemma_other_value("-ctv"@, opt_view(c.cache_type_v));
    assert("--context-shift"@.len() == 15 && fa.len() == 3);
    lemma_occurrences_pair("--context-shift"@, "--context-shift"@, fa);
    assert forall|i: int| 0 <= i < texts(c.extra_args@).len() implies #[trigger] texts(
        c.extra_args@,
    )[i] != fa by {
        assert(c.extra_args@[i]@ != fa);
    }
    lemma_occurrences_none(texts(c.extra_args@), fa);
}

/// The same of the draft.
proof fn lemma_plain_draft_flags(c: LlamaServerConfig, draft: Seq<char>)
    requires
        free_of(c, "-fa"@),
        opt_view(c.draft_model_path) == Some(draft),
    ensures
        occurrences(
            seq!["--spec-type"@, "draft-simple"@, "--spec-draft-model"@, draft],
            "-fa"@,
        ) == 0,
        occurrences(with_count("--spec-draft-n-max"@, c.draft_n_max), "-fa"@) == 0,
        occurrences(with_count("--spec-draft-n-min"@, c.draft_n_min), "-fa"@) == 0,
        occurrences(with_value("--spec-draft-p-min"@, opt_view(c.draft_p_min)), "-fa"@) == 0,
        occurrences(with_count("--spec-draft-ngl"@, c.draft_n_gpu_layers), "-fa"@) == 0,
        occurrences(
            with_value("--spec-draft-type-k"@, opt_view(c.draft_cache_type_k)),
            "-fa"@,
        ) == 0,
        occurrences(
            with_value("--spec-draft-type-v"@, opt_view(c.draft_cache_type_v)),
            "-fa"@,
        ) == 0,
{
    let fa = "-fa"@;
    reveal_strlit("-fa");
    reveal_strlit("--spec-type");
    reveal_strlit("draft-simple");
    reveal_strlit("--spec-draft-model");
    reveal_strlit("--spec-draft-n-max");
    reveal_strlit("--spec-draft-n-min");
    reveal_strlit("--spec-draft-p-min");
    reveal_strlit("--spec-draft-ngl");
    reveal_strlit("--spec-draft-type-k");
    reveal_strlit("--spec-draft-type-v");
    let a = seq!["--spec-type"@, "draft-simple"@, "--spec-draft-model"@, draft];
    assert forall|i: int| 0 <= i < a.len() implies #[trigger] a[i] != fa by {
        assert(i == 0 || i == 1 || i == 2 || i == 3);
        assert(a[0].len() == 11 && a[1].len() == 12 && a[2].len() == 18);
    }
    lemma_occurrences_none(a, fa);
    lemma_other_count("--spec-draft-n-max"@, c.draft_n_max);
    lemma_other_count("--spec-draft-n-min"@, c.draft_n_min);
    lemma_other_value("--spec-draft-p-min"@, opt_view(c.draft_p_min));
    lemma_other_count("--spec-draft-ngl"@, c.draft_n_gpu_layers);
    lemma_other_value("--spec-draft-type-k"@, opt_view(c.draft_cache_type_k));
    lemma_other_value("--spec-draft-type-v"@, opt_view(c.draft_cache_type_v));
}

/// How often flash attention is passed for the target.
proof fn lemma_main_flash(c: LlamaServerConfig)
    requires
        free_of(c, "-fa"@),
    ensures
        occurrences(main_args(c), "-fa"@) == (if c.flash_attn || main_cache_typed(c) {
            1nat
        } else {
            0nat
        }),
{
    let fa = "-fa"@;
    let a = base_args(c);
    let b = with_count("-ngl"@, c.n_gpu_layers);
    let d = with_count("-c"@, c.ctx_size);
    let e = main_flash_args(c);
    let f = with_value("-ctk"@, opt_view(c.cache_type_k));
    let g = with_value("-ctv"@, opt_view(c.cache_type_v));
    let h = args_if(c.context_shift, seq!["--context-shift"@]);
    lemma_plain_flags(c);
    reveal_strlit("-fa");
    reveal_strlit("on");
    assert("on"@.len() == 2 && fa.len() == 3);
    lemma_occurrences_pair("-fa"@, "on"@, fa);
    lemma_occurrences_add(a, b, fa);
    lemma_occurrences_add(a + b, d, fa);
    lemma_occurrences_add(a + b + d, e, fa);
    lemma_occurrences_add(a + b + d + e, f, fa);
    lemma_occurrences_add(a + b + d + e + f, g, fa);
    lemma_occurrences_add(a + b + d + e + f + g, h, fa);
}

/// How often flash attention is passed for the draft.
proof fn lemma_draft_flash(c: LlamaServerConfig)
    requires
        free_of(c, "-fa"@),
    ensures
        occurrences(draft_args(c), "-fa"@) == (if c.draft_model_path is Some && draft_cache_typed(
            c,
        ) && !main_cache_typed(c) && !c.flash_attn {
            1nat
        } else {
            0nat
        }),
{
    let fa = "-fa"@;
    if let Some(draft) = c.draft_model_path {
        let a = seq!["--spec-type"@, "draft-simple"@, "--spec-draft-model"@, draft@];
        let b = with_count("--spec-draft-n-max"@, c.draft_n_max);
        let d = with_count("--spec-draft-n-min"@, c.draft_n_min);
        let e = with_value("--spec-draft-p-min"@, opt_view(c.draft_p_min));
        let f = with_count("--spec-draft-ngl"@, c.draft_n_gpu_layers);
        let g = draft_flash_args(c);
        let h = with_value("--spec-draft-type-k"@, opt_view(c.draft_cache_type_k));
        let i = with_value("--spec-draft-type-v"@, opt_view(c.draft_cache_type_v));
        lemma_plain_draft_flags(c, draft@);
        reveal_strlit("-fa");
        reveal_strlit("on");
        assert("on"@.len() == 2 && fa.len() == 3);
        lemma_occurrences_pair("-fa"@, "on"@, fa);
        lemma_occurrences_add(a, b, fa);
        lemma_occurrences_add(a + b, d, fa);
        lemma_occurrences_add(a + b + d, e, fa);
        lemma_occurrences_add(a + b + d + e, f, fa);
        lemma_occurrences_add(a + b + d + e + f, g, fa);
        lemma_occurrences_add(a + b + d + e + f + g, h, fa);
        lemma_occurrences_add(a + b + d + e + f + g + h, i, fa);
    } else {
        lemma_occurrences_none(draft_args(c), fa);
    }
}

/// Flash attention is passed once where it is asked for or a typed cache of the
/// target or of a draft needs it, and otherwise not at all, as long as the caller
/// passes no such flag.
pub proof fn law_flash_attention_is_passed_once(c: LlamaServerConfig)
    requires
        free_of(c, "-fa"@),
    ensures
        occurrences(launch_args(c), "-fa"@) == (if c.flash_attn || main_cache_typed(c) || (
        c.draft_model_path is Some && draft_cache_typed(c)) {
            1nat
        } else {
            0nat
        }),
{
    lemma_main_flash(c);
    lemma_draft_flash(c);
    lemma_plain_flags(c);
    lemma_occurrences_add(main_args(c), draft_args(c), "-fa"@);
    lemma_occurrences_add(main_args(c) + draft_args(c), texts(c.extra_args@), "-fa"@);
}

/// CUDA builds rank above Vulkan builds, and those above CPU builds.
pub proof fn law_cuda_over_vulkan_over_cpu(
    cuda: Seq<char>,
    vulkan: Seq<char>,
    cpu: Seq<char>,
    cuda_name: Seq<char>,
    vulkan_name: Seq<char>,
    cpu_name: Seq<char>,
)
    requires
        backend_class(cuda_name, cuda).1 == "cuda"@,
        backend_class(vulkan_name, vulkan).1 == "vulkan"@,
        backend_class(cpu_name, cpu).1 == "cpu"@,
    ensures
        backend_class(cuda_name, cuda).0 > backend_class(vulkan_name, vulkan).0,
        backend_class(vulkan_name, vulkan).0 > backend_class(cpu_name, cpu).0,
{
    reveal_strlit("cuda");
    reveal_strlit("vulkan");
    reveal_strlit("cpu");
    reveal_strlit("unknown");
    assert("cuda"@.len() == 4 && "vulkan"@.len() == 6 && "cpu"@.len() == 3 && "unknown"@.len() == 7);
}

/// A managed runtime ranks above every build of the same backend from LM Studio.
pub proof fn law_managed_runtime_is_preferred(m: ManagedRuntime, f: BackendFolder)
    requires
        managed_binary(m).backend == folder_binary(f).backend,
    ensures
        managed_binary(m).rank > folder_binary(f).rank,
{
    reveal_strlit("cuda");
    reveal_strlit("vulkan");
    reveal_strlit("cpu");
    reveal_strlit("unknown");
    assert("cuda"@.len() == 4 && "vulkan"@.len() == 6 && "cpu"@.len() == 3 && "unknown"@.len() == 7);
}

/// The first of the binaries is the best: none of them comes before it.
pub proof fn law_best_binary_comes_first(
    sorted: Seq<LlamaBinary>,
    from: Seq<int>,
    found: Seq<BinaryView>,
    k: int,
)
    requires
        is_sorted_pick(
            sorted,
            from,
            found.len() as int,
            every(),
            shows_binary(found),
            best_first(),
        ),
        0 <= k < sorted.len(),
    ensures
        !best_first()(sorted[k], sorted[0]),
        sorted[k].rank <= sorted[0].rank,
        sorted.len() == found.len(),
{
    lemma_best_first();
    if k > 0 {
        assert(placed(sorted, from, best_first(), 0, k));
    } else if best_first()(sorted[0], sorted[0]) {
        assert(!best_first()(sorted[0], sorted[0]));
    }
    crate::order::lemma_pick_of_every(sorted, from, found.len() as int, shows_binary(found), best_first());
}

/// A flag is passed with this value directly behind it.
#[verifier::opaque]
pub open spec fn passes(args: Seq<Seq<char>>, flag: Seq<char>, value: Seq<char>) -> bool {
    exists|i: int| 0 <= i && i + 1 < args.len() && #[trigger] args[i] == flag && args[i + 1] == value
}

/// What is passed stays passed, whatever stands before or behind it.
proof fn lemma_passes_sum(a: Seq<Seq<char>>, b: Seq<Seq<char>>)
    ensures
        forall|flag: Seq<char>, value: Seq<char>|
            passes(a, flag, value) || passes(b, flag, value) ==> #[trigger] passes(
                a + b,
                flag,
                value,
            ),
        forall|x: Seq<char>| a.contains(x) || b.contains(x) ==> #[trigger] (a + b).contains(x),
{
    reveal(passes);
    assert forall|flag: Seq<char>, value: Seq<char>|
        passes(a, flag, value) || passes(b, flag, value) implies #[trigger] passes(
        a + b,
        flag,
        value,
    ) by {
        let all = a + b;
        if passes(a, flag, value) {
            let i = choose|i: int|
                0 <= i && i + 1 < a.len() && #[trigger] a[i] == flag && a[i + 1] == value;
            assert(all[i] == flag && all[i + 1] == value);
        } else {
            let i = choose|i: int|
                0 <= i && i + 1 < b.len() && #[trigger] b[i] == flag && b[i + 1] == value;
            assert(all[a.len() + i] == b[i] && all[a.len() + i + 1] == b[i + 1]);
        }
    }
    assert forall|x: Seq<char>| a.contains(x) || b.contains(x) implies #[trigger] (a + b).contains(
        x,
    ) by {
        let all = a + b;
        if a.contains(x) {
            let i = choose|i: int| 0 <= i < a.len() && a[i] == x;
            assert(all[i] == x);
        } else {
            let i = choose|i: int| 0 <= i < b.len() && b[i] == x;
            assert(all[a.len() + i] == x);
        }
    }
}

/// A pair passes itself.
proof fn lemma_pair_passes(flag: Seq<char>, value: Seq<char>)
    ensures
        passes(seq![flag, value], flag, value),
{
    reveal(passes);
    let p = seq![flag, value];
    assert(p[0] == flag && p[1] == value);
}

/// Every launch names the model, this machine as the host, the configured port and
/// the metrics endpoint, each value directly behind its flag.
pub proof fn law_launch_names_model_and_port(c: LlamaServerConfig)
    ensures
        ({
            let args = launch_args(c);
            &&& args.len() >= 7
            &&& args[0] == "--model"@ && args[1] == c.model_path@
            &&& args[2] == "--host"@ && args[3] == "127.0.0.1"@
            &&& args[4] == "--port"@ && args[5] == decimal(c.port as nat)
            &&& args[6] == "--metrics"@
        }),
{
    let b = base_args(c);
    let args = launch_args(c);
    assert(b.len() == 7);
    assert forall|i: int| 0 <= i < 7 implies #[trigger] args[i] == b[i] by {}
}

/// The server is reached where it listens: the address and the port in its base URL
/// are those in its arguments.
pub proof fn law_server_is_reached_where_it_listens(c: LlamaServerConfig)
    ensures
        local_url(c.port) == "http://"@ + launch_args(c)[3] + ":"@ + launch_args(c)[5],
        digits_value(launch_args(c)[5]) == c.port,
{
    law_launch_names_model_and_port(c);
    lemma_decimal_value(c.port as nat);
    reveal_strlit("http://127.0.0.1:");
    reveal_strlit("http://");
    reveal_strlit("127.0.0.1");
    reveal_strlit(":");
    assert("http://127.0.0.1:"@ =~= "http://"@ + "127.0.0.1"@ + ":"@);
    assert(local_url(c.port) =~= "http://"@ + "127.0.0.1"@ + ":"@ + decimal(c.port as nat));
}

/// Launches with different ports or models are different.
pub proof fn law_launches_tell_ports_and_models_apart(a: LlamaServerConfig, b: LlamaServerConfig)
    requires
        launch_args(a) == launch_args(b),
    ensures
        a.port == b.port,
        a.model_path@ == b.model_path@,
{
    law_launch_names_model_and_port(a);
    law_launch_names_model_and_port(b);
    lemma_decimal_injective(a.port as nat, b.port as nat);
}

/// Each setting of the target that is given is passed with its flag: the GPU
/// layers, the context, the types of the two caches and the sliding window.
pub proof fn law_target_settings_are_passed(c: LlamaServerConfig)
    ensures
        c.n_gpu_layers is Some ==> passes(
            launch_args(c),
            "-ngl"@,
            decimal(c.n_gpu_layers->0 as nat),
        ),
        c.ctx_size is Some ==> passes(launch_args(c), "-c"@, decimal(c.ctx_size->0 as nat)),
        c.cache_type_k is Some ==> passes(launch_args(c), "-ctk"@, c.cache_type_k->0@),
        c.cache_type_v is Some ==> passes(launch_args(c), "-ctv"@, c.cache_type_v->0@),
        c.context_shift ==> launch_args(c).contains("--context-shift"@),
        !c.flash_attn && (c.cache_type_k is Some || c.cache_type_v is Some) ==> passes(
            launch_args(c),
            "-fa"@,
            "on"@,
        ),
        c.flash_attn ==> launch_args(c).contains("-fa"@),
{
    let a = base_args(c);
    let b = with_count("-ngl"@, c.n_gpu_layers);
    let d = with_count("-c"@, c.ctx_size);
    let e = main_flash_args(c);
    let f = with_value("-ctk"@, opt_view(c.cache_type_k));
    let g = with_value("-ctv"@, opt_view(c.cache_type_v));
    let h = args_if(c.context_shift, seq!["--context-shift"@]);
    lemma_passes_sum(a, b);
    lemma_passes_sum(a + b, d);
    lemma_passes_sum(a + b + d, e);
    lemma_passes_sum(a + b + d + e, f);
    lemma_passes_sum(a + b + d + e + f, g);
    lemma_passes_sum(a + b + d + e + f + g, h);
    lemma_passes_sum(main_args(c), draft_args(c));
    lemma_passes_sum(main_args(c) + draft_args(c), texts(c.extra_args@));
    if let Some(n) = c.n_gpu_layers {
        lemma_pair_passes("-ngl"@, decimal(n as nat));
    }
    if let Some(n) = c.ctx_size {
        lemma_pair_passes("-c"@, decimal(n as nat));
    }
    if let Some(k) = c.cache_type_k {
        lemma_pair_passes("-ctk"@, k@);
    }
    if let Some(v) = c.cache_type_v {
        lemma_pair_passes("-ctv"@, v@);
    }
    lemma_pair_passes("-fa"@, "on"@);
    if c.context_shift {
        assert(h[0] == "--context-shift"@);
        assert(h.contains("--context-shift"@));
    }
    if c.flash_attn {
        assert(e[0] == "-fa"@);
        assert(e.contains("-fa"@));
    }
}

/// With a draft model each setting of the draft that is given is passed with its
/// flag, behind the kind of speculation and the model itself.
pub proof fn law_draft_settings_are_passed(c: LlamaServerConfig)
    requires
        c.draft_model_path is Some,
    ensures
        passes(launch_args(c), "--spec-type"@, "draft-simple"@),
        passes(launch_args(c), "--spec-draft-model"@, c.draft_model_path->0@),
        c.draft_n_max is Some ==> passes(
            launch_args(c),
            "--spec-draft-n-max"@,
            decimal(c.draft_n_max->0 as nat),
        ),
        c.draft_n_min is Some ==> passes(
            launch_args(c),
            "--spec-draft-n-min"@,
            decimal(c.draft_n_min->0 as nat),
        ),
        c.draft_p_min is Some ==> passes(
            launch_args(c),
            "--spec-draft-p-min"@,
            c.draft_p_min->0@,
        ),
        c.draft_n_gpu_layers is Some ==> passes(
            launch_args(c),
            "--spec-draft-ngl"@,
            decimal(c.draft_n_gpu_layers->0 as nat),
        ),
        c.draft_cache_type_k is Some ==> passes(
            launch_args(c),
            "--spec-draft-type-k"@,
            c.draft_cache_type_k->0@,
        ),
        c.draft_cache_type_v is Some ==> passes(
            launch_args(c),
            "--spec-draft-type-v"@,
            c.draft_cache_type_v->0@,
        ),
        !c.flash_attn && c.cache_type_k is None && c.cache_type_v is None && (c.draft_cache_type_k
            is Some || c.draft_cache_type_v is Some) ==> passes(launch_args(c), "-fa"@, "on"@),
{
    let draft = c.draft_model_path->0@;
    let a = seq!["--spec-type"@, "draft-simple"@, "--spec-draft-model"@, draft];
    let b = with_count("--spec-draft-n-max"@, c.draft_n_max);
    let d = with_count("--spec-draft-n-min"@, c.draft_n_min);
    let e = with_value("--spec-draft-p-min"@, opt_view(c.draft_p_min));
    let f = with_count("--spec-draft-ngl"@, c.draft_n_gpu_layers);
    let g = draft_flash_args(c);
    let h = with_value("--spec-draft-type-k"@, opt_view(c.draft_cache_type_k));
    let i = with_value("--spec-draft-type-v"@, opt_view(c.draft_cache_type_v));
    lemma_passes_sum(a, b);
    lemma_passes_sum(a + b, d);
    lemma_passes_sum(a + b + d, e);
    lemma_passes_sum(a + b + d + e, f);
    lemma_passes_sum(a + b + d + e + f, g);
    lemma_passes_sum(a + b + d + e + f + g, h);
    lemma_passes_sum(a + b + d + e + f + g + h, i);
    lemma_passes_sum(main_args(c), draft_args(c));
    lemma_passes_sum(main_args(c) + draft_args(c), texts(c.extra_args@));
    assert(passes(a, "--spec-type"@, "draft-simple"@) && passes(a, "--spec-draft-model"@, draft))
        by {
        reveal(passes);
        assert(a[0] == "--spec-type"@ && a[1] == "draft-simple"@);
        assert(a[2] == "--spec-draft-model"@ && a[3] == draft);
    }
    if let Some(n) = c.draft_n_max {
        lemma_pair_passes("--spec-draft-n-max"@, decimal(n as nat));
    }
    if let Some(n) = c.draft_n_min {
        lemma_pair_passes("--spec-draft-n-min"@, decimal(n as nat));
    }
    if let Some(p) = c.draft_p_min {
        lemma_pair_passes("--spec-draft-p-min"@, p@);
    }
    if let Some(n) = c.draft_n_gpu_layers {
        lemma_pair_passes("--spec-draft-ngl"@, decimal(n as nat));
    }
    lemma_pair_passes("-fa"@, "on"@);
    if let Some(k) = c.draft_cache_type_k {
        lemma_pair_passes("--spec-draft-type-k"@, k@);
    }
    if let Some(v) = c.draft_cache_type_v {
        lemma_pair_passes("--spec-draft-type-v"@, v@);
    }
}

/// `n` where it is so, and 0 otherwise.
pub open spec fn counted(b: bool, n: int) -> int {
    if b {
        n
    } else {
        0
    }
}

/// Nothing else is passed: the arguments are as many as the settings that are given
/// take, and the caller's own come last, as they are.
pub proof fn law_nothing_else_is_passed(c: LlamaServerConfig)
    ensures
        launch_args(c).len() == 7 + counted(c.n_gpu_layers is Some, 2) + counted(
            c.ctx_size is Some,
            2,
        ) + counted(c.flash_attn, 1) + counted(
            !c.flash_attn && (c.cache_type_k is Some || c.cache_type_v is Some),
            2,
        ) + counted(c.cache_type_k is Some, 2) + counted(c.cache_type_v is Some, 2) + counted(
            c.context_shift,
            1,
        ) + counted(
            c.draft_model_path is Some,
            4 + counted(c.draft_n_max is Some, 2) + counted(c.draft_n_min is Some, 2) + counted(
                c.draft_p_min is Some,
                2,
            ) + counted(c.draft_n_gpu_layers is Some, 2) + counted(
                (c.draft_cache_type_k is Some || c.draft_cache_type_v is Some) && c.cache_type_k
                    is None && c.cache_type_v is None && !c.flash_attn,
                2,
            ) + counted(c.draft_cache_type_k is Some, 2) + counted(c.draft_cache_type_v is Some, 2),
        ) + c.extra_args@.len(),
        forall|i: int|
            0 <= i < c.extra_args@.len() ==> launch_args(c)[launch_args(c).len()
                - c.extra_args@.len() + i] == (#[trigger] c.extra_args@[i])@,
{
    let m = main_args(c) + draft_args(c);
    assert(launch_args(c) == m + texts(c.extra_args@));
    assert(texts(c.extra_args@).len() == c.extra_args@.len());
    lemma_main_count(c);
    lemma_draft_count(c);
    assert forall|i: int| 0 <= i < c.extra_args@.len() implies launch_args(c)[launch_args(c).len()
        - c.extra_args@.len() + i] == (#[trigger] c.extra_args@[i])@ by {
        assert(texts(c.extra_args@)[i] == c.extra_args@[i]@);
    }
}

/// How many arguments the target takes.
proof fn lemma_main_count(c: LlamaServerConfig)
    ensures
        main_args(c).len() == 7 + counted(c.n_gpu_layers is Some, 2) + counted(
            c.ctx_size is Some,
            2,
        ) + counted(c.flash_attn, 1) + counted(
            !c.flash_attn && (c.cache_type_k is Some || c.cache_type_v is Some),
            2,
        ) + counted(c.cache_type_k is Some, 2) + counted(c.cache_type_v is Some, 2) + counted(
            c.context_shift,
            1,
        ),
{
    assert(base_args(c).len() == 7);
    assert(with_count("-ngl"@, c.n_gpu_layers).len() == counted(c.n_gpu_layers is Some, 2));
    assert(with_count("-c"@, c.ctx_size).len() == counted(c.ctx_size is Some, 2));
    assert(main_flash_args(c).len() == counted(c.flash_attn, 1) + counted(
        !c.flash_attn && (c.cache_type_k is Some || c.cache_type_v is Some),
        2,
    ));
    assert(with_value("-ctk"@, opt_view(c.cache_type_k)).len() == counted(
        c.cache_type_k is Some,
        2,
    ));
    assert(with_value("-ctv"@, opt_view(c.cache_type_v)).len() == counted(
        c.cache_type_v is Some,
        2,
    ));
    assert(args_if(c.context_shift, seq!["--context-shift"@]).len() == counted(c.context_shift, 1));
}

/// How many arguments the draft takes.
proof fn lemma_draft_count(c: LlamaServerConfig)
    ensures
        draft_args(c).len() == counted(
            c.draft_model_path is Some,
            4 + counted(c.draft_n_max is Some, 2) + counted(c.draft_n_min is Some, 2) + counted(
                c.draft_p_min is Some,
                2,
            ) + counted(c.draft_n_gpu_layers is Some, 2) + counted(
                (c.draft_cache_type_k is Some || c.draft_cache_type_v is Some) && c.cache_type_k
                    is None && c.cache_type_v is None && !c.flash_attn,
                2,
            ) + counted(c.draft_cache_type_k is Some, 2) + counted(c.draft_cache_type_v is Some, 2),
        ),
{
    if c.draft_model_path is Some {
        assert(with_count("--spec-draft-n-max"@, c.draft_n_max).len() == counted(
            c.draft_n_max is Some,
            2,
        ));
        assert(with_count("--spec-draft-n-min"@, c.draft_n_min).len() == counted(
            c.draft_n_min is Some,
            2,
        ));
        assert(with_value("--spec-draft-p-min"@, opt_view(c.draft_p_min)).len() == counted(
            c.draft_p_min is Some,
            2,
        ));
        assert(with_count("--spec-draft-ngl"@, c.draft_n_gpu_layers).len() == counted(
            c.draft_n_gpu_layers is Some,
            2,
        ));
        assert(draft_flash_args(c).len() == counted(
            (c.draft_cache_type_k is Some || c.draft_cache_type_v is Some) && c.cache_type_k is None
                && c.cache_type_v is None && !c.flash_attn,
            2,
        ));
        assert(with_value("--spec-draft-type-k"@, opt_view(c.draft_cache_type_k)).len() == counted(
            c.draft_cache_type_k is Some,
            2,
        ));
        assert(with_value("--spec-draft-type-v"@, opt_view(c.draft_cache_type_v)).len() == counted(
            c.draft_cache_type_v is Some,
            2,
        ));
    }
}

/// How a folder's name tells its backend, in lower case: CUDA 12 before any other
/// CUDA, then Vulkan, then a CPU build; what names none of them is unknown.
pub proof fn law_backends_are_told_by_name(name: Seq<char>, low: Seq<char>)
    ensures
        ({
            let (rank, backend, label) = backend_class(name, low);
            let cuda12 = occurs(low, "cuda12"@);
            let cuda = occurs(low, "cuda"@);
            let vulkan = occurs(low, "vulkan"@);
            let cpu = occurs(low, "avx"@) || occurs(low, "cpu"@);
            &&& cuda12 ==> rank == 420 && backend == "cuda"@
            &&& !cuda12 && cuda ==> rank == 400 && backend == "cuda"@
            &&& !cuda12 && !cuda && vulkan ==> rank == 300 && backend == "vulkan"@
            &&& !cuda12 && !cuda && !vulkan && cpu ==> rank == 100 && backend == "cpu"@
            &&& !cuda12 && !cuda && !vulkan && !cpu ==> rank == 50 && backend == "unknown"@ && label
                == name
        }),
{
}

/// The label of a known backend ends with the version: what stands behind the last
/// hyphen of the name.
pub proof fn law_labels_end_with_the_version(
    name: Seq<char>,
    lead: Seq<char>,
    version: Seq<char>,
)
    requires
        forall|i: int| 0 <= i < version.len() ==> #[trigger] version[i] != '-',
    ensures
        ({
            let low = lead + seq!['-'] + version;
            let (rank, backend, label) = backend_class(name, low);
            &&& occurs(low, "cuda12"@) ==> label == "CUDA 12 "@ + version
            &&& !occurs(low, "cuda12"@) && occurs(low, "cuda"@) ==> label == "CUDA "@ + version
            &&& backend == "vulkan"@ ==> label == "Vulkan "@ + version
            &&& backend == "cpu"@ ==> label == "CPU "@ + version
        }),
{
    lemma_last_segment(lead, version);
    reveal_strlit("cuda");
    reveal_strlit("vulkan");
    reveal_strlit("cpu");
    reveal_strlit("unknown");
    assert("cuda"@.len() == 4 && "vulkan"@.len() == 6 && "cpu"@.len() == 3 && "unknown"@.len() == 7);
}

/// The last segment is what stands behind the last hyphen.
proof fn lemma_last_segment(lead: Seq<char>, version: Seq<char>)
    requires
        forall|i: int| 0 <= i < version.len() ==> #[trigger] version[i] != '-',
    ensures
        last_segment(lead + seq!['-'] + version) == version,
        split(lead + seq!['-'] + version, seq!['-']).len() > 0,
    decreases version.len(),
{
    let s = lead + seq!['-'] + version;
    let set = seq!['-'];
    assert(set[0] == '-');
    if version.len() == 0 {
        assert(s.last() == '-');
        assert(set.contains(s.last()));
        assert(split(s, set).last() =~= version);
    } else {
        let v = version.drop_last();
        assert forall|i: int| 0 <= i < v.len() implies #[trigger] v[i] != '-' by {
            assert(version[i] != '-');
        }
        lemma_last_segment(lead, v);
        assert(s.drop_last() =~= lead + seq!['-'] + v);
        assert(s.last() == version[version.len() - 1]);
        assert(!set.contains(s.last()));
        assert(v.push(version.last()) =~= version);
    }
}

/// Every binary that was found is listed once: the managed runtime, each backend
/// folder and each place on PATH, with its own path and what it came from.
pub proof fn law_every_binary_is_listed(
    sorted: Seq<LlamaBinary>,
    from: Seq<int>,
    managed: Option<ManagedRuntime>,
    folders: Seq<BackendFolder>,
    on_path: Seq<String>,
    i: int,
)
    requires
        is_sorted_pick(
            sorted,
            from,
            discovered(managed, folders, on_path).len() as int,
            every(),
            shows_binary(discovered(managed, folders, on_path)),
            best_first(),
        ),
    ensures
        sorted.len() == (if managed is Some {
            1int
        } else {
            0int
        }) + folders.len() + on_path.len(),
        managed is Some ==> exists|k: int|
            0 <= k < sorted.len() && (#[trigger] sorted[k]).path@ == managed->0.path@
                && sorted[k].source@ == "managed"@,
        0 <= i < folders.len() ==> exists|k: int|
            {
                &&& 0 <= k < sorted.len()
                &&& (#[trigger] sorted[k]).path@ == folders[i].path@
                &&& sorted[k].source@ == "lm-studio"@
                &&& sorted[k].rank == backend_class(folders[i].name@, lowercase(folders[i].name@)).0
                &&& sorted[k].backend@ == backend_class(
                    folders[i].name@,
                    lowercase(folders[i].name@),
                ).1
                &&& sorted[k].label@ == backend_class(
                    folders[i].name@,
                    lowercase(folders[i].name@),
                ).2 + " (LM Studio)"@
            },
        0 <= i < on_path.len() ==> exists|k: int|
            {
                &&& 0 <= k < sorted.len()
                &&& (#[trigger] sorted[k]).path@ == on_path[i]@
                &&& sorted[k].source@ == "path"@
                &&& sorted[k].backend@ == "unknown"@
                &&& sorted[k].label@ == "llama-server (PATH)"@
                &&& sorted[k].rank == 250
            },
{
    let found = discovered(managed, folders, on_path);
    let head: int = if managed is Some {
        1
    } else {
        0
    };
    crate::order::lemma_pick_of_every(
        sorted,
        from,
        found.len() as int,
        shows_binary(found),
        best_first(),
    );
    if managed is Some {
        lemma_listed(sorted, from, found, 0);
    }
    if 0 <= i < folders.len() {
        lemma_listed(sorted, from, found, head + i);
        assert(found[head + i] == folder_binary(folders[i]));
    }
    if 0 <= i < on_path.len() {
        lemma_listed(sorted, from, found, head + folders.len() + i);
        assert(found[head + folders.len() + i] == path_binary(on_path[i]@));
    }
}

/// What was found is listed.
proof fn lemma_listed(
    sorted: Seq<LlamaBinary>,
    from: Seq<int>,
    found: Seq<BinaryView>,
    i: int,
)
    requires
        is_sorted_pick(
            sorted,
            from,
            found.len() as int,
            every(),
            shows_binary(found),
            best_first(),
        ),
        0 <= i < found.len(),
    ensures
        exists|k: int| 0 <= k < sorted.len() && (#[trigger] sorted[k])@ == found[i],
{
    assert(every()(i));
    assert(from.contains(i));
    let k = choose|k: int| 0 <= k < from.len() && from[k] == i;
    assert(shows_binary(found)(sorted[k], from[k]));
    assert(sorted[k]@ == found[i]);
}

/// A managed runtime is classified by the backend and the version that were recorded
/// when it was installed, and ranks 100 above such a build from elsewhere.
pub proof fn law_managed_runtime_is_told_by_its_record(m: ManagedRuntime)
    ensures
        ({
            let hint = match (m.backend, m.version) {
                (Some(b), Some(v)) => b@ + "-"@ + v@,
                (Some(b), None) => b@,
                (None, _) => "unknown"@,
            };
            let (rank, backend, label) = backend_class(hint, lowercase(hint));
            let b = managed_binary(m);
            &&& b.path == m.path@
            &&& b.rank == rank + 100
            &&& b.backend == backend
            &&& b.label == label + " (managed)"@
            &&& b.source == "managed"@
        }),
{
}

/// Binaries stand in the order of their ranks, the higher first, and of equal ranks
/// in the order of their labels, the later first.
pub proof fn law_binaries_are_listed_by_rank(
    sorted: Seq<LlamaBinary>,
    from: Seq<int>,
    found: Seq<BinaryView>,
    k: int,
    l: int,
)
    requires
        is_sorted_pick(
            sorted,
            from,
            found.len() as int,
            every(),
            shows_binary(found),
            best_first(),
        ),
        0 <= k < l < sorted.len(),
    ensures
        sorted[k].rank >= sorted[l].rank,
        sorted[k].rank == sorted[l].rank ==> !text_below(sorted[k].label@, sorted[l].label@),
        sorted[k].rank == sorted[l].rank && sorted[k].label@ == sorted[l].label@ ==> from[k]
            < from[l],
{
    assert(placed(sorted, from, best_first(), k, l));
    if sorted[k].rank == sorted[l].rank && sorted[k].label@ == sorted[l].label@ {
        lemma_text_order(sorted[k].label@, sorted[k].label@, sorted[k].label@);
    }
}

/// Which binary is launched. The configuration's own comes before the saved one. One
/// that is named and there is launched at its path, as it is listed or, unlisted,
/// as a custom one; otherwise the first of the list is; and without any of these
/// there is none.
pub proof fn law_named_binary_is_launched(
    cfg: LlamaServerConfig,
    saved: Option<String>,
    is_file: bool,
    binaries: Seq<LlamaBinary>,
    i: int,
)
    ensures
        ({
            let named = if cfg.binary_path is Some {
                cfg.binary_path
            } else {
                saved
            };
            let r = launch_binary(named_binary(cfg, saved), is_file, binaries);
            &&& named is Some && is_file ==> r is Some && lower(r->0.path) == lower(named->0@)
            &&& named is Some && is_file && (forall|j: int|
                0 <= j < binaries.len() ==> lower((#[trigger] binaries[j]).path@) != lower(
                    named->0@,
                )) ==> {
                &&& r->0.path == named->0@
                &&& r->0.label == "custom ("@ + named->0@ + ")"@
                &&& r->0.backend == "unknown"@
                &&& r->0.source == "path"@
                &&& r->0.rank == 0
            }
            &&& named is Some && is_file && 0 <= i < binaries.len() && lower(binaries[i].path@)
                == lower(named->0@) ==> exists|j: int|
                0 <= j <= i && (#[trigger] binaries[j])@ == r->0
            &&& (named is None || !is_file) && binaries.len() > 0 ==> r == Some(binaries[0]@)
            &&& (named is None || !is_file) && binaries.len() == 0 ==> r is None
        }),
{
    let named = if cfg.binary_path is Some {
        cfg.binary_path
    } else {
        saved
    };
    if named is Some && is_file {
        lemma_binary_named(binaries, named->0@, 0, i);
    }
}

/// What `binary_named` finds from index `k` on.
proof fn lemma_binary_named(binaries: Seq<LlamaBinary>, path: Seq<char>, k: int, i: int)
    requires
        0 <= k,
    ensures
        binary_named(binaries, path, k) matches Some(b) ==> lower(b.path) == lower(path) && exists|
            j: int,
        |
            k <= j < binaries.len() && (#[trigger] binaries[j])@ == b && lower(binaries[j].path@)
                == lower(path),
        k <= i < binaries.len() && lower(binaries[i].path@) == lower(path) ==> binary_named(
            binaries,
            path,
            k,
        ) is Some && exists|j: int|
            k <= j <= i && (#[trigger] binaries[j])@ == binary_named(binaries, path, k)->0,
    decreases binaries.len() - k,
{
    if k < binaries.len() {
        if lower(binaries[k].path@) == lower(path) {
            assert(binaries[k]@ == binary_named(binaries, path, k)->0);
        } else {
            lemma_binary_named(binaries, path, k + 1, i);
        }
    }
}

/// A metrics line of a name and a value says that value of that name, whatever the
/// two are, as long as neither holds white space or a brace.
pub proof fn law_metrics_lines_are_names_and_values(name: Seq<char>, value: Seq<char>)
    requires
        name.len() > 0,
        value.len() > 0,
        name[0] != '#',
        forall|i: int| 0 <= i < name.len() ==> !is_space(#[trigger] name[i]) && name[i] != '{',
        forall|i: int| 0 <= i < value.len() ==> !is_space(#[trigger] value[i]),
    ensures
        metric_entry(name + " "@ + value) == Some((name, value)),
{
    reveal_strlit(" ");
    reveal_strlit("#");
    reveal_strlit("{");
    let line = name + " "@ + value;
    assert(line[0] == name[0]);
    assert(line.last() == value[value.len() - 1]);
    assert(trim(line) == line) by {
        assert(skip_while(line, spaces()) == line);
        assert(drop_while(line, spaces()) == line);
    }
    lemma_first_word(name, " "@ + value);
    assert(line =~= name + (" "@ + value));
    assert(word(line) == name);
    assert(after_word(line) == " "@ + value);
    assert(!begins(line, "#"@)) by {
        if begins(line, "#"@) {
            assert(line.subrange(0, 1)[0] == line[0]);
        }
    }
    assert(!occurs(name, "{"@)) by {
        if occurs(name, "{"@) {
            let k = choose|k: int| occurs_at(name, "{"@, k);
            assert(name.subrange(k, k + 1)[0] == name[k]);
        }
    }
    let rest = " "@ + value;
    assert(skip_while(rest, spaces()) == value) by {
        assert(rest[0] == ' ');
        assert(rest.skip(1) =~= value);
        assert(skip_while(rest.skip(1), spaces()) == value);
    }
    lemma_only_word(value);
    assert(word(rest) == value);
}

/// The first word of a text that begins with one and goes on with a blank.
proof fn lemma_first_word(name: Seq<char>, rest: Seq<char>)
    requires
        name.len() > 0,
        rest.len() > 0,
        is_space(rest[0]),
        forall|i: int| 0 <= i < name.len() ==> !is_space(#[trigger] name[i]),
    ensures
        word(name + rest) == name,
        after_word(name + rest) == rest,
{
    let t = name + rest;
    assert(t[0] == name[0]);
    assert(skip_while(t, spaces()) == t);
    lemma_skip_name(name, rest);
    assert(t.take(name.len() as int) =~= name);
}

/// Dropping what is no white space stops where a blank is.
proof fn lemma_skip_name(name: Seq<char>, rest: Seq<char>)
    requires
        rest.len() == 0 || is_space(rest[0]),
        forall|i: int| 0 <= i < name.len() ==> !is_space(#[trigger] name[i]),
    ensures
        skip_while(name + rest, non_spaces()) == rest,
    decreases name.len(),
{
    let t = name + rest;
    if name.len() == 0 {
        assert(t =~= rest);
    } else {
        assert(t[0] == name[0]);
        assert(t.skip(1) =~= name.skip(1) + rest);
        assert forall|i: int| 0 <= i < name.skip(1).len() implies !is_space(
            #[trigger] name.skip(1)[i],
        ) by {
            assert(name.skip(1)[i] == name[i + 1]);
        }
        lemma_skip_name(name.skip(1), rest);
    }
}

/// A text without white space is a word.
proof fn lemma_only_word(value: Seq<char>)
    requires
        value.len() > 0,
        forall|i: int| 0 <= i < value.len() ==> !is_space(#[trigger] value[i]),
    ensures
        skip_while(value, spaces()) == value,
        word(value) == value,
        skip_while(value, non_spaces()) == Seq::<char>::empty(),
{
    assert(skip_while(value, spaces()) == value);
    lemma_skip_name(value, Seq::empty());
    assert(value + Seq::<char>::empty() =~= value);
    assert(value.take(value.len() as int) =~= value);
}

/// The last line with a name gives its value: a line that states one, with no such
/// line behind it, is what is read.
pub proof fn law_last_value_counts(
    lines: Seq<Seq<char>>,
    name: Seq<char>,
    value: Seq<char>,
    k: int,
    n: int,
)
    requires
        0 <= k < n <= lines.len(),
        metric_entry(lines[k]) == Some((name, value)),
        forall|j: int|
            k < j < n ==> metric_entry(#[trigger] lines[j]) is None || (metric_entry(
                lines[j],
            )->0).0 != name,
    ensures
        last_value(lines, name, n) == Some(value),
    decreases n - k,
{
    if k < n - 1 {
        law_last_value_counts(lines, name, value, k, n - 1);
    }
}

/// Which metric is shown as what.
pub proof fn law_metrics_are_shown_by_name(m: InferenceMetrics, body: Seq<char>)
    requires
        are_metrics(m, body),
    ensures
        ({
            let lines = split(body, seq!['\n']);
            let n = lines.len() as int;
            &&& opt_view(m.prompt_tokens_total) == last_value(
                lines,
                "llamacpp:prompt_tokens_total"@,
                n,
            )
            &&& opt_view(m.predicted_tokens_total) == last_value(
                lines,
                "llamacpp:tokens_predicted_total"@,
                n,
            )
            &&& opt_view(m.prompt_tokens_per_sec) == last_value(
                lines,
                "llamacpp:prompt_tokens_seconds"@,
                n,
            )
            &&& opt_view(m.predicted_tokens_per_sec) == last_value(
                lines,
                "llamacpp:predicted_tokens_seconds"@,
                n,
            )
            &&& opt_view(m.kv_cache_usage_ratio) == last_value(
                lines,
                "llamacpp:kv_cache_usage_ratio"@,
                n,
            )
            &&& opt_view(m.kv_cache_tokens) == last_value(lines, "llamacpp:kv_cache_tokens"@, n)
            &&& opt_view(m.requests_processing) == last_value(
                lines,
                "llamacpp:requests_processing"@,
                n,
            )
        }),
{
}

/// How a reply to a health probe is called: any answer is ok, 503 is a model that is
/// still loading, every other refusal an error, and no answer is unreachable.
pub proof fn law_health_is_named_by_the_reply(code: u16)
    ensures
        health_name(HealthReply::Answered) == "ok"@,
        health_name(HealthReply::Failed) == "unreachable"@,
        health_name(HealthReply::Refused(503)) == "loading"@,
        code != 503 ==> health_name(HealthReply::Refused(code)) == "error"@,
{
}

/// What a status shows of a running server: that server's own process, URL, model
/// and binary, without an error; and of none, nothing at all.
pub proof fn law_status_shows_the_server(
    s: ServerStatus,
    server: RunningServer,
    health: Seq<char>,
    uptime_ms: u128,
    none: ServerStatus,
)
    requires
        shows_running(s, server, health, uptime_ms),
        is_stopped(none),
    ensures
        s.running && !none.running,
        s.health@ == health && none.health@ == "stopped"@,
        s.pid == Some(server.pid) && none.pid is None,
        s.base_url is Some && s.base_url->0@ == server.base_url@ && none.base_url is None,
        s.model_path is Some && s.model_path->0@ == server.model_path@ && none.model_path is None,
        s.binary_label is Some && s.binary_label->0@ == server.binary_label@ && none.binary_label
            is None,
        s.uptime_ms == Some(uptime_ms) && none.uptime_ms is None,
        s.error is None && none.error is None,
{
}

/// The message about a server that ended holds its exit status and, behind it on
/// lines of its own, the tail of its log.
pub proof fn law_exit_message_holds_the_log(head: Seq<char>, exit: Seq<char>, tail: Seq<char>)
    ensures
        ({
            let m = exit_message(head, exit, tail);
            &&& m.len() == head.len() + exit.len() + 3 + tail.len()
            &&& m.take(head.len() as int) == head
            &&& m.subrange(head.len() as int, (head.len() + exit.len()) as int) == exit
            &&& m.skip(m.len() - tail.len()) == tail
        }),
{
    reveal_strlit("):\n");
    let m = exit_message(head, exit, tail);
    assert(m.take(head.len() as int) =~= head);
    assert(m.subrange(head.len() as int, (head.len() + exit.len()) as int) =~= exit);
    assert(m.skip(m.len() - tail.len()) =~= tail);
}

/// The labels of a metric end at the first brace that stands outside quotes: in quotes
/// neither a brace nor a quote behind a backslash ends them.
pub proof fn law_quoted_braces_do_not_end_labels(t: Seq<char>, i: int)
    requires
        0 <= i < t.len(),
    ensures
        t[i] == '\\' && i + 1 < t.len() ==> labels_end(t, i, true) == labels_end(t, i + 2, true),
        t[i] == '"' ==> labels_end(t, i, true) == labels_end(t, i + 1, false),
        t[i] == '"' ==> labels_end(t, i, false) == labels_end(t, i + 1, true),
        t[i] == '}' ==> labels_end(t, i, false) == Some(i),
        t[i] == '}' ==> labels_end(t, i, true) == labels_end(t, i + 1, true),
        t[i] != '"' && t[i] != '}' ==> labels_end(t, i, false) == labels_end(t, i + 1, false),
{
}

/// The tail of a log is its last bytes: as many as may be shown, or all there are.
pub proof fn law_tail_is_the_end_of_the_log(len: u64, max_bytes: u64)
    ensures
        0 <= tail_at(len, max_bytes) <= len,
        len - tail_at(len, max_bytes) <= max_bytes,
        len - tail_at(len, max_bytes) == max_bytes || tail_at(len, max_bytes) == 0,
{
}

/// A server that was launched is reached on the port that it was launched with, and
/// is known by its process, its model and its binary.
pub proof fn law_started_server_is_the_one_launched(
    m: LlamaManager,
    cfg: LlamaServerConfig,
    binary: LlamaBinary,
    pid: u32,
)
    requires
        is_started(m, cfg, binary, pid),
    ensures
        m.server matches Some(server) && server.pid == pid && server.model_path@ == cfg.model_path@
            && server.binary_label@ == binary.label@ && server.base_url@ == "http://"@
            + launch_args(cfg)[3] + ":"@ + launch_args(cfg)[5],
{
    law_server_is_reached_where_it_listens(cfg);
}

/// A server that ended is reported once, with its model and the tail of its log, and
/// is then forgotten; one that is alive stays and is shown with its health.
pub proof fn law_server_that_ended_is_reported_once(
    before: LlamaManager,
    after: LlamaManager,
    later: LlamaManager,
    seen: Observation,
    again: Observation,
    s: ServerStatus,
    t: ServerStatus,
)
    requires
        is_observed(before, after, seen, s),
        is_observed(after, later, again, t),
        before.server is Some,
    ensures
        seen matches Observation::Exited { exit, tail } ==> {
            &&& !s.running && s.health@ == "error"@
            &&& s.model_path is Some && s.model_path->0@ == (before.server->0).model_path@
            &&& s.error is Some && s.error->0@ == "llama-server exited ("@ + exit@ + "):\n"@ + tail@
            &&& s.pid is None && s.base_url is None
            &&& !t.running && t.health@ == "stopped"@ && t.error is None && t.model_path is None
        },
        seen matches Observation::Alive { reply, uptime_ms } ==> {
            &&& after.server == before.server
            &&& s.running && s.error is None && s.uptime_ms == Some(uptime_ms)
            &&& s.pid == Some((before.server->0).pid)
            &&& s.base_url is Some && s.base_url->0@ == (before.server->0).base_url@
        },
{
    if seen is Exited {
        assert(opt_view(s.model_path) == Some((before.server->0).model_path@));
        assert(opt_view(s.error) is Some);
    } else {
        assert(opt_view(s.base_url) == Some((before.server->0).base_url@));
    }
}

/// A line that begins with a number sign is a comment.
pub proof fn law_comments_are_no_metrics(s: Seq<char>)
    ensures
        metric_entry(seq!['#'] + s) is None,
{
    reveal_strlit("#");
    let line = seq!['#'] + s;
    assert(line[0] == '#');
    assert(skip_while(line, spaces()) == line);
    lemma_first_stays(line);
    let t = trim(line);
    assert(t.subrange(0, 1) =~= "#"@);
    assert(begins(t, "#"@));
}

/// Trimming at the end keeps a first character that is no blank.
proof fn lemma_first_stays(s: Seq<char>)
    requires
        s.len() > 0,
        !is_space(s[0]),
    ensures
        drop_while(s, spaces()).len() > 0,
        drop_while(s, spaces())[0] == s[0],
    decreases s.len(),
{
    if is_space(s.last()) {
        assert(s.len() > 1);
        lemma_first_stays(s.drop_last());
    }
}

} // verus!
