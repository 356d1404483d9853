//! Draft models for speculative decoding.
//!
//! A small draft model runs ahead of the target, which verifies several tokens
//! per pass. That works only where both share a tokenizer, and pays only where
//! the draft is much cheaper than the target and fits beside it. Both questions
//! are answered from the model headers alone.
//!
//! A pair is refused when the vocab type, a special token or whether it is added
//! differs, or when the vocab sizes are too far apart. The text of the tokens is
//! not compared, so `Compatible` means that no reason to refuse was found.

use crate::binary64::{
    at_most, below, lemma_ratio_of_whole, of_whole, over, place, times, truncated, Binary64,
};
use crate::estimator::{
    bpw_for, countable, estimate_pair, is_countable, is_pair, law_pair_verdict_says_the_cost,
    level_of, shape_from_metadata, shape_of, stated, KvType, ModelShape, PairEstimate, PairVerdict,
    EIGHT, WEIGHT_SLACK,
};
use crate::gguf::GgufMetadata;
use crate::order::{is_order, is_sorted_pick, lemma_insert, lemma_skip, placed};
use crate::scanner::ModelEntry;
use crate::text::{clone_opt, decimal, number, opt_view, same, texts};
use vstd::prelude::*;

verus! {

/// The hardware and the launch settings that a pair would run under.
#[derive(Debug, Clone, Copy)]
pub struct PairContext {
    pub gpu_total_bytes: u64,
    pub ctx: u64,
    pub kv: KvType,
}

/// Largest permitted difference in vocab size.
pub const MAX_VOCAB_SIZE_DIFFERENCE: u64 = 128;

/// Whether a model can serve as a draft for a given target.
#[derive(Debug, Clone, PartialEq, Eq)]
pub enum DraftVerdict {
    /// Nothing disqualifying found.
    Compatible,
    /// At least one rule is definitely violated.
    Incompatible { reasons: Vec<String> },
    /// A header lacks what is needed to decide.
    Unverifiable { reasons: Vec<String> },
}

// ---------------------------------------------------------------------------
// Compatibility
// ---------------------------------------------------------------------------

/// One reason, if it holds.
pub open spec fn reason_if(b: bool, s: Seq<char>) -> Seq<Seq<char>> {
    if b {
        seq![s]
    } else {
        seq![]
    }
}

/// Both are stated.
pub open spec fn both(a: Option<u64>, b: Option<u64>) -> bool {
    a is Some && b is Some
}

/// The distance between two numbers.
pub open spec fn distance(a: nat, b: nat) -> nat {
    if a <= b {
        (b - a) as nat
    } else {
        (a - b) as nat
    }
}

/// How a flag is written.
pub open spec fn flag_text(b: bool) -> Seq<char> {
    if b {
        "true"@
    } else {
        "false"@
    }
}

/// Why the vocab types disqualify a pair.
pub open spec fn type_reasons(t: GgufMetadata, d: GgufMetadata) -> Seq<Seq<char>> {
    match (opt_view(t.vocab_type), opt_view(d.vocab_type)) {
        (Some(a), Some(b)) => reason_if(
            a != b,
            "vocab type differs: target is "@ + a + ", draft is "@ + b,
        ),
        _ => seq![],
    }
}

/// Why the vocab sizes disqualify a pair.
pub open spec fn size_reasons(t: GgufMetadata, d: GgufMetadata) -> Seq<Seq<char>> {
    match (t.vocab_size, d.vocab_size) {
        (Some(a), Some(b)) => reason_if(
            distance(a as nat, b as nat) > MAX_VOCAB_SIZE_DIFFERENCE,
            "vocab size differs by "@ + decimal(distance(a as nat, b as nat)) + " tokens ("@
                + decimal(a as nat) + " vs "@ + decimal(b as nat)
                + "); llama.cpp allows at most "@ + decimal(MAX_VOCAB_SIZE_DIFFERENCE as nat),
        ),
        _ => seq![],
    }
}

/// Why the ids of a special token disqualify a pair.
pub open spec fn id_reasons(label: Seq<char>, t: Option<u64>, d: Option<u64>) -> Seq<Seq<char>> {
    match (t, d) {
        (Some(a), Some(b)) => reason_if(
            a != b,
            label + " token id differs: target "@ + decimal(a as nat) + ", draft "@ + decimal(
                b as nat,
            ),
        ),
        _ => seq![],
    }
}

/// Why the automatic addition of a special token disqualifies a pair. It is
/// compared only where both headers state it.
pub open spec fn add_reasons(
    label: Seq<char>,
    t: Option<bool>,
    d: Option<bool>,
) -> Seq<Seq<char>> {
    match (t, d) {
        (Some(a), Some(b)) => reason_if(
            a != b,
            label + " auto-add differs: target "@ + flag_text(a) + ", draft "@ + flag_text(b),
        ),
        _ => seq![],
    }
}

/// All that disqualifies a pair.
pub open spec fn mismatches(t: GgufMetadata, d: GgufMetadata) -> Seq<Seq<char>> {
    type_reasons(t, d) + size_reasons(t, d) + id_reasons("BOS"@, t.bos_token_id, d.bos_token_id)
        + add_reasons("BOS"@, t.add_bos_token, d.add_bos_token) + id_reasons(
        "EOS"@,
        t.eos_token_id,
        d.eos_token_id,
    ) + add_reasons("EOS"@, t.add_eos_token, d.add_eos_token)
}

/// All that is missing to decide on a pair.
pub open spec fn gaps(t: GgufMetadata, d: GgufMetadata) -> Seq<Seq<char>> {
    reason_if(
        t.vocab_type is None || d.vocab_type is None,
        "vocab type missing from one of the models"@,
    ) + reason_if(
        !both(t.vocab_size, d.vocab_size),
        "vocab size missing from one of the models"@,
    ) + reason_if(
        !both(t.bos_token_id, d.bos_token_id),
        "BOS"@ + " token id missing from one of the models"@,
    ) + reason_if(
        !both(t.eos_token_id, d.eos_token_id),
        "EOS"@ + " token id missing from one of the models"@,
    )
}

/// `v` is the verdict on a pair with these mismatches and gaps: a mismatch
/// decides, whatever is missing.
pub open spec fn is_verdict(v: DraftVerdict, bad: Seq<Seq<char>>, unknown: Seq<Seq<char>>) -> bool {
    match v {
        DraftVerdict::Incompatible { reasons } => bad.len() > 0 && texts(reasons@) == bad,
        DraftVerdict::Unverifiable { reasons } => bad.len() == 0 && unknown.len() > 0 && texts(
            reasons@,
        ) == unknown,
        DraftVerdict::Compatible => bad.len() == 0 && unknown.len() == 0,
    }
}

/// Adds a reason.
fn add_reason(list: &mut Vec<String>, s: String)
    ensures
        texts(final(list)@) == texts(old(list)@).push(s@),
{
    let ghost before = list@;
    list.push(s);
    assert(texts(list@) =~= texts(before).push(s@));
}

/// How a flag is written.
fn flag(b: bool) -> (s: &'static str)
    ensures
        s@ == flag_text(b),
{
    if b {
        "true"
    } else {
        "false"
    }
}

/// A special token must agree in its id and in whether it is added.
pub fn check_special_token(
    label: &str,
    target_id: Option<u64>,
    draft_id: Option<u64>,
    target_add: Option<bool>,
    draft_add: Option<bool>,
    bad: &mut Vec<String>,
    unknown: &mut Vec<String>,
)
    ensures
        texts(final(bad)@) == texts(old(bad)@) + id_reasons(label@, target_id, draft_id)
            + add_reasons(label@, target_add, draft_add),
        texts(final(unknown)@) == texts(old(unknown)@) + reason_if(
            !both(target_id, draft_id),
            label@ + " token id missing from one of the models"@,
        ),
{
    let ghost b0 = texts(bad@);
    let ghost u0 = texts(unknown@);
    match (target_id, draft_id) {
        (Some(t), Some(d)) => {
            if t != d {
                let mut s = String::from_str(label);
                s.append(" token id differs: target ");
                s.append(number(t).as_str());
                s.append(", draft ");
                s.append(number(d).as_str());
                add_reason(bad, s);
            }
        },
        _ => {
            let mut s = String::from_str(label);
            s.append(" token id missing from one of the models");
            add_reason(unknown, s);
        },
    }
    assert(texts(bad@) =~= b0 + id_reasons(label@, target_id, draft_id));
    if let (Some(t), Some(d)) = (target_add, draft_add) {
        if t != d {
            let mut s = String::from_str(label);
            s.append(" auto-add differs: target ");
            s.append(flag(t));
            s.append(", draft ");
            s.append(flag(d));
            add_reason(bad, s);
        }
    }
    assert(texts(bad@) =~= b0 + id_reasons(label@, target_id, draft_id) + add_reasons(
        label@,
        target_add,
        draft_add,
    ));
    assert(texts(unknown@) =~= u0 + reason_if(
        !both(target_id, draft_id),
        label@ + " token id missing from one of the models"@,
    ));
}

/// Compares the vocab types.
fn check_vocab_type(
    t: &GgufMetadata,
    d: &GgufMetadata,
    bad: &mut Vec<String>,
    unknown: &mut Vec<String>,
)
    ensures
        texts(final(bad)@) == texts(old(bad)@) + type_reasons(*t, *d),
        texts(final(unknown)@) == texts(old(unknown)@) + reason_if(
            t.vocab_type is None || d.vocab_type is None,
            "vocab type missing from one of the models"@,
        ),
{
    let ghost b0 = texts(bad@);
    let ghost u0 = texts(unknown@);
    match (&t.vocab_type, &d.vocab_type) {
        (Some(a), Some(b)) => {
            if !same(a.as_str(), b.as_str()) {
                let mut s = String::from_str("vocab type differs: target is ");
                s.append(a.as_str());
                s.append(", draft is ");
                s.append(b.as_str());
                add_reason(bad, s);
            }
        },
        _ => {
            add_reason(unknown, String::from_str("vocab type missing from one of the models"));
        },
    }
    assert(texts(bad@) =~= b0 + type_reasons(*t, *d));
    assert(texts(unknown@) =~= u0 + reason_if(
        t.vocab_type is None || d.vocab_type is None,
        "vocab type missing from one of the models"@,
    ));
}

/// Compares the vocab sizes.
fn check_vocab_size(
    t: &GgufMetadata,
    d: &GgufMetadata,
    bad: &mut Vec<String>,
    unknown: &mut Vec<String>,
)
    ensures
        texts(final(bad)@) == texts(old(bad)@) + size_reasons(*t, *d),
        texts(final(unknown)@) == texts(old(unknown)@) + reason_if(
            !both(t.vocab_size, d.vocab_size),
            "vocab size missing from one of the models"@,
        ),
{
    let ghost b0 = texts(bad@);
    let ghost u0 = texts(unknown@);
    match (t.vocab_size, d.vocab_size) {
        (Some(a), Some(b)) => {
            let diff: u64 = if a <= b {
                b - a
            } else {
                a - b
            };
            if diff > MAX_VOCAB_SIZE_DIFFERENCE {
                let mut s = String::from_str("vocab size differs by ");
                s.append(number(diff).as_str());
                s.append(" tokens (");
                s.append(number(a).as_str());
                s.append(" vs ");
                s.append(number(b).as_str());
                s.append("); llama.cpp allows at most ");
                s.append(number(MAX_VOCAB_SIZE_DIFFERENCE).as_str());
                add_reason(bad, s);
            }
        },
        _ => {
            add_reason(unknown, String::from_str("vocab size missing from one of the models"));
        },
    }
    assert(texts(bad@) =~= b0 + size_reasons(*t, *d));
    assert(texts(unknown@) =~= u0 + reason_if(
        !both(t.vocab_size, d.vocab_size),
        "vocab size missing from one of the models"@,
    ));
}

/// Decides whether `draft` can draft for `target`.
pub fn check_draft(target: &GgufMetadata, draft: &GgufMetadata) -> (v: DraftVerdict)
    ensures
        is_verdict(v, mismatches(*target, *draft), gaps(*target, *draft)),
{
    let mut bad: Vec<String> = Vec::new();
    let mut unknown: Vec<String> = Vec::new();
    check_vocab_type(target, draft, &mut bad, &mut unknown);
    check_vocab_size(target, draft, &mut bad, &mut unknown);
    check_special_token(
        "BOS",
        target.bos_token_id,
        draft.bos_token_id,
        target.add_bos_token,
        draft.add_bos_token,
        &mut bad,
        &mut unknown,
    );
    check_special_token(
        "EOS",
        target.eos_token_id,
        draft.eos_token_id,
        target.add_eos_token,
        draft.add_eos_token,
        &mut bad,
        &mut unknown,
    );
    assert(texts(bad@) =~= mismatches(*target, *draft));
    assert(texts(unknown@) =~= gaps(*target, *draft));
    if bad.len() > 0 {
        DraftVerdict::Incompatible { reasons: bad }
    } else if unknown.len() > 0 {
        DraftVerdict::Unverifiable { reasons: unknown }
    } else {
        DraftVerdict::Compatible
    }
}

/// Both headers state a complete tokenizer identity.
pub open spec fn tokenizer_stated(md: GgufMetadata) -> bool {
    md.vocab_type is Some && md.vocab_size is Some && md.bos_token_id is Some && md.eos_token_id
        is Some
}

/// Both headers describe the same tokenizer.
pub open spec fn same_tokenizer(a: GgufMetadata, b: GgufMetadata) -> bool {
    &&& opt_view(a.vocab_type) == opt_view(b.vocab_type)
    &&& a.vocab_size == b.vocab_size
    &&& a.bos_token_id == b.bos_token_id
    &&& a.eos_token_id == b.eos_token_id
    &&& a.add_bos_token == b.add_bos_token
    &&& a.add_eos_token == b.add_eos_token
}

/// Models with the same tokenizer are compatible once their headers state it.
pub proof fn law_identical_tokenizers_are_compatible(
    target: GgufMetadata,
    draft: GgufMetadata,
    v: DraftVerdict,
)
    requires
        is_verdict(v, mismatches(target, draft), gaps(target, draft)),
        tokenizer_stated(target),
        same_tokenizer(target, draft),
    ensures
        v is Compatible,
{
}

/// A definite mismatch decides, however much is missing beside it.
pub proof fn law_mismatch_outranks_missing_metadata(
    target: GgufMetadata,
    draft: GgufMetadata,
    v: DraftVerdict,
)
    requires
        is_verdict(v, mismatches(target, draft), gaps(target, draft)),
        mismatches(target, draft).len() > 0,
    ensures
        v is Incompatible,
{
}

/// What is missing is never taken for agreement.
pub proof fn law_missing_metadata_is_never_compatible(
    target: GgufMetadata,
    draft: GgufMetadata,
    v: DraftVerdict,
)
    requires
        is_verdict(v, mismatches(target, draft), gaps(target, draft)),
        !tokenizer_stated(target) || !tokenizer_stated(draft),
    ensures
        !(v is Compatible),
{
}

/// Swapping target and draft changes the wording, never the kind of verdict.
pub proof fn law_verdict_is_symmetric(
    a: GgufMetadata,
    b: GgufMetadata,
    there: DraftVerdict,
    back: DraftVerdict,
)
    requires
        is_verdict(there, mismatches(a, b), gaps(a, b)),
        is_verdict(back, mismatches(b, a), gaps(b, a)),
    ensures
        there is Compatible <==> back is Compatible,
        there is Incompatible <==> back is Incompatible,
        there is Unverifiable <==> back is Unverifiable,
{
    assert(mismatches(a, b).len() == mismatches(b, a).len());
    assert(gaps(a, b).len() == gaps(b, a).len());
}

// ---------------------------------------------------------------------------
// Economics
// ---------------------------------------------------------------------------

/// Whether a draft is cheap enough beside its target.
#[derive(Debug, Clone, Copy, PartialEq, Eq, Structural)]
pub enum DraftEconomics {
    /// Much cheaper.
    Recommended,
    /// Cheaper, but not by enough to be confident.
    Marginal,
    /// As expensive as the target, or worse.
    Counterproductive,
    /// Not enough metadata to say.
    Unknown,
}

/// The binary64 number 0.20: the largest ratio that is worth recommending.
pub const RECOMMEND_MAX_RATIO: u64 = 0x3fc9_9999_9999_999a;

/// The binary64 number 0.60: the ratio above which a draft is a clear loss.
pub const MARGINAL_MAX_RATIO: u64 = 0x3fe3_3333_3333_3333;

/// A model on disk considered as a draft for some target.
#[derive(Debug, Clone)]
pub struct DraftCandidate {
    pub path: String,
    /// What to show: the display name, or else the file name.
    pub label: String,
    pub size_bytes: u64,
    pub parameter_count: Option<u64>,
    pub quant_label: Option<String>,
    pub verdict: DraftVerdict,
    /// Estimated parameters evaluated per token.
    pub active_params: Option<u64>,
    /// The candidate's active parameters as a fraction of the target's.
    pub cost_ratio: Option<Binary64>,
    pub economics: DraftEconomics,
    /// What the pair takes on the GPU, where that could be worked out.
    pub pair: Option<PairEstimate>,
}

/// Total parameters: the stated count, or else the one that the file size and the
/// bits per weight give.
pub open spec fn total_of(md: GgufMetadata, size: u64) -> Option<u64> {
    if stated(md.parameter_count) is Some {
        md.parameter_count
    } else if size == 0 || md.quant_label is None {
        None
    } else {
        match level_of(md.quant_label->0@) {
            Some(bits) => Some(
                truncated(
                    over(
                        over(
                            times(of_whole(size as nat), Binary64 { bits: EIGHT }),
                            Binary64 { bits },
                        ),
                        Binary64 { bits: WEIGHT_SLACK },
                    ),
                ) as u64,
            ),
            None => None,
        }
    }
}

/// Parameters evaluated per token: all of them, or the share of the experts that
/// run.
pub open spec fn active_of(md: GgufMetadata, size: u64) -> Option<u64> {
    match total_of(md, size) {
        Some(total) => match (md.expert_count, md.expert_used_count) {
            (Some(n), Some(used)) => if n > 0 && used < n {
                Some(
                    truncated(
                        times(
                            of_whole(total as nat),
                            over(of_whole(used as nat), of_whole(n as nat)),
                        ),
                    ) as u64,
                )
            } else {
                Some(total)
            },
            _ => Some(total),
        },
        None => None,
    }
}

/// A draft's cost as a fraction of the target's, where both are known and the
/// target has one.
pub open spec fn ratio_of(draft: Option<u64>, target: Option<u64>) -> Option<Binary64> {
    match (draft, target) {
        (Some(d), Some(t)) => if t > 0 {
            Some(over(of_whole(d as nat), of_whole(t as nat)))
        } else {
            None
        },
        _ => None,
    }
}

/// What a ratio is worth.
pub open spec fn economics_of(ratio: Option<Binary64>) -> DraftEconomics {
    match ratio {
        Some(r) => if at_most(r, Binary64 { bits: RECOMMEND_MAX_RATIO }) {
            DraftEconomics::Recommended
        } else if at_most(r, Binary64 { bits: MARGINAL_MAX_RATIO }) {
            DraftEconomics::Marginal
        } else {
            DraftEconomics::Counterproductive
        },
        None => DraftEconomics::Unknown,
    }
}

/// The same, once the pair has been budgeted. A pair that does not fit, or only
/// at the cost of target layers, is a loss. Without a budget, a draft that
/// weighs as much as its target is not recommended.
pub open spec fn settled(
    base: DraftEconomics,
    pair: Option<PairVerdict>,
    size: u64,
    target_size: u64,
) -> DraftEconomics {
    match pair {
        Some(PairVerdict::TooBig) => DraftEconomics::Counterproductive,
        Some(PairVerdict::CostsTargetLayers) => DraftEconomics::Counterproductive,
        Some(PairVerdict::Fits) => base,
        None => if size >= target_size && base == DraftEconomics::Recommended {
            DraftEconomics::Marginal
        } else {
            base
        },
    }
}

/// Total parameters of a model.
pub fn total_params(meta: &GgufMetadata, size_bytes: u64) -> (r: Option<u64>)
    ensures
        r == total_of(*meta, size_bytes),
{
    if let Some(p) = meta.parameter_count {
        if p > 0 {
            return Some(p);
        }
    }
    if size_bytes == 0 {
        return None;
    }
    match &meta.quant_label {
        Some(l) => match bpw_for(l.as_str()) {
            Some(bpw) => Some(
                Binary64::of(size_bytes).times(Binary64 { bits: EIGHT }).over(bpw).over(
                    Binary64 { bits: WEIGHT_SLACK },
                ).truncated(),
            ),
            None => None,
        },
        None => None,
    }
}

/// Parameters that a model evaluates per token.
pub fn active_params(meta: &GgufMetadata, size_bytes: u64) -> (r: Option<u64>)
    ensures
        r == active_of(*meta, size_bytes),
{
    let total = match total_params(meta, size_bytes) {
        Some(t) => t,
        None => {
            return None;
        },
    };
    match (meta.expert_count, meta.expert_used_count) {
        (Some(n), Some(used)) => if n > 0 && used < n {
            Some(
                Binary64::of(total).times(
                    Binary64::of(used).over(Binary64::of(n)),
                ).truncated(),
            )
        } else {
            Some(total)
        },
        _ => Some(total),
    }
}

/// `ratio_of`, computed.
fn cost_ratio(draft: Option<u64>, target: Option<u64>) -> (r: Option<Binary64>)
    ensures
        r == ratio_of(draft, target),
{
    match (draft, target) {
        (Some(d), Some(t)) => if t > 0 {
            Some(Binary64::of(d).over(Binary64::of(t)))
        } else {
            None
        },
        _ => None,
    }
}

/// `settled(economics_of(..), ..)`, computed.
fn judge(ratio: Option<Binary64>, pair: Option<PairVerdict>, size: u64, target_size: u64) -> (r:
    DraftEconomics)
    ensures
        r == settled(economics_of(ratio), pair, size, target_size),
{
    let base = match ratio {
        Some(r) => if r.at_most(Binary64 { bits: RECOMMEND_MAX_RATIO }) {
            DraftEconomics::Recommended
        } else if r.at_most(Binary64 { bits: MARGINAL_MAX_RATIO }) {
            DraftEconomics::Marginal
        } else {
            DraftEconomics::Counterproductive
        },
        None => DraftEconomics::Unknown,
    };
    match pair {
        Some(PairVerdict::TooBig) => DraftEconomics::Counterproductive,
        Some(PairVerdict::CostsTargetLayers) => DraftEconomics::Counterproductive,
        Some(PairVerdict::Fits) => base,
        None => if size >= target_size && base == DraftEconomics::Recommended {
            DraftEconomics::Marginal
        } else {
            base
        },
    }
}

// ---------------------------------------------------------------------------
// Ranking
// ---------------------------------------------------------------------------

/// `m` may be offered as a draft for the model at `target_path`: it is another
/// model, whole, no projector, one that the runtime loads, and its header was
/// read.
pub open spec fn eligible(m: ModelEntry, target_path: Seq<char>) -> bool {
    &&& m.path@ != target_path
    &&& !m.is_shard_continuation
    &&& !m.is_mmproj
    &&& m.load_blocker is None
    &&& m.metadata is Some
}

/// The shapes to budget together, where the hardware is known and both headers
/// give one.
pub open spec fn pair_shapes(
    m: ModelEntry,
    target: GgufMetadata,
    target_size: u64,
    cx: Option<PairContext>,
) -> Option<(ModelShape, ModelShape)> {
    if cx is Some && m.metadata is Some {
        match (shape_of(target, target_size), shape_of(m.metadata->0, m.size_bytes)) {
            (Some(t), Some(d)) => Some((t, d)),
            _ => None,
        }
    } else {
        None
    }
}

/// `c` is what is to be said of `m` as a draft.
#[verifier::opaque]
pub open spec fn is_candidate(
    c: DraftCandidate,
    m: ModelEntry,
    target: GgufMetadata,
    target_size: u64,
    cx: Option<PairContext>,
) -> bool {
    let md = m.metadata->0;
    let cost = active_of(md, m.size_bytes);
    let ratio = ratio_of(cost, active_of(target, target_size));
    &&& c.path@ == m.path@
    &&& c.label@ == (match m.display_name {
        Some(n) => n@,
        None => m.file_name@,
    })
    &&& c.size_bytes == m.size_bytes
    &&& c.parameter_count == md.parameter_count
    &&& opt_view(c.quant_label) == opt_view(md.quant_label)
    &&& is_verdict(c.verdict, mismatches(target, md), gaps(target, md))
    &&& c.active_params == cost
    &&& c.cost_ratio == ratio
    &&& match pair_shapes(m, target, target_size, cx) {
        Some((t, d)) => c.pair is Some && is_pair(
            t,
            d,
            cx->0.ctx as nat,
            cx->0.gpu_total_bytes as nat,
            cx->0.kv,
            c.pair->0,
        ),
        None => c.pair is None,
    }
    &&& c.economics == settled(
        economics_of(ratio),
        match c.pair {
            Some(p) => Some(p.verdict),
            None => None,
        },
        m.size_bytes,
        target_size,
    )
}

/// Compatible candidates come first, refused ones last.
pub open spec fn verdict_place(v: DraftVerdict) -> int {
    match v {
        DraftVerdict::Compatible => 0,
        DraftVerdict::Unverifiable { .. } => 1,
        DraftVerdict::Incompatible { .. } => 2,
    }
}

/// Better economics come first.
pub open spec fn economics_place(e: DraftEconomics) -> int {
    match e {
        DraftEconomics::Recommended => 0,
        DraftEconomics::Marginal => 1,
        DraftEconomics::Unknown => 2,
        DraftEconomics::Counterproductive => 3,
    }
}

/// An unknown ratio comes before every known one; those are in their own order.
pub open spec fn ratio_place(r: Option<Binary64>) -> int {
    match r {
        Some(x) => place(x),
        None => -1,
    }
}

/// `a` stands strictly before `b`: by verdict, then economics, then cost, then
/// size.
#[verifier::opaque]
pub open spec fn precedes(a: DraftCandidate, b: DraftCandidate) -> bool {
    let va = verdict_place(a.verdict);
    let vb = verdict_place(b.verdict);
    let ea = economics_place(a.economics);
    let eb = economics_place(b.economics);
    let ra = ratio_place(a.cost_ratio);
    let rb = ratio_place(b.cost_ratio);
    va < vb || (va == vb && (ea < eb || (ea == eb && (ra < rb || (ra == rb && a.size_bytes
        < b.size_bytes)))))
}

/// Which models are offered.
pub open spec fn offered(models: Seq<ModelEntry>, target_path: Seq<char>) -> spec_fn(int) -> bool {
    |i: int| eligible(models[i], target_path)
}

/// Which candidate is made of which model.
pub open spec fn made_of(
    models: Seq<ModelEntry>,
    target: GgufMetadata,
    target_size: u64,
    cx: Option<PairContext>,
) -> spec_fn(DraftCandidate, int) -> bool {
    |c: DraftCandidate, i: int| is_candidate(c, models[i], target, target_size, cx)
}

/// The order of candidates.
pub open spec fn ranking_order() -> spec_fn(DraftCandidate, DraftCandidate) -> bool {
    |a: DraftCandidate, b: DraftCandidate| precedes(a, b)
}

/// `ranked` are the eligible models, each as a candidate, the better ones first;
/// `from` names the model of each.
pub open spec fn is_ranking(
    ranked: Seq<DraftCandidate>,
    from: Seq<int>,
    models: Seq<ModelEntry>,
    target_path: Seq<char>,
    target: GgufMetadata,
    target_size: u64,
    cx: Option<PairContext>,
) -> bool {
    is_sorted_pick(
        ranked,
        from,
        models.len() as int,
        offered(models, target_path),
        made_of(models, target, target_size, cx),
        ranking_order(),
    )
}

/// 64 bits can count what the pairs of a ranking take.
pub open spec fn ranking_countable(
    models: Seq<ModelEntry>,
    target_path: Seq<char>,
    target: GgufMetadata,
    target_size: u64,
    cx: Option<PairContext>,
) -> bool {
    forall|i: int|
        0 <= i < models.len() && eligible(#[trigger] models[i], target_path) ==> match pair_shapes(
            models[i],
            target,
            target_size,
            cx,
        ) {
            Some((t, d)) => countable(t, cx->0.ctx as nat, cx->0.kv) && countable(
                d,
                cx->0.ctx as nat,
                cx->0.kv,
            ),
            None => true,
        }
}

/// Whether `m` may be offered as a draft.
fn is_eligible(m: &ModelEntry, target_path: &str) -> (r: bool)
    ensures
        r == eligible(*m, target_path@),
{
    !same(m.path.as_str(), target_path) && !m.is_shard_continuation && !m.is_mmproj
        && m.load_blocker.is_none() && m.metadata.is_some()
}

/// What is to be said of `m` as a draft.
fn candidate(
    m: &ModelEntry,
    meta: &GgufMetadata,
    target: &GgufMetadata,
    target_size: u64,
    target_cost: Option<u64>,
    target_shape: &Option<ModelShape>,
    cx: Option<PairContext>,
) -> (c: DraftCandidate)
    requires
        m.metadata == Some(*meta),
        target_cost == active_of(*target, target_size),
        cx is Some ==> *target_shape == shape_of(*target, target_size),
        cx is None ==> *target_shape is None,
        match pair_shapes(*m, *target, target_size, cx) {
            Some((t, d)) => countable(t, cx->0.ctx as nat, cx->0.kv) && countable(
                d,
                cx->0.ctx as nat,
                cx->0.kv,
            ),
            None => true,
        },
    ensures
        is_candidate(c, *m, *target, target_size, cx),
        ordinary(c.cost_ratio),
{
    proof {
        reveal(is_candidate);
        law_ratios_are_ordinary(active_of(*meta, m.size_bytes), target_cost);
    }
    let cost = active_params(meta, m.size_bytes);
    let ratio = cost_ratio(cost, target_cost);
    let pair: Option<PairEstimate> = match (cx, target_shape) {
        (Some(c), Some(t)) => {
            let mut ignored: Vec<String> = Vec::new();
            match shape_from_metadata(meta, m.size_bytes, &mut ignored) {
                Some(d) => Some(estimate_pair(t, &d, c.ctx, c.gpu_total_bytes, c.kv)),
                None => None,
            }
        },
        _ => None,
    };
    let verdict: Option<PairVerdict> = match &pair {
        Some(p) => Some(p.verdict),
        None => None,
    };
    DraftCandidate {
        path: m.path.clone(),
        label: match &m.display_name {
            Some(n) => n.clone(),
            None => m.file_name.clone(),
        },
        size_bytes: m.size_bytes,
        parameter_count: meta.parameter_count,
        quant_label: clone_opt(&meta.quant_label),
        verdict: check_draft(target, meta),
        active_params: cost,
        cost_ratio: ratio,
        economics: judge(ratio, verdict, m.size_bytes, target_size),
        pair,
    }
}

/// Where a verdict stands.
fn verdict_rank(v: &DraftVerdict) -> (n: u8)
    ensures
        n as int == verdict_place(*v),
{
    match v {
        DraftVerdict::Compatible => 0,
        DraftVerdict::Unverifiable { .. } => 1,
        DraftVerdict::Incompatible { .. } => 2,
    }
}

/// Where economics stand.
fn economics_rank(e: DraftEconomics) -> (n: u8)
    ensures
        n as int == economics_place(e),
{
    match e {
        DraftEconomics::Recommended => 0,
        DraftEconomics::Marginal => 1,
        DraftEconomics::Unknown => 2,
        DraftEconomics::Counterproductive => 3,
    }
}

/// A ratio that can be put in order and is not below zero.
pub open spec fn ordinary(r: Option<Binary64>) -> bool {
    match r {
        Some(x) => at_most(Binary64 { bits: 0 }, x),
        None => true,
    }
}

/// `precedes`, computed.
fn stands_before(a: &DraftCandidate, b: &DraftCandidate) -> (r: bool)
    requires
        ordinary(a.cost_ratio),
        ordinary(b.cost_ratio),
    ensures
        r == precedes(*a, *b),
{
    proof {
        reveal(precedes);
    }
    let va = verdict_rank(&a.verdict);
    let vb = verdict_rank(&b.verdict);
    if va != vb {
        return va < vb;
    }
    let ea = economics_rank(a.economics);
    let eb = economics_rank(b.economics);
    if ea != eb {
        return ea < eb;
    }
    match (a.cost_ratio, b.cost_ratio) {
        (Some(x), Some(y)) => {
            if x.below(y) {
                return true;
            }
            if y.below(x) {
                return false;
            }
        },
        (None, Some(_)) => {
            return true;
        },
        (Some(_), None) => {
            return false;
        },
        (None, None) => {},
    }
    a.size_bytes < b.size_bytes
}

/// The ratios of a ranking can all be put in order.
pub proof fn law_ratios_are_ordinary(draft: Option<u64>, target: Option<u64>)
    ensures
        ordinary(ratio_of(draft, target)),
        ratio_of(draft, target) is Some ==> crate::binary64::is_finite(ratio_of(draft, target)->0),
{
    if let (Some(d), Some(t)) = (draft, target) {
        if t > 0 {
            lemma_ratio_of_whole(d as nat, t as nat);
        }
    }
}

/// The order of candidates is one: what stands before `b` stands before all that
/// does not stand before `b`, and not behind it.
pub proof fn law_ranking_order()
    ensures
        is_order(ranking_order()),
{
    reveal(precedes);
}

/// The position of a new candidate: behind all that it does not precede.
fn position(ranked: &Vec<DraftCandidate>, c: &DraftCandidate) -> (p: usize)
    requires
        ordinary(c.cost_ratio),
        forall|k: int| 0 <= k < ranked@.len() ==> ordinary((#[trigger] ranked@[k]).cost_ratio),
    ensures
        p <= ranked@.len(),
        forall|k: int| 0 <= k < p ==> !precedes(*c, #[trigger] ranked@[k]),
        p < ranked@.len() ==> precedes(*c, ranked@[p as int]),
{
    let mut p: usize = 0;
    while p < ranked.len() && !stands_before(c, &ranked[p])
        invariant
            p <= ranked@.len(),
            ordinary(c.cost_ratio),
            forall|k: int| 0 <= k < ranked@.len() ==> ordinary((#[trigger] ranked@[k]).cost_ratio),
            forall|k: int| 0 <= k < p ==> !precedes(*c, #[trigger] ranked@[k]),
        decreases ranked@.len() - p,
    {
        p = p + 1;
    }
    p
}

/// Ranks every scanned model as a possible draft: compatible ones first, then
/// the cheapest. With a GPU context each is also budgeted beside the target.
pub fn rank_drafts(
    target_path: &str,
    target: &GgufMetadata,
    target_size_bytes: u64,
    models: &[ModelEntry],
    pair_ctx: Option<PairContext>,
) -> (ranked: Vec<DraftCandidate>)
    requires
        ranking_countable(models@, target_path@, *target, target_size_bytes, pair_ctx),
    ensures
        exists|from: Seq<int>|
            is_ranking(
                ranked@,
                from,
                models@,
                target_path@,
                *target,
                target_size_bytes,
                pair_ctx,
            ),
{
    let target_cost = active_params(target, target_size_bytes);
    let target_shape: Option<ModelShape> = match pair_ctx {
        Some(_) => {
            let mut ignored: Vec<String> = Vec::new();
            shape_from_metadata(target, target_size_bytes, &mut ignored)
        },
        None => None,
    };
    let mut ranked: Vec<DraftCandidate> = Vec::new();
    let ghost mut from: Seq<int> = Seq::empty();
    let ghost keep = offered(models@, target_path@);
    let ghost made = made_of(models@, *target, target_size_bytes, pair_ctx);
    proof {
        law_ranking_order();
    }
    for i in 0..models.len()
        invariant
            ranking_countable(models@, target_path@, *target, target_size_bytes, pair_ctx),
            target_cost == active_of(*target, target_size_bytes),
            pair_ctx is Some ==> target_shape == shape_of(*target, target_size_bytes),
            pair_ctx is None ==> target_shape is None,
            forall|k: int| 0 <= k < ranked@.len() ==> ordinary((#[trigger] ranked@[k]).cost_ratio),
            is_order(ranking_order()),
            keep == offered(models@, target_path@),
            made == made_of(models@, *target, target_size_bytes, pair_ctx),
            is_sorted_pick(ranked@, from, i as int, keep, made, ranking_order()),
    {
        let m = &models[i];
        if is_eligible(m, target_path) {
            if let Some(meta) = &m.metadata {
                assert(eligible(models@[i as int], target_path@));
                let c = candidate(
                    m,
                    meta,
                    target,
                    target_size_bytes,
                    target_cost,
                    &target_shape,
                    pair_ctx,
                );
                let p = position(&ranked, &c);
                proof {
                    lemma_insert(
                        ranked@,
                        from,
                        i as int,
                        p as int,
                        c,
                        keep,
                        made,
                        ranking_order(),
                    );
                    from = from.insert(p as int, i as int);
                }
                let ghost before = ranked@;
                ranked.insert(p, c);
                proof {
                    assert forall|k: int| 0 <= k < ranked@.len() implies ordinary(
                        (#[trigger] ranked@[k]).cost_ratio,
                    ) by {
                        if k < p {
                            assert(ranked@[k] == before[k]);
                        } else if k > p {
                            assert(ranked@[k] == before[k - 1]);
                        }
                    }
                }
            }
        } else {
            proof {
                lemma_skip(ranked@, from, i as int, keep, made, ranking_order());
            }
        }
    }
    assert(is_ranking(
        ranked@,
        from,
        models@,
        target_path@,
        *target,
        target_size_bytes,
        pair_ctx,
    ));
    ranked
}

/// Whether 64 bits can count what the pairs of a ranking take.
pub fn is_ranking_countable(
    target_path: &str,
    target: &GgufMetadata,
    target_size_bytes: u64,
    models: &[ModelEntry],
    pair_ctx: Option<PairContext>,
) -> (r: bool)
    ensures
        r == ranking_countable(models@, target_path@, *target, target_size_bytes, pair_ctx),
{
    let cx = match pair_ctx {
        Some(c) => c,
        None => {
            return true;
        },
    };
    let mut ignored: Vec<String> = Vec::new();
    let t = match shape_from_metadata(target, target_size_bytes, &mut ignored) {
        Some(t) => t,
        None => {
            return true;
        },
    };
    for i in 0..models.len()
        invariant
            pair_ctx == Some(cx),
            shape_of(*target, target_size_bytes) == Some(t),
            ranking_countable(
                models@.take(i as int),
                target_path@,
                *target,
                target_size_bytes,
                pair_ctx,
            ),
    {
        let m = &models[i];
        let ghost m1 = models@.take(i as int);
        let ghost m2 = models@.take(i + 1);
        if is_eligible(m, target_path) {
            if let Some(meta) = &m.metadata {
                if let Some(d) = shape_from_metadata(meta, m.size_bytes, &mut ignored) {
                    if !is_countable(&t, cx.ctx, cx.kv) || !is_countable(&d, cx.ctx, cx.kv) {
                        assert(eligible(models@[i as int], target_path@));
                        return false;
                    }
                }
            }
        }
        proof {
            assert forall|x: int| 0 <= x < m2.len() && eligible(#[trigger] m2[x], target_path@)
                implies (match pair_shapes(m2[x], *target, target_size_bytes, pair_ctx) {
                Some((a, b)) => countable(a, cx.ctx as nat, cx.kv) && countable(
                    b,
                    cx.ctx as nat,
                    cx.kv,
                ),
                None => true,
            }) by {
                if x < i {
                    assert(m1[x] == m2[x]);
                }
            }
        }
    }
    assert(models@.take(models@.len() as int) =~= models@);
    true
}

// ---------------------------------------------------------------------------
// Laws of the ranking
// ---------------------------------------------------------------------------

/// A model is never offered as its own draft, and no two candidates are made of
/// the same model.
pub proof fn law_target_is_never_offered(
    ranked: Seq<DraftCandidate>,
    from: Seq<int>,
    models: Seq<ModelEntry>,
    target_path: Seq<char>,
    target: GgufMetadata,
    target_size: u64,
    cx: Option<PairContext>,
    k: int,
)
    requires
        is_ranking(ranked, from, models, target_path, target, target_size, cx),
        0 <= k < ranked.len(),
    ensures
        ranked[k].path@ != target_path,
        forall|l: int| 0 <= l < ranked.len() && l != k ==> #[trigger] from[l] != from[k],
{
    reveal(is_candidate);
    assert(offered(models, target_path)(from[k]));
    assert(made_of(models, target, target_size, cx)(ranked[k], from[k]));
    assert forall|l: int| 0 <= l < ranked.len() && l != k implies #[trigger] from[l] != from[k] by {
        if l < k {
            assert(placed(ranked, from, ranking_order(), l, k));
        } else {
            assert(placed(ranked, from, ranking_order(), k, l));
        }
    }
}

/// Compatible candidates are ranked before all others, refused ones behind all
/// others.
pub proof fn law_compatible_drafts_come_first(
    ranked: Seq<DraftCandidate>,
    from: Seq<int>,
    models: Seq<ModelEntry>,
    target_path: Seq<char>,
    target: GgufMetadata,
    target_size: u64,
    cx: Option<PairContext>,
    k: int,
    l: int,
)
    requires
        is_ranking(ranked, from, models, target_path, target, target_size, cx),
        0 <= k < l < ranked.len(),
    ensures
        ranked[l].verdict is Compatible ==> ranked[k].verdict is Compatible,
        ranked[k].verdict is Incompatible ==> ranked[l].verdict is Incompatible,
{
    reveal(precedes);
    assert(placed(ranked, from, ranking_order(), k, l));
}

/// Without a GPU to budget on, a draft that weighs as much as its target is never
/// recommended, however cheap it is per token.
pub proof fn law_draft_as_large_as_its_target_is_never_recommended(
    ranked: Seq<DraftCandidate>,
    from: Seq<int>,
    models: Seq<ModelEntry>,
    target_path: Seq<char>,
    target: GgufMetadata,
    target_size: u64,
    k: int,
)
    requires
        is_ranking(ranked, from, models, target_path, target, target_size, None),
        0 <= k < ranked.len(),
        ranked[k].size_bytes >= target_size,
    ensures
        !(ranked[k].economics is Recommended),
{
    reveal(is_candidate);
    assert(offered(models, target_path)(from[k]));
    assert(made_of(models, target, target_size, None)(ranked[k], from[k]));
}

/// Once the pair is budgeted, a draft that does not fit beside its target or
/// evicts layers of it is a loss, however cheap it is per token.
pub proof fn law_evicting_draft_is_counterproductive(
    ranked: Seq<DraftCandidate>,
    from: Seq<int>,
    models: Seq<ModelEntry>,
    target_path: Seq<char>,
    target: GgufMetadata,
    target_size: u64,
    cx: Option<PairContext>,
    k: int,
)
    requires
        is_ranking(ranked, from, models, target_path, target, target_size, cx),
        0 <= k < ranked.len(),
        ranked[k].pair is Some,
        ranked[k].pair->0.target_layers_evicted > 0 || !(ranked[k].pair->0.verdict is Fits),
    ensures
        ranked[k].economics is Counterproductive,
{
    reveal(is_candidate);
    assert(offered(models, target_path)(from[k]));
    assert(made_of(models, target, target_size, cx)(ranked[k], from[k]));
    let m = models[from[k]];
    let (t, d) = pair_shapes(m, target, target_size, cx)->0;
    law_pair_verdict_says_the_cost(
        t,
        d,
        cx->0.ctx as nat,
        cx->0.gpu_total_bytes as nat,
        cx->0.kv,
        ranked[k].pair->0,
    );
}

/// The order of a ranking, place by place. Between two candidates with the same
/// kind of verdict, better economics come first; with the same economics the
/// cheaper one does; with the same cost the smaller file does; and candidates alike
/// in all of that stay in the order of the library. A cost that is not known comes
/// before those that are.
pub proof fn law_cheaper_drafts_come_first(
    ranked: Seq<DraftCandidate>,
    from: Seq<int>,
    models: Seq<ModelEntry>,
    target_path: Seq<char>,
    target: GgufMetadata,
    target_size: u64,
    cx: Option<PairContext>,
    k: int,
    l: int,
)
    requires
        is_ranking(ranked, from, models, target_path, target, target_size, cx),
        0 <= k < l < ranked.len(),
    ensures
        ({
            let a = ranked[k];
            let b = ranked[l];
            let same_kind = (a.verdict is Compatible && b.verdict is Compatible) || (a.verdict
                is Unverifiable && b.verdict is Unverifiable) || (a.verdict is Incompatible
                && b.verdict is Incompatible);
            &&& same_kind && b.economics is Recommended ==> a.economics is Recommended
            &&& same_kind && b.economics is Marginal ==> a.economics is Recommended || a.economics
                is Marginal
            &&& same_kind && b.economics is Unknown ==> !(a.economics is Counterproductive)
            &&& same_kind && a.economics == b.economics ==> {
                &&& b.cost_ratio is None ==> a.cost_ratio is None
                &&& a.cost_ratio is Some && b.cost_ratio is Some ==> at_most(
                    a.cost_ratio->0,
                    b.cost_ratio->0,
                )
                &&& a.cost_ratio == b.cost_ratio ==> a.size_bytes <= b.size_bytes
                &&& a.cost_ratio == b.cost_ratio && a.size_bytes == b.size_bytes ==> from[k]
                    < from[l]
            }
        }),
{
    reveal(precedes);
    reveal(is_candidate);
    assert(placed(ranked, from, ranking_order(), k, l));
    assert(offered(models, target_path)(from[k]) && offered(models, target_path)(from[l]));
    assert(made_of(models, target, target_size, cx)(ranked[k], from[k]));
    assert(made_of(models, target, target_size, cx)(ranked[l], from[l]));
    let cost = active_of(target, target_size);
    law_ratios_are_ordinary(active_of(models[from[k]].metadata->0, models[from[k]].size_bytes), cost);
    law_ratios_are_ordinary(active_of(models[from[l]].metadata->0, models[from[l]].size_bytes), cost);
}

/// Who is ranked: every model of the library but the target itself, later shards,
/// projectors, those that the runtime refuses and those without a header; each of
/// them once, and nobody else.
pub proof fn law_every_other_model_is_ranked(
    ranked: Seq<DraftCandidate>,
    from: Seq<int>,
    models: Seq<ModelEntry>,
    target_path: Seq<char>,
    target: GgufMetadata,
    target_size: u64,
    cx: Option<PairContext>,
    i: int,
)
    requires
        is_ranking(ranked, from, models, target_path, target, target_size, cx),
        0 <= i < models.len(),
    ensures
        (exists|k: int| 0 <= k < from.len() && #[trigger] from[k] == i) <==> (models[i].path@
            != target_path && !models[i].is_shard_continuation && !models[i].is_mmproj
            && models[i].load_blocker is None && models[i].metadata is Some),
        from.len() == ranked.len(),
        forall|k: int, l: int| 0 <= k < l < from.len() ==> #[trigger] from[k] != #[trigger] from[l],
{
    if offered(models, target_path)(i) {
        assert(from.contains(i));
    }
    assert forall|k: int, l: int| 0 <= k < l < from.len() implies #[trigger] from[k]
        != #[trigger] from[l] by {
        assert(placed(ranked, from, ranking_order(), k, l));
    }
}

/// What a candidate repeats of its model: the path, the display name or else the
/// file name, the size, the parameter count and the quant label.
pub proof fn law_candidate_describes_its_model(
    ranked: Seq<DraftCandidate>,
    from: Seq<int>,
    models: Seq<ModelEntry>,
    target_path: Seq<char>,
    target: GgufMetadata,
    target_size: u64,
    cx: Option<PairContext>,
    k: int,
)
    requires
        is_ranking(ranked, from, models, target_path, target, target_size, cx),
        0 <= k < ranked.len(),
    ensures
        0 <= from[k] < models.len(),
        ({
            let c = ranked[k];
            let m = models[from[k]];
            &&& m.metadata is Some
            &&& c.path@ == m.path@
            &&& m.display_name is Some ==> c.label@ == m.display_name->0@
            &&& m.display_name is None ==> c.label@ == m.file_name@
            &&& c.size_bytes == m.size_bytes
            &&& c.parameter_count == m.metadata->0.parameter_count
            &&& opt_view(c.quant_label) == opt_view(m.metadata->0.quant_label)
        }),
{
    reveal(is_candidate);
    assert(offered(models, target_path)(from[k]));
    assert(made_of(models, target, target_size, cx)(ranked[k], from[k]));
}

/// What decides between models: the fields of the two headers. They are compatible
/// where both state vocab type, vocab size, BOS and EOS id, the types and ids agree,
/// the sizes are at most 128 apart, and what both say of adding BOS and EOS agrees.
/// They are refused where one of these is stated on both sides and disagrees.
pub proof fn law_verdict_compares_the_headers(
    t: GgufMetadata,
    d: GgufMetadata,
    v: DraftVerdict,
)
    requires
        is_verdict(v, mismatches(t, d), gaps(t, d)),
    ensures
        v is Incompatible <==> {
            ||| t.vocab_type is Some && d.vocab_type is Some && t.vocab_type->0@
                != d.vocab_type->0@
            ||| t.vocab_size is Some && d.vocab_size is Some && (t.vocab_size->0
                > d.vocab_size->0 + 128 || d.vocab_size->0 > t.vocab_size->0 + 128)
            ||| t.bos_token_id is Some && d.bos_token_id is Some && t.bos_token_id->0
                != d.bos_token_id->0
            ||| t.eos_token_id is Some && d.eos_token_id is Some && t.eos_token_id->0
                != d.eos_token_id->0
            ||| t.add_bos_token is Some && d.add_bos_token is Some && t.add_bos_token->0
                != d.add_bos_token->0
            ||| t.add_eos_token is Some && d.add_eos_token is Some && t.add_eos_token->0
                != d.add_eos_token->0
        },
        v is Compatible ==> {
            &&& t.vocab_type is Some && d.vocab_type is Some
            &&& t.vocab_size is Some && d.vocab_size is Some
            &&& t.bos_token_id is Some && d.bos_token_id is Some
            &&& t.eos_token_id is Some && d.eos_token_id is Some
        },
        v is Unverifiable ==> t.vocab_type is None || d.vocab_type is None || t.vocab_size is None
            || d.vocab_size is None || t.bos_token_id is None || d.bos_token_id is None
            || t.eos_token_id is None || d.eos_token_id is None,
{
}

/// Every difference is given as a reason, with what each side says.
pub proof fn law_reasons_name_the_differences(
    t: GgufMetadata,
    d: GgufMetadata,
    reasons: Vec<String>,
)
    requires
        is_verdict(DraftVerdict::Incompatible { reasons }, mismatches(t, d), gaps(t, d)),
    ensures
        t.vocab_type is Some && d.vocab_type is Some && t.vocab_type->0@ != d.vocab_type->0@
            ==> texts(reasons@).contains(
            "vocab type differs: target is "@ + t.vocab_type->0@ + ", draft is "@
                + d.vocab_type->0@,
        ),
        t.vocab_size is Some && d.vocab_size is Some && t.vocab_size->0 > d.vocab_size->0 + 128
            ==> texts(reasons@).contains(
            "vocab size differs by "@ + decimal((t.vocab_size->0 - d.vocab_size->0) as nat)
                + " tokens ("@ + decimal(t.vocab_size->0 as nat) + " vs "@ + decimal(
                d.vocab_size->0 as nat,
            ) + "); llama.cpp allows at most "@ + decimal(128),
        ),
        d.vocab_size is Some && t.vocab_size is Some && d.vocab_size->0 > t.vocab_size->0 + 128
            ==> texts(reasons@).contains(
            "vocab size differs by "@ + decimal((d.vocab_size->0 - t.vocab_size->0) as nat)
                + " tokens ("@ + decimal(t.vocab_size->0 as nat) + " vs "@ + decimal(
                d.vocab_size->0 as nat,
            ) + "); llama.cpp allows at most "@ + decimal(128),
        ),
        t.bos_token_id is Some && d.bos_token_id is Some && t.bos_token_id != d.bos_token_id
            ==> texts(reasons@).contains(
            "BOS"@ + " token id differs: target "@ + decimal(t.bos_token_id->0 as nat)
                + ", draft "@ + decimal(d.bos_token_id->0 as nat),
        ),
        t.eos_token_id is Some && d.eos_token_id is Some && t.eos_token_id != d.eos_token_id
            ==> texts(reasons@).contains(
            "EOS"@ + " token id differs: target "@ + decimal(t.eos_token_id->0 as nat)
                + ", draft "@ + decimal(d.eos_token_id->0 as nat),
        ),
        t.add_bos_token == Some(true) && d.add_bos_token == Some(false) ==> texts(
            reasons@,
        ).contains("BOS"@ + " auto-add differs: target "@ + "true"@ + ", draft "@ + "false"@),
        t.add_bos_token == Some(false) && d.add_bos_token == Some(true) ==> texts(
            reasons@,
        ).contains("BOS"@ + " auto-add differs: target "@ + "false"@ + ", draft "@ + "true"@),
        t.add_eos_token == Some(true) && d.add_eos_token == Some(false) ==> texts(
            reasons@,
        ).contains("EOS"@ + " auto-add differs: target "@ + "true"@ + ", draft "@ + "false"@),
        t.add_eos_token == Some(false) && d.add_eos_token == Some(true) ==> texts(
            reasons@,
        ).contains("EOS"@ + " auto-add differs: target "@ + "false"@ + ", draft "@ + "true"@),
{
    let a = type_reasons(t, d);
    let b = size_reasons(t, d);
    let c = id_reasons("BOS"@, t.bos_token_id, d.bos_token_id);
    let e = add_reasons("BOS"@, t.add_bos_token, d.add_bos_token);
    let f = id_reasons("EOS"@, t.eos_token_id, d.eos_token_id);
    let g = add_reasons("EOS"@, t.add_eos_token, d.add_eos_token);
    let all = mismatches(t, d);
    let n1 = a.len() as int;
    let n2 = n1 + b.len();
    let n3 = n2 + c.len();
    let n4 = n3 + e.len();
    let n5 = n4 + f.len();
    if a.len() > 0 {
        assert(all[0] == a[0]);
    }
    if b.len() > 0 {
        assert(all[n1] == b[0]);
    }
    if c.len() > 0 {
        assert(all[n2] == c[0]);
    }
    if e.len() > 0 {
        assert(all[n3] == e[0]);
    }
    if f.len() > 0 {
        assert(all[n4] == f[0]);
    }
    if g.len() > 0 {
        assert(all[n5] == g[0]);
    }
}

/// Everything that is missing is given as a reason, and nothing else is: one for the
/// vocab type, the vocab size and each special token.
pub proof fn law_reasons_name_what_is_missing(
    t: GgufMetadata,
    d: GgufMetadata,
    reasons: Vec<String>,
)
    requires
        is_verdict(DraftVerdict::Unverifiable { reasons }, mismatches(t, d), gaps(t, d)),
    ensures
        t.vocab_type is None || d.vocab_type is None ==> texts(reasons@).contains(
            "vocab type missing from one of the models"@,
        ),
        t.vocab_size is None || d.vocab_size is None ==> texts(reasons@).contains(
            "vocab size missing from one of the models"@,
        ),
        t.bos_token_id is None || d.bos_token_id is None ==> texts(reasons@).contains(
            "BOS"@ + " token id missing from one of the models"@,
        ),
        t.eos_token_id is None || d.eos_token_id is None ==> texts(reasons@).contains(
            "EOS"@ + " token id missing from one of the models"@,
        ),
        reasons@.len() == (if t.vocab_type is None || d.vocab_type is None {
            1int
        } else {
            0
        }) + (if t.vocab_size is None || d.vocab_size is None {
            1int
        } else {
            0
        }) + (if t.bos_token_id is None || d.bos_token_id is None {
            1int
        } else {
            0
        }) + (if t.eos_token_id is None || d.eos_token_id is None {
            1int
        } else {
            0
        }),
{
    let a = reason_if(
        t.vocab_type is None || d.vocab_type is None,
        "vocab type missing from one of the models"@,
    );
    let b = reason_if(
        !both(t.vocab_size, d.vocab_size),
        "vocab size missing from one of the models"@,
    );
    let c = reason_if(
        !both(t.bos_token_id, d.bos_token_id),
        "BOS"@ + " token id missing from one of the models"@,
    );
    let e = reason_if(
        !both(t.eos_token_id, d.eos_token_id),
        "EOS"@ + " token id missing from one of the models"@,
    );
    let all = gaps(t, d);
    assert(texts(reasons@).len() == reasons@.len());
    if a.len() > 0 {
        assert(all[0] == a[0]);
    }
    if b.len() > 0 {
        assert(all[a.len() as int] == b[0]);
    }
    if c.len() > 0 {
        assert(all[(a.len() + b.len()) as int] == c[0]);
    }
    if e.len() > 0 {
        assert(all[(a.len() + b.len() + c.len()) as int] == e[0]);
    }
}

/// The verdict of a candidate is the one on its own header beside the target's.
pub proof fn law_candidate_is_judged_by_its_own_header(
    ranked: Seq<DraftCandidate>,
    from: Seq<int>,
    models: Seq<ModelEntry>,
    target_path: Seq<char>,
    target: GgufMetadata,
    target_size: u64,
    cx: Option<PairContext>,
    k: int,
)
    requires
        is_ranking(ranked, from, models, target_path, target, target_size, cx),
        0 <= k < ranked.len(),
    ensures
        ({
            let d = models[from[k]].metadata->0;
            &&& tokenizer_stated(target) && same_tokenizer(target, d) ==> ranked[k].verdict
                is Compatible
            &&& target.vocab_type is Some && d.vocab_type is Some && target.vocab_type->0@
                != d.vocab_type->0@ ==> ranked[k].verdict is Incompatible
            &&& target.bos_token_id is Some && d.bos_token_id is Some && target.bos_token_id
                != d.bos_token_id ==> ranked[k].verdict is Incompatible
            &&& d.vocab_size is None ==> !(ranked[k].verdict is Compatible)
        }),
{
    reveal(is_candidate);
    assert(offered(models, target_path)(from[k]));
    assert(made_of(models, target, target_size, cx)(ranked[k], from[k]));
    law_verdict_compares_the_headers(target, models[from[k]].metadata->0, ranked[k].verdict);
}

/// The parameters of a model: the stated count, if it is above zero, whatever the
/// file weighs; without it those that the file's bytes hold at the label's bits,
/// less the slack; unknown without a size or a known label.
pub proof fn law_stated_parameters_are_believed(md: GgufMetadata, size: u64)
    ensures
        md.parameter_count is Some && md.parameter_count->0 > 0 ==> total_of(md, size)
            == md.parameter_count,
        (md.parameter_count is None || md.parameter_count == Some(0u64)) && (size == 0
            || md.quant_label is None || level_of(md.quant_label->0@) is None) ==> total_of(
            md,
            size,
        ) is None,
        (md.parameter_count is None || md.parameter_count == Some(0u64)) && size > 0
            && md.quant_label is Some && level_of(md.quant_label->0@) is Some ==> total_of(md, size)
            == Some(
            truncated(
                over(
                    over(
                        times(of_whole(size as nat), Binary64 { bits: 0x4020_0000_0000_0000 }),
                        Binary64 { bits: level_of(md.quant_label->0@)->0 },
                    ),
                    Binary64 { bits: 0x3ff0_cccc_cccc_cccd },
                ),
            ) as u64,
        ),
{
}

/// A dense model, or one that runs all of its experts, evaluates all of its
/// parameters; one that runs only some evaluates their share, used over all; and
/// what is not known of the parameters is not known of those either.
pub proof fn law_experts_share_the_parameters(md: GgufMetadata, size: u64)
    ensures
        total_of(md, size) is None <==> active_of(md, size) is None,
        md.expert_count is None || md.expert_used_count is None ==> active_of(md, size) == total_of(
            md,
            size,
        ),
        md.expert_count is Some && md.expert_used_count is Some && md.expert_used_count->0
            >= md.expert_count->0 ==> active_of(md, size) == total_of(md, size),
        md.expert_count is Some && md.expert_used_count is Some && md.expert_used_count->0
            < md.expert_count->0 && total_of(md, size) is Some ==> active_of(md, size) == Some(
            truncated(
                times(
                    of_whole(total_of(md, size)->0 as nat),
                    over(
                        of_whole(md.expert_used_count->0 as nat),
                        of_whole(md.expert_count->0 as nat),
                    ),
                ),
            ) as u64,
        ),
{
}

/// A candidate's cost is its own active parameters over the target's, and is known
/// exactly where both are and the target has some.
pub proof fn law_cost_is_draft_over_target(
    ranked: Seq<DraftCandidate>,
    from: Seq<int>,
    models: Seq<ModelEntry>,
    target_path: Seq<char>,
    target: GgufMetadata,
    target_size: u64,
    cx: Option<PairContext>,
    k: int,
)
    requires
        is_ranking(ranked, from, models, target_path, target, target_size, cx),
        0 <= k < ranked.len(),
    ensures
        ({
            let c = ranked[k];
            let mine = active_of(models[from[k]].metadata->0, models[from[k]].size_bytes);
            let whole = active_of(target, target_size);
            &&& c.active_params == mine
            &&& c.cost_ratio is Some <==> mine is Some && whole is Some && whole->0 > 0
            &&& c.cost_ratio is Some ==> c.cost_ratio->0 == over(
                of_whole(mine->0 as nat),
                of_whole(whole->0 as nat),
            )
            &&& c.cost_ratio is Some && mine->0 < whole->0 ==> at_most(
                c.cost_ratio->0,
                Binary64 { bits: 0x3ff0_0000_0000_0000 },
            )
        }),
{
    reveal(is_candidate);
    assert(offered(models, target_path)(from[k]));
    assert(made_of(models, target, target_size, cx)(ranked[k], from[k]));
    let mine = active_of(models[from[k]].metadata->0, models[from[k]].size_bytes);
    let whole = active_of(target, target_size);
    if mine is Some && whole is Some && whole->0 > 0 && mine->0 < whole->0 {
        crate::benchmark::law_accept_rate_is_a_share(mine->0, whole->0);
    }
}

/// What a candidate is worth. Budgeted beside the target it is a loss unless the
/// pair fits; otherwise a cost of at most 0.20 is recommended, of at most 0.60
/// marginal, of more a loss, and without a cost nothing can be said. Not budgeted,
/// a draft that weighs as much as its target is marginal where it would be
/// recommended.
pub proof fn law_economics_follow_the_cost(
    ranked: Seq<DraftCandidate>,
    from: Seq<int>,
    models: Seq<ModelEntry>,
    target_path: Seq<char>,
    target: GgufMetadata,
    target_size: u64,
    cx: Option<PairContext>,
    k: int,
)
    requires
        is_ranking(ranked, from, models, target_path, target, target_size, cx),
        0 <= k < ranked.len(),
    ensures
        ({
            let c = ranked[k];
            let cheap = c.cost_ratio is Some && at_most(
                c.cost_ratio->0,
                Binary64 { bits: 0x3fc9_9999_9999_999a },
            );
            let middling = c.cost_ratio is Some && !cheap && at_most(
                c.cost_ratio->0,
                Binary64 { bits: 0x3fe3_3333_3333_3333 },
            );
            let lost = c.pair is Some && !(c.pair->0.verdict is Fits);
            let heavy = c.pair is None && c.size_bytes >= target_size;
            &&& c.economics is Recommended <==> cheap && !lost && !heavy
            &&& c.economics is Marginal <==> !lost && (middling || (cheap && heavy))
            &&& c.economics is Unknown <==> c.cost_ratio is None && !lost
            &&& c.economics is Counterproductive <==> lost || (c.cost_ratio is Some && !cheap
                && !middling)
        }),
{
    reveal(is_candidate);
    assert(offered(models, target_path)(from[k]));
    assert(made_of(models, target, target_size, cx)(ranked[k], from[k]));
}

/// A candidate is budgeted exactly where the hardware is known and both headers
/// state their layers: at the given context and cache type, on the given card, as
/// the draft beside the target.
pub proof fn law_candidates_are_budgeted_on_the_card(
    ranked: Seq<DraftCandidate>,
    from: Seq<int>,
    models: Seq<ModelEntry>,
    target_path: Seq<char>,
    target: GgufMetadata,
    target_size: u64,
    cx: Option<PairContext>,
    k: int,
)
    requires
        is_ranking(ranked, from, models, target_path, target, target_size, cx),
        0 <= k < ranked.len(),
    ensures
        ({
            let c = ranked[k];
            let d = models[from[k]].metadata->0;
            &&& c.pair is Some <==> cx is Some && target.block_count is Some
                && target.block_count->0 > 0 && d.block_count is Some && d.block_count->0 > 0
            &&& c.pair is Some ==> is_pair(
                shape_of(target, target_size)->0,
                shape_of(d, models[from[k]].size_bytes)->0,
                cx->0.ctx as nat,
                cx->0.gpu_total_bytes as nat,
                cx->0.kv,
                c.pair->0,
            )
            &&& c.pair is Some && target.block_count->0 <= u32::MAX && d.block_count->0 <= u32::MAX
                ==> c.pair->0.target_layers_total == target.block_count->0
                && c.pair->0.draft_layers_total == d.block_count->0
        }),
{
    reveal(is_candidate);
    assert(offered(models, target_path)(from[k]));
    assert(made_of(models, target, target_size, cx)(ranked[k], from[k]));
}

} // verus!
