//! Hardware-aware configuration estimates.
//!
//! Given a model's shape and the VRAM of a GPU, the estimator says how many
//! layers can be offloaded and how much context fits. The KV cache is the term
//! that grows with the context:
//!
//!   kv = layers * ctx * n_head_kv * (key_len + value_len) * element size
//!
//! Weights are the file size scaled by the share of offloaded layers, and a flat
//! allowance covers compute buffers.

use crate::binary64::{
    lemma_floor_monotone, lemma_product_monotone, lemma_whole_monotone, magnitude, of_whole, over,
    times, truncated, Binary64, INFINITY,
};
use crate::gguf::GgufMetadata;
use crate::text::{
    begins, chars_of, decimal, ends, ends_with, lower, number, opt_str_view, opt_view, push_text,
    same, same_chars, starts_with, texts, to_lower, to_upper, trim, trimmed, upper,
};
use vstd::prelude::*;

verus! {

/// The binary64 number 0.90: the share of the VRAM that may be budgeted. The rest
/// is left to the compositor, the driver and the slop of the estimate.
pub const VRAM_HEADROOM: u64 = 0x3fec_cccc_cccc_cccd;

/// Flat allowance for compute buffers: 400 MiB.
pub const OVERHEAD_BYTES: u64 = 419_430_400;

/// Context to aim for when a model cannot be fully offloaded.
pub const TARGET_PARTIAL_CTX: u64 = 8192;

/// Element type of the KV cache.
#[derive(Debug, Clone, Copy, PartialEq, Eq, Structural)]
pub enum KvType {
    F16,
    Q8_0,
    Q4_0,
}

/// Twice the bits that one cache element takes, block scales included: 16, 8.5
/// and 4.5 bits.
pub open spec fn element_bits(kv: KvType) -> nat {
    match kv {
        KvType::F16 => 32,
        KvType::Q8_0 => 17,
        KvType::Q4_0 => 9,
    }
}

/// The cache type that a spelling names; what is unknown or absent is f16, which
/// over-estimates rather than promises context that will not fit.
pub open spec fn kv_named(s: Option<Seq<char>>) -> KvType {
    match s {
        Some(v) => if lower(trim(v)) == "q8_0"@ {
            KvType::Q8_0
        } else if lower(trim(v)) == "q4_0"@ {
            KvType::Q4_0
        } else {
            KvType::F16
        },
        None => KvType::F16,
    }
}

impl KvType {
    /// Twice the bits per element.
    pub fn bits_x2(self) -> (r: u64)
        ensures
            r as nat == element_bits(self),
    {
        match self {
            KvType::F16 => 32,
            KvType::Q8_0 => 17,
            KvType::Q4_0 => 9,
        }
    }

    /// Reads the spelling that llama.cpp takes for `-ctk` and `-ctv`.
    pub fn parse(s: Option<&str>) -> (r: KvType)
        ensures
            r == kv_named(opt_str_view(s)),
    {
        match s {
            Some(v) => {
                let cs = chars_of(v);
                let low = to_lower(trimmed(cs.as_slice()));
                let q8 = chars_of("q8_0");
                let q4 = chars_of("q4_0");
                if same_chars(low.as_slice(), q8.as_slice()) {
                    KvType::Q8_0
                } else if same_chars(low.as_slice(), q4.as_slice()) {
                    KvType::Q4_0
                } else {
                    KvType::F16
                }
            },
            None => KvType::F16,
        }
    }
}

/// The model dimensions that the estimator needs.
#[derive(Debug, Clone, Copy)]
pub struct ModelShape {
    pub file_size: u64,
    pub n_layers: u64,
    pub n_head_kv: u64,
    pub head_dim_k: u64,
    pub head_dim_v: u64,
    pub native_ctx: u64,
}

// ---------------------------------------------------------------------------
// Costs
// ---------------------------------------------------------------------------

/// The smaller of two numbers.
pub open spec fn least(a: nat, b: nat) -> nat {
    if a <= b {
        a
    } else {
        b
    }
}

/// Bytes that may be budgeted on a GPU with this much memory.
#[verifier::opaque]
pub open spec fn budget(gpu_total: nat) -> nat {
    truncated(times(of_whole(gpu_total), Binary64 { bits: VRAM_HEADROOM }))
}

/// Bytes of KV cache for `layers` layers at `ctx` tokens of context. A product
/// beyond 64 bits counts as the largest one.
pub open spec fn kv_cost(shape: ModelShape, ctx: nat, layers: nat, kv: KvType) -> nat {
    least(
        layers * ctx * (shape.n_head_kv as nat) * ((shape.head_dim_k + shape.head_dim_v) as nat)
            * element_bits(kv),
        u64::MAX as nat,
    ) / 16
}

/// Bytes of weights for `layers` layers: the file size scaled by their share.
pub open spec fn weights(shape: ModelShape, layers: nat) -> nat {
    if shape.n_layers == 0 {
        0
    } else {
        (shape.file_size as nat) * layers / (shape.n_layers as nat)
    }
}

/// Bytes on the GPU for `layers` layers at `ctx`.
pub open spec fn cost(shape: ModelShape, ctx: nat, layers: nat, kv: KvType) -> nat {
    weights(shape, layers) + OVERHEAD_BYTES as nat + kv_cost(shape, ctx, layers, kv)
}

/// The head dimensions can be added, and all layers at `ctx` cost what 64 bits
/// can count.
pub open spec fn countable(shape: ModelShape, ctx: nat, kv: KvType) -> bool {
    &&& shape.head_dim_k + shape.head_dim_v <= u64::MAX
    &&& cost(shape, ctx, shape.n_layers as nat, kv) <= u64::MAX
}

/// `n` is the most layers that fit in `room` bytes at `ctx`, or 0 if none do.
pub open spec fn is_most_layers(
    shape: ModelShape,
    ctx: nat,
    room: nat,
    kv: KvType,
    n: nat,
) -> bool {
    &&& n <= shape.n_layers
    &&& n == 0 || cost(shape, ctx, n, kv) <= room
    &&& forall|m: nat| n < m <= shape.n_layers ==> #[trigger] cost(shape, ctx, m, kv) > room
}

/// The most layers that fit in `room` bytes at `ctx`, or 0 if none do.
pub open spec fn most_layers(shape: ModelShape, ctx: nat, room: nat, kv: KvType) -> nat {
    choose|n: nat| is_most_layers(shape, ctx, room, kv, n)
}

/// `a * b`, at most `u64::MAX`.
fn saturating(a: u64, b: u64) -> (r: u64)
    ensures
        r as nat == least((a as nat) * (b as nat), u64::MAX as nat),
{
    assert(a * b <= 0xffff_ffff_ffff_ffff * 0xffff_ffff_ffff_ffff) by (nonlinear_arith)
        requires
            a <= 0xffff_ffff_ffff_ffff,
            b <= 0xffff_ffff_ffff_ffff,
    ;
    assert((a as nat) * (b as nat) == a * b);
    let p: u128 = (a as u128) * (b as u128);
    if p <= u64::MAX as u128 {
        p as u64
    } else {
        u64::MAX
    }
}

/// Cutting a factor off at the limit does not change a product that is cut off
/// there itself.
proof fn lemma_saturating_chain(x: nat, f: nat, top: nat)
    ensures
        least(least(x, top) * f, top) == least(x * f, top),
{
    if x > top {
        if f == 0 {
            assert(top * f == 0 && x * f == 0) by (nonlinear_arith)
                requires
                    f == 0,
            ;
        } else {
            assert(top * f >= top && x * f >= top) by (nonlinear_arith)
                requires
                    f >= 1,
                    x > top,
            ;
        }
    }
}

/// Bytes of KV cache.
pub fn kv_bytes(shape: &ModelShape, ctx: u64, layers_on_gpu: u64, kv: KvType) -> (r: u64)
    requires
        shape.head_dim_k + shape.head_dim_v <= u64::MAX,
    ensures
        r as nat == kv_cost(*shape, ctx as nat, layers_on_gpu as nat, kv),
{
    let a = saturating(layers_on_gpu, ctx);
    let b = saturating(a, shape.n_head_kv);
    let c = saturating(b, shape.head_dim_k + shape.head_dim_v);
    let d = saturating(c, kv.bits_x2());
    proof {
        let top = u64::MAX as nat;
        let p0 = (layers_on_gpu as nat) * (ctx as nat);
        let p1 = p0 * (shape.n_head_kv as nat);
        let p2 = p1 * ((shape.head_dim_k + shape.head_dim_v) as nat);
        lemma_saturating_chain(p0, shape.n_head_kv as nat, top);
        lemma_saturating_chain(p1, (shape.head_dim_k + shape.head_dim_v) as nat, top);
        lemma_saturating_chain(p2, element_bits(kv), top);
    }
    d / 16
}

/// Bytes of weights, as far as 64 bits count them.
pub fn weights_bytes(shape: &ModelShape, layers_on_gpu: u64) -> (r: u64)
    ensures
        r as nat == weights(*shape, layers_on_gpu as nat) % 0x1_0000_0000_0000_0000,
{
    if shape.n_layers == 0 {
        return 0;
    }
    assert(shape.file_size * layers_on_gpu <= 0xffff_ffff_ffff_ffff * 0xffff_ffff_ffff_ffff)
        by (nonlinear_arith)
        requires
            shape.file_size <= 0xffff_ffff_ffff_ffff,
            layers_on_gpu <= 0xffff_ffff_ffff_ffff,
    ;
    assert((shape.file_size as nat) * (layers_on_gpu as nat) == shape.file_size * layers_on_gpu);
    let q: u128 = ((shape.file_size as u128) * (layers_on_gpu as u128)) / (shape.n_layers as u128);
    assert(q as u64 == q % 0x1_0000_0000_0000_0000) by (bit_vector);
    q as u64
}

/// More layers weigh more, and all of them weigh what the file does.
proof fn lemma_weights(shape: ModelShape, a: nat, b: nat)
    requires
        a <= b <= shape.n_layers,
    ensures
        weights(shape, a) <= weights(shape, b) <= shape.file_size,
{
    if shape.n_layers > 0 {
        let f = shape.file_size as nat;
        let n = shape.n_layers as nat;
        assert(f * a <= f * b && f * b <= f * n) by (nonlinear_arith)
            requires
                a <= b,
                b <= n,
        ;
        vstd::arithmetic::div_mod::lemma_div_is_ordered((f * a) as int, (f * b) as int, n as int);
        vstd::arithmetic::div_mod::lemma_div_is_ordered((f * b) as int, (f * n) as int, n as int);
        vstd::arithmetic::div_mod::lemma_div_by_multiple(f as int, n as int);
    }
}

/// More layers, more context or wider elements never make the cache smaller.
proof fn lemma_kv(shape: ModelShape, c1: nat, c2: nat, n1: nat, n2: nat, kv1: KvType, kv2: KvType)
    requires
        c1 <= c2,
        n1 <= n2,
        element_bits(kv1) <= element_bits(kv2),
    ensures
        kv_cost(shape, c1, n1, kv1) <= kv_cost(shape, c2, n2, kv2),
{
    let h = shape.n_head_kv as nat;
    let d = (shape.head_dim_k + shape.head_dim_v) as nat;
    let b1 = element_bits(kv1);
    let b2 = element_bits(kv2);
    let p1 = n1 * c1;
    let p2 = n2 * c2;
    assert(p1 <= p2) by (nonlinear_arith)
        requires
            n1 <= n2,
            c1 <= c2,
            p1 == n1 * c1,
            p2 == n2 * c2,
    ;
    assert(p1 * h <= p2 * h) by (nonlinear_arith)
        requires
            p1 <= p2,
    ;
    let q1 = p1 * h;
    let q2 = p2 * h;
    assert(q1 * d <= q2 * d) by (nonlinear_arith)
        requires
            q1 <= q2,
    ;
    let r1 = q1 * d;
    let r2 = q2 * d;
    assert(r1 * b1 <= r2 * b2) by (nonlinear_arith)
        requires
            r1 <= r2,
            b1 <= b2,
    ;
}

/// Costs grow with the layers, the context and the element size.
pub proof fn lemma_cost(
    shape: ModelShape,
    c1: nat,
    c2: nat,
    n1: nat,
    n2: nat,
    kv1: KvType,
    kv2: KvType,
)
    requires
        c1 <= c2,
        n1 <= n2 <= shape.n_layers,
        element_bits(kv1) <= element_bits(kv2),
    ensures
        cost(shape, c1, n1, kv1) <= cost(shape, c2, n2, kv2),
{
    lemma_weights(shape, n1, n2);
    lemma_kv(shape, c1, c2, n1, n2, kv1, kv2);
}

/// Two answers to "the most layers that fit" are the same.
proof fn lemma_most_unique(shape: ModelShape, ctx: nat, room: nat, kv: KvType, a: nat, b: nat)
    requires
        is_most_layers(shape, ctx, room, kv, a),
        is_most_layers(shape, ctx, room, kv, b),
    ensures
        a == b,
{
    if a < b {
        assert(cost(shape, ctx, b, kv) > room);
    } else if b < a {
        assert(cost(shape, ctx, a, kv) > room);
    }
}

/// The most layers that fit, counted down from `n`.
proof fn lemma_most_down(shape: ModelShape, ctx: nat, room: nat, kv: KvType, n: nat)
    requires
        n <= shape.n_layers,
        forall|m: nat| n < m <= shape.n_layers ==> #[trigger] cost(shape, ctx, m, kv) > room,
    ensures
        exists|k: nat| is_most_layers(shape, ctx, room, kv, k),
    decreases n,
{
    if n == 0 || cost(shape, ctx, n, kv) <= room {
        assert(is_most_layers(shape, ctx, room, kv, n));
    } else {
        lemma_most_down(shape, ctx, room, kv, (n - 1) as nat);
    }
}

/// What `most_layers` is.
pub proof fn lemma_most_layers(shape: ModelShape, ctx: nat, room: nat, kv: KvType)
    ensures
        is_most_layers(shape, ctx, room, kv, most_layers(shape, ctx, room, kv)),
{
    lemma_most_down(shape, ctx, room, kv, shape.n_layers as nat);
}

/// Bytes on the GPU for some of the layers.
fn cost_of(shape: &ModelShape, ctx: u64, layers: u64, kv: KvType) -> (r: u64)
    requires
        countable(*shape, ctx as nat, kv),
        layers <= shape.n_layers,
    ensures
        r as nat == cost(*shape, ctx as nat, layers as nat, kv),
{
    proof {
        lemma_weights(*shape, layers as nat, shape.n_layers as nat);
        lemma_cost(*shape, ctx as nat, ctx as nat, layers as nat, shape.n_layers as nat, kv, kv);
    }
    weights_bytes(shape, layers) + OVERHEAD_BYTES + kv_bytes(shape, ctx, layers, kv)
}

/// Most layers that fit on the GPU at a given context, 0 if none do.
pub fn max_layers_at(shape: &ModelShape, ctx: u64, budget: u64, kv: KvType) -> (n: u64)
    requires
        countable(*shape, ctx as nat, kv),
    ensures
        n as nat == most_layers(*shape, ctx as nat, budget as nat, kv),
        n <= shape.n_layers,
        n == 0 || cost(*shape, ctx as nat, n as nat, kv) <= budget,
{
    let mut n: u64 = shape.n_layers;
    proof {
        lemma_most_layers(*shape, ctx as nat, budget as nat, kv);
    }
    loop
        invariant
            countable(*shape, ctx as nat, kv),
            n <= shape.n_layers,
            forall|m: nat|
                n < m <= shape.n_layers ==> #[trigger] cost(*shape, ctx as nat, m, kv) > budget,
            is_most_layers(
                *shape,
                ctx as nat,
                budget as nat,
                kv,
                most_layers(*shape, ctx as nat, budget as nat, kv),
            ),
        decreases n,
    {
        if cost_of(shape, ctx, n, kv) <= budget {
            proof {
                lemma_most_unique(
                    *shape,
                    ctx as nat,
                    budget as nat,
                    kv,
                    n as nat,
                    most_layers(*shape, ctx as nat, budget as nat, kv),
                );
            }
            return n;
        }
        if n == 0 {
            proof {
                lemma_most_unique(
                    *shape,
                    ctx as nat,
                    budget as nat,
                    kv,
                    0,
                    most_layers(*shape, ctx as nat, budget as nat, kv),
                );
            }
            return 0;
        }
        n = n - 1;
    }
}

/// `budget`, computed.
pub fn budget_bytes(gpu_total: u64) -> (r: u64)
    ensures
        r as nat == budget(gpu_total as nat),
{
    proof {
        reveal(budget);
    }
    Binary64::of(gpu_total).times(Binary64 { bits: VRAM_HEADROOM }).truncated()
}

/// A count as a `u32`, at most `u32::MAX`.
fn clamp32(n: u64) -> (r: u32)
    ensures
        r as nat == least(n as nat, u32::MAX as nat),
{
    if n <= u32::MAX as u64 {
        n as u32
    } else {
        u32::MAX
    }
}

// ---------------------------------------------------------------------------
// A single model
// ---------------------------------------------------------------------------

/// One rung of the context ladder.
#[derive(Debug, Clone, Copy)]
pub struct ContextOption {
    pub ctx: u32,
    pub est_total_bytes: u64,
    /// Every layer fits on the GPU at this context.
    pub fits: bool,
    /// Layers that do fit at this context. A rung that does not fit with all its
    /// layers but has some is still usable.
    pub n_gpu_layers: u32,
}

/// A recommendation for one model on one GPU.
#[derive(Debug, Clone)]
pub struct VramEstimate {
    pub fits: bool,
    pub full_offload: bool,
    pub n_gpu_layers: u32,
    pub ctx_size: u32,
    pub est_weights_bytes: u64,
    pub est_kv_bytes: u64,
    pub est_overhead_bytes: u64,
    pub est_total_bytes: u64,
    pub budget_bytes: u64,
    pub gpu_total_bytes: u64,
    pub gpu_free_bytes: u64,
    pub context_options: Vec<ContextOption>,
    /// Which quant levels of the model would fit, filled in by the caller that
    /// knows the file's quant and parameter count.
    pub quant_advice: Option<QuantAdvice>,
    pub notes: Vec<String>,
}

/// The contexts to consider.
pub open spec fn candidates() -> Seq<u32> {
    seq![2048u32, 4096, 8192, 16384, 32768, 65536, 131072, 262144]
}

/// The context a model was trained for, as far as 32 bits go.
pub open spec fn native(shape: ModelShape) -> nat {
    least(shape.native_ctx as nat, u32::MAX as nat)
}

/// The contexts of some rungs.
pub open spec fn contexts(options: Seq<ContextOption>) -> Seq<u32> {
    options.map_values(|o: ContextOption| o.ctx)
}

/// `ctxs` holds, in increasing order, the candidates that the model can take and
/// its native context.
pub open spec fn is_ladder(ctxs: Seq<u32>, shape: ModelShape) -> bool {
    &&& forall|i: int, j: int| 0 <= i < j < ctxs.len() ==> ctxs[i] < ctxs[j]
    &&& forall|c: u32| #[trigger]
        ctxs.contains(c) <==> (candidates().contains(c) && c <= shape.native_ctx) || c == native(
            shape,
        )
}

/// `o` says what its context costs and how many layers fit.
pub open spec fn is_rung(o: ContextOption, shape: ModelShape, room: nat, kv: KvType) -> bool {
    &&& o.est_total_bytes == cost(shape, o.ctx as nat, shape.n_layers as nat, kv)
    &&& o.fits == (o.est_total_bytes <= room)
    &&& o.n_gpu_layers == least(most_layers(shape, o.ctx as nat, room, kv), u32::MAX as nat)
}

/// The context and the layers to use when not all layers fit: the first of 8192,
/// 4096 and 2048, none above the native context, at which at least one layer
/// fits; with none, no layers.
pub open spec fn partial_choice(shape: ModelShape, room: nat, kv: KvType) -> (nat, nat) {
    let a = least(TARGET_PARTIAL_CTX as nat, shape.native_ctx as nat);
    let b = least(4096, shape.native_ctx as nat);
    let c = least(2048, shape.native_ctx as nat);
    if shape.native_ctx > 0 && most_layers(shape, a, room, kv) > 0 {
        (a, most_layers(shape, a, room, kv))
    } else if shape.native_ctx > 0 && most_layers(shape, b, room, kv) > 0 {
        (b, most_layers(shape, b, room, kv))
    } else if shape.native_ctx > 0 && most_layers(shape, c, room, kv) > 0 {
        (c, most_layers(shape, c, room, kv))
    } else if b == 0 {
        (1, 0)
    } else {
        (b, 0)
    }
}

/// The notes on a partial offload.
pub open spec fn partial_notes(shape: ModelShape, ctx: nat, layers: nat) -> Seq<Seq<char>> {
    if layers == 0 {
        seq!["model won't fit in VRAM even partially; will run on CPU"@]
    } else {
        let first = "partial offload: "@ + decimal(layers) + "/"@ + decimal(shape.n_layers as nat)
            + " layers fit at "@ + decimal(ctx) + " ctx"@;
        if layers < shape.n_layers {
            seq![
                first,
                "more context is available lower down the ladder — each rung trades GPU layers (speed) for context length"@,
            ]
        } else {
            seq![first]
        }
    }
}

/// Some rung takes all layers.
pub open spec fn some_rung_fits(options: Seq<ContextOption>) -> bool {
    exists|i: int| 0 <= i < options.len() && (#[trigger] options[i]).fits
}

/// `ctx` is the largest context whose rung takes all layers.
pub open spec fn is_largest_fitting(options: Seq<ContextOption>, ctx: u32) -> bool {
    &&& exists|i: int|
        0 <= i < options.len() && (#[trigger] options[i]).fits && options[i].ctx == ctx
    &&& forall|i: int|
        0 <= i < options.len() && (#[trigger] options[i]).fits ==> options[i].ctx <= ctx
}

/// `r` puts `layers` layers on the GPU at its context.
pub open spec fn charges(shape: ModelShape, kv: KvType, layers: nat, r: VramEstimate) -> bool {
    &&& r.n_gpu_layers == least(layers, u32::MAX as nat)
    &&& r.est_weights_bytes == weights(shape, layers)
    &&& r.est_kv_bytes == kv_cost(shape, r.ctx_size as nat, layers, kv)
    &&& r.est_total_bytes == cost(shape, r.ctx_size as nat, layers, kv)
}

/// `r` is the recommendation for `shape` on a GPU with this much memory: all
/// layers at the largest context at which they fit, or else the partial choice.
pub open spec fn is_estimate(
    shape: ModelShape,
    gpu_total: nat,
    gpu_free: nat,
    kv: KvType,
    notes: Seq<Seq<char>>,
    r: VramEstimate,
) -> bool {
    let room = budget(gpu_total);
    let (ctx, layers) = partial_choice(shape, room, kv);
    &&& r.budget_bytes == room
    &&& r.gpu_total_bytes == gpu_total
    &&& r.gpu_free_bytes == gpu_free
    &&& r.est_overhead_bytes == OVERHEAD_BYTES
    &&& r.quant_advice is None
    &&& is_ladder(contexts(r.context_options@), shape)
    &&& forall|i: int|
        0 <= i < r.context_options@.len() ==> is_rung(
            #[trigger] r.context_options@[i],
            shape,
            room,
            kv,
        )
    &&& r.full_offload == some_rung_fits(r.context_options@)
    &&& if r.full_offload {
        &&& r.fits
        &&& is_largest_fitting(r.context_options@, r.ctx_size)
        &&& charges(shape, kv, shape.n_layers as nat, r)
        &&& texts(r.notes@) == notes
    } else {
        &&& r.fits == (layers > 0)
        &&& r.ctx_size == ctx
        &&& charges(shape, kv, layers, r)
        &&& texts(r.notes@) == notes + partial_notes(shape, ctx, layers)
    }
}

/// The candidate at index `i`.
fn candidate(i: usize) -> (c: u32)
    requires
        i < 8,
    ensures
        c == candidates()[i as int],
{
    if i == 0 {
        2048
    } else if i == 1 {
        4096
    } else if i == 2 {
        8192
    } else if i == 3 {
        16384
    } else if i == 4 {
        32768
    } else if i == 5 {
        65536
    } else if i == 6 {
        131072
    } else {
        262144
    }
}

proof fn lemma_candidates_increase(i: int)
    requires
        0 <= i < 7,
    ensures
        candidates()[i] < candidates()[i + 1],
{
    assert(i == 0 || i == 1 || i == 2 || i == 3 || i == 4 || i == 5 || i == 6);
}

/// The contexts of the ladder.
fn ladder_of(shape: &ModelShape) -> (ctxs: Vec<u32>)
    ensures
        is_ladder(ctxs@, *shape),
        ctxs@.len() > 0,
{
    let mut ctxs: Vec<u32> = Vec::new();
    for i in 0..8usize
        invariant
            forall|a: int, b: int| 0 <= a < b < ctxs@.len() ==> ctxs@[a] < ctxs@[b],
            forall|a: int| 0 <= a < ctxs@.len() ==> candidates().contains(#[trigger] ctxs@[a])
                && ctxs@[a] <= shape.native_ctx,
            forall|a: int|
                0 <= a < ctxs@.len() && i < 8 ==> #[trigger] ctxs@[a] < candidates()[i as int],
            forall|j: int|
                0 <= j < i && #[trigger] candidates()[j] <= shape.native_ctx ==> ctxs@.contains(
                    candidates()[j],
                ),
    {
        let c = candidate(i);
        let ghost before = ctxs@;
        proof {
            if i < 7 {
                lemma_candidates_increase(i as int);
            }
            assert(candidates().contains(c)) by {
                assert(candidates()[i as int] == c);
            }
        }
        if c as u64 <= shape.native_ctx {
            ctxs.push(c);
            assert forall|j: int|
                0 <= j < i + 1 && #[trigger] candidates()[j] <= shape.native_ctx implies ctxs@.contains(
                candidates()[j],
            ) by {
                if j < i {
                    let k = choose|k: int| 0 <= k < before.len() && before[k] == candidates()[j];
                    assert(ctxs@[k] == candidates()[j]);
                } else {
                    assert(ctxs@[ctxs@.len() - 1] == c);
                }
            }
        }
    }
    let last = clamp32(shape.native_ctx);
    let ghost kept = ctxs@;
    let n = ctxs.len();
    proof {
        assert(forall|a: int| 0 <= a < kept.len() ==> #[trigger] kept[a] <= last);
    }
    if n == 0 || ctxs[n - 1] != last {
        ctxs.push(last);
        assert(ctxs@[ctxs@.len() - 1] == last);
    } else {
        assert(ctxs@[n - 1] == last);
    }
    proof {
        assert forall|c: u32|
            #[trigger] ctxs@.contains(c) <==> (candidates().contains(c) && c <= shape.native_ctx)
                || c == native(*shape) by {
            if ctxs@.contains(c) {
                let k = choose|k: int| 0 <= k < ctxs@.len() && ctxs@[k] == c;
                if k < kept.len() {
                    assert(kept[k] == c);
                }
            }
            if candidates().contains(c) && c <= shape.native_ctx {
                let j = choose|j: int| 0 <= j < candidates().len() && candidates()[j] == c;
                assert(kept.contains(candidates()[j]));
                let k = choose|k: int| 0 <= k < kept.len() && kept[k] == c;
                assert(ctxs@[k] == c);
            }
        }
    }
    ctxs
}

/// What `most_layers` says of a smaller context is countable if the larger one
/// is.
proof fn lemma_countable(shape: ModelShape, c1: nat, c2: nat, kv: KvType)
    requires
        c1 <= c2,
        countable(shape, c2, kv),
    ensures
        countable(shape, c1, kv),
{
    lemma_cost(shape, c1, c2, shape.n_layers as nat, shape.n_layers as nat, kv, kv);
}

/// The rungs of the ladder.
fn rungs_of(shape: &ModelShape, room: u64, kv: KvType) -> (options: Vec<ContextOption>)
    requires
        countable(*shape, native(*shape), kv),
    ensures
        is_ladder(contexts(options@), *shape),
        forall|i: int|
            0 <= i < options@.len() ==> is_rung(#[trigger] options@[i], *shape, room as nat, kv),
{
    let ctxs = ladder_of(shape);
    let mut options: Vec<ContextOption> = Vec::new();
    for i in 0..ctxs.len()
        invariant
            countable(*shape, native(*shape), kv),
            is_ladder(ctxs@, *shape),
            contexts(options@) == ctxs@.take(i as int),
            forall|k: int|
                0 <= k < options@.len() ==> is_rung(#[trigger] options@[k], *shape, room as nat, kv),
    {
        let ctx = ctxs[i];
        proof {
            assert(ctxs@.contains(ctx)) by {
                assert(ctxs@[i as int] == ctx);
            }
            lemma_countable(*shape, ctx as nat, native(*shape), kv);
        }
        let total = cost_of(shape, ctx as u64, shape.n_layers, kv);
        let o = ContextOption {
            ctx,
            est_total_bytes: total,
            fits: total <= room,
            n_gpu_layers: clamp32(max_layers_at(shape, ctx as u64, room, kv)),
        };
        let ghost before = options@;
        options.push(o);
        assert(contexts(options@) =~= contexts(before).push(ctx));
    }
    assert(ctxs@.take(ctxs@.len() as int) =~= ctxs@);
    options
}

/// `partial_choice`, computed.
fn partial_of(shape: &ModelShape, room: u64, kv: KvType) -> (r: (u64, u64))
    requires
        countable(*shape, native(*shape), kv),
    ensures
        (r.0 as nat, r.1 as nat) == partial_choice(*shape, room as nat, kv),
        r.1 > 0 ==> r.0 <= native(*shape),
        0 < r.0 <= 8192,
        r.1 <= shape.n_layers,
{
    let n = shape.native_ctx;
    let a: u64 = if TARGET_PARTIAL_CTX <= n {
        TARGET_PARTIAL_CTX
    } else {
        n
    };
    let b: u64 = if 4096 <= n {
        4096
    } else {
        n
    };
    let c: u64 = if 2048 <= n {
        2048
    } else {
        n
    };
    if n > 0 {
        proof {
            lemma_countable(*shape, a as nat, native(*shape), kv);
            lemma_countable(*shape, b as nat, native(*shape), kv);
            lemma_countable(*shape, c as nat, native(*shape), kv);
        }
        let x = max_layers_at(shape, a, room, kv);
        if x > 0 {
            return (a, x);
        }
        let y = max_layers_at(shape, b, room, kv);
        if y > 0 {
            return (b, y);
        }
        let z = max_layers_at(shape, c, room, kv);
        if z > 0 {
            return (c, z);
        }
    }
    if b == 0 {
        (1, 0)
    } else {
        (b, 0)
    }
}

/// Adds the notes on a partial offload.
fn note_partial(notes: &mut Vec<String>, shape: &ModelShape, ctx: u64, layers: u64)
    ensures
        texts(final(notes)@) == texts(old(notes)@) + partial_notes(
            *shape,
            ctx as nat,
            layers as nat,
        ),
{
    let ghost before = notes@;
    if layers == 0 {
        notes.push(String::from_str("model won't fit in VRAM even partially; will run on CPU"));
        assert(texts(notes@) =~= texts(before) + partial_notes(*shape, ctx as nat, layers as nat));
    } else {
        let mut s = String::from_str("partial offload: ");
        s.append(number(layers).as_str());
        s.append("/");
        s.append(number(shape.n_layers).as_str());
        s.append(" layers fit at ");
        s.append(number(ctx).as_str());
        s.append(" ctx");
        notes.push(s);
        if layers < shape.n_layers {
            notes.push(
                String::from_str(
                    "more context is available lower down the ladder — each rung trades GPU layers (speed) for context length",
                ),
            );
        }
        assert(texts(notes@) =~= texts(before) + partial_notes(*shape, ctx as nat, layers as nat));
    }
}

/// A recommendation for `shape` given the GPU's VRAM: all layers at the largest
/// context at which they fit, or else part of them at a usable context.
pub fn estimate(
    shape: &ModelShape,
    gpu_total: u64,
    gpu_free: u64,
    kv: KvType,
    notes: Vec<String>,
) -> (r: VramEstimate)
    requires
        countable(*shape, native(*shape), kv),
    ensures
        is_estimate(*shape, gpu_total as nat, gpu_free as nat, kv, texts(notes@), r),
{
    let room = budget_bytes(gpu_total);
    let options = rungs_of(shape, room, kv);
    let mut best: Option<usize> = None;
    for i in 0..options.len()
        invariant
            is_ladder(contexts(options@), *shape),
            match best {
                Some(k) => k < i && options@[k as int].fits && forall|j: int|
                    0 <= j < i && (#[trigger] options@[j]).fits ==> j <= k,
                None => forall|j: int| 0 <= j < i ==> !(#[trigger] options@[j]).fits,
            },
    {
        if options[i].fits {
            best = Some(i);
        }
    }
    if let Some(k) = best {
        let o = options[k];
        proof {
            lemma_weights(*shape, shape.n_layers as nat, shape.n_layers as nat);
            let cs = contexts(options@);
            assert forall|j: int| 0 <= j < options@.len() && (#[trigger] options@[j]).fits implies options@[j].ctx
                <= o.ctx by {
                assert(cs[j] == options@[j].ctx && cs[k as int] == o.ctx);
                assert(j < k ==> cs[j] < cs[k as int]);
            }
            assert(is_rung(options@[k as int], *shape, room as nat, kv));
            assert(some_rung_fits(options@));
            assert(is_largest_fitting(options@, o.ctx));
        }
        return VramEstimate {
            fits: true,
            full_offload: true,
            n_gpu_layers: clamp32(shape.n_layers),
            ctx_size: o.ctx,
            est_weights_bytes: weights_bytes(shape, shape.n_layers),
            est_kv_bytes: kv_bytes(shape, o.ctx as u64, shape.n_layers, kv),
            est_overhead_bytes: OVERHEAD_BYTES,
            est_total_bytes: o.est_total_bytes,
            budget_bytes: room,
            gpu_total_bytes: gpu_total,
            gpu_free_bytes: gpu_free,
            context_options: options,
            quant_advice: None,
            notes,
        };
    }
    let (ctx, layers) = partial_of(shape, room, kv);
    let mut notes = notes;
    note_partial(&mut notes, shape, ctx, layers);
    proof {
        lemma_weights(*shape, layers as nat, shape.n_layers as nat);
        if layers > 0 {
            lemma_cost(
                *shape,
                ctx as nat,
                native(*shape),
                layers as nat,
                shape.n_layers as nat,
                kv,
                kv,
            );
        } else {
            lemma_kv_of_none(*shape, ctx as nat, kv);
            lemma_weights(*shape, 0, shape.n_layers as nat);
            lemma_cost(
                *shape,
                0,
                native(*shape),
                0,
                shape.n_layers as nat,
                kv,
                kv,
            );
        }
    }
    let w = weights_bytes(shape, layers);
    let c = kv_bytes(shape, ctx, layers, kv);
    VramEstimate {
        fits: layers > 0,
        full_offload: false,
        n_gpu_layers: clamp32(layers),
        ctx_size: ctx as u32,
        est_weights_bytes: w,
        est_kv_bytes: c,
        est_overhead_bytes: OVERHEAD_BYTES,
        est_total_bytes: w + OVERHEAD_BYTES + c,
        budget_bytes: room,
        gpu_total_bytes: gpu_total,
        gpu_free_bytes: gpu_free,
        context_options: options,
        quant_advice: None,
        notes,
    }
}

/// No layers need no cache.
proof fn lemma_kv_of_none(shape: ModelShape, ctx: nat, kv: KvType)
    ensures
        kv_cost(shape, ctx, 0, kv) == 0,
{
    assert(0 * ctx == 0);
    let h = shape.n_head_kv as nat;
    let d = (shape.head_dim_k + shape.head_dim_v) as nat;
    assert(0 * ctx * h * d * element_bits(kv) == 0) by (nonlinear_arith);
}

// ---------------------------------------------------------------------------
// Quant levels
// ---------------------------------------------------------------------------

/// One quant level evaluated by the advisor.
#[derive(Debug, Clone)]
pub struct QuantOption {
    pub label: String,
    pub est_weights_bytes: u64,
    /// What is left of the budget after weights, cache and overhead.
    pub headroom_bytes: u64,
    pub fits: bool,
    pub is_current: bool,
}

/// Which quant of a model to take for a GPU.
#[derive(Debug, Clone)]
pub struct QuantAdvice {
    /// Estimated parameter count, in billions.
    pub est_params_b: Binary64,
    pub current_label: Option<String>,
    pub current_fits: bool,
    /// The best quality that fully fits, if any does.
    pub recommended: Option<String>,
    pub options: Vec<QuantOption>,
}

/// The binary64 number 8: bits per byte.
pub const EIGHT: u64 = 0x4020_0000_0000_0000;

/// The binary64 number 1.05: what embeddings and output layers add to the weights.
pub const WEIGHT_SLACK: u64 = 0x3ff0_cccc_cccc_cccd;

/// The binary64 number 10^9.
pub const BILLION: u64 = 0x41cd_cd65_0000_0000;

/// Known quant levels, best quality first, each with its bits per weight as a
/// binary64 number: 16, 8.5, 6.59, 5.69, 4.85, 4.25, 3.91, 3.30 and 2.63.
pub open spec fn quant_ladder() -> Seq<(Seq<char>, u64)> {
    seq![
        ("F16"@, 0x4030_0000_0000_0000u64),
        ("Q8_0"@, 0x4021_0000_0000_0000u64),
        ("Q6_K"@, 0x401a_5c28_f5c2_8f5cu64),
        ("Q5_K_M"@, 0x4016_c28f_5c28_f5c3u64),
        ("Q4_K_M"@, 0x4013_6666_6666_6666u64),
        ("IQ4_XS"@, 0x4011_0000_0000_0000u64),
        ("Q3_K_M"@, 0x400f_47ae_147a_e148u64),
        ("IQ3_XS"@, 0x400a_6666_6666_6666u64),
        ("Q2_K"@, 0x4005_0a3d_70a3_d70au64),
    ]
}

/// The row of the ladder at index `i`.
fn quant_row(i: usize) -> (r: (&'static str, u64))
    requires
        i < 9,
    ensures
        (r.0@, r.1) == quant_ladder()[i as int],
{
    if i == 0 {
        ("F16", 0x4030_0000_0000_0000)
    } else if i == 1 {
        ("Q8_0", 0x4021_0000_0000_0000)
    } else if i == 2 {
        ("Q6_K", 0x401a_5c28_f5c2_8f5c)
    } else if i == 3 {
        ("Q5_K_M", 0x4016_c28f_5c28_f5c3)
    } else if i == 4 {
        ("Q4_K_M", 0x4013_6666_6666_6666)
    } else if i == 5 {
        ("IQ4_XS", 0x4011_0000_0000_0000)
    } else if i == 6 {
        ("Q3_K_M", 0x400f_47ae_147a_e148)
    } else if i == 7 {
        ("IQ3_XS", 0x400a_6666_6666_6666)
    } else {
        ("Q2_K", 0x4005_0a3d_70a3_d70a)
    }
}

/// Levels outside the ladder, by their whole label: 32, 16, 4.58, 5.54, 5.54,
/// 4.55, 3.50 and 4.27 bits per weight.
pub open spec fn other_level(up: Seq<char>) -> Option<u64> {
    if up == "F32"@ {
        Some(0x4040_0000_0000_0000u64)
    } else if up == "BF16"@ {
        Some(0x4030_0000_0000_0000u64)
    } else if up == "Q4_K_S"@ {
        Some(0x4012_51eb_851e_b852u64)
    } else if up == "Q5_K_S"@ {
        Some(0x4016_28f5_c28f_5c29u64)
    } else if up == "Q5_0"@ {
        Some(0x4016_28f5_c28f_5c29u64)
    } else if up == "Q4_0"@ {
        Some(0x4012_3333_3333_3333u64)
    } else if up == "Q3_K_S"@ {
        Some(0x400c_0000_0000_0000u64)
    } else if up == "Q3_K_L"@ {
        Some(0x4011_147a_e147_ae14u64)
    } else {
        None
    }
}

/// `other_level`, computed.
fn other_level_of(up: &[char]) -> (r: Option<u64>)
    ensures
        r == other_level(up@),
{
    if same_chars(up, chars_of("F32").as_slice()) {
        Some(0x4040_0000_0000_0000)
    } else if same_chars(up, chars_of("BF16").as_slice()) {
        Some(0x4030_0000_0000_0000)
    } else if same_chars(up, chars_of("Q4_K_S").as_slice()) {
        Some(0x4012_51eb_851e_b852)
    } else if same_chars(up, chars_of("Q5_K_S").as_slice()) {
        Some(0x4016_28f5_c28f_5c29)
    } else if same_chars(up, chars_of("Q5_0").as_slice()) {
        Some(0x4016_28f5_c28f_5c29)
    } else if same_chars(up, chars_of("Q4_0").as_slice()) {
        Some(0x4012_3333_3333_3333)
    } else if same_chars(up, chars_of("Q3_K_S").as_slice()) {
        Some(0x400c_0000_0000_0000)
    } else if same_chars(up, chars_of("Q3_K_L").as_slice()) {
        Some(0x4011_147a_e147_ae14)
    } else {
        None
    }
}

/// A label without its blanks.
pub open spec fn without_blanks(s: Seq<char>) -> Seq<char>
    decreases s.len(),
{
    if s.len() == 0 {
        s
    } else if s.last() == ' ' {
        without_blanks(s.drop_last())
    } else {
        without_blanks(s.drop_last()).push(s.last())
    }
}

/// The short form of an upper-case mixed label, given without its blanks: a base
/// label, a dash and the size in words. That of `Q4_K-MEDIUM` is `Q4_K_M`. Other
/// labels have none.
pub open spec fn short_form(tight: Seq<char>) -> Option<Seq<char>> {
    if ends(tight, "-SMALL"@) {
        Some(tight.take(tight.len() - 6) + "_S"@)
    } else if ends(tight, "-MEDIUM"@) {
        Some(tight.take(tight.len() - 7) + "_M"@)
    } else if ends(tight, "-LARGE"@) {
        Some(tight.take(tight.len() - 6) + "_L"@)
    } else {
        None
    }
}

/// `without_blanks`, computed.
fn drop_blanks(s: &[char]) -> (r: Vec<char>)
    ensures
        r@ == without_blanks(s@),
{
    let mut r: Vec<char> = Vec::new();
    for i in 0..s.len()
        invariant
            r@ == without_blanks(s@.take(i as int)),
    {
        assert(s@.take(i + 1).drop_last() =~= s@.take(i as int));
        if s[i] != ' ' {
            r.push(s[i]);
        }
    }
    assert(s@.take(s@.len() as int) =~= s@);
    r
}

/// A label without its last `n` characters, and a letter for its size instead.
fn shortened(tight: &[char], n: usize, letter: &str) -> (r: Vec<char>)
    requires
        n <= tight@.len(),
    ensures
        r@ == tight@.take(tight@.len() - n) + letter@,
{
    let mut r: Vec<char> = Vec::new();
    for i in 0..tight.len() - n
        invariant
            n <= tight@.len(),
            r@ == tight@.take(i as int),
    {
        r.push(tight[i]);
        assert(r@ =~= tight@.take(i + 1));
    }
    let mut size = chars_of(letter);
    r.append(&mut size);
    r
}

/// `short_form`, computed.
fn shorten(tight: &[char]) -> (r: Option<Vec<char>>)
    ensures
        match r {
            Some(s) => short_form(tight@) == Some(s@),
            None => short_form(tight@) is None,
        },
{
    proof {
        reveal_strlit("-SMALL");
        reveal_strlit("-MEDIUM");
        reveal_strlit("-LARGE");
    }
    if ends_with(tight, "-SMALL") {
        Some(shortened(tight, 6, "_S"))
    } else if ends_with(tight, "-MEDIUM") {
        Some(shortened(tight, 7, "_M"))
    } else if ends_with(tight, "-LARGE") {
        Some(shortened(tight, 6, "_L"))
    } else {
        None
    }
}

/// An upper-case label names row `i` of the ladder: it begins with the row's
/// label, as it stands or without its blanks, or is a mixed one for it.
pub open spec fn names_row(up: Seq<char>, i: int) -> bool {
    let row = quant_ladder()[i].0;
    begins(up, row) || begins(without_blanks(up), row) || short_form(without_blanks(up)) == Some(row)
}

/// The bits per weight of the first ladder row, from index `i` on, that a label
/// names.
pub open spec fn ladder_level(up: Seq<char>, i: int) -> Option<u64>
    decreases 9 - i,
{
    if i < 0 || i >= 9 {
        None
    } else if names_row(up, i) {
        Some(quant_ladder()[i].1)
    } else {
        ladder_level(up, i + 1)
    }
}

/// The bits per weight of a quant label, as a binary64 number.
pub open spec fn level_of(label: Seq<char>) -> Option<u64> {
    match ladder_level(upper(label), 0) {
        Some(b) => Some(b),
        None => match other_level(upper(label)) {
            Some(b) => Some(b),
            None => match short_form(without_blanks(upper(label))) {
                Some(s) => other_level(s),
                None => None,
            },
        },
    }
}

/// The bits per weight of a quant label, upper or lower case, with or without
/// blanks, such as `Q4_K_M`, or with its size in words, such as `Q4_K - Medium`.
pub fn bpw_for(label: &str) -> (r: Option<Binary64>)
    ensures
        match r {
            Some(x) => level_of(label@) == Some(x.bits),
            None => level_of(label@) is None,
        },
{
    let cs = chars_of(label);
    let up = to_upper(cs.as_slice());
    let tight = drop_blanks(up.as_slice());
    let short = shorten(tight.as_slice());
    for i in 0..9usize
        invariant
            up@ == upper(label@),
            tight@ == without_blanks(up@),
            match short {
                Some(s) => short_form(tight@) == Some(s@),
                None => short_form(tight@) is None,
            },
            ladder_level(up@, 0) == ladder_level(up@, i as int),
    {
        let (l, b) = quant_row(i);
        let mixed = match &short {
            Some(s) => same_chars(s.as_slice(), chars_of(l).as_slice()),
            None => false,
        };
        if mixed || starts_with(up.as_slice(), l) || starts_with(tight.as_slice(), l) {
            return Some(Binary64 { bits: b });
        }
    }
    match other_level_of(up.as_slice()) {
        Some(b) => Some(Binary64 { bits: b }),
        None => match &short {
            Some(s) => match other_level_of(s.as_slice()) {
                Some(b) => Some(Binary64 { bits: b }),
                None => None,
            },
            None => None,
        },
    }
}

/// The level of an optional label.
pub open spec fn current_level(label: Option<Seq<char>>) -> Option<u64> {
    match label {
        Some(l) => level_of(l),
        None => None,
    }
}

/// The parameter count of a model: the stated one, or else the one that the file
/// size and the bits per weight give.
pub open spec fn params_of(
    shape: ModelShape,
    label: Option<Seq<char>>,
    stated: Option<u64>,
) -> Option<Binary64> {
    if stated is Some && stated->0 > 0 {
        Some(of_whole(stated->0 as nat))
    } else {
        match current_level(label) {
            Some(b) => Some(
                over(
                    times(of_whole(shape.file_size as nat), Binary64 { bits: EIGHT }),
                    Binary64 { bits: b },
                ),
            ),
            None => None,
        }
    }
}

/// Bytes of weights of so many parameters at so many bits each.
pub open spec fn quant_weights(params: Binary64, bits: u64) -> nat {
    truncated(
        times(
            over(times(params, Binary64 { bits }), Binary64 { bits: EIGHT }),
            Binary64 { bits: WEIGHT_SLACK },
        ),
    )
}

/// Bytes of cache at the context each level is judged at: 8192, or the native one
/// where that is smaller.
pub open spec fn working_kv(shape: ModelShape, kv: KvType) -> nat {
    kv_cost(shape, least(8192, shape.native_ctx as nat), shape.n_layers as nat, kv)
}

/// Bytes of a model at so many bits per weight.
pub open spec fn quant_total(shape: ModelShape, params: Binary64, bits: u64, kv: KvType) -> nat {
    quant_weights(params, bits) + working_kv(shape, kv) + OVERHEAD_BYTES as nat
}

/// 64 bits can count what the advisor adds up.
pub open spec fn advice_countable(
    shape: ModelShape,
    label: Option<Seq<char>>,
    stated: Option<u64>,
    kv: KvType,
) -> bool {
    match params_of(shape, label, stated) {
        Some(params) => {
            &&& shape.head_dim_k + shape.head_dim_v <= u64::MAX
            &&& forall|i: int|
                0 <= i < 9 ==> quant_total(
                    shape,
                    params,
                    (#[trigger] quant_ladder()[i]).1,
                    kv,
                ) <= u64::MAX
            &&& match current_level(label) {
                Some(b) => quant_total(shape, params, b, kv) <= u64::MAX,
                None => true,
            }
        },
        None => true,
    }
}

/// `o` evaluates row `i` of the ladder.
pub open spec fn is_quant_option(
    o: QuantOption,
    i: int,
    shape: ModelShape,
    params: Binary64,
    label: Option<Seq<char>>,
    room: nat,
    kv: KvType,
) -> bool {
    let (name, bits) = quant_ladder()[i];
    let total = quant_total(shape, params, bits, kv);
    &&& o.label@ == name
    &&& o.est_weights_bytes == quant_weights(params, bits)
    &&& o.fits == (total <= room)
    &&& o.headroom_bytes == (if total <= room {
        room - total
    } else {
        0
    })
    &&& o.is_current == (label is Some && begins(upper(label->0), name))
}

/// `label` is that of the first option that fits, if one does.
pub open spec fn is_first_fitting(options: Seq<QuantOption>, label: Option<String>) -> bool {
    match label {
        Some(l) => exists|i: int|
            0 <= i < options.len() && (#[trigger] options[i]).fits && l@ == options[i].label@
                && forall|j: int| 0 <= j < i ==> !(#[trigger] options[j]).fits,
        None => forall|i: int| 0 <= i < options.len() ==> !(#[trigger] options[i]).fits,
    }
}

/// The model at hand fits: at its own level, or as a row of the ladder that its
/// label begins with.
pub open spec fn current_fits(
    options: Seq<QuantOption>,
    shape: ModelShape,
    params: Binary64,
    label: Option<Seq<char>>,
    room: nat,
    kv: KvType,
) -> bool {
    ||| current_level(label) is Some && quant_total(shape, params, current_level(label)->0, kv)
        <= room
    ||| exists|i: int|
        0 <= i < options.len() && (#[trigger] options[i]).is_current && options[i].fits
}

/// Bytes of weights of so many parameters at so many bits each.
fn quant_weights_of(params: Binary64, bits: u64) -> (r: u64)
    ensures
        r as nat == quant_weights(params, bits),
{
    params.times(Binary64 { bits }).over(Binary64 { bits: EIGHT }).times(
        Binary64 { bits: WEIGHT_SLACK },
    ).truncated()
}

/// `params_of`, computed.
fn params_for(shape: &ModelShape, level: Option<Binary64>, stated: Option<u64>) -> (r: Option<
    Binary64,
>)
    ensures
        forall|label: Option<Seq<char>>|
            (match level {
                Some(x) => #[trigger] current_level(label) == Some(x.bits),
                None => current_level(label) is None,
            }) ==> r == params_of(*shape, label, stated),
{
    if let Some(p) = stated {
        if p > 0 {
            return Some(Binary64::of(p));
        }
    }
    match level {
        Some(b) => Some(
            Binary64::of(shape.file_size).times(Binary64 { bits: EIGHT }).over(b),
        ),
        None => None,
    }
}

/// `current_level`, computed.
fn current_level_of(label: Option<&str>) -> (r: Option<Binary64>)
    ensures
        match r {
            Some(x) => current_level(opt_str_view(label)) == Some(x.bits),
            None => current_level(opt_str_view(label)) is None,
        },
{
    match label {
        Some(l) => bpw_for(l),
        None => None,
    }
}

/// Evaluates row `i` of the ladder.
fn quant_option(
    i: usize,
    shape: &ModelShape,
    params: Binary64,
    up: &Option<Vec<char>>,
    Ghost(label): Ghost<Option<Seq<char>>>,
    room: u64,
    cache: u64,
    kv: KvType,
) -> (o: QuantOption)
    requires
        i < 9,
        cache as nat == working_kv(*shape, kv),
        quant_total(*shape, params, quant_ladder()[i as int].1, kv) <= u64::MAX,
        up is Some == label is Some,
        up is Some ==> up->0@ == upper(label->0),
    ensures
        is_quant_option(o, i as int, *shape, params, label, room as nat, kv),
{
    let (name, bits) = quant_row(i);
    let w = quant_weights_of(params, bits);
    let total = w + cache + OVERHEAD_BYTES;
    QuantOption {
        label: String::from_str(name),
        est_weights_bytes: w,
        headroom_bytes: if total <= room {
            room - total
        } else {
            0
        },
        fits: total <= room,
        is_current: match up {
            Some(u) => starts_with(u.as_slice(), name),
            None => false,
        },
    }
}

/// One more option, and what that does to the recommendation.
proof fn lemma_first_fitting(
    options: Seq<QuantOption>,
    o: QuantOption,
    was: Option<String>,
    now: Option<String>,
)
    requires
        is_first_fitting(options, was),
        was is Some || !o.fits ==> now == was,
        was is None && o.fits ==> now is Some && now->0@ == o.label@,
    ensures
        is_first_fitting(options.push(o), now),
{
    let all = options.push(o);
    assert forall|k: int| 0 <= k < options.len() implies #[trigger] all[k] == options[k] by {}
    if was is Some {
        let k = choose|k: int|
            0 <= k < options.len() && (#[trigger] options[k]).fits && was->0@ == options[k].label@
                && forall|j: int| 0 <= j < k ==> !(#[trigger] options[j]).fits;
        assert(all[k].fits);
    } else if o.fits {
        assert(all[options.len() as int].fits);
    }
}

/// One more option, and what that does to the verdict on the model at hand.
proof fn lemma_current_fits(
    options: Seq<QuantOption>,
    o: QuantOption,
    shape: ModelShape,
    params: Binary64,
    label: Option<Seq<char>>,
    room: nat,
    kv: KvType,
)
    ensures
        current_fits(options.push(o), shape, params, label, room, kv) == (current_fits(
            options,
            shape,
            params,
            label,
            room,
            kv,
        ) || (o.is_current && o.fits)),
{
    let all = options.push(o);
    assert forall|k: int| 0 <= k < options.len() implies #[trigger] all[k] == options[k] by {}
    assert(all[options.len() as int] == o);
    if exists|i: int| 0 <= i < options.len() && (#[trigger] options[i]).is_current && options[i].fits {
        let k = choose|i: int|
            0 <= i < options.len() && (#[trigger] options[i]).is_current && options[i].fits;
        assert(all[k].is_current && all[k].fits);
    }
}

/// `r` is the advice on the quantization of a model: none where its parameters
/// cannot be told.
pub open spec fn is_advice(
    r: Option<QuantAdvice>,
    shape: ModelShape,
    label: Option<Seq<char>>,
    metadata_params: Option<u64>,
    gpu_total: nat,
    kv: KvType,
) -> bool {
    let room = budget(gpu_total);
    match (params_of(shape, label, metadata_params), r) {
        (Some(params), Some(a)) => {
            &&& a.est_params_b == over(params, Binary64 { bits: BILLION })
            &&& opt_view(a.current_label) == label
            &&& a.options@.len() == 9
            &&& forall|i: int|
                0 <= i < 9 ==> is_quant_option(
                    #[trigger] a.options@[i],
                    i,
                    shape,
                    params,
                    label,
                    room,
                    kv,
                )
            &&& is_first_fitting(a.options@, a.recommended)
            &&& a.current_fits == current_fits(a.options@, shape, params, label, room, kv)
        },
        (None, None) => true,
        _ => false,
    }
}

/// Which quant levels of a model would fit a GPU, and which is the best of them.
/// Without a parameter count, stated or derived, there is no advice.
pub fn quant_advice(
    shape: &ModelShape,
    current_quant: Option<&str>,
    metadata_params: Option<u64>,
    gpu_total: u64,
    kv_type: KvType,
) -> (r: Option<QuantAdvice>)
    requires
        advice_countable(*shape, opt_str_view(current_quant), metadata_params, kv_type),
    ensures
        is_advice(
            r,
            *shape,
            opt_str_view(current_quant),
            metadata_params,
            gpu_total as nat,
            kv_type,
        ),
{
    let level = current_level_of(current_quant);
    let params = match params_for(shape, level, metadata_params) {
        Some(p) => p,
        None => {
            return None;
        },
    };
    let ghost label = opt_str_view(current_quant);
    let room = budget_bytes(gpu_total);
    let ctx: u64 = if 8192 <= shape.native_ctx {
        8192
    } else {
        shape.native_ctx
    };
    let kv = kv_bytes(shape, ctx, shape.n_layers, kv_type);
    let mut fits_now = match level {
        Some(b) => quant_weights_of(params, b.bits) + kv + OVERHEAD_BYTES <= room,
        None => false,
    };
    let up: Option<Vec<char>> = match current_quant {
        Some(c) => {
            let cs = chars_of(c);
            Some(to_upper(cs.as_slice()))
        },
        None => None,
    };
    let mut options: Vec<QuantOption> = Vec::new();
    let mut recommended: Option<String> = None;
    for i in 0..9usize
        invariant
            advice_countable(*shape, label, metadata_params, kv_type),
            params_of(*shape, label, metadata_params) == Some(params),
            kv as nat == working_kv(*shape, kv_type),
            room as nat == budget(gpu_total as nat),
            up is Some == label is Some,
            up is Some ==> up->0@ == upper(label->0),
            options@.len() == i,
            forall|k: int|
                0 <= k < i ==> is_quant_option(
                    #[trigger] options@[k],
                    k,
                    *shape,
                    params,
                    label,
                    room as nat,
                    kv_type,
                ),
            is_first_fitting(options@, recommended),
            fits_now == current_fits(options@, *shape, params, label, room as nat, kv_type),
    {
        proof {
            assert(quant_total(*shape, params, quant_ladder()[i as int].1, kv_type) <= u64::MAX);
        }
        let o = quant_option(i, shape, params, &up, Ghost(label), room, kv, kv_type);
        let ghost before = options@;
        let ghost was = recommended;
        if o.is_current && o.fits {
            fits_now = true;
        }
        if o.fits && recommended.is_none() {
            recommended = Some(o.label.clone());
        }
        proof {
            lemma_first_fitting(before, o, was, recommended);
            lemma_current_fits(before, o, *shape, params, label, room as nat, kv_type);
        }
        options.push(o);
    }
    Some(
        QuantAdvice {
            est_params_b: params.over(Binary64 { bits: BILLION }),
            current_label: match current_quant {
                Some(c) => Some(String::from_str(c)),
                None => None,
            },
            current_fits: fits_now,
            recommended,
            options,
        },
    )
}

// ---------------------------------------------------------------------------
// A target and its draft
// ---------------------------------------------------------------------------

/// How a target and its draft land on the GPU.
#[derive(Debug, Clone, Copy, PartialEq, Eq, Structural)]
pub enum PairVerdict {
    /// Both models are on the GPU and the target keeps every layer it had alone.
    Fits,
    /// The pair fits, but only by pushing target layers onto the CPU.
    CostsTargetLayers,
    /// The pair does not fit. A draft that runs partly on the CPU is slower than
    /// the model it runs ahead of, so that is no option.
    TooBig,
}

/// What running a draft alongside its target takes.
#[derive(Debug, Clone)]
pub struct PairEstimate {
    pub verdict: PairVerdict,
    pub ctx_size: u32,
    pub target_layers_on_gpu: u32,
    pub target_layers_total: u32,
    /// Target layers on the GPU without a draft that are not with one.
    pub target_layers_evicted: u32,
    pub draft_layers_on_gpu: u32,
    pub draft_layers_total: u32,
    pub est_target_bytes: u64,
    pub est_draft_bytes: u64,
    pub est_total_bytes: u64,
    pub budget_bytes: u64,
    pub notes: Vec<String>,
}

/// Bytes of the whole draft. Its cache is sized at the target's context.
pub open spec fn draft_cost(draft: ModelShape, ctx: nat, kv: KvType) -> nat {
    cost(draft, ctx, draft.n_layers as nat, kv)
}

/// Target layers that fit once the whole draft is loaded.
pub open spec fn target_layers(
    target: ModelShape,
    draft: ModelShape,
    ctx: nat,
    room: nat,
    kv: KvType,
) -> nat {
    if draft_cost(draft, ctx, kv) <= room {
        most_layers(target, ctx, (room - draft_cost(draft, ctx, kv)) as nat, kv)
    } else {
        0
    }
}

/// The verdict on a pair: `alone` target layers fit without the draft, `with`
/// layers beside it.
pub open spec fn pair_verdict(alone: nat, with: nat) -> PairVerdict {
    if with == 0 {
        PairVerdict::TooBig
    } else if with < alone {
        PairVerdict::CostsTargetLayers
    } else {
        PairVerdict::Fits
    }
}

/// The notes on a pair.
pub open spec fn pair_notes(
    draft_fits: bool,
    alone: nat,
    with: nat,
    total: nat,
) -> Seq<Seq<char>> {
    if !draft_fits {
        seq!["the draft model alone does not fit in VRAM"@]
    } else if with == 0 {
        seq!["no room left for the target model once the draft is loaded"@]
    } else if with < alone {
        seq![
            "speculating costs "@ + decimal((alone - with) as nat) + " target layer(s): "@
                + decimal(alone) + " fit alone, "@ + decimal(with) + " with the draft"@,
        ]
    } else if with < total {
        seq![
            "the draft is free here, but the target was already partial: "@ + decimal(with) + "/"@
                + decimal(total) + " layers on GPU"@,
        ]
    } else {
        seq![]
    }
}

/// `r` budgets `target` and `draft` together on a GPU with this much memory.
pub open spec fn is_pair(
    target: ModelShape,
    draft: ModelShape,
    ctx: nat,
    gpu_total: nat,
    kv: KvType,
    r: PairEstimate,
) -> bool {
    let top = u32::MAX as nat;
    let room = budget(gpu_total);
    let alone = most_layers(target, ctx, room, kv);
    let with = target_layers(target, draft, ctx, room, kv);
    let draft_fits = draft_cost(draft, ctx, kv) <= room;
    let target_bytes = if with > 0 {
        cost(target, ctx, with, kv)
    } else {
        0
    };
    &&& r.verdict == pair_verdict(alone, with)
    &&& r.ctx_size == least(ctx, top)
    &&& r.target_layers_on_gpu == least(with, top)
    &&& r.target_layers_total == least(target.n_layers as nat, top)
    &&& r.target_layers_evicted == (if alone > with {
        least((alone - with) as nat, top)
    } else {
        0
    })
    &&& r.draft_layers_on_gpu == (if draft_fits {
        least(draft.n_layers as nat, top)
    } else {
        0
    })
    &&& r.draft_layers_total == least(draft.n_layers as nat, top)
    &&& r.est_target_bytes == target_bytes
    &&& r.est_draft_bytes == draft_cost(draft, ctx, kv)
    &&& r.est_total_bytes == target_bytes + draft_cost(draft, ctx, kv)
    &&& r.budget_bytes == room
    &&& texts(r.notes@) == pair_notes(draft_fits, alone, with, target.n_layers as nat)
}

/// The note on a pair that costs target layers.
fn note_evicted(alone: u64, with: u64) -> (s: String)
    requires
        with < alone,
    ensures
        s@ == "speculating costs "@ + decimal((alone - with) as nat) + " target layer(s): "@
            + decimal(alone as nat) + " fit alone, "@ + decimal(with as nat) + " with the draft"@,
{
    let mut s = String::from_str("speculating costs ");
    s.append(number(alone - with).as_str());
    s.append(" target layer(s): ");
    s.append(number(alone).as_str());
    s.append(" fit alone, ");
    s.append(number(with).as_str());
    s.append(" with the draft");
    s
}

/// The note on a target that was partial without the draft too.
fn note_already_partial(with: u64, total: u64) -> (s: String)
    ensures
        s@ == "the draft is free here, but the target was already partial: "@ + decimal(
            with as nat,
        ) + "/"@ + decimal(total as nat) + " layers on GPU"@,
{
    let mut s = String::from_str("the draft is free here, but the target was already partial: ");
    s.append(number(with).as_str());
    s.append("/");
    s.append(number(total).as_str());
    s.append(" layers on GPU");
    s
}

/// `pair_notes`, computed.
fn pair_notes_of(draft_fits: bool, alone: u64, with: u64, total: u64) -> (notes: Vec<String>)
    ensures
        texts(notes@) == pair_notes(draft_fits, alone as nat, with as nat, total as nat),
{
    let mut notes: Vec<String> = Vec::new();
    if !draft_fits {
        notes.push(String::from_str("the draft model alone does not fit in VRAM"));
    } else if with == 0 {
        notes.push(String::from_str("no room left for the target model once the draft is loaded"));
    } else if with < alone {
        notes.push(note_evicted(alone, with));
    } else if with < total {
        notes.push(note_already_partial(with, total));
    }
    assert(texts(notes@) =~= pair_notes(draft_fits, alone as nat, with as nat, total as nat));
    notes
}

/// Budgets a target and a draft model together on one GPU.
///
/// The draft is placed first and in full; what remains goes to the target, and
/// the layers it loses are reported. Both are charged the overhead allowance.
pub fn estimate_pair(
    target: &ModelShape,
    draft: &ModelShape,
    ctx: u64,
    gpu_total: u64,
    kv: KvType,
) -> (r: PairEstimate)
    requires
        countable(*target, ctx as nat, kv),
        countable(*draft, ctx as nat, kv),
    ensures
        is_pair(*target, *draft, ctx as nat, gpu_total as nat, kv, r),
{
    let room = budget_bytes(gpu_total);
    let alone = max_layers_at(target, ctx, room, kv);
    let draft_total = cost_of(draft, ctx, draft.n_layers, kv);
    let draft_fits = draft_total <= room;
    let with: u64 = if draft_fits {
        max_layers_at(target, ctx, room - draft_total, kv)
    } else {
        0
    };
    let target_bytes: u64 = if with > 0 {
        cost_of(target, ctx, with, kv)
    } else {
        0
    };
    let verdict = if with == 0 {
        PairVerdict::TooBig
    } else if with < alone {
        PairVerdict::CostsTargetLayers
    } else {
        PairVerdict::Fits
    };
    PairEstimate {
        verdict,
        ctx_size: clamp32(ctx),
        target_layers_on_gpu: clamp32(with),
        target_layers_total: clamp32(target.n_layers),
        target_layers_evicted: if alone > with {
            clamp32(alone - with)
        } else {
            0
        },
        draft_layers_on_gpu: if draft_fits {
            clamp32(draft.n_layers)
        } else {
            0
        },
        draft_layers_total: clamp32(draft.n_layers),
        est_target_bytes: target_bytes,
        est_draft_bytes: draft_total,
        est_total_bytes: target_bytes + draft_total,
        budget_bytes: room,
        notes: pair_notes_of(draft_fits, alone, with, target.n_layers),
    }
}

// ---------------------------------------------------------------------------
// Shapes
// ---------------------------------------------------------------------------

/// A stated number that is not zero.
pub open spec fn stated(v: Option<u64>) -> Option<u64> {
    if v is Some && v->0 > 0 {
        v
    } else {
        None
    }
}

/// The KV heads that the header states: their own count if it is there, or else
/// the count of heads.
pub open spec fn stated_kv_heads(md: GgufMetadata) -> Option<u64> {
    match md.head_count_kv {
        Some(_) => stated(md.head_count_kv),
        None => stated(md.head_count),
    }
}

/// The head dimension that the header implies: embedding length over heads.
pub open spec fn implied_head_dim(md: GgufMetadata) -> Option<u64> {
    if stated(md.embedding_length) is Some && stated(md.head_count) is Some {
        Some(md.embedding_length->0 / md.head_count->0)
    } else {
        None
    }
}

/// A number, or what to take in its place.
pub open spec fn or_else(v: Option<u64>, fallback: u64) -> u64 {
    match v {
        Some(x) => x,
        None => fallback,
    }
}

/// The shape of a model, with fallbacks for what its header leaves out. Without
/// a layer count there is none.
pub open spec fn shape_of(md: GgufMetadata, file_size: u64) -> Option<ModelShape> {
    match stated(md.block_count) {
        Some(n_layers) => {
            let dim = or_else(implied_head_dim(md), 128);
            Some(
                ModelShape {
                    file_size,
                    n_layers,
                    n_head_kv: or_else(stated_kv_heads(md), 8),
                    head_dim_k: or_else(stated(md.key_length), dim),
                    head_dim_v: or_else(stated(md.value_length), dim),
                    native_ctx: or_else(stated(md.context_length), 8192),
                },
            )
        },
        None => None,
    }
}

/// One note, if it is called for.
pub open spec fn note_if(b: bool, s: Seq<char>) -> Seq<Seq<char>> {
    if b {
        seq![s]
    } else {
        seq![]
    }
}

/// What had to be assumed for a shape.
pub open spec fn shape_notes(md: GgufMetadata) -> Seq<Seq<char>> {
    if stated(md.block_count) is None {
        seq!["block_count missing; cannot estimate layers"@]
    } else {
        note_if(stated_kv_heads(md) is None, "head_count_kv missing; assuming 8"@) + note_if(
            implied_head_dim(md) is None,
            "head dim unknown; assuming 128"@,
        ) + note_if(stated(md.context_length) is None, "context_length missing; assuming 8192"@)
    }
}

/// `stated`, computed.
fn stated_in(v: Option<u64>) -> (r: Option<u64>)
    ensures
        r == stated(v),
{
    match v {
        Some(x) => if x > 0 {
            Some(x)
        } else {
            None
        },
        None => None,
    }
}

/// Resolves a shape from GGUF metadata and the file size on disk, and notes what
/// had to be assumed.
pub fn shape_from_metadata(md: &GgufMetadata, file_size: u64, notes: &mut Vec<String>) -> (r: Option<
    ModelShape,
>)
    ensures
        r == shape_of(*md, file_size),
        texts(final(notes)@) == texts(old(notes)@) + shape_notes(*md),
{
    let ghost start = texts(notes@);
    let n_layers = match stated_in(md.block_count) {
        Some(n) => n,
        None => {
            push_text(notes, "block_count missing; cannot estimate layers");
            assert(texts(notes@) =~= start + shape_notes(*md));
            return None;
        },
    };
    let n_head = stated_in(md.head_count);
    let kv_heads = match md.head_count_kv {
        Some(_) => stated_in(md.head_count_kv),
        None => n_head,
    };
    let n_head_kv = match kv_heads {
        Some(n) => n,
        None => {
            push_text(notes, "head_count_kv missing; assuming 8");
            8
        },
    };
    let ghost first = note_if(stated_kv_heads(*md) is None, "head_count_kv missing; assuming 8"@);
    assert(texts(notes@) =~= start + first);
    let dim = match (stated_in(md.embedding_length), n_head) {
        (Some(e), Some(h)) => e / h,
        _ => {
            push_text(notes, "head dim unknown; assuming 128");
            128
        },
    };
    let ghost second = note_if(implied_head_dim(*md) is None, "head dim unknown; assuming 128"@);
    assert(texts(notes@) =~= start + first + second);
    let head_dim_k = match stated_in(md.key_length) {
        Some(n) => n,
        None => dim,
    };
    let head_dim_v = match stated_in(md.value_length) {
        Some(n) => n,
        None => dim,
    };
    let native_ctx = match stated_in(md.context_length) {
        Some(n) => n,
        None => {
            push_text(notes, "context_length missing; assuming 8192");
            8192
        },
    };
    assert(texts(notes@) =~= start + shape_notes(*md));
    Some(ModelShape { file_size, n_layers, n_head_kv, head_dim_k, head_dim_v, native_ctx })
}

// ---------------------------------------------------------------------------
// Range checks
// ---------------------------------------------------------------------------

/// Whether 64 bits can count what all layers at `ctx` cost.
pub fn is_countable(shape: &ModelShape, ctx: u64, kv: KvType) -> (r: bool)
    ensures
        r == countable(*shape, ctx as nat, kv),
{
    if shape.head_dim_k > u64::MAX - shape.head_dim_v {
        return false;
    }
    proof {
        lemma_weights(*shape, shape.n_layers as nat, shape.n_layers as nat);
    }
    let w = weights_bytes(shape, shape.n_layers);
    let c = kv_bytes(shape, ctx, shape.n_layers, kv);
    (w as u128) + (OVERHEAD_BYTES as u128) + (c as u128) <= u64::MAX as u128
}

/// Whether `estimate` takes this model.
pub fn is_estimable(shape: &ModelShape, kv: KvType) -> (r: bool)
    ensures
        r == countable(*shape, native(*shape), kv),
{
    is_countable(shape, clamp32(shape.native_ctx) as u64, kv)
}

/// Whether 64 bits can count what the advisor adds up.
pub fn is_advice_countable(
    shape: &ModelShape,
    current_quant: Option<&str>,
    metadata_params: Option<u64>,
    kv_type: KvType,
) -> (r: bool)
    ensures
        r == advice_countable(*shape, opt_str_view(current_quant), metadata_params, kv_type),
{
    let level = current_level_of(current_quant);
    let params = match params_for(shape, level, metadata_params) {
        Some(p) => p,
        None => {
            return true;
        },
    };
    if shape.head_dim_k > u64::MAX - shape.head_dim_v {
        return false;
    }
    let ctx: u64 = if 8192 <= shape.native_ctx {
        8192
    } else {
        shape.native_ctx
    };
    let kv = kv_bytes(shape, ctx, shape.n_layers, kv_type);
    if let Some(b) = level {
        if (quant_weights_of(params, b.bits) as u128) + (kv as u128) + (OVERHEAD_BYTES as u128)
            > u64::MAX as u128 {
            return false;
        }
    }
    for i in 0..9usize
        invariant
            kv as nat == working_kv(*shape, kv_type),
            forall|k: int|
                0 <= k < i ==> quant_total(
                    *shape,
                    params,
                    (#[trigger] quant_ladder()[k]).1,
                    kv_type,
                ) <= u64::MAX,
            params_of(*shape, opt_str_view(current_quant), metadata_params) == Some(params),
    {
        let (name, bits) = quant_row(i);
        if (quant_weights_of(params, bits) as u128) + (kv as u128) + (OVERHEAD_BYTES as u128)
            > u64::MAX as u128 {
            assert(quant_total(*shape, params, quant_ladder()[i as int].1, kv_type) > u64::MAX);
            return false;
        }
        assert(quant_total(*shape, params, quant_ladder()[i as int].1, kv_type) <= u64::MAX);
    }
    true
}

// ---------------------------------------------------------------------------
// Laws
// ---------------------------------------------------------------------------

/// A quantised cache never costs more: q4_0 at most q8_0, q8_0 at most f16.
pub proof fn law_quantised_cache_costs_no_more(shape: ModelShape, ctx: nat, layers: nat)
    ensures
        kv_cost(shape, ctx, layers, KvType::Q4_0) <= kv_cost(shape, ctx, layers, KvType::Q8_0)
            <= kv_cost(shape, ctx, layers, KvType::F16),
{
    lemma_kv(shape, ctx, ctx, layers, layers, KvType::Q4_0, KvType::Q8_0);
    lemma_kv(shape, ctx, ctx, layers, layers, KvType::Q8_0, KvType::F16);
}

/// A GPU with more memory has no smaller budget.
pub proof fn law_budget_grows_with_the_gpu(small: nat, big: nat)
    requires
        small <= big,
    ensures
        budget(small) <= budget(big),
{
    reveal(budget);
    reveal(of_whole);
    reveal(times);
    reveal(truncated);
    let h = Binary64 { bits: VRAM_HEADROOM };
    let x = of_whole(small);
    let y = of_whole(big);
    lemma_whole_monotone(small, big);
    let a = magnitude(x);
    let b = magnitude(y);
    if b < INFINITY {
        lemma_product_monotone(a, b, magnitude(h));
        let p = magnitude(times(x, h));
        let q = magnitude(times(y, h));
        if q < INFINITY {
            lemma_floor_monotone(p, q);
        }
    }
}

/// More room, a shorter context or a narrower cache never lose a layer.
pub proof fn law_layers_follow_the_room(
    shape: ModelShape,
    c1: nat,
    room1: nat,
    kv1: KvType,
    c2: nat,
    room2: nat,
    kv2: KvType,
)
    requires
        c1 >= c2,
        room1 <= room2,
        element_bits(kv1) >= element_bits(kv2),
    ensures
        most_layers(shape, c1, room1, kv1) <= most_layers(shape, c2, room2, kv2),
{
    lemma_most_layers(shape, c1, room1, kv1);
    lemma_most_layers(shape, c2, room2, kv2);
    let a = most_layers(shape, c1, room1, kv1);
    let b = most_layers(shape, c2, room2, kv2);
    if b < a {
        lemma_cost(shape, c2, c1, a, a, kv2, kv1);
        assert(cost(shape, c2, a, kv2) > room2);
    }
}

/// What is recommended as fitting stays within the budget.
pub proof fn law_recommendation_stays_in_budget(
    shape: ModelShape,
    gpu_total: nat,
    gpu_free: nat,
    kv: KvType,
    notes: Seq<Seq<char>>,
    r: VramEstimate,
)
    requires
        is_estimate(shape, gpu_total, gpu_free, kv, notes, r),
        r.fits,
    ensures
        r.est_total_bytes <= r.budget_bytes,
{
    if !r.full_offload {
        let room = budget(gpu_total);
        lemma_most_layers(
            shape,
            least(TARGET_PARTIAL_CTX as nat, shape.native_ctx as nat),
            room,
            kv,
        );
        lemma_most_layers(shape, least(4096, shape.native_ctx as nat), room, kv);
        lemma_most_layers(shape, least(2048, shape.native_ctx as nat), room, kv);
    }
}

/// A recommendation that does not take all layers leaves some behind.
pub proof fn law_partial_offload_is_partial(
    shape: ModelShape,
    gpu_total: nat,
    gpu_free: nat,
    kv: KvType,
    notes: Seq<Seq<char>>,
    r: VramEstimate,
)
    requires
        is_estimate(shape, gpu_total, gpu_free, kv, notes, r),
        !r.full_offload,
        0 < shape.n_layers <= u32::MAX,
    ensures
        r.n_gpu_layers < shape.n_layers,
{
    let room = budget(gpu_total);
    let (ctx, layers) = partial_choice(shape, room, kv);
    lemma_most_layers(shape, ctx, room, kv);
    if layers == shape.n_layers {
        let cs = contexts(r.context_options@);
        let c = ctx as u32;
        assert(candidates()[0] == 2048 && candidates()[1] == 4096 && candidates()[2] == 8192);
        assert(cs.contains(c)) by {
            if c != native(shape) {
                assert(candidates().contains(c));
            }
        }
        let i = choose|i: int| 0 <= i < cs.len() && cs[i] == c;
        assert(r.context_options@[i].ctx == c);
        assert(is_rung(r.context_options@[i], shape, room, kv));
        assert(r.context_options@[i].fits);
    }
}

/// The rung of a ladder with a given context.
proof fn lemma_same_context(
    shape: ModelShape,
    a: Seq<ContextOption>,
    b: Seq<ContextOption>,
    i: int,
) -> (j: int)
    requires
        is_ladder(contexts(a), shape),
        is_ladder(contexts(b), shape),
        0 <= i < a.len(),
    ensures
        0 <= j < b.len(),
        b[j].ctx == a[i].ctx,
{
    let c = contexts(a)[i];
    assert(contexts(a).contains(c));
    assert(contexts(b).contains(c));
    let j = choose|j: int| 0 <= j < contexts(b).len() && contexts(b)[j] == c;
    assert(contexts(b)[j] == b[j].ctx);
    j
}

/// A larger GPU never asks for less: if all layers fit on the smaller one, they
/// fit on the larger one at no smaller context; and where some layers fit on the
/// smaller one, the larger one takes all of them or at least that context.
pub proof fn law_larger_gpu_allows_larger_context(
    shape: ModelShape,
    kv: KvType,
    small_total: nat,
    small_free: nat,
    small_notes: Seq<Seq<char>>,
    small: VramEstimate,
    big_total: nat,
    big_free: nat,
    big_notes: Seq<Seq<char>>,
    big: VramEstimate,
)
    requires
        small_total <= big_total,
        is_estimate(shape, small_total, small_free, kv, small_notes, small),
        is_estimate(shape, big_total, big_free, kv, big_notes, big),
    ensures
        small.full_offload ==> big.full_offload && small.ctx_size <= big.ctx_size,
        small.fits ==> big.fits && (big.full_offload || small.ctx_size <= big.ctx_size),
{
    law_budget_grows_with_the_gpu(small_total, big_total);
    let s = budget(small_total);
    let b = budget(big_total);
    if small.full_offload {
        let i = choose|i: int|
            0 <= i < small.context_options@.len() && (#[trigger] small.context_options@[i]).fits
                && small.context_options@[i].ctx == small.ctx_size;
        let j = lemma_same_context(shape, small.context_options@, big.context_options@, i);
        assert(is_rung(small.context_options@[i], shape, s, kv));
        assert(is_rung(big.context_options@[j], shape, b, kv));
        assert(big.context_options@[j].fits);
    } else {
        let x = least(TARGET_PARTIAL_CTX as nat, shape.native_ctx as nat);
        let y = least(4096, shape.native_ctx as nat);
        let z = least(2048, shape.native_ctx as nat);
        law_layers_follow_the_room(shape, x, s, kv, x, b, kv);
        law_layers_follow_the_room(shape, y, s, kv, y, b, kv);
        law_layers_follow_the_room(shape, z, s, kv, z, b, kv);
    }
}

/// Going up the ladder, a longer context never takes more layers.
pub proof fn law_longer_context_takes_no_more_layers(
    shape: ModelShape,
    gpu_total: nat,
    gpu_free: nat,
    kv: KvType,
    notes: Seq<Seq<char>>,
    r: VramEstimate,
    i: int,
    j: int,
)
    requires
        is_estimate(shape, gpu_total, gpu_free, kv, notes, r),
        0 <= i < j < r.context_options@.len(),
    ensures
        r.context_options@[i].ctx < r.context_options@[j].ctx,
        r.context_options@[j].n_gpu_layers <= r.context_options@[i].n_gpu_layers,
{
    let cs = contexts(r.context_options@);
    let a = r.context_options@[i];
    let b = r.context_options@[j];
    assert(cs[i] == a.ctx && cs[j] == b.ctx);
    let room = budget(gpu_total);
    assert(is_rung(a, shape, room, kv) && is_rung(b, shape, room, kv));
    law_layers_follow_the_room(shape, b.ctx as nat, room, kv, a.ctx as nat, room, kv);
}

/// At any context, a narrower cache leaves room for at least as many layers.
pub proof fn law_quantised_cache_buys_layers(
    shape: ModelShape,
    gpu_total: nat,
    gpu_free: nat,
    wide: KvType,
    wide_notes: Seq<Seq<char>>,
    w: VramEstimate,
    narrow: KvType,
    narrow_notes: Seq<Seq<char>>,
    n: VramEstimate,
    i: int,
    j: int,
)
    requires
        element_bits(narrow) <= element_bits(wide),
        is_estimate(shape, gpu_total, gpu_free, wide, wide_notes, w),
        is_estimate(shape, gpu_total, gpu_free, narrow, narrow_notes, n),
        0 <= i < w.context_options@.len(),
        0 <= j < n.context_options@.len(),
        w.context_options@[i].ctx == n.context_options@[j].ctx,
    ensures
        w.context_options@[i].n_gpu_layers <= n.context_options@[j].n_gpu_layers,
        w.context_options@[i].fits ==> n.context_options@[j].fits,
{
    let room = budget(gpu_total);
    let ctx = w.context_options@[i].ctx as nat;
    assert(is_rung(w.context_options@[i], shape, room, wide));
    assert(is_rung(n.context_options@[j], shape, room, narrow));
    law_layers_follow_the_room(shape, ctx, room, wide, ctx, room, narrow);
    lemma_cost(
        shape,
        ctx,
        ctx,
        shape.n_layers as nat,
        shape.n_layers as nat,
        narrow,
        wide,
    );
}

/// The verdict on a pair says what it costs: a fitting pair evicts nothing, a
/// pair that costs layers evicts some, the draft is on the GPU as a whole or not
/// at all, and what is placed stays within the budget.
pub proof fn law_pair_verdict_says_the_cost(
    target: ModelShape,
    draft: ModelShape,
    ctx: nat,
    gpu_total: nat,
    kv: KvType,
    r: PairEstimate,
)
    requires
        is_pair(target, draft, ctx, gpu_total, kv, r),
    ensures
        r.verdict is Fits ==> r.target_layers_evicted == 0,
        r.verdict is CostsTargetLayers ==> r.target_layers_evicted > 0,
        r.verdict is TooBig <==> r.target_layers_on_gpu == 0,
        r.draft_layers_on_gpu == 0 || r.draft_layers_on_gpu == r.draft_layers_total,
        !(r.verdict is TooBig) ==> r.draft_layers_on_gpu == r.draft_layers_total,
        !(r.verdict is TooBig) ==> r.est_total_bytes <= r.budget_bytes,
        r.est_total_bytes == r.est_target_bytes + r.est_draft_bytes,
{
    let room = budget(gpu_total);
    if draft_cost(draft, ctx, kv) <= room {
        lemma_most_layers(target, ctx, (room - draft_cost(draft, ctx, kv)) as nat, kv);
    }
}

/// The draft's cache is charged at the target's context, so a longer one never
/// makes it cheaper.
pub proof fn law_draft_grows_with_the_context(
    target: ModelShape,
    draft: ModelShape,
    gpu_total: nat,
    kv: KvType,
    short: nat,
    s: PairEstimate,
    long: nat,
    l: PairEstimate,
)
    requires
        short <= long,
        is_pair(target, draft, short, gpu_total, kv, s),
        is_pair(target, draft, long, gpu_total, kv, l),
    ensures
        s.est_draft_bytes <= l.est_draft_bytes,
        l.target_layers_on_gpu <= s.target_layers_on_gpu,
{
    let n = draft.n_layers as nat;
    lemma_cost(draft, short, long, n, n, kv, kv);
    let room = budget(gpu_total);
    if draft_cost(draft, long, kv) <= room {
        law_layers_follow_the_room(
            target,
            long,
            (room - draft_cost(draft, long, kv)) as nat,
            kv,
            short,
            (room - draft_cost(draft, short, kv)) as nat,
            kv,
        );
    }
}

/// A narrower cache never costs the pair target layers.
pub proof fn law_quantised_cache_buys_back_room(
    target: ModelShape,
    draft: ModelShape,
    ctx: nat,
    gpu_total: nat,
    wide: KvType,
    w: PairEstimate,
    narrow: KvType,
    n: PairEstimate,
)
    requires
        element_bits(narrow) <= element_bits(wide),
        is_pair(target, draft, ctx, gpu_total, wide, w),
        is_pair(target, draft, ctx, gpu_total, narrow, n),
    ensures
        n.est_draft_bytes <= w.est_draft_bytes,
        w.target_layers_on_gpu <= n.target_layers_on_gpu,
{
    let k = draft.n_layers as nat;
    lemma_cost(draft, ctx, ctx, k, k, narrow, wide);
    let room = budget(gpu_total);
    if draft_cost(draft, ctx, wide) <= room {
        law_layers_follow_the_room(
            target,
            ctx,
            (room - draft_cost(draft, ctx, wide)) as nat,
            wide,
            ctx,
            (room - draft_cost(draft, ctx, narrow)) as nat,
            narrow,
        );
    }
}

/// A pair that costs the target nothing leaves it the layers it has alone, all or
/// part of them: a target that was partial before is not charged to the draft.
pub proof fn law_fitting_draft_is_free(
    target: ModelShape,
    draft: ModelShape,
    ctx: nat,
    gpu_total: nat,
    kv: KvType,
    r: PairEstimate,
)
    requires
        is_pair(target, draft, ctx, gpu_total, kv, r),
        r.verdict is Fits,
    ensures
        r.target_layers_on_gpu == least(
            most_layers(target, ctx, budget(gpu_total), kv),
            u32::MAX as nat,
        ),
{
    let room = budget(gpu_total);
    if draft_cost(draft, ctx, kv) <= room {
        law_layers_follow_the_room(
            target,
            ctx,
            (room - draft_cost(draft, ctx, kv)) as nat,
            kv,
            ctx,
            room,
            kv,
        );
    }
}

// ---------------------------------------------------------------------------
// Laws over headers, bytes and layers
// ---------------------------------------------------------------------------

/// What a shape takes from a header. The KV heads are those that the header states
/// as such, whatever it says of the heads; only without them are they the heads.
/// Key and value lengths are the stated ones, each by itself, or else the
/// embedding length over the heads, or else 128.
pub proof fn law_shape_follows_the_header(md: GgufMetadata, file_size: u64, r: Option<ModelShape>)
    requires
        r == shape_of(md, file_size),
    ensures
        r is Some <==> (md.block_count is Some && md.block_count->0 > 0),
        r matches Some(s) ==> {
            &&& s.file_size == file_size
            &&& md.block_count == Some(s.n_layers)
            &&& md.head_count_kv is Some && md.head_count_kv->0 > 0 ==> md.head_count_kv == Some(
                s.n_head_kv,
            )
            &&& md.head_count_kv is None && md.head_count is Some && md.head_count->0 > 0
                ==> md.head_count == Some(s.n_head_kv)
            &&& md.head_count_kv == Some(0u64) ==> s.n_head_kv == 8
            &&& md.head_count_kv is None && (md.head_count is None || md.head_count == Some(0u64))
                ==> s.n_head_kv == 8
            &&& md.key_length is Some && md.key_length->0 > 0 ==> md.key_length == Some(
                s.head_dim_k,
            )
            &&& md.value_length is Some && md.value_length->0 > 0 ==> md.value_length == Some(
                s.head_dim_v,
            )
            &&& md.key_length is None || md.key_length == Some(0u64) ==> (if md.embedding_length
                is Some && md.embedding_length->0 > 0 && md.head_count is Some && md.head_count->0
                > 0 {
                s.head_dim_k * md.head_count->0 <= md.embedding_length->0 < (s.head_dim_k + 1)
                    * md.head_count->0
            } else {
                s.head_dim_k == 128
            })
            &&& md.value_length is None || md.value_length == Some(0u64) ==> (if md.embedding_length
                is Some && md.embedding_length->0 > 0 && md.head_count is Some && md.head_count->0
                > 0 {
                s.head_dim_v * md.head_count->0 <= md.embedding_length->0 < (s.head_dim_v + 1)
                    * md.head_count->0
            } else {
                s.head_dim_v == 128
            })
            &&& md.context_length is Some && md.context_length->0 > 0 ==> md.context_length == Some(
                s.native_ctx,
            )
            &&& md.context_length is None || md.context_length == Some(0u64) ==> s.native_ctx == 8192
        },
{
    if stated(md.embedding_length) is Some && stated(md.head_count) is Some {
        let e = md.embedding_length->0 as int;
        let h = md.head_count->0 as int;
        vstd::arithmetic::div_mod::lemma_fundamental_div_mod(e, h);
        let q = e / h;
        assert(q * h <= e < (q + 1) * h) by (nonlinear_arith)
            requires
                e == h * q + e % h,
                0 <= e % h < h,
        ;
    }
}

/// Headers that state the same layers, KV heads, key and value lengths and context
/// give the same shape, whatever else they say.
pub proof fn law_shape_depends_on_what_is_stated(a: GgufMetadata, b: GgufMetadata, file_size: u64)
    requires
        a.block_count == b.block_count,
        a.head_count_kv == b.head_count_kv,
        a.head_count_kv is Some,
        a.key_length == b.key_length,
        a.key_length is Some && a.key_length->0 > 0,
        a.value_length == b.value_length,
        a.value_length is Some && a.value_length->0 > 0,
        a.context_length == b.context_length,
    ensures
        shape_of(a, file_size) == shape_of(b, file_size),
{
}

/// A header that states everything leaves nothing to assume, and what is assumed
/// for another is said: one note for the KV heads, one for the head dimension and
/// one for the context, in this order; or that there is no layer count.
pub proof fn law_assumptions_are_noted(md: GgufMetadata, file_size: u64)
    ensures
        shape_of(md, file_size) is None ==> shape_notes(md) == seq![
            "block_count missing; cannot estimate layers"@,
        ],
        shape_of(md, file_size) is Some && md.head_count_kv is Some && md.head_count_kv->0 > 0
            && md.head_count is Some && md.head_count->0 > 0 && md.embedding_length is Some
            && md.embedding_length->0 > 0 && md.context_length is Some && md.context_length->0 > 0
            ==> shape_notes(md) == Seq::<Seq<char>>::empty(),
        shape_of(md, file_size) is Some && (md.head_count_kv == Some(0u64) || (md.head_count_kv
            is None && md.head_count is None)) ==> shape_notes(md).contains(
            "head_count_kv missing; assuming 8"@,
        ),
        shape_of(md, file_size) is Some && (md.head_count is None || md.embedding_length is None)
            ==> shape_notes(md).contains("head dim unknown; assuming 128"@),
        shape_of(md, file_size) is Some && md.context_length is None ==> shape_notes(md).contains(
            "context_length missing; assuming 8192"@,
        ),
{
    if shape_of(md, file_size) is Some {
        let a = note_if(stated_kv_heads(md) is None, "head_count_kv missing; assuming 8"@);
        let b = note_if(implied_head_dim(md) is None, "head dim unknown; assuming 128"@);
        let c = note_if(
            stated(md.context_length) is None,
            "context_length missing; assuming 8192"@,
        );
        let all = shape_notes(md);
        assert(all == a + b + c);
        if a.len() > 0 {
            assert(all[0] == a[0]);
        }
        if b.len() > 0 {
            assert(all[a.len() as int] == b[0]);
        }
        if c.len() > 0 {
            assert(all[(a.len() + b.len()) as int] == c[0]);
        }
        if a.len() == 0 && b.len() == 0 && c.len() == 0 {
            assert(all =~= Seq::<Seq<char>>::empty());
        }
    }
}

/// One element of an f16 cache takes two bytes, one of q8_0 takes 34 bytes for 32
/// of them, and one of q4_0 takes 18 bytes for 32. A cache holds, per layer, token
/// and KV head, the key and the value.
pub proof fn law_cache_counts_its_elements(shape: ModelShape, ctx: nat, layers: nat)
    requires
        layers * ctx * (shape.n_head_kv as nat) * ((shape.head_dim_k + shape.head_dim_v) as nat) * 32
            <= u64::MAX,
    ensures
        ({
            let elements = layers * ctx * (shape.n_head_kv as nat) * ((shape.head_dim_k
                + shape.head_dim_v) as nat);
            &&& kv_cost(shape, ctx, layers, KvType::F16) == 2 * elements
            &&& kv_cost(shape, ctx, layers, KvType::Q8_0) == elements * 34 / 32
            &&& kv_cost(shape, ctx, layers, KvType::Q4_0) == elements * 18 / 32
        }),
{
    let e = layers * ctx * (shape.n_head_kv as nat) * ((shape.head_dim_k + shape.head_dim_v) as nat);
    assert(e * 34 / 32 == e * 17 / 16 && e * 18 / 32 == e * 9 / 16);
}

/// Twice the layers, the context, the KV heads or the head dimensions take twice
/// the f16 cache.
pub proof fn law_cache_is_proportional(shape: ModelShape, twice: ModelShape, ctx: nat, layers: nat)
    requires
        layers * ctx * (shape.n_head_kv as nat) * ((shape.head_dim_k + shape.head_dim_v) as nat) * 64
            <= u64::MAX,
    ensures
        kv_cost(shape, ctx, 2 * layers, KvType::F16) == 2 * kv_cost(
            shape,
            ctx,
            layers,
            KvType::F16,
        ),
        kv_cost(shape, 2 * ctx, layers, KvType::F16) == 2 * kv_cost(
            shape,
            ctx,
            layers,
            KvType::F16,
        ),
        twice.n_head_kv == 2 * shape.n_head_kv && twice.head_dim_k == shape.head_dim_k
            && twice.head_dim_v == shape.head_dim_v ==> kv_cost(twice, ctx, layers, KvType::F16) == 2
            * kv_cost(shape, ctx, layers, KvType::F16),
        twice.n_head_kv == shape.n_head_kv && twice.head_dim_k == 2 * shape.head_dim_k
            && twice.head_dim_v == 2 * shape.head_dim_v ==> kv_cost(twice, ctx, layers, KvType::F16)
            == 2 * kv_cost(shape, ctx, layers, KvType::F16),
{
    let h = shape.n_head_kv as nat;
    let d = (shape.head_dim_k + shape.head_dim_v) as nat;
    let e = layers * ctx * h * d;
    let a = layers * ctx;
    let b = a * h;
    lemma_twice(layers, ctx);
    lemma_twice(a, h);
    lemma_twice(b, d);
    assert((2 * layers) * ctx * h * d == 2 * e);
    assert(layers * (2 * ctx) * h * d == 2 * e);
    assert(layers * ctx * (2 * h) * d == 2 * e);
    assert(layers * ctx * h * (2 * d) == 2 * e);
    let one = kv_cost(shape, ctx, layers, KvType::F16);
    assert(e * 64 <= u64::MAX);
    assert(least(e * 32, u64::MAX as nat) == e * 32);
    assert(one == (e * 32) / 16 && one == 2 * e);
    let two = (2 * e) as nat;
    assert(least(two * 32, u64::MAX as nat) == two * 32);
    assert((two * 32) / 16 == 4 * e);
    assert(kv_cost(shape, ctx, 2 * layers, KvType::F16) == (two * 32) / 16);
    assert(kv_cost(shape, 2 * ctx, layers, KvType::F16) == (two * 32) / 16);
    if twice.n_head_kv == 2 * shape.n_head_kv && twice.head_dim_k == shape.head_dim_k
        && twice.head_dim_v == shape.head_dim_v {
        assert(kv_cost(twice, ctx, layers, KvType::F16) == (two * 32) / 16);
    }
    if twice.n_head_kv == shape.n_head_kv && twice.head_dim_k == 2 * shape.head_dim_k
        && twice.head_dim_v == 2 * shape.head_dim_v {
        assert((twice.head_dim_k + twice.head_dim_v) as nat == 2 * d);
        assert(kv_cost(twice, ctx, layers, KvType::F16) == (two * 32) / 16);
    }
}

/// Twice a factor is twice the product.
proof fn lemma_twice(x: nat, y: nat)
    by (nonlinear_arith)
    ensures
        (2 * x) * y == 2 * (x * y),
        x * (2 * y) == 2 * (x * y),
{
}

/// Whole models weigh what their file does, none of their layers nothing, and part
/// of them in proportion.
pub proof fn law_weights_are_the_share_of_the_file(shape: ModelShape, layers: nat)
    requires
        shape.n_layers > 0,
    ensures
        weights(shape, shape.n_layers as nat) == shape.file_size,
        weights(shape, 0) == 0,
        weights(shape, layers) * shape.n_layers <= shape.file_size * layers < (weights(
            shape,
            layers,
        ) + 1) * shape.n_layers,
{
    let f = shape.file_size as int;
    let n = shape.n_layers as int;
    vstd::arithmetic::div_mod::lemma_div_by_multiple(f, n);
    assert(f * 0 == 0);
    let p = f * layers;
    vstd::arithmetic::div_mod::lemma_fundamental_div_mod(p, n);
    let q = p / n;
    assert(q * n <= p < (q + 1) * n) by (nonlinear_arith)
        requires
            p == n * q + p % n,
            0 <= p % n < n,
    ;
}

/// What a recommendation charges: the layers it places take their share of the
/// file, a cache at the recommended context, and 400 MiB of overhead. It repeats
/// the card's memory as it was given.
pub proof fn law_recommendation_charges_what_it_places(
    shape: ModelShape,
    gpu_total: nat,
    gpu_free: nat,
    kv: KvType,
    notes: Seq<Seq<char>>,
    r: VramEstimate,
)
    requires
        is_estimate(shape, gpu_total, gpu_free, kv, notes, r),
        0 < shape.n_layers <= u32::MAX,
    ensures
        r.gpu_total_bytes == gpu_total,
        r.gpu_free_bytes == gpu_free,
        r.est_overhead_bytes == 400 * 1024 * 1024,
        r.est_total_bytes == r.est_weights_bytes + r.est_kv_bytes + 400 * 1024 * 1024,
        r.est_weights_bytes * shape.n_layers <= shape.file_size * r.n_gpu_layers < (
        r.est_weights_bytes + 1) * shape.n_layers,
        r.full_offload ==> r.n_gpu_layers == shape.n_layers && r.est_weights_bytes
            == shape.file_size,
        !r.full_offload ==> r.n_gpu_layers < shape.n_layers,
        r.fits <==> r.n_gpu_layers > 0,
        kv is F16 && r.n_gpu_layers * r.ctx_size * shape.n_head_kv * (shape.head_dim_k
            + shape.head_dim_v) * 32 <= u64::MAX ==> r.est_kv_bytes == 2 * (r.n_gpu_layers
            * r.ctx_size * shape.n_head_kv * (shape.head_dim_k + shape.head_dim_v)),
        kv is Q8_0 && r.n_gpu_layers * r.ctx_size * shape.n_head_kv * (shape.head_dim_k
            + shape.head_dim_v) * 32 <= u64::MAX ==> r.est_kv_bytes == (r.n_gpu_layers * r.ctx_size
            * shape.n_head_kv * (shape.head_dim_k + shape.head_dim_v)) * 34 / 32,
        kv is Q4_0 && r.n_gpu_layers * r.ctx_size * shape.n_head_kv * (shape.head_dim_k
            + shape.head_dim_v) * 32 <= u64::MAX ==> r.est_kv_bytes == (r.n_gpu_layers * r.ctx_size
            * shape.n_head_kv * (shape.head_dim_k + shape.head_dim_v)) * 18 / 32,
{
    let room = budget(gpu_total);
    let (ctx, layers) = partial_choice(shape, room, kv);
    lemma_most_layers(shape, ctx, room, kv);
    lemma_most_layers(shape, least(8192, shape.native_ctx as nat), room, kv);
    lemma_most_layers(shape, least(4096, shape.native_ctx as nat), room, kv);
    lemma_most_layers(shape, least(2048, shape.native_ctx as nat), room, kv);
    let n = r.n_gpu_layers as nat;
    law_weights_are_the_share_of_the_file(shape, n);
    if !r.full_offload {
        law_partial_offload_is_partial(shape, gpu_total, gpu_free, kv, notes, r);
    }
    if n * (r.ctx_size as nat) * (shape.n_head_kv as nat) * ((shape.head_dim_k
        + shape.head_dim_v) as nat) * 32 <= u64::MAX {
        law_cache_counts_its_elements(shape, r.ctx_size as nat, n);
    }
}

/// The rungs of the ladder: the powers of two from 2048 to 262144 that the model
/// was trained for, and the context that it was trained for itself, each once, the
/// shorter ones first.
pub proof fn law_ladder_holds_the_usual_contexts(
    shape: ModelShape,
    gpu_total: nat,
    gpu_free: nat,
    kv: KvType,
    notes: Seq<Seq<char>>,
    r: VramEstimate,
    c: u32,
)
    requires
        is_estimate(shape, gpu_total, gpu_free, kv, notes, r),
        shape.native_ctx <= u32::MAX,
    ensures
        (exists|i: int| 0 <= i < r.context_options@.len() && (#[trigger] r.context_options@[i]).ctx == c)
            <==> (c == shape.native_ctx || (c <= shape.native_ctx && (c == 2048 || c == 4096 || c
            == 8192 || c == 16384 || c == 32768 || c == 65536 || c == 131072 || c == 262144))),
        forall|i: int, j: int|
            0 <= i < j < r.context_options@.len() ==> (#[trigger] r.context_options@[i]).ctx < (
            #[trigger] r.context_options@[j]).ctx,
{
    let cs = contexts(r.context_options@);
    let k = candidates();
    assert(k[0] == 2048 && k[1] == 4096 && k[2] == 8192 && k[3] == 16384 && k[4] == 32768 && k[5]
        == 65536 && k[6] == 131072 && k[7] == 262144 && k.len() == 8);
    assert(k.contains(c) <==> (c == 2048 || c == 4096 || c == 8192 || c == 16384 || c == 32768 || c
        == 65536 || c == 131072 || c == 262144)) by {
        if k.contains(c) {
            let i = choose|i: int| 0 <= i < k.len() && k[i] == c;
            assert(i == 0 || i == 1 || i == 2 || i == 3 || i == 4 || i == 5 || i == 6 || i == 7);
        }
    }
    assert(cs.contains(c) <==> exists|i: int|
        0 <= i < r.context_options@.len() && (#[trigger] r.context_options@[i]).ctx == c) by {
        if cs.contains(c) {
            let i = choose|i: int| 0 <= i < cs.len() && cs[i] == c;
            assert(r.context_options@[i].ctx == c);
        }
        if exists|i: int|
            0 <= i < r.context_options@.len() && (#[trigger] r.context_options@[i]).ctx == c {
            let i = choose|i: int|
                0 <= i < r.context_options@.len() && (#[trigger] r.context_options@[i]).ctx == c;
            assert(cs[i] == c);
        }
    }
    assert forall|i: int, j: int| 0 <= i < j < r.context_options@.len() implies (
    #[trigger] r.context_options@[i]).ctx < (#[trigger] r.context_options@[j]).ctx by {
        assert(cs[i] == r.context_options@[i].ctx && cs[j] == r.context_options@[j].ctx);
    }
}

/// What a rung says: the bytes of the whole model at its context, whether they are
/// within the budget, and the most layers that are. More layers than it says, up to
/// all of them, take more bytes than the budget has.
pub proof fn law_rung_says_what_its_context_takes(
    shape: ModelShape,
    gpu_total: nat,
    gpu_free: nat,
    kv: KvType,
    notes: Seq<Seq<char>>,
    r: VramEstimate,
    i: int,
    more: nat,
)
    requires
        is_estimate(shape, gpu_total, gpu_free, kv, notes, r),
        0 <= i < r.context_options@.len(),
        0 < shape.n_layers <= u32::MAX,
        kv is F16,
        shape.n_layers * r.context_options@[i].ctx * shape.n_head_kv * (shape.head_dim_k
            + shape.head_dim_v) * 32 <= u64::MAX,
    ensures
        ({
            let o = r.context_options@[i];
            let per_layer = o.ctx * shape.n_head_kv * (shape.head_dim_k + shape.head_dim_v);
            &&& o.est_total_bytes == shape.file_size + 400 * 1024 * 1024 + 2 * (shape.n_layers
                * per_layer)
            &&& o.fits <==> o.est_total_bytes <= r.budget_bytes
            &&& o.fits ==> o.n_gpu_layers == shape.n_layers
            &&& o.n_gpu_layers <= shape.n_layers
            &&& o.n_gpu_layers > 0 ==> shape.file_size * o.n_gpu_layers / (shape.n_layers as int) + 400
                * 1024 * 1024 + 2 * (o.n_gpu_layers * per_layer) <= r.budget_bytes
            &&& o.n_gpu_layers < more <= shape.n_layers ==> shape.file_size * more / (
            shape.n_layers as int) + 400 * 1024 * 1024 + 2 * (more * per_layer) > r.budget_bytes
        }),
{
    let o = r.context_options@[i];
    let room = budget(gpu_total);
    assert(is_rung(o, shape, room, kv));
    let ctx = o.ctx as nat;
    let h = shape.n_head_kv as nat;
    let d = (shape.head_dim_k + shape.head_dim_v) as nat;
    let per_layer = ctx * h * d;
    let all = shape.n_layers as nat;
    let n = o.n_gpu_layers as nat;
    lemma_most_layers(shape, ctx, room, kv);
    law_weights_are_the_share_of_the_file(shape, 0);
    lemma_cache_by_layer(shape, ctx, all, all);
    lemma_cache_by_layer(shape, ctx, n, all);
    if n < more <= all {
        lemma_cache_by_layer(shape, ctx, more, all);
        assert(cost(shape, ctx, more, kv) > room);
    }
    if o.fits && n < all {
        assert(cost(shape, ctx, all, kv) > room);
    }
}

/// The f16 cache of some layers is what one takes, so many times.
proof fn lemma_cache_by_layer(shape: ModelShape, ctx: nat, n: nat, all: nat)
    requires
        n <= all,
        all * ctx * (shape.n_head_kv as nat) * ((shape.head_dim_k + shape.head_dim_v) as nat) * 32
            <= u64::MAX,
    ensures
        kv_cost(shape, ctx, n, KvType::F16) == 2 * (n * (ctx * shape.n_head_kv * (shape.head_dim_k
            + shape.head_dim_v))),
{
    let h = shape.n_head_kv as nat;
    let d = (shape.head_dim_k + shape.head_dim_v) as nat;
    assert(n * ctx * h * d == n * (ctx * h * d)) by (nonlinear_arith);
    assert(n * ctx * h * d <= all * ctx * h * d) by (nonlinear_arith)
        requires
            n <= all,
    ;
    law_cache_counts_its_elements(shape, ctx, n);
}

/// The recommendation takes all layers exactly where some rung does, and then the
/// longest such context; no rung that fits has a longer one.
pub proof fn law_full_offload_takes_the_longest_context(
    shape: ModelShape,
    gpu_total: nat,
    gpu_free: nat,
    kv: KvType,
    notes: Seq<Seq<char>>,
    r: VramEstimate,
    i: int,
)
    requires
        is_estimate(shape, gpu_total, gpu_free, kv, notes, r),
        0 <= i < r.context_options@.len(),
        r.context_options@[i].fits,
    ensures
        r.full_offload,
        r.ctx_size >= r.context_options@[i].ctx,
        exists|j: int|
            0 <= j < r.context_options@.len() && (#[trigger] r.context_options@[j]).fits
                && r.context_options@[j].ctx == r.ctx_size && r.context_options@[j].est_total_bytes
                == r.est_total_bytes,
        texts(r.notes@) == notes,
{
    assert(some_rung_fits(r.context_options@));
    let j = choose|j: int|
        0 <= j < r.context_options@.len() && (#[trigger] r.context_options@[j]).fits
            && r.context_options@[j].ctx == r.ctx_size;
    assert(is_rung(r.context_options@[j], shape, budget(gpu_total), kv));
    assert(r.context_options@[j].est_total_bytes == r.est_total_bytes);
}

/// Where no rung takes all layers, the context is 8192 if one layer fits there,
/// else 4096 if one does there, else 2048; never longer than the model was trained
/// for. Where not even that takes a layer, none is placed. The notes that were
/// there stay in front, and something is added.
pub proof fn law_partial_offload_aims_for_8192(
    shape: ModelShape,
    gpu_total: nat,
    gpu_free: nat,
    kv: KvType,
    notes: Seq<Seq<char>>,
    r: VramEstimate,
)
    requires
        is_estimate(shape, gpu_total, gpu_free, kv, notes, r),
        !r.full_offload,
        shape.n_layers > 0,
        0 < shape.native_ctx <= u32::MAX,
    ensures
        ({
            let top = shape.native_ctx as nat;
            let long: nat = if top < 8192 {
                top
            } else {
                8192
            };
            let middle: nat = if top < 4096 {
                top
            } else {
                4096
            };
            let short: nat = if top < 2048 {
                top
            } else {
                2048
            };
            &&& r.ctx_size <= shape.native_ctx
            &&& cost(shape, long, 1, kv) <= r.budget_bytes ==> r.ctx_size == long && r.fits
            &&& cost(shape, long, 1, kv) > r.budget_bytes && cost(shape, middle, 1, kv)
                <= r.budget_bytes ==> r.ctx_size == middle && r.fits
            &&& cost(shape, middle, 1, kv) > r.budget_bytes && cost(shape, short, 1, kv)
                <= r.budget_bytes ==> r.ctx_size == short && r.fits
            &&& cost(shape, short, 1, kv) > r.budget_bytes ==> !r.fits && r.n_gpu_layers == 0
                && r.ctx_size == middle && texts(r.notes@) == notes.push(
                "model won't fit in VRAM even partially; will run on CPU"@,
            )
        }),
        texts(r.notes@).len() > notes.len(),
        texts(r.notes@).take(notes.len() as int) == notes,
{
    let room = budget(gpu_total);
    let top = shape.native_ctx as nat;
    let long = least(8192, top);
    let middle = least(4096, top);
    let short = least(2048, top);
    lemma_some_layer(shape, long, room, kv);
    lemma_some_layer(shape, middle, room, kv);
    lemma_some_layer(shape, short, room, kv);
    lemma_cost(shape, short, middle, 1, 1, kv, kv);
    lemma_cost(shape, middle, long, 1, 1, kv, kv);
    let (ctx, layers) = partial_choice(shape, room, kv);
    let added = partial_notes(shape, ctx, layers);
    assert((notes + added).take(notes.len() as int) =~= notes);
    if layers == 0 {
        assert(notes + added =~= notes.push(added[0]));
    }
}

/// Some layer fits exactly where one does.
proof fn lemma_some_layer(shape: ModelShape, ctx: nat, room: nat, kv: KvType)
    requires
        shape.n_layers > 0,
    ensures
        most_layers(shape, ctx, room, kv) > 0 <==> cost(shape, ctx, 1, kv) <= room,
{
    lemma_most_layers(shape, ctx, room, kv);
    let n = most_layers(shape, ctx, room, kv);
    if n > 0 {
        lemma_cost(shape, ctx, ctx, 1, n, kv, kv);
    }
}

/// The levels of the ladder, best quality first.
pub proof fn law_levels_are_named_best_first(
    r: QuantAdvice,
    shape: ModelShape,
    label: Option<Seq<char>>,
    stated_params: Option<u64>,
    gpu_total: nat,
    kv: KvType,
)
    requires
        is_advice(Some(r), shape, label, stated_params, gpu_total, kv),
    ensures
        r.options@.len() == 9,
        r.options@[0].label@ == "F16"@,
        r.options@[1].label@ == "Q8_0"@,
        r.options@[2].label@ == "Q6_K"@,
        r.options@[3].label@ == "Q5_K_M"@,
        r.options@[4].label@ == "Q4_K_M"@,
        r.options@[5].label@ == "IQ4_XS"@,
        r.options@[6].label@ == "Q3_K_M"@,
        r.options@[7].label@ == "IQ3_XS"@,
        r.options@[8].label@ == "Q2_K"@,
        opt_view(r.current_label) == label,
{
    assert(is_quant_option(r.options@[0], 0, shape, params_of(shape, label, stated_params)->0, label, budget(gpu_total), kv));
    assert(is_quant_option(r.options@[1], 1, shape, params_of(shape, label, stated_params)->0, label, budget(gpu_total), kv));
    assert(is_quant_option(r.options@[2], 2, shape, params_of(shape, label, stated_params)->0, label, budget(gpu_total), kv));
    assert(is_quant_option(r.options@[3], 3, shape, params_of(shape, label, stated_params)->0, label, budget(gpu_total), kv));
    assert(is_quant_option(r.options@[4], 4, shape, params_of(shape, label, stated_params)->0, label, budget(gpu_total), kv));
    assert(is_quant_option(r.options@[5], 5, shape, params_of(shape, label, stated_params)->0, label, budget(gpu_total), kv));
    assert(is_quant_option(r.options@[6], 6, shape, params_of(shape, label, stated_params)->0, label, budget(gpu_total), kv));
    assert(is_quant_option(r.options@[7], 7, shape, params_of(shape, label, stated_params)->0, label, budget(gpu_total), kv));
    assert(is_quant_option(r.options@[8], 8, shape, params_of(shape, label, stated_params)->0, label, budget(gpu_total), kv));
}

/// A level fits exactly where its weights, 400 MiB of overhead and the cache of all
/// layers, at 8192 tokens or the native context if that is shorter, are within the
/// budget. What is left of the budget is the headroom.
pub proof fn law_level_fits_with_its_whole_cache(
    r: QuantAdvice,
    shape: ModelShape,
    label: Option<Seq<char>>,
    stated_params: Option<u64>,
    gpu_total: nat,
    kv: KvType,
    i: int,
)
    requires
        is_advice(Some(r), shape, label, stated_params, gpu_total, kv),
        0 <= i < r.options@.len(),
        shape.n_layers * (if shape.native_ctx < 8192 {
            shape.native_ctx as nat
        } else {
            8192
        }) * shape.n_head_kv * (shape.head_dim_k + shape.head_dim_v) * 32 <= u64::MAX,
    ensures
        ({
            let o = r.options@[i];
            let ctx: nat = if shape.native_ctx < 8192 {
                shape.native_ctx as nat
            } else {
                8192
            };
            let elements = shape.n_layers * ctx * shape.n_head_kv * (shape.head_dim_k
                + shape.head_dim_v);
            let cache = match kv {
                KvType::F16 => 2 * elements,
                KvType::Q8_0 => elements * 34 / 32,
                KvType::Q4_0 => elements * 18 / 32,
            };
            let total = o.est_weights_bytes + 400 * 1024 * 1024 + cache;
            &&& o.fits <==> total <= budget(gpu_total)
            &&& o.fits ==> o.headroom_bytes + total == budget(gpu_total)
            &&& !o.fits ==> o.headroom_bytes == 0
        }),
{
    let ctx = least(8192, shape.native_ctx as nat);
    law_cache_counts_its_elements(shape, ctx, shape.n_layers as nat);
    assert(is_quant_option(
        r.options@[i],
        i,
        shape,
        params_of(shape, label, stated_params)->0,
        label,
        budget(gpu_total),
        kv,
    ));
}

/// The advice and the estimate agree. Take the model with the weights of a level as
/// its file: at the context that levels are judged at, the rung of its estimate
/// takes all layers exactly where the level fits.
pub proof fn law_advice_agrees_with_the_estimate(
    a: QuantAdvice,
    shape: ModelShape,
    label: Option<Seq<char>>,
    stated_params: Option<u64>,
    gpu_total: nat,
    kv: KvType,
    i: int,
    requant: ModelShape,
    gpu_free: nat,
    notes: Seq<Seq<char>>,
    r: VramEstimate,
    j: int,
)
    requires
        is_advice(Some(a), shape, label, stated_params, gpu_total, kv),
        0 <= i < a.options@.len(),
        requant == (ModelShape { file_size: a.options@[i].est_weights_bytes, ..shape }),
        shape.n_layers > 0,
        is_estimate(requant, gpu_total, gpu_free, kv, notes, r),
        0 <= j < r.context_options@.len(),
        r.context_options@[j].ctx == 8192 || (r.context_options@[j].ctx == shape.native_ctx
            && shape.native_ctx < 8192),
        shape.native_ctx >= r.context_options@[j].ctx,
    ensures
        a.options@[i].fits <==> r.context_options@[j].fits,
        a.options@[i].fits ==> r.full_offload && r.ctx_size >= r.context_options@[j].ctx,
        a.recommended is Some ==> (exists|k: int|
            0 <= k < a.options@.len() && (#[trigger] a.options@[k]).fits && a.options@[k].label@
                == a.recommended->0@),
{
    let room = budget(gpu_total);
    assert(is_quant_option(
        a.options@[i],
        i,
        shape,
        params_of(shape, label, stated_params)->0,
        label,
        room,
        kv,
    ));
    assert(is_rung(r.context_options@[j], requant, room, kv));
    law_weights_are_the_share_of_the_file(requant, 0);
    if r.context_options@[j].fits {
        law_full_offload_takes_the_longest_context(
            requant,
            gpu_total,
            gpu_free,
            kv,
            notes,
            r,
            j,
        );
    }
    if a.recommended is Some {
        let k = choose|k: int|
            0 <= k < a.options@.len() && (#[trigger] a.options@[k]).fits && a.recommended->0@
                == a.options@[k].label@ && forall|j: int| 0 <= j < k ==> !(#[trigger] a.options@[j]).fits;
        assert(a.options@[k].fits);
    }
}

/// The recommended level fits and none of better quality does; without a
/// recommendation no level fits.
pub proof fn law_best_fitting_level_is_recommended(
    r: QuantAdvice,
    shape: ModelShape,
    label: Option<Seq<char>>,
    stated_params: Option<u64>,
    gpu_total: nat,
    kv: KvType,
    i: int,
)
    requires
        is_advice(Some(r), shape, label, stated_params, gpu_total, kv),
        0 <= i < r.options@.len(),
        r.options@[i].fits,
    ensures
        r.recommended is Some,
        exists|k: int|
            0 <= k <= i && (#[trigger] r.options@[k]).fits && r.options@[k].label@
                == r.recommended->0@,
        r.options@[i].is_current ==> r.current_fits,
{
    let k = choose|k: int|
        0 <= k < r.options@.len() && (#[trigger] r.options@[k]).fits && r.recommended->0@
            == r.options@[k].label@ && forall|j: int| 0 <= j < k ==> !(#[trigger] r.options@[j]).fits;
    assert(r.options@[k].fits);
}

/// There is advice exactly where the parameters are stated, or the label names a
/// level to derive them by. A stated count is used whatever the file weighs.
pub proof fn law_advice_needs_a_parameter_count(
    r: Option<QuantAdvice>,
    shape: ModelShape,
    label: Option<Seq<char>>,
    stated_params: Option<u64>,
    gpu_total: nat,
    kv: KvType,
)
    requires
        is_advice(r, shape, label, stated_params, gpu_total, kv),
    ensures
        r is Some <==> ((stated_params is Some && stated_params->0 > 0) || (label is Some && level_of(
            label->0,
        ) is Some)),
        stated_params is Some && stated_params->0 > 0 ==> r->0.est_params_b == over(
            of_whole(stated_params->0 as nat),
            Binary64 { bits: 0x41cd_cd65_0000_0000 },
        ),
        (stated_params is None || stated_params == Some(0u64)) && r is Some ==> r->0.est_params_b
            == over(
            over(
                times(of_whole(shape.file_size as nat), Binary64 { bits: 0x4020_0000_0000_0000 }),
                Binary64 { bits: level_of(label->0)->0 },
            ),
            Binary64 { bits: 0x41cd_cd65_0000_0000 },
        ),
{
}

/// A level is the current one where the file's label begins with its name, upper or
/// lower case.
pub proof fn law_current_level_is_marked(
    r: QuantAdvice,
    shape: ModelShape,
    label: Option<Seq<char>>,
    stated_params: Option<u64>,
    gpu_total: nat,
    kv: KvType,
    i: int,
)
    requires
        is_advice(Some(r), shape, label, stated_params, gpu_total, kv),
        0 <= i < r.options@.len(),
    ensures
        label is None ==> !r.options@[i].is_current,
        label is Some ==> (r.options@[i].is_current <==> r.options@[i].label@.len() <= label->0.len()
            && upper(label->0).take(r.options@[i].label@.len() as int) == r.options@[i].label@),
{
    assert(is_quant_option(
        r.options@[i],
        i,
        shape,
        params_of(shape, label, stated_params)->0,
        label,
        budget(gpu_total),
        kv,
    ));
    if label is Some {
        let u = upper(label->0);
        let n = r.options@[i].label@.len() as int;
        assert(u.len() == label->0.len());
        if n <= u.len() {
            assert(u.take(n) =~= u.subrange(0, n));
        }
    }
}

/// On a card with more memory every level that fitted still fits.
pub proof fn law_larger_card_takes_every_level(
    shape: ModelShape,
    label: Option<Seq<char>>,
    stated_params: Option<u64>,
    kv: KvType,
    small_total: nat,
    small: QuantAdvice,
    big_total: nat,
    big: QuantAdvice,
    i: int,
)
    requires
        small_total <= big_total,
        is_advice(Some(small), shape, label, stated_params, small_total, kv),
        is_advice(Some(big), shape, label, stated_params, big_total, kv),
        0 <= i < 9,
    ensures
        small.options@[i].fits ==> big.options@[i].fits,
        small.options@[i].est_weights_bytes == big.options@[i].est_weights_bytes,
        small.options@[i].headroom_bytes <= big.options@[i].headroom_bytes,
        small.current_fits ==> big.current_fits,
{
    law_budget_grows_with_the_gpu(small_total, big_total);
    let params = params_of(shape, label, stated_params)->0;
    assert forall|k: int| 0 <= k < 9 implies (#[trigger] small.options@[k]).fits
        ==> big.options@[k].fits by {
        assert(is_quant_option(
            small.options@[k],
            k,
            shape,
            params,
            label,
            budget(small_total),
            kv,
        ));
        assert(is_quant_option(big.options@[k], k, shape, params, label, budget(big_total), kv));
    }
    assert(is_quant_option(small.options@[i], i, shape, params, label, budget(small_total), kv));
    assert(is_quant_option(big.options@[i], i, shape, params, label, budget(big_total), kv));
    if small.current_fits && !big.current_fits {
        let k = choose|k: int|
            0 <= k < small.options@.len() && (#[trigger] small.options@[k]).is_current
                && small.options@[k].fits;
        assert(is_quant_option(small.options@[k], k, shape, params, label, budget(small_total), kv));
        assert(is_quant_option(big.options@[k], k, shape, params, label, budget(big_total), kv));
        assert(big.options@[k].is_current && big.options@[k].fits);
    }
}

/// A draft is charged as a whole: its file, its overhead and its cache at the
/// target's context. The target is charged for the layers it keeps beside it.
pub proof fn law_pair_is_charged_for_both(
    target: ModelShape,
    draft: ModelShape,
    ctx: nat,
    gpu_total: nat,
    r: PairEstimate,
)
    requires
        is_pair(target, draft, ctx, gpu_total, KvType::F16, r),
        0 < target.n_layers <= u32::MAX,
        0 < draft.n_layers <= u32::MAX,
        ctx <= u32::MAX,
        draft.n_layers * ctx * draft.n_head_kv * (draft.head_dim_k + draft.head_dim_v) * 32
            <= u64::MAX,
        target.n_layers * ctx * target.n_head_kv * (target.head_dim_k + target.head_dim_v) * 32
            <= u64::MAX,
    ensures
        r.ctx_size == ctx,
        r.target_layers_total == target.n_layers,
        r.draft_layers_total == draft.n_layers,
        r.budget_bytes == budget(gpu_total),
        r.est_draft_bytes == draft.file_size + 400 * 1024 * 1024 + 2 * (draft.n_layers * (ctx
            * draft.n_head_kv * (draft.head_dim_k + draft.head_dim_v))),
        r.draft_layers_on_gpu == (if r.est_draft_bytes <= r.budget_bytes {
            draft.n_layers as int
        } else {
            0
        }),
        r.target_layers_on_gpu > 0 ==> r.est_target_bytes == target.file_size
            * r.target_layers_on_gpu / (target.n_layers as int) + 400 * 1024 * 1024 + 2 * (
        r.target_layers_on_gpu * (ctx * target.n_head_kv * (target.head_dim_k + target.head_dim_v))),
        r.target_layers_on_gpu == 0 ==> r.est_target_bytes == 0,
{
    let room = budget(gpu_total);
    let dn = draft.n_layers as nat;
    lemma_cache_by_layer(draft, ctx, dn, dn);
    law_weights_are_the_share_of_the_file(draft, 0);
    if draft_cost(draft, ctx, KvType::F16) <= room {
        lemma_most_layers(
            target,
            ctx,
            (room - draft_cost(draft, ctx, KvType::F16)) as nat,
            KvType::F16,
        );
    }
    lemma_cache_by_layer(target, ctx, r.target_layers_on_gpu as nat, target.n_layers as nat);
}

/// How many layers a pair leaves the target. Beside the draft no more fit; those
/// that are said to be evicted would fit without it, and no more than those.
pub proof fn law_pair_counts_the_evicted_layers(
    target: ModelShape,
    draft: ModelShape,
    ctx: nat,
    gpu_total: nat,
    kv: KvType,
    r: PairEstimate,
    more: nat,
)
    requires
        is_pair(target, draft, ctx, gpu_total, kv, r),
        target.n_layers <= u32::MAX,
        more <= target.n_layers,
    ensures
        ({
            let alone = r.target_layers_on_gpu + r.target_layers_evicted;
            &&& r.target_layers_on_gpu < more && r.est_draft_bytes <= r.budget_bytes ==> cost(
                target,
                ctx,
                more,
                kv,
            ) + r.est_draft_bytes > r.budget_bytes
            &&& alone < more ==> cost(target, ctx, more, kv) > r.budget_bytes
            &&& 0 < more <= alone ==> cost(target, ctx, more, kv) <= r.budget_bytes
            &&& r.verdict is Fits <==> r.target_layers_on_gpu > 0 && r.target_layers_evicted == 0
            &&& r.verdict is CostsTargetLayers <==> r.target_layers_on_gpu > 0
                && r.target_layers_evicted > 0
        }),
{
    let room = budget(gpu_total);
    lemma_most_layers(target, ctx, room, kv);
    let alone = most_layers(target, ctx, room, kv);
    if draft_cost(draft, ctx, kv) <= room {
        let rest = (room - draft_cost(draft, ctx, kv)) as nat;
        lemma_most_layers(target, ctx, rest, kv);
        law_layers_follow_the_room(target, ctx, rest, kv, ctx, room, kv);
        if r.target_layers_on_gpu < more {
            assert(cost(target, ctx, more, kv) > rest);
        }
    }
    if alone < more {
        assert(cost(target, ctx, more, kv) > room);
    }
    if 0 < more <= alone {
        lemma_cost(target, ctx, ctx, more, alone, kv, kv);
    }
}

/// What the notes of a pair say: why it does not fit, what it costs, or that the
/// target was partial before; nothing where both models are on the GPU as a whole.
pub proof fn law_pair_notes_name_the_cost(
    target: ModelShape,
    draft: ModelShape,
    ctx: nat,
    gpu_total: nat,
    kv: KvType,
    r: PairEstimate,
)
    requires
        is_pair(target, draft, ctx, gpu_total, kv, r),
        target.n_layers <= u32::MAX,
    ensures
        r.est_draft_bytes > r.budget_bytes ==> texts(r.notes@) == seq![
            "the draft model alone does not fit in VRAM"@,
        ],
        r.est_draft_bytes <= r.budget_bytes && r.verdict is TooBig ==> texts(r.notes@) == seq![
            "no room left for the target model once the draft is loaded"@,
        ],
        r.verdict is CostsTargetLayers ==> texts(r.notes@) == seq![
            "speculating costs "@ + decimal(r.target_layers_evicted as nat)
                + " target layer(s): "@ + decimal(
                (r.target_layers_on_gpu + r.target_layers_evicted) as nat,
            ) + " fit alone, "@ + decimal(r.target_layers_on_gpu as nat) + " with the draft"@,
        ],
        r.verdict is Fits && r.target_layers_on_gpu < target.n_layers ==> texts(r.notes@) == seq![
            "the draft is free here, but the target was already partial: "@ + decimal(
                r.target_layers_on_gpu as nat,
            ) + "/"@ + decimal(target.n_layers as nat) + " layers on GPU"@,
        ],
        r.verdict is Fits && r.target_layers_on_gpu == target.n_layers ==> r.notes@.len() == 0,
{
    let room = budget(gpu_total);
    lemma_most_layers(target, ctx, room, kv);
    if draft_cost(draft, ctx, kv) <= room {
        let rest = (room - draft_cost(draft, ctx, kv)) as nat;
        lemma_most_layers(target, ctx, rest, kv);
        law_layers_follow_the_room(target, ctx, rest, kv, ctx, room, kv);
    }
    assert(texts(r.notes@).len() == r.notes@.len());
}

/// A cache type is named by its spelling, upper or lower case and between blanks;
/// every other spelling, and none, is f16.
pub proof fn law_cache_types_are_named(s: Seq<char>)
    ensures
        lower(trim(s)) == "q8_0"@ <==> kv_named(Some(s)) is Q8_0,
        lower(trim(s)) == "q4_0"@ <==> kv_named(Some(s)) is Q4_0,
        kv_named(None) is F16,
{
    reveal_strlit("q8_0");
    reveal_strlit("q4_0");
    assert("q8_0"@[1] == '8' && "q4_0"@[1] == '4');
}

/// What layers take on the GPU: their weights, their cache and 400 MiB.
pub proof fn law_layers_take_weights_cache_and_overhead(
    shape: ModelShape,
    ctx: nat,
    layers: nat,
    kv: KvType,
)
    ensures
        cost(shape, ctx, layers, kv) == weights(shape, layers) + kv_cost(shape, ctx, layers, kv)
            + 400 * 1024 * 1024,
{
}

/// A text does not begin with another that differs from it somewhere, or is longer.
proof fn lemma_not_begins(s: Seq<char>, pat: Seq<char>, i: int)
    requires
        0 <= i < pat.len(),
        i >= s.len() || s[i] != pat[i],
    ensures
        !begins(s, pat),
{
    if begins(s, pat) {
        assert(s.subrange(0, pat.len() as int)[i] == s[i]);
    }
}

/// A label without blanks stays as it is.
proof fn lemma_no_blanks(s: Seq<char>)
    requires
        forall|i: int| 0 <= i < s.len() ==> #[trigger] s[i] != ' ',
    ensures
        without_blanks(s) == s,
    decreases s.len(),
{
    if s.len() > 0 {
        assert(s.last() == s[s.len() - 1]);
        assert forall|i: int| 0 <= i < s.drop_last().len() implies #[trigger] s.drop_last()[i]
            != ' ' by {
            assert(s.drop_last()[i] == s[i]);
        }
        lemma_no_blanks(s.drop_last());
        assert(s.drop_last().push(s.last()) =~= s);
    }
}

/// A label without dashes is no mixed one.
proof fn lemma_no_dash(s: Seq<char>)
    requires
        forall|i: int| 0 <= i < s.len() ==> #[trigger] s[i] != '-',
    ensures
        short_form(s) is None,
{
    reveal_strlit("-SMALL");
    reveal_strlit("-MEDIUM");
    reveal_strlit("-LARGE");
    if ends(s, "-SMALL"@) {
        assert(s.subrange(s.len() - 6, s.len() as int)[0] == s[s.len() - 6]);
    }
    if ends(s, "-MEDIUM"@) {
        assert(s.subrange(s.len() - 7, s.len() as int)[0] == s[s.len() - 7]);
    }
    if ends(s, "-LARGE"@) {
        assert(s.subrange(s.len() - 6, s.len() as int)[0] == s[s.len() - 6]);
    }
}

/// A label of a single word: no blank and no dash in it.
pub open spec fn is_one_word(label: Seq<char>) -> bool {
    forall|i: int| 0 <= i < label.len() ==> #[trigger] label[i] != ' ' && label[i] != '-'
}

/// The bits per weight of the ladder's levels: a label of one word, upper or lower
/// case, that begins with the name of a level has that level's bits: 16, 8.5, 6.59,
/// 5.69, 4.85, 4.25, 3.91, 3.30 and 2.63.
pub proof fn law_ladder_levels_have_their_bits(label: Seq<char>)
    requires
        is_one_word(upper(label)),
    ensures
        begins(upper(label), "F16"@) ==> level_of(label) == Some(0x4030_0000_0000_0000u64),
        begins(upper(label), "Q8_0"@) ==> level_of(label) == Some(0x4021_0000_0000_0000u64),
        begins(upper(label), "Q6_K"@) ==> level_of(label) == Some(0x401a_5c28_f5c2_8f5cu64),
        begins(upper(label), "Q5_K_M"@) ==> level_of(label) == Some(0x4016_c28f_5c28_f5c3u64),
        begins(upper(label), "Q4_K_M"@) ==> level_of(label) == Some(0x4013_6666_6666_6666u64),
        begins(upper(label), "IQ4_XS"@) ==> level_of(label) == Some(0x4011_0000_0000_0000u64),
        begins(upper(label), "Q3_K_M"@) ==> level_of(label) == Some(0x400f_47ae_147a_e148u64),
        begins(upper(label), "IQ3_XS"@) ==> level_of(label) == Some(0x400a_6666_6666_6666u64),
        begins(upper(label), "Q2_K"@) ==> level_of(label) == Some(0x4005_0a3d_70a3_d70au64),
{
    let up = upper(label);
    lemma_no_blanks(up);
    lemma_no_dash(up);
    reveal_with_fuel(ladder_level, 10);
    reveal_strlit("F16");
    reveal_strlit("Q8_0");
    reveal_strlit("Q6_K");
    reveal_strlit("Q5_K_M");
    reveal_strlit("Q4_K_M");
    reveal_strlit("IQ4_XS");
    reveal_strlit("Q3_K_M");
    reveal_strlit("IQ3_XS");
    reveal_strlit("Q2_K");
    reveal_strlit("F32");
    reveal_strlit("BF16");
    reveal_strlit("Q4_K_S");
    reveal_strlit("Q5_K_S");
    reveal_strlit("Q5_0");
    reveal_strlit("Q4_0");
    reveal_strlit("Q3_K_S");
    reveal_strlit("Q3_K_L");
    if begins(up, "F16"@) {
        assert(up.subrange(0, 3) == "F16"@);
        assert(up[0] == up.subrange(0, 3)[0]);
        assert(up[1] == up.subrange(0, 3)[1]);
        assert(up[2] == up.subrange(0, 3)[2]);
        assert(quant_ladder()[0] == ("F16"@, 0x4030_0000_0000_0000u64));
        assert(names_row(up, 0));
    }
    if begins(up, "Q8_0"@) {
        assert(up.subrange(0, 4) == "Q8_0"@);
        assert(up[0] == up.subrange(0, 4)[0]);
        assert(up[1] == up.subrange(0, 4)[1]);
        assert(up[2] == up.subrange(0, 4)[2]);
        assert(up[3] == up.subrange(0, 4)[3]);
        lemma_not_begins(up, "F16"@, 0);
        assert(quant_ladder()[1] == ("Q8_0"@, 0x4021_0000_0000_0000u64));
        assert(names_row(up, 1));
    }
    if begins(up, "Q6_K"@) {
        assert(up.subrange(0, 4) == "Q6_K"@);
        assert(up[0] == up.subrange(0, 4)[0]);
        assert(up[1] == up.subrange(0, 4)[1]);
        assert(up[2] == up.subrange(0, 4)[2]);
        assert(up[3] == up.subrange(0, 4)[3]);
        lemma_not_begins(up, "F16"@, 0);
        lemma_not_begins(up, "Q8_0"@, 1);
        assert(quant_ladder()[2] == ("Q6_K"@, 0x401a_5c28_f5c2_8f5cu64));
        assert(names_row(up, 2));
    }
    if begins(up, "Q5_K_M"@) {
        assert(up.subrange(0, 6) == "Q5_K_M"@);
        assert(up[0] == up.subrange(0, 6)[0]);
        assert(up[1] == up.subrange(0, 6)[1]);
        assert(up[2] == up.subrange(0, 6)[2]);
        assert(up[3] == up.subrange(0, 6)[3]);
        assert(up[4] == up.subrange(0, 6)[4]);
        assert(up[5] == up.subrange(0, 6)[5]);
        lemma_not_begins(up, "F16"@, 0);
        lemma_not_begins(up, "Q8_0"@, 1);
        lemma_not_begins(up, "Q6_K"@, 1);
        assert(quant_ladder()[3] == ("Q5_K_M"@, 0x4016_c28f_5c28_f5c3u64));
        assert(names_row(up, 3));
    }
    if begins(up, "Q4_K_M"@) {
        assert(up.subrange(0, 6) == "Q4_K_M"@);
        assert(up[0] == up.subrange(0, 6)[0]);
        assert(up[1] == up.subrange(0, 6)[1]);
        assert(up[2] == up.subrange(0, 6)[2]);
        assert(up[3] == up.subrange(0, 6)[3]);
        assert(up[4] == up.subrange(0, 6)[4]);
        assert(up[5] == up.subrange(0, 6)[5]);
        lemma_not_begins(up, "F16"@, 0);
        lemma_not_begins(up, "Q8_0"@, 1);
        lemma_not_begins(up, "Q6_K"@, 1);
        lemma_not_begins(up, "Q5_K_M"@, 1);
        assert(quant_ladder()[4] == ("Q4_K_M"@, 0x4013_6666_6666_6666u64));
        assert(names_row(up, 4));
    }
    if begins(up, "IQ4_XS"@) {
        assert(up.subrange(0, 6) == "IQ4_XS"@);
        assert(up[0] == up.subrange(0, 6)[0]);
        assert(up[1] == up.subrange(0, 6)[1]);
        assert(up[2] == up.subrange(0, 6)[2]);
        assert(up[3] == up.subrange(0, 6)[3]);
        assert(up[4] == up.subrange(0, 6)[4]);
        assert(up[5] == up.subrange(0, 6)[5]);
        lemma_not_begins(up, "F16"@, 0);
        lemma_not_begins(up, "Q8_0"@, 0);
        lemma_not_begins(up, "Q6_K"@, 0);
        lemma_not_begins(up, "Q5_K_M"@, 0);
        lemma_not_begins(up, "Q4_K_M"@, 0);
        assert(quant_ladder()[5] == ("IQ4_XS"@, 0x4011_0000_0000_0000u64));
        assert(names_row(up, 5));
    }
    if begins(up, "Q3_K_M"@) {
        assert(up.subrange(0, 6) == "Q3_K_M"@);
        assert(up[0] == up.subrange(0, 6)[0]);
        assert(up[1] == up.subrange(0, 6)[1]);
        assert(up[2] == up.subrange(0, 6)[2]);
        assert(up[3] == up.subrange(0, 6)[3]);
        assert(up[4] == up.subrange(0, 6)[4]);
        assert(up[5] == up.subrange(0, 6)[5]);
        lemma_not_begins(up, "F16"@, 0);
        lemma_not_begins(up, "Q8_0"@, 1);
        lemma_not_begins(up, "Q6_K"@, 1);
        lemma_not_begins(up, "Q5_K_M"@, 1);
        lemma_not_begins(up, "Q4_K_M"@, 1);
        lemma_not_begins(up, "IQ4_XS"@, 0);
        assert(quant_ladder()[6] == ("Q3_K_M"@, 0x400f_47ae_147a_e148u64));
        assert(names_row(up, 6));
    }
    if begins(up, "IQ3_XS"@) {
        assert(up.subrange(0, 6) == "IQ3_XS"@);
        assert(up[0] == up.subrange(0, 6)[0]);
        assert(up[1] == up.subrange(0, 6)[1]);
        assert(up[2] == up.subrange(0, 6)[2]);
        assert(up[3] == up.subrange(0, 6)[3]);
        assert(up[4] == up.subrange(0, 6)[4]);
        assert(up[5] == up.subrange(0, 6)[5]);
        lemma_not_begins(up, "F16"@, 0);
        lemma_not_begins(up, "Q8_0"@, 0);
        lemma_not_begins(up, "Q6_K"@, 0);
        lemma_not_begins(up, "Q5_K_M"@, 0);
        lemma_not_begins(up, "Q4_K_M"@, 0);
        lemma_not_begins(up, "IQ4_XS"@, 2);
        lemma_not_begins(up, "Q3_K_M"@, 0);
        assert(quant_ladder()[7] == ("IQ3_XS"@, 0x400a_6666_6666_6666u64));
        assert(names_row(up, 7));
    }
    if begins(up, "Q2_K"@) {
        assert(up.subrange(0, 4) == "Q2_K"@);
        assert(up[0] == up.subrange(0, 4)[0]);
        assert(up[1] == up.subrange(0, 4)[1]);
        assert(up[2] == up.subrange(0, 4)[2]);
        assert(up[3] == up.subrange(0, 4)[3]);
        lemma_not_begins(up, "F16"@, 0);
        lemma_not_begins(up, "Q8_0"@, 1);
        lemma_not_begins(up, "Q6_K"@, 1);
        lemma_not_begins(up, "Q5_K_M"@, 1);
        lemma_not_begins(up, "Q4_K_M"@, 1);
        lemma_not_begins(up, "IQ4_XS"@, 0);
        lemma_not_begins(up, "Q3_K_M"@, 1);
        lemma_not_begins(up, "IQ3_XS"@, 0);
        assert(quant_ladder()[8] == ("Q2_K"@, 0x4005_0a3d_70a3_d70au64));
        assert(names_row(up, 8));
    }
}

/// The levels outside the ladder, by their whole label, upper or lower case: 32, 16,
/// 4.58, 5.54, 5.54, 4.55, 3.50 and 4.27 bits.
pub proof fn law_other_levels_have_their_bits(label: Seq<char>)
    ensures
        upper(label) == "F32"@ ==> level_of(label) == Some(0x4040_0000_0000_0000u64),
        upper(label) == "BF16"@ ==> level_of(label) == Some(0x4030_0000_0000_0000u64),
        upper(label) == "Q4_K_S"@ ==> level_of(label) == Some(0x4012_51eb_851e_b852u64),
        upper(label) == "Q5_K_S"@ ==> level_of(label) == Some(0x4016_28f5_c28f_5c29u64),
        upper(label) == "Q5_0"@ ==> level_of(label) == Some(0x4016_28f5_c28f_5c29u64),
        upper(label) == "Q4_0"@ ==> level_of(label) == Some(0x4012_3333_3333_3333u64),
        upper(label) == "Q3_K_S"@ ==> level_of(label) == Some(0x400c_0000_0000_0000u64),
        upper(label) == "Q3_K_L"@ ==> level_of(label) == Some(0x4011_147a_e147_ae14u64),
{
    let up = upper(label);
    reveal_with_fuel(ladder_level, 10);
    reveal_strlit("F16");
    reveal_strlit("Q8_0");
    reveal_strlit("Q6_K");
    reveal_strlit("Q5_K_M");
    reveal_strlit("Q4_K_M");
    reveal_strlit("IQ4_XS");
    reveal_strlit("Q3_K_M");
    reveal_strlit("IQ3_XS");
    reveal_strlit("Q2_K");
    reveal_strlit("F32");
    reveal_strlit("BF16");
    reveal_strlit("Q4_K_S");
    reveal_strlit("Q5_K_S");
    reveal_strlit("Q5_0");
    reveal_strlit("Q4_0");
    reveal_strlit("Q3_K_S");
    reveal_strlit("Q3_K_L");
    if up == "F32"@ {
        lemma_no_blanks(up);
        lemma_no_dash(up);
        lemma_not_begins(up, "F16"@, 1);
        lemma_not_begins(up, "Q8_0"@, 0);
        lemma_not_begins(up, "Q6_K"@, 0);
        lemma_not_begins(up, "Q5_K_M"@, 0);
        lemma_not_begins(up, "Q4_K_M"@, 0);
        lemma_not_begins(up, "IQ4_XS"@, 0);
        lemma_not_begins(up, "Q3_K_M"@, 0);
        lemma_not_begins(up, "IQ3_XS"@, 0);
        lemma_not_begins(up, "Q2_K"@, 0);
    }
    if up == "BF16"@ {
        lemma_no_blanks(up);
        lemma_no_dash(up);
        lemma_not_begins(up, "F16"@, 0);
        lemma_not_begins(up, "Q8_0"@, 0);
        lemma_not_begins(up, "Q6_K"@, 0);
        lemma_not_begins(up, "Q5_K_M"@, 0);
        lemma_not_begins(up, "Q4_K_M"@, 0);
        lemma_not_begins(up, "IQ4_XS"@, 0);
        lemma_not_begins(up, "Q3_K_M"@, 0);
        lemma_not_begins(up, "IQ3_XS"@, 0);
        lemma_not_begins(up, "Q2_K"@, 0);
        assert(up.len() != "F32"@.len());
    }
    if up == "Q4_K_S"@ {
        lemma_no_blanks(up);
        lemma_no_dash(up);
        lemma_not_begins(up, "F16"@, 0);
        lemma_not_begins(up, "Q8_0"@, 1);
        lemma_not_begins(up, "Q6_K"@, 1);
        lemma_not_begins(up, "Q5_K_M"@, 1);
        lemma_not_begins(up, "Q4_K_M"@, 5);
        lemma_not_begins(up, "IQ4_XS"@, 0);
        lemma_not_begins(up, "Q3_K_M"@, 1);
        lemma_not_begins(up, "IQ3_XS"@, 0);
        lemma_not_begins(up, "Q2_K"@, 1);
        assert(up.len() != "F32"@.len());
        assert(up.len() != "BF16"@.len());
    }
    if up == "Q5_K_S"@ {
        lemma_no_blanks(up);
        lemma_no_dash(up);
        lemma_not_begins(up, "F16"@, 0);
        lemma_not_begins(up, "Q8_0"@, 1);
        lemma_not_begins(up, "Q6_K"@, 1);
        lemma_not_begins(up, "Q5_K_M"@, 5);
        lemma_not_begins(up, "Q4_K_M"@, 1);
        lemma_not_begins(up, "IQ4_XS"@, 0);
        lemma_not_begins(up, "Q3_K_M"@, 1);
        lemma_not_begins(up, "IQ3_XS"@, 0);
        lemma_not_begins(up, "Q2_K"@, 1);
        assert(up.len() != "F32"@.len());
        assert(up.len() != "BF16"@.len());
        assert(up[1] != "Q4_K_S"@[1]);
    }
    if up == "Q5_0"@ {
        lemma_no_blanks(up);
        lemma_no_dash(up);
        lemma_not_begins(up, "F16"@, 0);
        lemma_not_begins(up, "Q8_0"@, 1);
        lemma_not_begins(up, "Q6_K"@, 1);
        lemma_not_begins(up, "Q5_K_M"@, 3);
        lemma_not_begins(up, "Q4_K_M"@, 1);
        lemma_not_begins(up, "IQ4_XS"@, 0);
        lemma_not_begins(up, "Q3_K_M"@, 1);
        lemma_not_begins(up, "IQ3_XS"@, 0);
        lemma_not_begins(up, "Q2_K"@, 1);
        assert(up.len() != "F32"@.len());
        assert(up[0] != "BF16"@[0]);
        assert(up.len() != "Q4_K_S"@.len());
        assert(up.len() != "Q5_K_S"@.len());
    }
    if up == "Q4_0"@ {
        lemma_no_blanks(up);
        lemma_no_dash(up);
        lemma_not_begins(up, "F16"@, 0);
        lemma_not_begins(up, "Q8_0"@, 1);
        lemma_not_begins(up, "Q6_K"@, 1);
        lemma_not_begins(up, "Q5_K_M"@, 1);
        lemma_not_begins(up, "Q4_K_M"@, 3);
        lemma_not_begins(up, "IQ4_XS"@, 0);
        lemma_not_begins(up, "Q3_K_M"@, 1);
        lemma_not_begins(up, "IQ3_XS"@, 0);
        lemma_not_begins(up, "Q2_K"@, 1);
        assert(up.len() != "F32"@.len());
        assert(up[0] != "BF16"@[0]);
        assert(up.len() != "Q4_K_S"@.len());
        assert(up.len() != "Q5_K_S"@.len());
        assert(up[1] != "Q5_0"@[1]);
    }
    if up == "Q3_K_S"@ {
        lemma_no_blanks(up);
        lemma_no_dash(up);
        lemma_not_begins(up, "F16"@, 0);
        lemma_not_begins(up, "Q8_0"@, 1);
        lemma_not_begins(up, "Q6_K"@, 1);
        lemma_not_begins(up, "Q5_K_M"@, 1);
        lemma_not_begins(up, "Q4_K_M"@, 1);
        lemma_not_begins(up, "IQ4_XS"@, 0);
        lemma_not_begins(up, "Q3_K_M"@, 5);
        lemma_not_begins(up, "IQ3_XS"@, 0);
        lemma_not_begins(up, "Q2_K"@, 1);
        assert(up.len() != "F32"@.len());
        assert(up.len() != "BF16"@.len());
        assert(up[1] != "Q4_K_S"@[1]);
        assert(up[1] != "Q5_K_S"@[1]);
        assert(up.len() != "Q5_0"@.len());
        assert(up.len() != "Q4_0"@.len());
    }
    if up == "Q3_K_L"@ {
        lemma_no_blanks(up);
        lemma_no_dash(up);
        lemma_not_begins(up, "F16"@, 0);
        lemma_not_begins(up, "Q8_0"@, 1);
        lemma_not_begins(up, "Q6_K"@, 1);
        lemma_not_begins(up, "Q5_K_M"@, 1);
        lemma_not_begins(up, "Q4_K_M"@, 1);
        lemma_not_begins(up, "IQ4_XS"@, 0);
        lemma_not_begins(up, "Q3_K_M"@, 5);
        lemma_not_begins(up, "IQ3_XS"@, 0);
        lemma_not_begins(up, "Q2_K"@, 1);
        assert(up.len() != "F32"@.len());
        assert(up.len() != "BF16"@.len());
        assert(up[1] != "Q4_K_S"@[1]);
        assert(up[1] != "Q5_K_S"@[1]);
        assert(up.len() != "Q5_0"@.len());
        assert(up.len() != "Q4_0"@.len());
        assert(up[5] != "Q3_K_S"@[5]);
    }
}

/// What the levels weigh: the parameters at the level's bits, with a slack of five
/// per cent, in bytes.
pub proof fn law_levels_weigh_their_bits(
    r: QuantAdvice,
    shape: ModelShape,
    label: Option<Seq<char>>,
    params: u64,
    gpu_total: nat,
    kv: KvType,
)
    requires
        params > 0,
        is_advice(Some(r), shape, label, Some(params), gpu_total, kv),
    ensures
        r.options@[0].est_weights_bytes == truncated(
            times(
                over(
                    times(of_whole(params as nat), Binary64 { bits: 0x4030_0000_0000_0000 }),
                    Binary64 { bits: 0x4020_0000_0000_0000 },
                ),
                Binary64 { bits: 0x3ff0_cccc_cccc_cccd },
            ),
        ),
        r.options@[1].est_weights_bytes == truncated(
            times(
                over(
                    times(of_whole(params as nat), Binary64 { bits: 0x4021_0000_0000_0000 }),
                    Binary64 { bits: 0x4020_0000_0000_0000 },
                ),
                Binary64 { bits: 0x3ff0_cccc_cccc_cccd },
            ),
        ),
        r.options@[2].est_weights_bytes == truncated(
            times(
                over(
                    times(of_whole(params as nat), Binary64 { bits: 0x401a_5c28_f5c2_8f5c }),
                    Binary64 { bits: 0x4020_0000_0000_0000 },
                ),
                Binary64 { bits: 0x3ff0_cccc_cccc_cccd },
            ),
        ),
        r.options@[3].est_weights_bytes == truncated(
            times(
                over(
                    times(of_whole(params as nat), Binary64 { bits: 0x4016_c28f_5c28_f5c3 }),
                    Binary64 { bits: 0x4020_0000_0000_0000 },
                ),
                Binary64 { bits: 0x3ff0_cccc_cccc_cccd },
            ),
        ),
        r.options@[4].est_weights_bytes == truncated(
            times(
                over(
                    times(of_whole(params as nat), Binary64 { bits: 0x4013_6666_6666_6666 }),
                    Binary64 { bits: 0x4020_0000_0000_0000 },
                ),
                Binary64 { bits: 0x3ff0_cccc_cccc_cccd },
            ),
        ),
        r.options@[5].est_weights_bytes == truncated(
            times(
                over(
                    times(of_whole(params as nat), Binary64 { bits: 0x4011_0000_0000_0000 }),
                    Binary64 { bits: 0x4020_0000_0000_0000 },
                ),
                Binary64 { bits: 0x3ff0_cccc_cccc_cccd },
            ),
        ),
        r.options@[6].est_weights_bytes == truncated(
            times(
                over(
                    times(of_whole(params as nat), Binary64 { bits: 0x400f_47ae_147a_e148 }),
                    Binary64 { bits: 0x4020_0000_0000_0000 },
                ),
                Binary64 { bits: 0x3ff0_cccc_cccc_cccd },
            ),
        ),
        r.options@[7].est_weights_bytes == truncated(
            times(
                over(
                    times(of_whole(params as nat), Binary64 { bits: 0x400a_6666_6666_6666 }),
                    Binary64 { bits: 0x4020_0000_0000_0000 },
                ),
                Binary64 { bits: 0x3ff0_cccc_cccc_cccd },
            ),
        ),
        r.options@[8].est_weights_bytes == truncated(
            times(
                over(
                    times(of_whole(params as nat), Binary64 { bits: 0x4005_0a3d_70a3_d70a }),
                    Binary64 { bits: 0x4020_0000_0000_0000 },
                ),
                Binary64 { bits: 0x3ff0_cccc_cccc_cccd },
            ),
        ),
{
    let room = budget(gpu_total);
    let p = of_whole(params as nat);
    assert(is_quant_option(r.options@[0], 0, shape, p, label, room, kv));
    assert(is_quant_option(r.options@[1], 1, shape, p, label, room, kv));
    assert(is_quant_option(r.options@[2], 2, shape, p, label, room, kv));
    assert(is_quant_option(r.options@[3], 3, shape, p, label, room, kv));
    assert(is_quant_option(r.options@[4], 4, shape, p, label, room, kv));
    assert(is_quant_option(r.options@[5], 5, shape, p, label, room, kv));
    assert(is_quant_option(r.options@[6], 6, shape, p, label, room, kv));
    assert(is_quant_option(r.options@[7], 7, shape, p, label, room, kv));
    assert(is_quant_option(r.options@[8], 8, shape, p, label, room, kv));
}

/// A size that is written out is its letter.
pub proof fn law_sizes_are_abbreviated(front: Seq<char>)
    ensures
        short_form(front + "-SMALL"@) == Some(front + "_S"@),
        short_form(front + "-MEDIUM"@) == Some(front + "_M"@),
        short_form(front + "-LARGE"@) == Some(front + "_L"@),
{
    reveal_strlit("-SMALL");
    reveal_strlit("-MEDIUM");
    reveal_strlit("-LARGE");
    let n = front.len() as int;
    let a = front + "-SMALL"@;
    let b = front + "-MEDIUM"@;
    let c = front + "-LARGE"@;
    assert(a.subrange(n, n + 6) =~= "-SMALL"@);
    assert(b.subrange(n, n + 7) =~= "-MEDIUM"@);
    assert(c.subrange(n, n + 6) =~= "-LARGE"@);
    assert(b.last() == 'M' && c.last() == 'E');
    if ends(b, "-SMALL"@) {
        assert(b.subrange(b.len() - 6, b.len() as int)[5] == 'L');
    }
    if ends(c, "-SMALL"@) {
        assert(c.subrange(c.len() - 6, c.len() as int)[5] == 'L');
    }
    if ends(c, "-MEDIUM"@) {
        assert(c.subrange(c.len() - 7, c.len() as int)[6] == 'M');
    }
    assert(a.take(n) =~= front);
    assert(b.take(n) =~= front);
    assert(c.take(n) =~= front);
}

/// A model that does not fit whole is given at least one token of context, even where
/// its header states none.
pub proof fn law_partial_offload_has_a_context(
    shape: ModelShape,
    gpu_total: nat,
    gpu_free: nat,
    kv: KvType,
    notes: Seq<Seq<char>>,
    r: VramEstimate,
)
    requires
        is_estimate(shape, gpu_total, gpu_free, kv, notes, r),
        !r.full_offload,
    ensures
        r.ctx_size >= 1,
        shape.native_ctx == 0 ==> r.ctx_size == 1 && r.n_gpu_layers == 0 && !r.fits,
{
}

} // verus!
