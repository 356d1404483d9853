//! IEEE 754 binary64 numbers, computed with integers.
//!
//! A finite binary64 number is a whole multiple of 2^-1074, so its magnitude is
//! seen as a natural number: how many times that smallest step it holds. Every
//! operation is stated as the exact result, rounded to the nearest number that
//! has a binary64 encoding, ties to the even one.

use vstd::arithmetic::div_mod::{
    lemma_div_is_ordered, lemma_fundamental_div_mod, lemma_fundamental_div_mod_converse,
};

use vstd::arithmetic::power2::{
    lemma2_to64, lemma2_to64_rest, lemma_pow2_adds, lemma_pow2_pos, lemma_pow2_strictly_increases,
    lemma_pow2_unfold, pow2,
};
use vstd::prelude::*;

verus! {

/// A binary64 number, held as its 64-bit encoding.
#[derive(Debug, Clone, Copy, PartialEq, Eq, Structural)]
pub struct Binary64 {
    pub bits: u64,
}

/// 2^52, the weight of the leading bit of a normal significand.
pub const HIDDEN: u64 = 0x10_0000_0000_0000;

/// 2^53, the first integer too wide for a significand.
pub const WIDE: u64 = 0x20_0000_0000_0000;

/// The encoding of positive infinity.
pub const INFINITY: u64 = 0x7ff0_0000_0000_0000;

/// The sign bit.
pub const SIGN: u64 = 0x8000_0000_0000_0000;

/// The encoding of 1.
pub const ONE: u64 = 0x3ff0_0000_0000_0000;

/// The encoding of the quiet NaN that operations produce.
pub const QUIET_NAN: u64 = 0x7ff8_0000_0000_0000;

// ---------------------------------------------------------------------------
// The model
// ---------------------------------------------------------------------------

/// The encoding without its sign bit.
pub open spec fn magnitude(x: Binary64) -> nat {
    (x.bits as nat) % (SIGN as nat)
}

/// The sign bit is set.
pub open spec fn negative(x: Binary64) -> bool {
    x.bits >= SIGN
}

/// Not a number.
pub open spec fn is_nan(x: Binary64) -> bool {
    magnitude(x) > INFINITY
}

/// An infinity.
pub open spec fn is_infinite(x: Binary64) -> bool {
    magnitude(x) == INFINITY
}

/// Neither infinite nor NaN.
pub open spec fn is_finite(x: Binary64) -> bool {
    magnitude(x) < INFINITY
}

/// How many steps of 2^-1074 a finite magnitude holds.
pub open spec fn steps(mag: nat) -> nat {
    let exponent = mag / (HIDDEN as nat);
    let fraction = mag % (HIDDEN as nat);
    if exponent == 0 {
        fraction
    } else {
        (HIDDEN as nat + fraction) * pow2((exponent - 1) as nat)
    }
}

/// The steps of the number 1.
pub open spec fn one() -> nat {
    pow2(1074)
}

/// `n / d` rounded to an integer, ties to even.
pub open spec fn round_even(n: nat, d: nat) -> nat {
    let q = n / d;
    let r = n % d;
    if 2 * r > d || (2 * r == d && q % 2 == 1) {
        q + 1
    } else {
        q
    }
}

/// How many bits `q` has beyond the 53 of a significand.
pub open spec fn excess(q: nat) -> nat
    decreases q,
{
    if q < WIDE {
        0
    } else {
        1 + excess(q / 2)
    }
}

/// The magnitude nearest to `n / d` steps, ties to even; infinity where that is
/// out of range.
pub open spec fn nearest(n: nat, d: nat) -> nat {
    let k = excess(n / d);
    capped(k * (HIDDEN as nat) + round_even(n, d * pow2(k)))
}

/// A magnitude, or infinity where it is out of range.
pub open spec fn capped(mag: nat) -> nat {
    if mag < INFINITY {
        mag
    } else {
        INFINITY as nat
    }
}

// ---------------------------------------------------------------------------
// Rounding
// ---------------------------------------------------------------------------

/// Quotient and remainder when both sides are scaled.
proof fn lemma_div_scale(n: nat, d: nat, c: nat)
    requires
        d > 0,
        c > 0,
    ensures
        (n * c) / (d * c) == n / d,
        (n * c) % (d * c) == (n % d) * c,
        d * c > 0,
{
    let q = (n / d) as int;
    let r = (n % d) as int;
    lemma_fundamental_div_mod(n as int, d as int);
    assert(n * c == q * (d * c) + r * c) by (nonlinear_arith)
        requires
            n == d * q + r,
    ;
    assert(0 <= r * c < d * c) by (nonlinear_arith)
        requires
            0 <= r < d,
            c > 0,
    ;
    lemma_fundamental_div_mod_converse((n * c) as int, (d * c) as int, q, r * c);
}

proof fn lemma_round_scale(n: nat, d: nat, c: nat)
    requires
        d > 0,
        c > 0,
    ensures
        round_even(n * c, d * c) == round_even(n, d),
{
    lemma_div_scale(n, d, c);
    let r = n % d;
    assert(2 * (r * c) > d * c <==> 2 * r > d) by (nonlinear_arith)
        requires
            c > 0,
    ;
    assert(2 * (r * c) == d * c <==> 2 * r == d) by (nonlinear_arith)
        requires
            c > 0,
    ;
}

proof fn lemma_nearest_scale(n: nat, d: nat, c: nat)
    requires
        d > 0,
        c > 0,
    ensures
        nearest(n * c, d * c) == nearest(n, d),
{
    lemma_div_scale(n, d, c);
    let k = excess(n / d);
    lemma_pow2_pos(k);
    assert(d * c * pow2(k) == d * pow2(k) * c) by (nonlinear_arith);
    assert(d * pow2(k) > 0) by (nonlinear_arith)
        requires
            d > 0,
            pow2(k) > 0,
    ;
    lemma_round_scale(n, d * pow2(k), c);
}

/// Equal ratios round alike.
proof fn lemma_nearest_ratio(n1: nat, d1: nat, n2: nat, d2: nat)
    requires
        d1 > 0,
        d2 > 0,
        n1 * d2 == n2 * d1,
    ensures
        nearest(n1, d1) == nearest(n2, d2),
{
    lemma_nearest_scale(n1, d1, d2);
    lemma_nearest_scale(n2, d2, d1);
    assert(d1 * d2 == d2 * d1) by (nonlinear_arith);
}

proof fn lemma_excess(q: nat, k: nat)
    requires
        q < pow2(53 + k),
        k == 0 || q >= pow2(52 + k),
    ensures
        excess(q) == k,
    decreases k,
{
    lemma2_to64();
    lemma2_to64_rest();
    if k > 0 {
        lemma_pow2_unfold(53 + k);
        lemma_pow2_unfold(52 + k);
        if k > 1 {
            lemma_pow2_strictly_increases(53, 52 + k);
        }
        assert(53 + (k - 1) == 52 + k);
        lemma_excess(q / 2, (k - 1) as nat);
    }
}

/// The number of excess bits of `n / d`, read off its size.
proof fn lemma_excess_of(n: nat, d: nat, k: nat)
    requires
        d > 0,
        n < d * pow2(53 + k),
        k == 0 || n >= d * pow2(52 + k),
    ensures
        excess(n / d) == k,
{
    lemma_fundamental_div_mod(n as int, d as int);
    let q = n / d;
    assert(q < pow2(53 + k)) by (nonlinear_arith)
        requires
            n == d * q + n % d,
            n % d >= 0,
            n < d * pow2(53 + k),
            d > 0,
    ;
    if k > 0 {
        assert(q >= pow2(52 + k)) by (nonlinear_arith)
            requires
                n == d * q + n % d,
                n % d < d,
                n >= d * pow2(52 + k),
                d > 0,
        ;
    }
    lemma_excess(q, k);
}

/// The magnitude nearest to `p * 2^e` steps.
pub open spec fn nearest_shift(p: nat, e: int) -> nat {
    if e >= 0 {
        nearest(p * pow2(e as nat), 1)
    } else {
        nearest(p, pow2((-e) as nat))
    }
}

/// How many bits `p` has.
fn bit_length(p: u128) -> (n: u32)
    requires
        p > 0,
    ensures
        1 <= n <= 128,
        pow2((n - 1) as nat) <= p < pow2(n as nat),
{
    let mut n: u32 = 0;
    let mut q: u128 = p;
    proof {
        lemma2_to64();
        lemma2_to64_rest();
        lemma_pow2_adds(64, 64);
        assert(pow2(0) * p == p) by (nonlinear_arith)
            requires
                pow2(0) == 1,
        ;
    }
    while q > 0
        invariant
            n == 0 ==> q > 0,
            n <= 128,
            q * pow2(n as nat) <= p,
            p < (q + 1) * pow2(n as nat),
            n > 0 ==> pow2((n - 1) as nat) <= p,
            pow2(128) == 0x1_0000_0000_0000_0000 * 0x1_0000_0000_0000_0000,
        decreases q,
    {
        proof {
            let h = q / 2;
            let w = pow2(n as nat);
            lemma_pow2_pos(n as nat);
            lemma_pow2_unfold((n + 1) as nat);
            assert(h * (2 * w) <= p && p < (h + 1) * (2 * w)) by (nonlinear_arith)
                requires
                    q * w <= p,
                    p < (q + 1) * w,
                    h == q / 2,
                    w > 0,
            ;
            assert(w <= p) by (nonlinear_arith)
                requires
                    q * w <= p,
                    q > 0,
            ;
            if n == 128 {
                assert(false);
            }
        }
        q = q / 2;
        n = n + 1;
    }
    assert(p < pow2(n as nat)) by (nonlinear_arith)
        requires
            p < (q + 1) * pow2(n as nat),
            q == 0,
    ;
    n
}

/// `2^s`, computed.
fn power(s: u32) -> (w: u128)
    requires
        s < 128,
    ensures
        w as nat == pow2(s as nat),
{
    let mut w: u128 = 1;
    proof {
        lemma2_to64();
        lemma2_to64_rest();
        lemma_pow2_adds(64, 64);
    }
    for i in 0..s
        invariant
            s < 128,
            w as nat == pow2(i as nat),
            pow2(128) == 0x1_0000_0000_0000_0000 * 0x1_0000_0000_0000_0000,
    {
        proof {
            lemma_pow2_unfold((i + 1) as nat);
            lemma_pow2_strictly_increases((i + 1) as nat, 129);
            lemma_pow2_unfold(129);
            if i + 1 < 128 {
                lemma_pow2_strictly_increases((i + 1) as nat, 128);
            }
        }
        w = w * 2;
    }
    w
}

/// `round_even(p, 2^s)`, computed.
fn round_bits(p: u128, s: u32) -> (m: u128)
    requires
        s < 128,
    ensures
        m as nat == round_even(p as nat, pow2(s as nat)),
        m <= p / 2 + 1 || s == 0,
{
    proof {
        lemma2_to64();
        lemma_pow2_pos(s as nat);
    }
    if s == 0 {
        assert(round_even(p as nat, 1) == p) by {
            lemma_fundamental_div_mod(p as int, 1);
        }
        return p;
    }
    proof {
        lemma_pow2_unfold(s as nat);
        lemma_pow2_pos((s - 1) as nat);
    }
    let unit: u128 = power(s);
    let q: u128 = p / unit;
    let r: u128 = p % unit;
    proof {
        assert(q <= p / 2) by (nonlinear_arith)
            requires
                q == p / unit,
                unit >= 2,
        ;
    }
    let half: u128 = unit / 2;
    if r > half || (r == half && q % 2 == 1) {
        q + 1
    } else {
        q
    }
}

/// The significand of `p * 2^e` once `k` excess bits are rounded away.
spec fn significand(p: nat, e: int, k: nat) -> nat {
    if k <= e {
        p * pow2((e - k) as nat)
    } else {
        round_even(p, pow2((k - e) as nat))
    }
}

/// Rounding `p * 2^e`, from the number of bits of `p`.
proof fn lemma_nearest_shift(p: nat, e: int, b: nat, k: nat)
    requires
        b > 0,
        pow2((b - 1) as nat) <= p < pow2(b),
        k == (if b + e > 53 {
            b + e - 53
        } else {
            0
        }),
    ensures
        nearest_shift(p, e) == capped(k * (HIDDEN as nat) + significand(p, e, k)),
{
    lemma2_to64();
    lemma_pow2_pos(k);
    if e >= 0 {
        let c = pow2(e as nat);
        lemma_pow2_pos(e as nat);
        let n = p * c;
        lemma_pow2_adds(b, e as nat);
        assert(n < pow2(b + e as nat)) by (nonlinear_arith)
            requires
                p < pow2(b),
                c > 0,
                n == p * c,
                pow2(b + e as nat) == pow2(b) * c,
        ;
        if b + (e as nat) < 53 + k {
            lemma_pow2_strictly_increases(b + e as nat, 53 + k);
        }
        if k > 0 {
            lemma_pow2_adds((b - 1) as nat, e as nat);
            assert(n >= pow2(52 + k)) by (nonlinear_arith)
                requires
                    p >= pow2((b - 1) as nat),
                    c > 0,
                    n == p * c,
                    pow2(52 + k) == pow2((b - 1) as nat) * c,
            ;
        }
        assert(1 * pow2(53 + k) == pow2(53 + k));
        assert(1 * pow2(52 + k) == pow2(52 + k));
        lemma_excess_of(n, 1, k);
        assert(1 * pow2(k) == pow2(k));
        if k <= e {
            lemma_pow2_adds((e - k) as nat, k);
            let x = p * pow2((e - k) as nat);
            assert(n == x * pow2(k)) by (nonlinear_arith)
                requires
                    n == p * c,
                    c == pow2((e - k) as nat) * pow2(k),
                    x == p * pow2((e - k) as nat),
            ;
            lemma_round_scale(x, 1, pow2(k));
            lemma_fundamental_div_mod(x as int, 1);
        } else {
            lemma_pow2_adds((k - e) as nat, e as nat);
            lemma_pow2_pos((k - e) as nat);
            lemma_round_scale(p, pow2((k - e) as nat), c);
        }
    } else {
        let d = pow2((-e) as nat);
        lemma_pow2_pos((-e) as nat);
        lemma_pow2_adds((-e) as nat, 53 + k);
        lemma_pow2_adds((-e) as nat, 52 + k);
        lemma_pow2_adds((-e) as nat, k);
        if b < (-e) as nat + (53 + k) {
            lemma_pow2_strictly_increases(b, (-e) as nat + (53 + k));
        }
        lemma_excess_of(p, d, k);
    }
}

/// `nearest_shift`, computed.
fn round_to(p: u128, e: i64) -> (mag: u64)
    requires
        p < 0x8000_0000_0000_0000_0000_0000_0000_0000,
        -5000 <= e <= 5000,
    ensures
        mag as nat == nearest_shift(p as nat, e as int),
{
    proof {
        lemma2_to64();
        lemma2_to64_rest();
        lemma_pow2_adds(64, 63);
        lemma_pow2_adds(64, 64);
    }
    if p == 0 {
        proof {
            if e < 0 {
                lemma_pow2_pos((-e) as nat);
            } else {
                assert(0 * pow2(e as nat) == 0);
            }
            let d: nat = if e >= 0 {
                1
            } else {
                pow2((-e) as nat)
            };
            lemma_div_of_zero(d);
            assert(d * pow2(0) == d) by (nonlinear_arith)
                requires
                    pow2(0) == 1,
            ;
            assert(nearest(0, d) == 0);
        }
        return 0;
    }
    let b: i64 = bit_length(p) as i64;
    let k: i64 = if b + e > 53 {
        b + e - 53
    } else {
        0
    };
    proof {
        lemma_nearest_shift(p as nat, e as int, b as nat, k as nat);
    }
    let m: u128 = if k <= e {
        let s: i64 = e - k;
        proof {
            lemma_pow2_adds(b as nat, s as nat);
            lemma_pow2_pos(s as nat);
            assert(p * pow2(s as nat) < pow2((b + s) as nat)) by (nonlinear_arith)
                requires
                    p < pow2(b as nat),
                    pow2(s as nat) > 0,
                    pow2((b + s) as nat) == pow2(b as nat) * pow2(s as nat),
            ;
            if b + s < 53 {
                lemma_pow2_strictly_increases((b + s) as nat, 53);
            }
        }
        p * power(s as u32)
    } else if k - e >= 128 {
        proof {
            let d = pow2((k - e) as nat);
            if k - e > 128 {
                lemma_pow2_strictly_increases(128, (k - e) as nat);
            }
            lemma_fundamental_div_mod_converse(p as int, d as int, 0, p as int);
        }
        0
    } else {
        round_bits(p, (k - e) as u32)
    };
    let mag: u128 = (k as u128) * (HIDDEN as u128) + m;
    if mag < INFINITY as u128 {
        mag as u64
    } else {
        INFINITY
    }
}

proof fn lemma_div_of_zero(d: nat)
    requires
        d > 0,
    ensures
        0nat / d == 0,
        0nat % d == 0,
{
    lemma_fundamental_div_mod_converse(0, d as int, 0, 0);
}

/// The magnitude nearest to `n / d * 2^e` steps.
spec fn nearest_scaled(n: nat, d: nat, e: int) -> nat {
    if e >= 0 {
        nearest(n * pow2(e as nat), d)
    } else {
        nearest(n, d * pow2((-e) as nat))
    }
}

/// A quotient with one more bit that says whether anything was left over rounds
/// as the exact ratio does.
proof fn lemma_sticky_round(n: nat, d: nat, q: nat, r: nat, p: nat, s: nat)
    requires
        d > 0,
        n == q * d + r,
        r < d,
        p == 2 * q + (if r > 0 {
            1nat
        } else {
            0nat
        }),
        s > 0,
    ensures
        round_even(n, d * pow2(s)) == round_even(p, pow2(s + 1)),
{
    let w = pow2(s);
    let h = pow2((s - 1) as nat);
    lemma_pow2_pos(s);
    lemma_pow2_unfold(s);
    lemma_pow2_unfold(s + 1);
    lemma_pow2_pos((s - 1) as nat);
    let a = q / w;
    let b = q % w;
    lemma_fundamental_div_mod(q as int, w as int);
    assert(d * w > 0) by (nonlinear_arith)
        requires
            d > 0,
            w > 0,
    ;
    assert(n == a * (d * w) + (b * d + r)) by (nonlinear_arith)
        requires
            n == q * d + r,
            q == w * a + b,
    ;
    assert(b * d + r < d * w) by (nonlinear_arith)
        requires
            b < w,
            r < d,
            d > 0,
    ;
    lemma_fundamental_div_mod_converse(n as int, (d * w) as int, a as int, (b * d + r) as int);
    let t: nat = if r > 0 {
        1
    } else {
        0
    };
    assert(p == a * (2 * w) + (2 * b + t)) by (nonlinear_arith)
        requires
            p == 2 * q + t,
            q == w * a + b,
    ;
    lemma_fundamental_div_mod_converse(p as int, (2 * w) as int, a as int, (2 * b + t) as int);
    let rem = b * d + r;
    if b < h {
        assert(2 * rem < d * w) by (nonlinear_arith)
            requires
                rem == b * d + r,
                b < h,
                r < d,
                d > 0,
                w == 2 * h,
        ;
    } else if b > h {
        assert(2 * rem > d * w) by (nonlinear_arith)
            requires
                rem == b * d + r,
                b > h,
                d > 0,
                w == 2 * h,
        ;
    } else {
        assert(2 * rem == d * w + 2 * r) by (nonlinear_arith)
            requires
                rem == b * d + r,
                b == h,
                w == 2 * h,
        ;
    }
}

proof fn lemma_sticky(n: nat, d: nat, e: int, q: nat, r: nat, p: nat, b: nat)
    requires
        d > 0,
        n == q * d + r,
        r < d,
        p == 2 * q + (if r > 0 {
            1nat
        } else {
            0nat
        }),
        b >= 55,
        pow2((b - 1) as nat) <= q < pow2(b),
    ensures
        nearest_scaled(n, d, e) == nearest_shift(p, e - 1),
{
    let k: nat = if b + e > 53 {
        (b + e - 53) as nat
    } else {
        0
    };
    let s = (k - e) as nat;
    lemma_pow2_unfold(b);
    lemma_pow2_unfold(b + 1);
    lemma_nearest_shift(p, e - 1, b + 1, k);
    assert(k - (e - 1) == s + 1);
    lemma_sticky_round(n, d, q, r, p, s);
    lemma_pow2_pos(k);
    lemma_pow2_pos(s);
    assert(d * pow2(s) > 0) by (nonlinear_arith)
        requires
            d > 0,
            pow2(s) > 0,
    ;
    assert(n < d * pow2(b)) by (nonlinear_arith)
        requires
            n == q * d + r,
            r < d,
            q < pow2(b),
    ;
    assert(n >= d * pow2((b - 1) as nat)) by (nonlinear_arith)
        requires
            n == q * d + r,
            q >= pow2((b - 1) as nat),
    ;
    if e >= 0 {
        let c = pow2(e as nat);
        lemma_pow2_pos(e as nat);
        lemma_pow2_adds(b, e as nat);
        assert(n * c < d * pow2(b + e as nat)) by (nonlinear_arith)
            requires
                n < d * pow2(b),
                c > 0,
                pow2(b + e as nat) == pow2(b) * c,
        ;
        assert(b + e as nat == 53 + k);
        lemma_pow2_adds((b - 1) as nat, e as nat);
        assert(n * c >= d * pow2(52 + k)) by (nonlinear_arith)
            requires
                n >= d * pow2((b - 1) as nat),
                c > 0,
                pow2(52 + k) == pow2((b - 1) as nat) * c,
        ;
        lemma_excess_of(n * c, d, k);
        lemma_pow2_adds(s, e as nat);
        assert(d * pow2(k) == d * pow2(s) * c) by (nonlinear_arith)
            requires
                pow2(k) == pow2(s) * c,
        ;
        lemma_round_scale(n, d * pow2(s), c);
    } else {
        let f = (-e) as nat;
        let c = pow2(f);
        lemma_pow2_pos(f);
        assert(d * c > 0) by (nonlinear_arith)
            requires
                d > 0,
                c > 0,
        ;
        lemma_pow2_adds(f, 53 + k);
        lemma_pow2_adds(f, 52 + k);
        lemma_pow2_adds(f, k);
        if b < f + (53 + k) {
            lemma_pow2_strictly_increases(b, f + (53 + k));
        }
        assert(n < d * c * pow2(53 + k)) by (nonlinear_arith)
            requires
                n < d * pow2(b),
                pow2(b) <= pow2(f + (53 + k)),
                pow2(f + (53 + k)) == c * pow2(53 + k),
                d > 0,
        ;
        if k > 0 {
            assert((b - 1) as nat == f + (52 + k));
            assert(n >= d * c * pow2(52 + k)) by (nonlinear_arith)
                requires
                    n >= d * pow2((b - 1) as nat),
                    pow2((b - 1) as nat) == c * pow2(52 + k),
            ;
        }
        lemma_excess_of(n, d * c, k);
        assert(s == f + k);
        assert(d * c * pow2(k) == d * pow2(s)) by (nonlinear_arith)
            requires
                pow2(s) == c * pow2(k),
        ;
    }
}

// ---------------------------------------------------------------------------
// Order
// ---------------------------------------------------------------------------

/// Magnitudes one apart hold different numbers of steps.
proof fn lemma_steps_next(a: nat)
    ensures
        steps(a) < steps(a + 1),
{
    let h = HIDDEN as nat;
    lemma_fundamental_div_mod(a as int, h as int);
    let x = a / h;
    let f = a % h;
    lemma2_to64();
    if f + 1 < h {
        lemma_fundamental_div_mod_converse((a + 1) as int, h as int, x as int, (f + 1) as int);
        if x > 0 {
            let w = pow2((x - 1) as nat);
            lemma_pow2_pos((x - 1) as nat);
            assert((h + f) * w < (h + (f + 1)) * w) by (nonlinear_arith)
                requires
                    w > 0,
            ;
        }
    } else {
        lemma_fundamental_div_mod_converse((a + 1) as int, h as int, (x + 1) as int, 0);
        lemma_pow2_pos(x);
        if x == 0 {
            assert((h + 0) * pow2(0) == h);
        } else {
            let w = pow2((x - 1) as nat);
            lemma_pow2_unfold(x);
            lemma_pow2_pos((x - 1) as nat);
            assert((h + f) * w < (h + 0) * (2 * w)) by (nonlinear_arith)
                requires
                    w > 0,
                    f < h,
            ;
        }
    }
}

/// A larger magnitude is a larger number.
pub proof fn lemma_steps_increase(a: nat, b: nat)
    requires
        a < b,
    ensures
        steps(a) < steps(b),
    decreases b - a,
{
    lemma_steps_next((b - 1) as nat);
    if a < b - 1 {
        lemma_steps_increase(a, (b - 1) as nat);
    }
}

proof fn lemma_round_monotone(n1: nat, n2: nat, d: nat)
    requires
        d > 0,
        n1 <= n2,
    ensures
        round_even(n1, d) <= round_even(n2, d),
{
    lemma_fundamental_div_mod(n1 as int, d as int);
    lemma_fundamental_div_mod(n2 as int, d as int);
    lemma_div_is_ordered(n1 as int, n2 as int, d as int);
}

proof fn lemma_excess_bounds(q: nat)
    ensures
        q < pow2(53 + excess(q)),
        excess(q) == 0 || q >= pow2(52 + excess(q)),
    decreases q,
{
    lemma2_to64();
    lemma2_to64_rest();
    if q >= WIDE {
        let k = excess(q / 2);
        lemma_excess_bounds(q / 2);
        lemma_pow2_unfold(54 + k);
        lemma_pow2_unfold(53 + k);
    }
}

/// A larger ratio never rounds to a smaller magnitude.
pub proof fn lemma_nearest_monotone(n1: nat, n2: nat, d: nat)
    requires
        d > 0,
        n1 <= n2,
    ensures
        nearest(n1, d) <= nearest(n2, d),
{
    let k1 = excess(n1 / d);
    let k2 = excess(n2 / d);
    lemma_div_is_ordered(n1 as int, n2 as int, d as int);
    lemma_excess_bounds(n1 / d);
    lemma_excess_bounds(n2 / d);
    lemma_fundamental_div_mod(n1 as int, d as int);
    lemma_fundamental_div_mod(n2 as int, d as int);
    lemma_pow2_pos(k1);
    lemma_pow2_pos(k2);
    let d1 = d * pow2(k1);
    let d2 = d * pow2(k2);
    assert(d1 > 0 && d2 > 0) by (nonlinear_arith)
        requires
            d > 0,
            pow2(k1) > 0,
            pow2(k2) > 0,
            d1 == d * pow2(k1),
            d2 == d * pow2(k2),
    ;
    if k1 == k2 {
        lemma_round_monotone(n1, n2, d1);
    } else {
        if k2 < k1 {
            if 53 + k2 < 52 + k1 {
                lemma_pow2_strictly_increases(53 + k2, 52 + k1);
            }
        }
        assert(k1 < k2);
        lemma2_to64();
        lemma2_to64_rest();
        lemma_pow2_adds(53, k1);
        lemma_pow2_adds(52, k2);
        let q1 = n1 / d;
        let q2 = n2 / d;
        assert(n1 < d1 * WIDE) by (nonlinear_arith)
            requires
                n1 == d * q1 + n1 % d,
                n1 % d < d,
                q1 < WIDE * pow2(k1),
                d1 == d * pow2(k1),
                d > 0,
        ;
        assert(n2 >= d2 * HIDDEN) by (nonlinear_arith)
            requires
                n2 == d * q2 + n2 % d,
                n2 % d >= 0,
                q2 >= HIDDEN * pow2(k2),
                d2 == d * pow2(k2),
                d > 0,
        ;
        let r1 = n1 / d1;
        let r2 = n2 / d2;
        lemma_fundamental_div_mod(n1 as int, d1 as int);
        lemma_fundamental_div_mod(n2 as int, d2 as int);
        assert(r1 < WIDE) by (nonlinear_arith)
            requires
                n1 < d1 * WIDE,
                n1 == d1 * r1 + n1 % d1,
                n1 % d1 >= 0,
                d1 > 0,
        ;
        assert(r2 >= HIDDEN) by (nonlinear_arith)
            requires
                n2 >= d2 * HIDDEN,
                n2 == d2 * r2 + n2 % d2,
                n2 % d2 < d2,
                d2 > 0,
        ;
        assert(round_even(n1, d1) <= WIDE);
        assert(round_even(n2, d2) >= HIDDEN);
    }
}

// ---------------------------------------------------------------------------
// Arithmetic on magnitudes
// ---------------------------------------------------------------------------

/// The magnitude of the whole number `n`.
pub open spec fn whole(n: nat) -> nat {
    nearest(n * one(), 1)
}

/// The magnitude of the product of two finite magnitudes.
pub open spec fn product(a: nat, b: nat) -> nat {
    nearest(steps(a) * steps(b), one())
}

/// The magnitude of the quotient of two finite magnitudes, `b` not zero.
pub open spec fn quotient(a: nat, b: nat) -> nat {
    nearest(steps(a) * one(), steps(b))
}

/// The magnitude of the sum of two finite magnitudes.
pub open spec fn sum(a: nat, b: nat) -> nat {
    nearest(steps(a) + steps(b), 1)
}

/// The whole number that a finite magnitude holds once its fraction is cut off,
/// at most `u64::MAX`.
pub open spec fn floor(mag: nat) -> nat {
    let n = steps(mag) / one();
    if n <= u64::MAX {
        n
    } else {
        u64::MAX as nat
    }
}

/// A larger whole number is no smaller a magnitude.
pub proof fn lemma_whole_monotone(a: nat, b: nat)
    requires
        a <= b,
    ensures
        whole(a) <= whole(b),
{
    assert(a * one() <= b * one()) by (nonlinear_arith)
        requires
            a <= b,
    ;
    lemma_nearest_monotone(a * one(), b * one(), 1);
}

/// A larger factor gives no smaller a product.
pub proof fn lemma_product_monotone(a: nat, b: nat, c: nat)
    requires
        a <= b,
    ensures
        product(a, c) <= product(b, c),
{
    if a < b {
        lemma_steps_increase(a, b);
    }
    let x = steps(a);
    let y = steps(b);
    let z = steps(c);
    assert(x * z <= y * z) by (nonlinear_arith)
        requires
            x <= y,
    ;
    lemma_pow2_pos(1074);
    lemma_nearest_monotone(x * z, y * z, one());
}

/// A larger magnitude has no smaller a whole part.
pub proof fn lemma_floor_monotone(a: nat, b: nat)
    requires
        a <= b,
    ensures
        floor(a) <= floor(b),
{
    if a < b {
        lemma_steps_increase(a, b);
    }
    lemma_pow2_pos(1074);
    lemma_div_is_ordered(steps(a) as int, steps(b) as int, one() as int);
}

/// Significand and exponent of a finite magnitude.
fn unpack(mag: u64) -> (r: (u64, i64))
    requires
        mag < INFINITY,
    ensures
        r.0 < WIDE,
        0 <= r.1 <= 2045,
        steps(mag as nat) == r.0 * pow2(r.1 as nat),
        r.1 > 0 ==> r.0 >= HIDDEN,
        r.0 == 0 <==> mag == 0,
{
    let exponent: u64 = mag / HIDDEN;
    let fraction: u64 = mag % HIDDEN;
    proof {
        lemma2_to64();
    }
    if exponent == 0 {
        assert(fraction * pow2(0) == fraction) by (nonlinear_arith)
            requires
                pow2(0) == 1,
        ;
        (fraction, 0)
    } else {
        (HIDDEN + fraction, (exponent - 1) as i64)
    }
}

/// Rounding a shifted integer is rounding the ratio it stands for.
proof fn lemma_shift_ratio(p: nat, f: nat, g: nat)
    ensures
        nearest_shift(p, f - g) == nearest(p * pow2(f), pow2(g)),
{
    lemma_pow2_pos(f);
    lemma_pow2_pos(g);
    if f >= g {
        let e = (f - g) as nat;
        lemma_pow2_adds(e, g);
        assert((p * pow2(e)) * pow2(g) == (p * pow2(f)) * 1) by (nonlinear_arith)
            requires
                pow2(f) == pow2(e) * pow2(g),
        ;
        lemma_nearest_ratio(p * pow2(e), 1, p * pow2(f), pow2(g));
    } else {
        let e = (g - f) as nat;
        lemma_pow2_pos(e);
        lemma_pow2_adds(e, f);
        assert(p * pow2(g) == (p * pow2(f)) * pow2(e)) by (nonlinear_arith)
            requires
                pow2(g) == pow2(e) * pow2(f),
        ;
        lemma_nearest_ratio(p, pow2(e), p * pow2(f), pow2(g));
    }
}

/// `whole`, computed.
fn whole_mag(n: u64) -> (mag: u64)
    ensures
        mag as nat == whole(n as nat),
{
    round_to(n as u128, 1074)
}

/// `product`, computed.
fn product_mag(a: u64, b: u64) -> (mag: u64)
    requires
        a < INFINITY,
        b < INFINITY,
    ensures
        mag as nat == product(a as nat, b as nat),
{
    let (ma, ea) = unpack(a);
    let (mb, eb) = unpack(b);
    proof {
        assert(ma * mb < 0x8000_0000_0000_0000_0000_0000_0000_0000) by (nonlinear_arith)
            requires
                ma < 0x20_0000_0000_0000,
                mb < 0x20_0000_0000_0000,
        ;
        let f = (ea + eb) as nat;
        lemma_pow2_adds(ea as nat, eb as nat);
        assert(steps(a as nat) * steps(b as nat) == (ma * mb) * pow2(f)) by (nonlinear_arith)
            requires
                steps(a as nat) == ma * pow2(ea as nat),
                steps(b as nat) == mb * pow2(eb as nat),
                pow2(f) == pow2(ea as nat) * pow2(eb as nat),
        ;
        lemma_shift_ratio((ma * mb) as nat, f, 1074);
    }
    round_to((ma as u128) * (mb as u128), ea + eb - 1074)
}

/// `quotient`, computed.
fn quotient_mag(a: u64, b: u64) -> (mag: u64)
    requires
        a < INFINITY,
        0 < b < INFINITY,
    ensures
        mag as nat == quotient(a as nat, b as nat),
{
    let (ma, ea) = unpack(a);
    let (mb, eb) = unpack(b);
    proof {
        lemma2_to64();
        lemma2_to64_rest();
        lemma_pow2_pos(eb as nat);
        assert(steps(b as nat) > 0) by (nonlinear_arith)
            requires
                steps(b as nat) == mb * pow2(eb as nat),
                mb > 0,
                pow2(eb as nat) > 0,
        ;
    }
    if ma == 0 {
        proof {
            assert(steps(a as nat) == 0);
            assert(0 * one() == 0);
            lemma_div_of_zero(steps(b as nat));
            assert(steps(b as nat) * pow2(0) == steps(b as nat)) by (nonlinear_arith)
                requires
                    pow2(0) == 1,
            ;
        }
        return 0;
    }
    let mut m: u64 = ma;
    let mut t: i64 = 0;
    assert(ma * pow2(0) == ma) by (nonlinear_arith)
        requires
            pow2(0) == 1,
    ;
    while m < HIDDEN
        invariant
            ma > 0,
            m > 0,
            m < WIDE,
            0 <= t,
            m == ma * pow2(t as nat),
            t <= 52,
            t < 52 || m >= HIDDEN,
            pow2(52) == HIDDEN,
        decreases 52 - t,
    {
        proof {
            lemma_pow2_unfold((t + 1) as nat);
            assert(2 * (ma * pow2(t as nat)) == ma * (2 * pow2(t as nat))) by (nonlinear_arith);
            if t == 51 {
                assert(ma * pow2(52) >= pow2(52)) by (nonlinear_arith)
                    requires
                        ma > 0,
                ;
            }
        }
        m = m * 2;
        t = t + 1;
    }
    let n: u128 = (m as u128) * 0x1_0000_0000_0000_0000;
    let q: u128 = n / (mb as u128);
    let r: u128 = n % (mb as u128);
    assert(q >= 0x4000_0000_0000_0000 && q <= n) by (nonlinear_arith)
        requires
            q == n / (mb as u128),
            n >= 0x10_0000_0000_0000 * 0x1_0000_0000_0000_0000,
            0 < mb < 0x20_0000_0000_0000,
    ;
    let sticky: u128 = if r > 0 {
        1
    } else {
        0
    };
    let p: u128 = 2 * q + sticky;
    let bits: u32 = bit_length(q);
    let e: i64 = ea - t - eb + 1010;
    proof {
        lemma_fundamental_div_mod(n as int, mb as int);
        assert(n == q * mb + r) by (nonlinear_arith)
            requires
                n == mb * q + r,
        ;
        if bits < 55 {
            if bits < 54 {
                lemma_pow2_strictly_increases(bits as nat, 54);
            }
        }
        lemma_sticky(n as nat, mb as nat, e as int, q as nat, r as nat, p as nat, bits as nat);
        lemma_quotient(a as nat, b as nat, ma as nat, ea as nat, mb as nat, eb as nat, t as nat);
    }
    round_to(p, e - 1)
}

/// The quotient of two magnitudes, over their significands.
proof fn lemma_quotient(a: nat, b: nat, ma: nat, ea: nat, mb: nat, eb: nat, t: nat)
    requires
        steps(a) == ma * pow2(ea),
        steps(b) == mb * pow2(eb),
        mb > 0,
    ensures
        nearest_scaled(
            ma * pow2(t) * 0x1_0000_0000_0000_0000,
            mb,
            ea - t - eb + 1010,
        ) == quotient(a, b),
{
    lemma2_to64();
    let n = ma * pow2(t) * pow2(64);
    let e = ea - t - eb + 1010;
    lemma_pow2_pos(eb);
    assert(steps(b) > 0) by (nonlinear_arith)
        requires
            steps(b) == mb * pow2(eb),
            mb > 0,
            pow2(eb) > 0,
    ;
    lemma_pow2_adds(t, 64);
    lemma_pow2_adds(t + 64, eb);
    lemma_pow2_adds(ea, 1074);
    let big = pow2(t + 64 + eb);
    let low = pow2(ea + 1074);
    assert(n * steps(b) == (ma * mb) * big) by (nonlinear_arith)
        requires
            n == ma * pow2(t) * pow2(64),
            steps(b) == mb * pow2(eb),
            big == pow2(t + 64) * pow2(eb),
            pow2(t + 64) == pow2(t) * pow2(64),
    ;
    assert((steps(a) * one()) * mb == (ma * mb) * low) by (nonlinear_arith)
        requires
            steps(a) == ma * pow2(ea),
            low == pow2(ea) * pow2(1074),
            one() == pow2(1074),
    ;
    if e >= 0 {
        let c = pow2(e as nat);
        lemma_pow2_adds(t + 64 + eb, e as nat);
        assert((n * c) * steps(b) == (steps(a) * one()) * mb) by (nonlinear_arith)
            requires
                n * steps(b) == (ma * mb) * big,
                (steps(a) * one()) * mb == (ma * mb) * low,
                low == big * c,
        ;
        lemma_nearest_ratio(n * c, mb, steps(a) * one(), steps(b));
    } else {
        let f = (-e) as nat;
        let c = pow2(f);
        lemma_pow2_pos(f);
        lemma_pow2_adds(ea + 1074, f);
        assert(mb * c > 0) by (nonlinear_arith)
            requires
                mb > 0,
                c > 0,
        ;
        assert(n * steps(b) == (steps(a) * one()) * (mb * c)) by (nonlinear_arith)
            requires
                n * steps(b) == (ma * mb) * big,
                (steps(a) * one()) * mb == (ma * mb) * low,
                big == low * c,
        ;
        lemma_nearest_ratio(n, mb * c, steps(a) * one(), steps(b));
    }
}

/// `sum`, computed.
fn sum_mag(x: u64, y: u64) -> (mag: u64)
    requires
        x < INFINITY,
        y < INFINITY,
    ensures
        mag as nat == sum(x as nat, y as nat),
{
    let (a, b) = if x >= y {
        (x, y)
    } else {
        (y, x)
    };
    let (ma, ea) = unpack(a);
    let (mb, eb) = unpack(b);
    proof {
        lemma2_to64();
        lemma2_to64_rest();
        lemma_pow2_adds(64, 6);
        lemma_pow2_adds(64, 63);
        lemma_exponents_ordered(a as nat, b as nat, ma as nat, ea as nat, mb as nat, eb as nat);
    }
    if ea <= eb + 70 {
        let gap: i64 = ea - eb;
        let w: u128 = power(gap as u32);
        proof {
            if gap < 70 {
                lemma_pow2_strictly_increases(gap as nat, 70);
            }
            assert(ma * w + mb < 0x8000_0000_0000_0000_0000_0000_0000_0000) by (nonlinear_arith)
                requires
                    ma < 0x20_0000_0000_0000,
                    mb < 0x20_0000_0000_0000,
                    w <= 0x40_0000_0000_0000_0000,
            ;
            assert(ma * w >= 0) by (nonlinear_arith);
            lemma_pow2_adds(gap as nat, eb as nat);
            assert((ma * w + mb) * pow2(eb as nat) == steps(a as nat) + steps(b as nat))
                by (nonlinear_arith)
                requires
                    steps(a as nat) == ma * pow2(ea as nat),
                    steps(b as nat) == mb * pow2(eb as nat),
                    pow2(ea as nat) == w * pow2(eb as nat),
            ;
            assert(pow2(0) == 1);
            lemma_shift_ratio((ma * w + mb) as nat, eb as nat, 0);
        }
        return round_to((ma as u128) * w + (mb as u128), eb);
    }
    let sticky: u128 = if mb > 0 {
        1
    } else {
        0
    };
    let q: u128 = (ma as u128) * 16;
    let p: u128 = 2 * q + sticky;
    let bits: u32 = bit_length(q);
    proof {
        let gap = (ea - eb) as nat;
        let d = pow2((gap - 4) as nat);
        lemma_pow2_pos((gap - 4) as nat);
        lemma_pow2_strictly_increases(53, (gap - 4) as nat);
        lemma_pow2_adds((gap - 4) as nat, 4);
        let n = (ma * pow2(gap) + mb) as nat;
        assert(n == q * d + mb) by (nonlinear_arith)
            requires
                n == ma * pow2(gap) + mb,
                pow2(gap) == d * 16,
                q == ma * 16,
        ;
        if bits < 55 {
            lemma_pow2_strictly_increases(bits as nat, 55);
        }
        lemma_sticky(n, d, ea - 4, q as nat, mb as nat, p as nat, bits as nat);
        lemma_pow2_adds(gap, eb as nat);
        lemma_pow2_adds((gap - 4) as nat, eb as nat);
        let c = pow2((ea - 4) as nat);
        assert((n * c) * 1 == (steps(a as nat) + steps(b as nat)) * d) by (nonlinear_arith)
            requires
                steps(a as nat) == ma * pow2(ea as nat),
                steps(b as nat) == mb * pow2(eb as nat),
                pow2(ea as nat) == pow2(gap) * pow2(eb as nat),
                c == d * pow2(eb as nat),
                n == ma * pow2(gap) + mb,
        ;
        lemma_nearest_ratio(n * c, d, steps(a as nat) + steps(b as nat), 1);
    }
    round_to(p, ea - 5)
}

/// The larger of two magnitudes has the larger exponent.
proof fn lemma_exponents_ordered(a: nat, b: nat, ma: nat, ea: nat, mb: nat, eb: nat)
    requires
        a >= b,
        steps(a) == ma * pow2(ea),
        steps(b) == mb * pow2(eb),
        ma < WIDE,
        eb > 0 ==> mb >= HIDDEN,
    ensures
        ea >= eb,
{
    if ea < eb {
        if a > b {
            lemma_steps_increase(b, a);
        }
        lemma_pow2_pos(ea);
        lemma_pow2_adds((eb - ea) as nat, ea);
        lemma_pow2_unfold((eb - ea) as nat);
        lemma_pow2_pos((eb - ea - 1) as nat);
        let k = pow2((eb - ea) as nat);
        let w = pow2(ea);
        assert(mb * (k * w) >= 2 * HIDDEN * w) by (nonlinear_arith)
            requires
                mb >= HIDDEN,
                k >= 2,
                w > 0,
        ;
        assert(ma * w < WIDE * w) by (nonlinear_arith)
            requires
                ma < WIDE,
                w > 0,
        ;
        assert(2 * HIDDEN * w == WIDE * w) by (nonlinear_arith);
    }
}

/// `floor`, computed.
fn floor_mag(mag: u64) -> (n: u64)
    requires
        mag < INFINITY,
    ensures
        n as nat == floor(mag as nat),
{
    let (m, e) = unpack(mag);
    proof {
        lemma2_to64();
        lemma2_to64_rest();
        lemma_pow2_pos(1074);
    }
    if e >= 1074 {
        let s: i64 = e - 1074;
        proof {
            lemma_pow2_adds(s as nat, 1074);
            assert(steps(mag as nat) == (m * pow2(s as nat)) * one()) by (nonlinear_arith)
                requires
                    steps(mag as nat) == m * pow2(e as nat),
                    pow2(e as nat) == pow2(s as nat) * one(),
            ;
            lemma_fundamental_div_mod_converse(
                steps(mag as nat) as int,
                one() as int,
                m * pow2(s as nat),
                0,
            );
        }
        if s >= 64 {
            proof {
                if s > 64 {
                    lemma_pow2_strictly_increases(64, s as nat);
                }
                assert(m * pow2(s as nat) > u64::MAX) by (nonlinear_arith)
                    requires
                        m >= 1,
                        pow2(s as nat) > u64::MAX,
                ;
            }
            return u64::MAX;
        }
        let w: u128 = power(s as u32);
        proof {
            lemma_pow2_strictly_increases(s as nat, 64);
            assert(m * w < 0x8000_0000_0000_0000_0000_0000_0000_0000) by (nonlinear_arith)
                requires
                    m < 0x20_0000_0000_0000,
                    w < 0x1_0000_0000_0000_0000,
            ;
        }
        let n: u128 = (m as u128) * w;
        if n <= u64::MAX as u128 {
            n as u64
        } else {
            u64::MAX
        }
    } else {
        let s: i64 = 1074 - e;
        proof {
            lemma_pow2_pos(e as nat);
            lemma_pow2_pos(s as nat);
            lemma_pow2_adds(s as nat, e as nat);
            lemma_div_scale(m as nat, pow2(s as nat), pow2(e as nat));
        }
        if s >= 64 {
            proof {
                if s > 64 {
                    lemma_pow2_strictly_increases(64, s as nat);
                }
                lemma_fundamental_div_mod_converse(m as int, pow2(s as nat) as int, 0, m as int);
            }
            return 0;
        }
        let w: u128 = power(s as u32);
        let n: u128 = (m as u128) / w;
        proof {
            lemma_fundamental_div_mod(m as int, w as int);
            assert(n <= m) by (nonlinear_arith)
                requires
                    n == (m as u128) / w,
                    w > 0,
            ;
        }
        n as u64
    }
}

// ---------------------------------------------------------------------------
// Numbers
// ---------------------------------------------------------------------------

/// The NaN that operations produce.
pub open spec fn nan() -> Binary64 {
    Binary64 { bits: QUIET_NAN }
}

/// The number with this sign and this magnitude.
pub open spec fn signed(minus: bool, mag: nat) -> Binary64 {
    Binary64 {
        bits: if minus {
            (SIGN + mag) as u64
        } else {
            mag as u64
        },
    }
}

/// The number `n`, rounded.
#[verifier::opaque]
pub open spec fn of_whole(n: nat) -> Binary64 {
    signed(false, whole(n))
}

/// `x * y`.
#[verifier::opaque]
pub open spec fn times(x: Binary64, y: Binary64) -> Binary64 {
    let minus = negative(x) != negative(y);
    if is_nan(x) || is_nan(y) {
        nan()
    } else if is_infinite(x) || is_infinite(y) {
        if magnitude(x) == 0 || magnitude(y) == 0 {
            nan()
        } else {
            signed(minus, INFINITY as nat)
        }
    } else {
        signed(minus, product(magnitude(x), magnitude(y)))
    }
}

/// `x / y`.
#[verifier::opaque]
pub open spec fn over(x: Binary64, y: Binary64) -> Binary64 {
    let minus = negative(x) != negative(y);
    if is_nan(x) || is_nan(y) || (is_infinite(x) && is_infinite(y)) {
        nan()
    } else if is_infinite(x) {
        signed(minus, INFINITY as nat)
    } else if is_infinite(y) {
        signed(minus, 0)
    } else if magnitude(y) == 0 {
        if magnitude(x) == 0 {
            nan()
        } else {
            signed(minus, INFINITY as nat)
        }
    } else {
        signed(minus, quotient(magnitude(x), magnitude(y)))
    }
}

/// `x + y`, for numbers without a sign that are not NaN.
#[verifier::opaque]
pub open spec fn plus(x: Binary64, y: Binary64) -> Binary64 {
    if is_infinite(x) || is_infinite(y) {
        signed(false, INFINITY as nat)
    } else {
        signed(false, sum(magnitude(x), magnitude(y)))
    }
}

/// `x` as a `u64`: its fraction cut off, NaN and what is below zero read as 0,
/// what is too large as `u64::MAX`.
#[verifier::opaque]
pub open spec fn truncated(x: Binary64) -> nat {
    if is_nan(x) || negative(x) {
        0
    } else if is_infinite(x) {
        u64::MAX as nat
    } else {
        floor(magnitude(x))
    }
}

/// Where a number that is not NaN stands in the order of all of them. Both zeros
/// stand at 0.
pub open spec fn place(x: Binary64) -> int {
    if negative(x) {
        -(magnitude(x) as int)
    } else {
        magnitude(x) as int
    }
}

/// `x < y`.
pub open spec fn below(x: Binary64, y: Binary64) -> bool {
    !is_nan(x) && !is_nan(y) && place(x) < place(y)
}

/// `x <= y`.
pub open spec fn at_most(x: Binary64, y: Binary64) -> bool {
    !is_nan(x) && !is_nan(y) && place(x) <= place(y)
}

/// The signed number of steps of a finite number.
pub open spec fn value(x: Binary64) -> int {
    if negative(x) {
        -(steps(magnitude(x)) as int)
    } else {
        steps(magnitude(x)) as int
    }
}

/// On finite numbers the order is the order of their values.
pub proof fn law_order_is_by_value(x: Binary64, y: Binary64)
    requires
        is_finite(x),
        is_finite(y),
    ensures
        below(x, y) <==> value(x) < value(y),
        at_most(x, y) <==> value(x) <= value(y),
{
    let a = magnitude(x);
    let b = magnitude(y);
    if a < b {
        lemma_steps_increase(a, b);
    } else if b < a {
        lemma_steps_increase(b, a);
    }
    assert(steps(0) == 0);
    if a > 0 {
        lemma_steps_increase(0, a);
    }
    if b > 0 {
        lemma_steps_increase(0, b);
    }
}

/// A ratio below `2^(53 + k)` steps has a magnitude of at most `k + 2` times
/// 2^52.
proof fn lemma_nearest_bound(n: nat, d: nat, k: nat)
    requires
        d > 0,
        n < d * pow2(53 + k),
    ensures
        nearest(n, d) <= (k + 2) * (HIDDEN as nat),
{
    let e = excess(n / d);
    let q = n / d;
    lemma_excess_bounds(q);
    lemma_fundamental_div_mod(n as int, d as int);
    assert(q < pow2(53 + k)) by (nonlinear_arith)
        requires
            n == d * q + n % d,
            n % d >= 0,
            n < d * pow2(53 + k),
            d > 0,
    ;
    if e > k {
        if 52 + e > 53 + k {
            lemma_pow2_strictly_increases(53 + k, 52 + e);
        }
    }
    assert(e <= k);
    lemma2_to64();
    lemma2_to64_rest();
    lemma_pow2_adds(53, e);
    lemma_pow2_pos(e);
    let d1 = d * pow2(e);
    assert(n < d1 * WIDE) by (nonlinear_arith)
        requires
            n == d * q + n % d,
            n % d < d,
            q < WIDE * pow2(e),
            d1 == d * pow2(e),
            d > 0,
    ;
    assert(d1 > 0) by (nonlinear_arith)
        requires
            d > 0,
            pow2(e) > 0,
            d1 == d * pow2(e),
    ;
    let r = n / d1;
    lemma_fundamental_div_mod(n as int, d1 as int);
    assert(r < WIDE) by (nonlinear_arith)
        requires
            n < d1 * WIDE,
            n == d1 * r + n % d1,
            n % d1 >= 0,
            d1 > 0,
    ;
    assert(round_even(n, d1) <= WIDE);
    assert(e * HIDDEN + WIDE <= (k + 2) * HIDDEN) by (nonlinear_arith)
        requires
            e <= k,
            WIDE == 2 * HIDDEN,
    ;
}

/// Whole numbers from 1 up to `u64::MAX` are finite and hold at least one whole.
pub proof fn lemma_whole_range(n: nat)
    requires
        n <= u64::MAX,
    ensures
        whole(n) <= 1087 * (HIDDEN as nat),
        n > 0 ==> whole(n) >= 1023 * (HIDDEN as nat),
{
    lemma2_to64();
    lemma2_to64_rest();
    lemma_pow2_adds(64, 1074);
    lemma_pow2_pos(1074);
    assert(n * one() < 1 * pow2(53 + 1085)) by (nonlinear_arith)
        requires
            n < pow2(64),
            one() == pow2(1074),
            pow2(1074) > 0,
            pow2(53 + 1085) == pow2(64) * pow2(1074),
    ;
    lemma_nearest_bound(n * one(), 1, 1085);
    if n > 0 {
        lemma_whole_monotone(1, n);
        assert(1 * one() == one());
        lemma_whole_one();
    }
}

/// Neighbouring magnitudes are far enough apart for their quotient to be told
/// from 1.
proof fn lemma_steps_gap(a: nat)
    ensures
        steps(a + 1) <= WIDE * (steps(a + 1) - steps(a)),
{
    let h = HIDDEN as nat;
    lemma_fundamental_div_mod(a as int, h as int);
    let x = a / h;
    let f = a % h;
    lemma2_to64();
    if f + 1 < h {
        lemma_fundamental_div_mod_converse((a + 1) as int, h as int, x as int, (f + 1) as int);
        if x > 0 {
            let w = pow2((x - 1) as nat);
            lemma_pow2_pos((x - 1) as nat);
            assert((h + (f + 1)) * w <= WIDE * ((h + (f + 1)) * w - (h + f) * w))
                by (nonlinear_arith)
                requires
                    w > 0,
                    f + 1 < h,
                    WIDE == 2 * h,
            ;
        }
    } else {
        lemma_fundamental_div_mod_converse((a + 1) as int, h as int, (x + 1) as int, 0);
        lemma_pow2_pos(x);
        if x == 0 {
            assert((h + 0) * pow2(0) == h);
        } else {
            let w = pow2((x - 1) as nat);
            lemma_pow2_unfold(x);
            lemma_pow2_pos((x - 1) as nat);
            assert((h + 0) * (2 * w) <= WIDE * ((h + 0) * (2 * w) - (h + f) * w))
                by (nonlinear_arith)
                requires
                    w > 0,
                    f + 1 == h,
                    WIDE == 2 * h,
            ;
        }
    }
}

/// The magnitude of 1.
proof fn lemma_whole_one()
    ensures
        nearest(one(), 1) == ONE,
{
    lemma2_to64();
    lemma2_to64_rest();
    assert(1 * one() == pow2(1074));
    lemma_pow2_strictly_increases(1074, 53 + 1022);
    assert(1 * pow2(53 + 1022) == pow2(1075));
    assert(1 * pow2(52 + 1022) == pow2(1074));
    lemma_excess_of(one(), 1, 1022);
    lemma_pow2_adds(52, 1022);
    lemma_pow2_pos(1022);
    lemma_round_scale(HIDDEN as nat, 1, pow2(1022));
    lemma_fundamental_div_mod(HIDDEN as int, 1);
    assert(round_even(one(), 1 * pow2(1022)) == HIDDEN);
}

/// The largest magnitude below that of 1.
proof fn lemma_just_below_one()
    ensures
        nearest(((WIDE - 1) as nat) * one(), WIDE as nat) == ONE - 1,
{
    lemma2_to64();
    lemma2_to64_rest();
    let m = (WIDE - 1) as nat;
    let w = pow2(1021);
    lemma_pow2_pos(1021);
    lemma_pow2_adds(53, 1021);
    lemma_pow2_adds(52, 1021);
    assert(m * one() == (m * w) * (WIDE as nat)) by (nonlinear_arith)
        requires
            one() == (WIDE as nat) * w,
    ;
    assert(1 * (WIDE as nat) == WIDE as nat);
    lemma_nearest_scale(m * w, 1, WIDE as nat);
    assert(m * w < 1 * pow2(53 + 1021) && m * w >= 1 * pow2(52 + 1021)) by (nonlinear_arith)
        requires
            m == WIDE - 1,
            w > 0,
            pow2(53 + 1021) == (WIDE as nat) * w,
            pow2(52 + 1021) == (HIDDEN as nat) * w,
            WIDE == 2 * HIDDEN,
            HIDDEN >= 1,
    ;
    lemma_excess_of(m * w, 1, 1021);
    lemma_round_scale(m, 1, w);
    lemma_fundamental_div_mod(m as int, 1);
    assert(round_even(m * w, 1 * w) == m);
}

/// A quotient of finite numbers without a sign is below 1 exactly where the first
/// is below the second: rounding never makes them look equal, nor turns them
/// round. The quotient of a number and itself is 1.
pub proof fn law_quotient_tells_which_is_less(x: Binary64, y: Binary64)
    requires
        is_finite(x),
        is_finite(y),
        !negative(x),
        !negative(y),
        magnitude(y) > 0,
    ensures
        below(over(x, y), Binary64 { bits: ONE }) <==> below(x, y),
        x == y ==> over(x, y) == (Binary64 { bits: ONE }),
{
    reveal(over);
    let a = magnitude(x);
    let b = magnitude(y);
    let sa = steps(a);
    let sb = steps(b);
    lemma_steps_increase(0, b);
    lemma_pow2_pos(1074);
    if a < b {
        let near = steps((b - 1) as nat);
        if a < b - 1 {
            lemma_steps_increase(a, (b - 1) as nat);
        }
        lemma_steps_increase((b - 1) as nat, b);
        lemma_steps_gap((b - 1) as nat);
        let m = (WIDE - 1) as nat;
        assert(WIDE * sa <= m * sb) by (nonlinear_arith)
            requires
                sa <= near,
                sb <= WIDE * (sb - near),
                m == WIDE - 1,
        ;
        let d = sb * (WIDE as nat);
        let n1 = (sa * one()) * (WIDE as nat);
        let n2 = (m * one()) * sb;
        assert(n1 <= n2) by (nonlinear_arith)
            requires
                WIDE * sa <= m * sb,
                n1 == (sa * one()) * (WIDE as nat),
                n2 == (m * one()) * sb,
                one() > 0,
        ;
        assert(d > 0) by (nonlinear_arith)
            requires
                d == sb * (WIDE as nat),
                sb > 0,
                WIDE > 0,
        ;
        lemma_nearest_scale(sa * one(), sb, WIDE as nat);
        lemma_nearest_monotone(n1, n2, d);
        assert(d == (WIDE as nat) * sb) by (nonlinear_arith)
            requires
                d == sb * (WIDE as nat),
        ;
        lemma_nearest_scale(m * one(), WIDE as nat, sb);
        lemma_just_below_one();
        assert(quotient(a, b) < ONE);
    } else {
        if b < a {
            lemma_steps_increase(b, a);
        }
        let n1 = one() * sb;
        let n2 = sa * one();
        assert(n1 <= n2) by (nonlinear_arith)
            requires
                sb <= sa,
                n1 == one() * sb,
                n2 == sa * one(),
        ;
        lemma_nearest_monotone(n1, n2, sb);
        assert(1 * sb == sb);
        lemma_nearest_scale(one(), 1, sb);
        lemma_whole_one();
        assert(ONE <= quotient(a, b) <= INFINITY);
        if a == b {
            assert(n1 == n2) by (nonlinear_arith)
                requires
                    n1 == one() * sb,
                    n2 == sa * one(),
                    sa == sb,
            ;
        }
    }
}

/// The ratio of two whole numbers, the second not zero, is an ordinary number
/// without a sign.
pub proof fn lemma_ratio_of_whole(n: nat, d: nat)
    requires
        n <= u64::MAX,
        0 < d <= u64::MAX,
    ensures
        is_finite(over(of_whole(n), of_whole(d))),
        !negative(over(of_whole(n), of_whole(d))),
{
    reveal(of_whole);
    reveal(over);
    lemma_whole_range(n);
    lemma_whole_range(d);
    let h = HIDDEN as nat;
    let a = whole(n);
    let b = whole(d);
    let top = 1087 * h;
    let low = 1023 * h;
    lemma_fundamental_div_mod_converse(top as int, h as int, 1087, 0);
    lemma_fundamental_div_mod_converse(low as int, h as int, 1023, 0);
    if a < top {
        lemma_steps_increase(a, top);
    }
    if low < b {
        lemma_steps_increase(low, b);
    }
    lemma2_to64();
    lemma2_to64_rest();
    lemma_pow2_adds(52, 1086);
    lemma_pow2_adds(52, 1022);
    lemma_pow2_pos(1074);
    assert(steps(a) <= pow2(1138));
    assert(steps(b) >= one());
    lemma_pow2_unfold(1139);
    lemma_pow2_pos(1138);
    let x = steps(a);
    let y = steps(b);
    assert(x * one() < y * pow2(53 + 1086)) by (nonlinear_arith)
        requires
            x <= pow2(1138),
            y >= one(),
            one() > 0,
            pow2(53 + 1086) == 2 * pow2(1138),
            pow2(1138) > 0,
    ;
    lemma_nearest_bound(x * one(), y, 1086);
}

impl Binary64 {
    /// The encoding without its sign bit.
    fn mag(self) -> (m: u64)
        ensures
            m as nat == magnitude(self),
            m < SIGN,
    {
        self.bits % SIGN
    }

    /// The number with this sign and this magnitude.
    fn with_sign(minus: bool, mag: u64) -> (r: Binary64)
        requires
            mag < SIGN,
        ensures
            r == signed(minus, mag as nat),
    {
        if minus {
            Binary64 { bits: SIGN + mag }
        } else {
            Binary64 { bits: mag }
        }
    }

    /// Zero.
    pub fn zero() -> (r: Binary64)
        ensures
            r == signed(false, 0),
    {
        Binary64 { bits: 0 }
    }

    /// The number `n`, rounded.
    pub fn of(n: u64) -> (r: Binary64)
        ensures
            r == of_whole(n as nat),
    {
        proof {
            reveal(of_whole);
        }
        Binary64 { bits: whole_mag(n) }
    }

    /// `self * y`.
    pub fn times(self, y: Binary64) -> (r: Binary64)
        ensures
            r == times(self, y),
    {
        proof {
            reveal(times);
        }
        let minus = (self.bits >= SIGN) != (y.bits >= SIGN);
        let a = self.mag();
        let b = y.mag();
        if a > INFINITY || b > INFINITY {
            Binary64 { bits: QUIET_NAN }
        } else if a == INFINITY || b == INFINITY {
            if a == 0 || b == 0 {
                Binary64 { bits: QUIET_NAN }
            } else {
                Binary64::with_sign(minus, INFINITY)
            }
        } else {
            Binary64::with_sign(minus, product_mag(a, b))
        }
    }

    /// `self / y`.
    pub fn over(self, y: Binary64) -> (r: Binary64)
        ensures
            r == over(self, y),
    {
        proof {
            reveal(over);
        }
        let minus = (self.bits >= SIGN) != (y.bits >= SIGN);
        let a = self.mag();
        let b = y.mag();
        if a > INFINITY || b > INFINITY || (a == INFINITY && b == INFINITY) {
            Binary64 { bits: QUIET_NAN }
        } else if a == INFINITY {
            Binary64::with_sign(minus, INFINITY)
        } else if b == INFINITY {
            Binary64::with_sign(minus, 0)
        } else if b == 0 {
            if a == 0 {
                Binary64 { bits: QUIET_NAN }
            } else {
                Binary64::with_sign(minus, INFINITY)
            }
        } else {
            Binary64::with_sign(minus, quotient_mag(a, b))
        }
    }

    /// `self + y`, for numbers without a sign that are not NaN.
    pub fn plus(self, y: Binary64) -> (r: Binary64)
        requires
            !negative(self),
            !negative(y),
            !is_nan(self),
            !is_nan(y),
        ensures
            r == plus(self, y),
            !negative(r),
            !is_nan(r),
    {
        proof {
            reveal(plus);
        }
        let a = self.mag();
        let b = y.mag();
        if a == INFINITY || b == INFINITY {
            Binary64 { bits: INFINITY }
        } else {
            Binary64 { bits: sum_mag(a, b) }
        }
    }

    /// `self` as a `u64`, cut off and kept in range.
    pub fn truncated(self) -> (n: u64)
        ensures
            n as nat == truncated(self),
    {
        proof {
            reveal(truncated);
        }
        let a = self.mag();
        if a > INFINITY || self.bits >= SIGN {
            0
        } else if a == INFINITY {
            u64::MAX
        } else {
            floor_mag(a)
        }
    }

    /// `self < y`.
    pub fn below(self, y: Binary64) -> (r: bool)
        ensures
            r == below(self, y),
    {
        let a = self.mag();
        let b = y.mag();
        if a > INFINITY || b > INFINITY {
            return false;
        }
        let minus_a = self.bits >= SIGN;
        let minus_b = y.bits >= SIGN;
        if minus_a && minus_b {
            b < a
        } else if minus_a {
            a > 0 || b > 0
        } else if minus_b {
            false
        } else {
            a < b
        }
    }

    /// `self <= y`.
    pub fn at_most(self, y: Binary64) -> (r: bool)
        ensures
            r == at_most(self, y),
    {
        let a = self.mag();
        let b = y.mag();
        if a > INFINITY || b > INFINITY {
            return false;
        }
        !y.below(self)
    }
}

} // verus!
