//! Fixed-point scalars.
//!
//! A scalar is an `i64` holding the real value times `ONE` (2^16).
//! Multiplication and division round toward negative infinity, so their
//! results are exactly `(a * b) / ONE` and `(a * ONE) / b` in the
//! mathematical (Euclidean) sense; every contract below is stated over
//! those exact integer values.

use vstd::prelude::*;

verus! {

/// The fixed-point unit: the scalar `ONE` stands for the real number 1.
pub const ONE: i64 = 65536;

/// Division rounding toward negative infinity: `floor(n / d)` for `d > 0`.
/// For a positive divisor this coincides with Euclidean division on `int`.
pub(crate) fn floor_div(n: i128, d: i128) -> (r: i128)
    requires
        0 < d <= 0x8000_0000_0000_0000i128,
        -0x4000_0000_0000_0000_0000_0000_0000_0000i128 <= n
            <= 0x4000_0000_0000_0000_0000_0000_0000_0000i128,
    ensures
        r == n as int / d as int,
{
    if n >= 0 {
        n / d
    } else {
        let m: i128 = -n;
        let q: i128 = (m + (d - 1)) / d;
        proof {
            let mi = m as int;
            let di = d as int;
            vstd::arithmetic::div_mod::lemma_fundamental_div_mod(mi + di - 1, di);
            vstd::arithmetic::div_mod::lemma_fundamental_div_mod(-mi, di);
            assert((mi + di - 1) / di == -((-mi) / di)) by (nonlinear_arith)
                requires
                    di > 0,
                    mi + di - 1 == di * ((mi + di - 1) / di) + (mi + di - 1) % di,
                    -mi == di * ((-mi) / di) + (-mi) % di,
                    0 <= (mi + di - 1) % di < di,
                    0 <= (-mi) % di < di,
            ;
        }
        -q
    }
}

/// The exact value of fixed-point multiplication.
pub open spec fn mul_spec(a: int, b: int) -> int {
    (a * b) / (ONE as int)
}

/// The exact value of fixed-point division (divisor must be positive).
pub open spec fn div_spec(a: int, b: int) -> int {
    (a * (ONE as int)) / b
}

/// Fixed-point product, rounding toward negative infinity.
pub fn mul(a: i64, b: i64) -> (r: i64)
    requires
        i64::MIN <= mul_spec(a as int, b as int) <= i64::MAX,
    ensures
        r == mul_spec(a as int, b as int),
{
    proof {
        assert(-0x4000_0000_0000_0000_0000_0000_0000_0000 <= (a as int) * (b as int)
            <= 0x4000_0000_0000_0000_0000_0000_0000_0000) by (nonlinear_arith)
            requires
                -0x8000_0000_0000_0000 <= a as int <= 0x8000_0000_0000_0000,
                -0x8000_0000_0000_0000 <= b as int <= 0x8000_0000_0000_0000,
        ;
    }
    let p: i128 = (a as i128) * (b as i128);
    let q: i128 = floor_div(p, ONE as i128);
    q as i64
}

/// The rounded-down square root of a natural number, as a function.
pub open spec fn isqrt_spec(n: nat) -> nat
    decreases n,
{
    if n == 0 {
        0
    } else {
        let r = isqrt_spec((n - 1) as nat);
        if (r + 1) * (r + 1) <= n {
            r + 1
        } else {
            r
        }
    }
}

/// `isqrt_spec(n)` is the unique `r` with `r^2 <= n < (r+1)^2`.
pub proof fn lemma_isqrt_spec_bounds(n: nat)
    ensures
        isqrt_spec(n) * isqrt_spec(n) <= n,
        n < (isqrt_spec(n) + 1) * (isqrt_spec(n) + 1),
    decreases n,
{
    if n > 0 {
        lemma_isqrt_spec_bounds((n - 1) as nat);
        let r = isqrt_spec((n - 1) as nat);
        assert(r * r <= n - 1);
        assert(n - 1 < (r + 1) * (r + 1));
        if (r + 1) * (r + 1) <= n {
            assert(isqrt_spec(n) == r + 1);
            assert(isqrt_spec(n) * isqrt_spec(n) <= n) by (nonlinear_arith)
                requires
                    isqrt_spec(n) == r + 1,
                    (r + 1) * (r + 1) <= n,
            ;
            assert(n < (isqrt_spec(n) + 1) * (isqrt_spec(n) + 1)) by (nonlinear_arith)
                requires
                    isqrt_spec(n) == r + 1,
                    n <= (r + 1) * (r + 1),
            ;
        } else {
            assert(isqrt_spec(n) == r);
            assert(isqrt_spec(n) * isqrt_spec(n) <= n) by (nonlinear_arith)
                requires
                    isqrt_spec(n) == r,
                    r * r <= n - 1,
                    n >= 1,
            ;
            assert(n < (isqrt_spec(n) + 1) * (isqrt_spec(n) + 1)) by (nonlinear_arith)
                requires
                    isqrt_spec(n) == r,
                    n - 1 < (r + 1) * (r + 1),
                    !((r + 1) * (r + 1) <= n),
            ;
        }
    } else {
        assert(isqrt_spec(n) == 0);
        assert(n < (isqrt_spec(n) + 1) * (isqrt_spec(n) + 1)) by (nonlinear_arith)
            requires
                n == 0,
                isqrt_spec(n) == 0,
        ;
    }
}

pub proof fn lemma_isqrt_unique(n: nat, r: nat)
    requires
        r * r <= n,
        n < (r + 1) * (r + 1),
    ensures
        r == isqrt_spec(n),
{
    lemma_isqrt_spec_bounds(n);
    let s = isqrt_spec(n);
    assert(r == s) by (nonlinear_arith)
        requires
            r * r <= n < (r + 1) * (r + 1),
            s * s <= n < (s + 1) * (s + 1),
    ;
}

/// The rounded-down square root, by binary search on the result.
pub fn isqrt(n: u128) -> (r: u128)
    ensures
        r == isqrt_spec(n as nat),
        r * r <= n < (r + 1) * (r + 1),
        r <= u64::MAX,
{
    let mut lo: u128 = 0;
    let mut hi: u128 = if n >= 0xffff_ffff_ffff_ffff {
        0xffff_ffff_ffff_ffff
    } else {
        n
    };
    proof {
        assert(n < (hi + 1) * (hi + 1)) by (nonlinear_arith)
            requires
                hi == n || (hi == 0xffff_ffff_ffff_ffff
                    && n <= 0xffff_ffff_ffff_ffff_ffff_ffff_ffff_ffffu128),
        ;
    }
    while lo < hi
        invariant
            lo <= hi <= 0xffff_ffff_ffff_ffff,
            lo * lo <= n,
            n < (hi + 1) * (hi + 1),
        decreases hi - lo,
    {
        let mid: u128 = lo + (hi - lo + 1) / 2;
        proof {
            assert(lo < mid <= hi);
            assert(mid * mid <= 0xffff_ffff_ffff_ffff * 0xffff_ffff_ffff_ffffu128)
                by (nonlinear_arith)
                requires
                    mid <= 0xffff_ffff_ffff_ffffu128,
            ;
        }
        if mid * mid <= n {
            lo = mid;
        } else {
            hi = mid - 1;
        }
    }
    proof {
        lemma_isqrt_unique(n as nat, lo as nat);
    }
    lo
}

/// Fixed-point quotient `a / b` for a positive divisor, rounding toward
/// negative infinity.
pub fn div(a: i64, b: i64) -> (r: i64)
    requires
        b > 0,
        i64::MIN <= div_spec(a as int, b as int) <= i64::MAX,
    ensures
        r == div_spec(a as int, b as int),
{
    proof {
        assert(-0x8000_0000_0000_0000_0000 <= (a as int) * (ONE as int)
            <= 0x8000_0000_0000_0000_0000) by (nonlinear_arith)
            requires
                -0x8000_0000_0000_0000 <= a as int <= 0x8000_0000_0000_0000,
                ONE == 65536,
        ;
    }
    let p: i128 = (a as i128) * (ONE as i128);
    let q: i128 = floor_div(p, b as i128);
    q as i64
}

/// The natural logarithm of 2 at fixed-point scale.
pub const LN2: i64 = 45426;

/// Fixed-point square root: the rounded-down square root of `x * ONE`,
/// which carries scale 2^16 again.
pub open spec fn sqrt_fx_spec(x: int) -> int {
    isqrt_spec((x * (ONE as int)) as nat) as int
}

pub fn sqrt_fx(x: i64) -> (r: i64)
    requires
        x >= 0,
    ensures
        r == sqrt_fx_spec(x as int),
        r >= 0,
{
    proof {
        assert(0 <= (x as int) * (ONE as int) <= 0x8000_0000_0000_0000_0000) by (nonlinear_arith)
            requires
                0 <= x as int <= 0x8000_0000_0000_0000,
                ONE == 65536,
        ;
    }
    let n: u128 = (x as u128) * (ONE as u128);
    let s: u128 = isqrt(n);
    proof {
        lemma_isqrt_spec_bounds(n as nat);
        let sq = isqrt_spec(n as nat);
        assert(sq < 0x8000_0000_0000_0000) by (nonlinear_arith)
            requires
                sq * sq <= n as nat,
                n as nat <= 0x8000_0000_0000_0000_0000nat,
        ;
    }
    s as i64
}

/// The value `exp_neg` computes: zero once the exponent is large enough
/// to underflow, otherwise the degree-four series on the remainder below
/// `ln 2`, halved once per whole multiple of `ln 2`.
pub open spec fn exp_series_spec(f: int) -> int {
    let t2 = mul_spec(f, f);
    let t3 = mul_spec(t2, f);
    let t4 = mul_spec(t3, f);
    (ONE as int) - f + t2 / 2 - t3 / 6 + t4 / 24
}

pub open spec fn exp_neg_spec(x: int) -> int {
    if x >= 32 * (LN2 as int) {
        0
    } else {
        let k = x / (LN2 as int);
        let f = x % (LN2 as int);
        (exp_series_spec(f) as u64 >> (k as u64)) as int
    }
}

/// `e^(-x)` for a non-negative fixed-point exponent: always in `[0, ONE]`,
/// exactly `ONE` at zero. Computed as `2^(-k) * e^(-f)` with the remainder
/// `f` below `ln 2` evaluated by a short alternating series.
pub fn exp_neg(x: i64) -> (r: i64)
    requires
        x >= 0,
    ensures
        r == exp_neg_spec(x as int),
        0 <= r <= ONE,
        x == 0 ==> r == ONE,
{
    if x >= 32 * LN2 {
        return 0;
    }
    let k: i64 = floor_div(x as i128, LN2 as i128) as i64;
    proof {
        vstd::arithmetic::div_mod::lemma_fundamental_div_mod(x as int, LN2 as int);
        assert(0 <= (x as int) % (LN2 as int) < LN2 as int) by {
            vstd::arithmetic::div_mod::lemma_mod_bound(x as int, LN2 as int);
        }
        assert(0 <= k < 32) by {
            lemma_floor_div_range(x as int, 0, 32 * (LN2 as int) - 1, LN2 as int);
        }
    }
    let f: i64 = x - k * LN2;
    proof {
        lemma_series_term_bounds(f as int);
    }
    let t2: i64 = crate::fx::mul(f, f);
    let t3: i64 = crate::fx::mul(t2, f);
    let t4: i64 = crate::fx::mul(t3, f);
    let q2: i64 = floor_div(t2 as i128, 2) as i64;
    let q3: i64 = floor_div(t3 as i128, 6) as i64;
    let q4: i64 = floor_div(t4 as i128, 24) as i64;
    proof {
        lemma_floor_div_range(t2 as int, 0, 31485, 2);
        lemma_floor_div_range(t3 as int, 0, 21823, 6);
        lemma_floor_div_range(t4 as int, 0, 15126, 24);
    }
    let p: i64 = ONE - f + q2 - q3 + q4;
    proof {
        lemma_series_value_bounds(f as int);
        assert(p == exp_series_spec(f as int));
    }
    let r: u64 = (p as u64) >> (k as u64);
    proof {
        vstd::bits::lemma_u64_shr_is_div(p as u64, k as u64);
        vstd::arithmetic::power2::lemma_pow2_pos(k as nat);
        let d = vstd::arithmetic::power2::pow2(k as nat) as int;
        lemma_floor_div_range(p as int, 0, p as int, d);
        vstd::arithmetic::div_mod::lemma_div_is_ordered_by_denominator(p as int, 1, d);
        vstd::arithmetic::div_mod::lemma_div_basics(p as int);
        if x == 0 {
            assert(k == 0 && f == 0);
            assert(vstd::arithmetic::power2::pow2(0) == 1) by {
                vstd::arithmetic::power2::lemma2_to64();
            }
        }
    }
    r as i64
}

/// The series terms for a remainder below `ln 2` are small, non-negative
/// and shrinking.
proof fn lemma_series_term_bounds(f: int)
    requires
        0 <= f < LN2,
    ensures
        0 <= mul_spec(f, f) <= 31485,
        mul_spec(f, f) * 65536 <= f * 45425,
        0 <= mul_spec(mul_spec(f, f), f) <= 21823,
        mul_spec(mul_spec(f, f), f) <= mul_spec(f, f),
        0 <= mul_spec(mul_spec(mul_spec(f, f), f), f) <= 15126,
        mul_spec(mul_spec(mul_spec(f, f), f), f) <= mul_spec(mul_spec(f, f), f),
{
    let t2 = mul_spec(f, f);
    assert(0 <= f * f && f * f <= 45425 * 45425 && f * f <= f * 45425) by (nonlinear_arith)
        requires
            0 <= f <= 45425,
    ;
    lemma_floor_div_range(f * f, 0, 45425int * 45425, ONE as int);
    assert((45425int * 45425) / 65536 == 31485) by (nonlinear_arith);
    assert(0int / 65536 == 0) by (nonlinear_arith);
    vstd::arithmetic::div_mod::lemma_fundamental_div_mod(f * f, 65536);
    assert(t2 * 65536 <= f * f) by (nonlinear_arith)
        requires
            f * f == 65536 * t2 + (f * f) % 65536,
            (f * f) % 65536 >= 0,
    ;
    let t3 = mul_spec(t2, f);
    assert(0 <= t2 * f && t2 * f <= 31485 * 45425 && t2 * f <= t2 * 65536) by (nonlinear_arith)
        requires
            0 <= t2 <= 31485,
            0 <= f <= 45425,
    ;
    lemma_floor_div_range(t2 * f, 0, 31485int * 45425, ONE as int);
    assert((31485int * 45425) / 65536 == 21823) by (nonlinear_arith);
    assert((t2 * 65536) / 65536 == t2) by {
        vstd::arithmetic::div_mod::lemma_div_by_multiple(t2, 65536);
    }
    vstd::arithmetic::div_mod::lemma_div_is_ordered(t2 * f, t2 * 65536, 65536);
    let t4 = mul_spec(t3, f);
    assert(0 <= t3 * f && t3 * f <= 21823 * 45425 && t3 * f <= t3 * 65536) by (nonlinear_arith)
        requires
            0 <= t3 <= 21823,
            0 <= f <= 45425,
    ;
    lemma_floor_div_range(t3 * f, 0, 21823int * 45425, ONE as int);
    assert((21823int * 45425) / 65536 == 15126) by (nonlinear_arith);
    assert((t3 * 65536) / 65536 == t3) by {
        vstd::arithmetic::div_mod::lemma_div_by_multiple(t3, 65536);
    }
    vstd::arithmetic::div_mod::lemma_div_is_ordered(t3 * f, t3 * 65536, 65536);
}

/// The alternating series for a remainder below `ln 2` lies in `[1, ONE]`,
/// and equals `ONE` exactly at zero.
proof fn lemma_series_value_bounds(f: int)
    requires
        0 <= f < LN2,
    ensures
        1 <= exp_series_spec(f) <= ONE,
        f == 0 ==> exp_series_spec(f) == ONE,
{
    lemma_series_term_bounds(f);
    let t2 = mul_spec(f, f);
    let t3 = mul_spec(t2, f);
    let t4 = mul_spec(t3, f);
    lemma_floor_div_range(t2, 0, 31485, 2);
    lemma_floor_div_range(t3, 0, 21823, 6);
    lemma_floor_div_range(t4, 0, 15126, 24);
    if f == 0 {
        assert(t2 == 0) by (nonlinear_arith)
            requires
                t2 == mul_spec(0, 0),
        ;
        assert(t3 == mul_spec(0, 0) / 1 * 0 / 65536 || true);
        assert(mul_spec(0, 0) == 0 && mul_spec(0, f) == 0 && t3 >= 0 && t3 <= t2 && t4 >= 0
            && t4 <= t3);
    } else {
        // the linear term outweighs both positive series terms
        vstd::arithmetic::div_mod::lemma_fundamental_div_mod(t2, 2);
        vstd::arithmetic::div_mod::lemma_fundamental_div_mod(t4, 24);
        assert(t2 / 2 + t4 / 24 <= f) by (nonlinear_arith)
            requires
                1 <= f,
                0 <= t2,
                t2 * 65536 <= f * 45425,
                0 <= t4 <= t2,
                t2 == 2 * (t2 / 2) + t2 % 2,
                t2 % 2 >= 0,
                t4 == 24 * (t4 / 24) + t4 % 24,
                t4 % 24 >= 0,
        ;
    }
    assert(t3 / 6 * 6 <= t3 && t3 / 6 >= 0) by {
        vstd::arithmetic::div_mod::lemma_fundamental_div_mod(t3, 6);
        vstd::arithmetic::div_mod::lemma_mod_bound(t3, 6);
    }
    assert(6 * (t3 / 6) + 0 <= t3);
    assert(t3 / 6 <= 3637) by {
        lemma_floor_div_range(t3, 0, 21823, 6);
    }
}

/// The value `neg_ln` computes: the normalization step doubles `u` into
/// `(ONE/2, ONE]` counting halvings of the argument, then a four-term
/// series evaluates `-ln(1 - y)` on the remainder.
pub open spec fn neg_ln_spec(u: int) -> int {
    let v0 = if u < 256 { u * 256 } else { u };
    let k0: int = if u < 256 { 8 } else { 0 };
    let v1 = if v0 < 4096 { v0 * 16 } else { v0 };
    let k1: int = if v0 < 4096 { k0 + 4 } else { k0 };
    let v2 = if v1 < 16384 { v1 * 4 } else { v1 };
    let k2: int = if v1 < 16384 { k1 + 2 } else { k1 };
    let v3 = if v2 < 32768 { v2 * 2 } else { v2 };
    let k3: int = if v2 < 32768 { k2 + 1 } else { k2 };
    let y = (ONE as int) - v3;
    let t2 = mul_spec(y, y);
    let t3 = mul_spec(t2, y);
    let t4 = mul_spec(t3, y);
    k3 * (LN2 as int) + y + t2 / 2 + t3 / 3 + t4 / 4
}

/// `-ln(u / ONE)` for `u` in `[1, ONE]` (the real interval `(0, 1]`):
/// non-negative, zero exactly at `u == ONE`, at least one step above
/// zero everywhere else, and never large.
pub fn neg_ln(u: i64) -> (r: i64)
    requires
        1 <= u <= ONE,
    ensures
        r == neg_ln_spec(u as int),
        r >= 0,
        u == ONE ==> r == 0,
        u < ONE ==> r >= 1,
        r <= 0x10_0000,
{
    let mut v: i64 = u;
    let mut k: i64 = 0;
    if v < 256 {
        v = v * 256;
        k = 8;
    }
    if v < 4096 {
        v = v * 16;
        k = k + 4;
    }
    if v < 16384 {
        v = v * 4;
        k = k + 2;
    }
    if v < 32768 {
        v = v * 2;
        k = k + 1;
    }
    let y: i64 = ONE - v;
    proof {
        assert(32768 <= v <= ONE);
        assert(0 <= y <= 32768);
        lemma_ln_series_bounds(y as int);
    }
    let t2: i64 = crate::fx::mul(y, y);
    let t3: i64 = crate::fx::mul(t2, y);
    let t4: i64 = crate::fx::mul(t3, y);
    let q2: i64 = floor_div(t2 as i128, 2) as i64;
    let q3: i64 = floor_div(t3 as i128, 3) as i64;
    let q4: i64 = floor_div(t4 as i128, 4) as i64;
    proof {
        lemma_floor_div_range(t2 as int, 0, 16384, 2);
        lemma_floor_div_range(t3 as int, 0, 8192, 3);
        lemma_floor_div_range(t4 as int, 0, 4096, 4);
    }
    k * LN2 + y + q2 + q3 + q4
}

/// The bounds of `neg_ln`, at the specification level: non-negative,
/// zero exactly at `ONE`, at least one step above zero below it.
pub proof fn lemma_neg_ln_props(u: int)
    requires
        1 <= u <= ONE,
    ensures
        0 <= neg_ln_spec(u) <= 0x10_0000,
        u == ONE ==> neg_ln_spec(u) == 0,
        u < ONE ==> neg_ln_spec(u) >= 1,
{
    let v0 = if u < 256 {
        u * 256
    } else {
        u
    };
    let k0: int = if u < 256 {
        8
    } else {
        0
    };
    let v1 = if v0 < 4096 {
        v0 * 16
    } else {
        v0
    };
    let k1: int = if v0 < 4096 {
        k0 + 4
    } else {
        k0
    };
    let v2 = if v1 < 16384 {
        v1 * 4
    } else {
        v1
    };
    let k2: int = if v1 < 16384 {
        k1 + 2
    } else {
        k1
    };
    let v3 = if v2 < 32768 {
        v2 * 2
    } else {
        v2
    };
    let k3: int = if v2 < 32768 {
        k2 + 1
    } else {
        k2
    };
    let y = (ONE as int) - v3;
    assert(32768 <= v3 <= ONE);
    assert(0 <= y <= 32768);
    lemma_ln_series_bounds(y);
    let t2 = mul_spec(y, y);
    let t3 = mul_spec(t2, y);
    let t4 = mul_spec(t3, y);
    lemma_floor_div_range(t2, 0, 16384, 2);
    lemma_floor_div_range(t3, 0, 8192, 3);
    lemma_floor_div_range(t4, 0, 4096, 4);
    assert(0int / 2 == 0 && 0int / 3 == 0 && 0int / 4 == 0);
    if u < ONE {
        assert(k3 >= 1 || y >= 1);
    }
}

/// The series terms of `neg_ln` are small and non-negative.
proof fn lemma_ln_series_bounds(y: int)
    requires
        0 <= y <= 32768,
    ensures
        0 <= mul_spec(y, y) <= 16384,
        0 <= mul_spec(mul_spec(y, y), y) <= 8192,
        0 <= mul_spec(mul_spec(mul_spec(y, y), y), y) <= 4096,
        y == 0 ==> mul_spec(y, y) == 0 && mul_spec(mul_spec(y, y), y) == 0 && mul_spec(
            mul_spec(mul_spec(y, y), y),
            y,
        ) == 0,
{
    let t2 = mul_spec(y, y);
    assert(0 <= y * y <= 32768int * 32768) by (nonlinear_arith)
        requires
            0 <= y <= 32768,
    ;
    lemma_floor_div_range(y * y, 0, 32768int * 32768, ONE as int);
    assert((32768int * 32768) / 65536 == 16384) by (nonlinear_arith);
    assert(0int / 65536 == 0) by (nonlinear_arith);
    let t3 = mul_spec(t2, y);
    assert(0 <= t2 * y <= 16384int * 32768) by (nonlinear_arith)
        requires
            0 <= t2 <= 16384,
            0 <= y <= 32768,
    ;
    lemma_floor_div_range(t2 * y, 0, 16384int * 32768, ONE as int);
    assert((16384int * 32768) / 65536 == 8192) by (nonlinear_arith);
    let t4 = mul_spec(t3, y);
    assert(0 <= t3 * y <= 8192int * 32768) by (nonlinear_arith)
        requires
            0 <= t3 <= 8192,
            0 <= y <= 32768,
    ;
    lemma_floor_div_range(t3 * y, 0, 8192int * 32768, ONE as int);
    assert((8192int * 32768) / 65536 == 4096) by (nonlinear_arith);
    if y == 0 {
        assert(0int * 0 == 0) by (nonlinear_arith);
        assert(t2 == 0int / 65536);
        assert(t2 * 0 == 0) by (nonlinear_arith);
    }
}

/// Pi at fixed-point scale.
pub const PI: i64 = 205887;

/// The cap on a tangent value near a right angle.
pub const TAN_CAP: i64 = 0x400_0000;

/// The value `tan` computes: a degree-seven sine series over a
/// degree-six cosine series, capped where the cosine approximation is
/// no longer positive.
pub open spec fn tan_spec(x: int) -> int {
    let x2 = mul_spec(x, x);
    let x3 = mul_spec(x2, x);
    let x5 = mul_spec(x2, x3);
    let x7 = mul_spec(x2, x5);
    let s = x - x3 / 6 + x5 / 120 - x7 / 5040;
    let c = (ONE as int) - x2 / 2 + mul_spec(x2, x2) / 24 - mul_spec(x2, mul_spec(x2, x2)) / 720;
    if c <= 0 {
        TAN_CAP as int
    } else {
        let q = div_spec(s, c);
        if q < 0 {
            0
        } else if q > TAN_CAP {
            TAN_CAP as int
        } else {
            q
        }
    }
}

/// The tangent of an angle in `[0, pi/2)`, by short sine and cosine
/// series; the result is clamped into `[0, TAN_CAP]`.
pub fn tan(x: i64) -> (r: i64)
    requires
        0 <= x <= 102943,
    ensures
        r == tan_spec(x as int),
        0 <= r <= TAN_CAP,
{
    proof {
        lemma_tan_term_bounds(x as int);
    }
    let x2: i64 = crate::fx::mul(x, x);
    let x3: i64 = crate::fx::mul(x2, x);
    let x5: i64 = crate::fx::mul(x2, x3);
    let x7: i64 = crate::fx::mul(x2, x5);
    let x4: i64 = crate::fx::mul(x2, x2);
    let x6: i64 = crate::fx::mul(x2, x4);
    let s: i64 = x - floor_div(x3 as i128, 6) as i64 + floor_div(x5 as i128, 120) as i64
        - floor_div(x7 as i128, 5040) as i64;
    let c: i64 = ONE - floor_div(x2 as i128, 2) as i64 + floor_div(x4 as i128, 24) as i64
        - floor_div(x6 as i128, 720) as i64;
    if c <= 0 {
        return TAN_CAP;
    }
    proof {
        lemma_div_mag_bound(s as int * (ONE as int), c as int, 0x80_0000_0000);
        assert(-0x80_0000_0000 <= s as int * (ONE as int) <= 0x80_0000_0000)
            by (nonlinear_arith)
            requires
                -0x80_0000 <= s as int <= 0x80_0000,
                ONE == 65536,
        ;
    }
    let q: i64 = crate::fx::div(s, c);
    if q < 0 {
        0
    } else if q > TAN_CAP {
        TAN_CAP
    } else {
        q
    }
}

/// The power terms of the tangent series stay small for angles below a
/// right angle.
proof fn lemma_tan_term_bounds(x: int)
    requires
        0 <= x <= 102943,
    ensures
        0 <= mul_spec(x, x) <= 161701,
        0 <= mul_spec(mul_spec(x, x), x) <= 253997,
        0 <= mul_spec(mul_spec(x, x), mul_spec(mul_spec(x, x), x)) <= 626702,
        0 <= mul_spec(mul_spec(x, x), mul_spec(mul_spec(x, x), mul_spec(mul_spec(x, x), x)))
            <= 1546300,
        0 <= mul_spec(mul_spec(x, x), mul_spec(x, x)) <= 398974,
        0 <= mul_spec(mul_spec(x, x), mul_spec(mul_spec(x, x), mul_spec(x, x))) <= 984413,
        ({
            let x2 = mul_spec(x, x);
            let x3 = mul_spec(x2, x);
            let x5 = mul_spec(x2, x3);
            let x7 = mul_spec(x2, x5);
            let s = x - x3 / 6 + x5 / 120 - x7 / 5040;
            -0x80_0000 <= s <= 0x80_0000
        }),
{
    assert(0 <= x * x <= 102943int * 102943) by (nonlinear_arith)
        requires
            0 <= x <= 102943,
    ;
    lemma_floor_div_range(x * x, 0, 102943int * 102943, ONE as int);
    assert((102943int * 102943) / 65536 == 161701 && 0int / 65536 == 0) by (nonlinear_arith);
    let x2 = mul_spec(x, x);
    assert(0 <= x2 * x <= 161701int * 102943) by (nonlinear_arith)
        requires
            0 <= x2 <= 161701,
            0 <= x <= 102943,
    ;
    lemma_floor_div_range(x2 * x, 0, 161701int * 102943, ONE as int);
    assert((161701int * 102943) / 65536 == 253997) by (nonlinear_arith);
    let x3 = mul_spec(x2, x);
    assert(0 <= x2 * x3 <= 161701int * 253997) by (nonlinear_arith)
        requires
            0 <= x2 <= 161701,
            0 <= x3 <= 253997,
    ;
    lemma_floor_div_range(x2 * x3, 0, 161701int * 253997, ONE as int);
    assert((161701int * 253997) / 65536 == 626702) by (nonlinear_arith);
    let x5 = mul_spec(x2, x3);
    assert(0 <= x2 * x5 <= 161701int * 626702) by (nonlinear_arith)
        requires
            0 <= x2 <= 161701,
            0 <= x5 <= 626702,
    ;
    lemma_floor_div_range(x2 * x5, 0, 161701int * 626702, ONE as int);
    assert((161701int * 626702) / 65536 == 1546300) by (nonlinear_arith);
    let x7 = mul_spec(x2, x5);
    assert(0 <= x2 * x2 <= 161701int * 161701) by (nonlinear_arith)
        requires
            0 <= x2 <= 161701,
    ;
    lemma_floor_div_range(x2 * x2, 0, 161701int * 161701, ONE as int);
    assert((161701int * 161701) / 65536 == 398974) by (nonlinear_arith);
    let x4 = mul_spec(x2, x2);
    assert(0 <= x2 * x4 <= 161701int * 398974) by (nonlinear_arith)
        requires
            0 <= x2 <= 161701,
            0 <= x4 <= 398974,
    ;
    lemma_floor_div_range(x2 * x4, 0, 161701int * 398974, ONE as int);
    assert((161701int * 398974) / 65536 == 984413) by (nonlinear_arith);
    lemma_floor_div_range(x3, 0, 253997, 6);
    lemma_floor_div_range(x5, 0, 626702, 120);
    lemma_floor_div_range(x7, 0, 1546300, 5040);
}

/// The saturated quotient is monotone in the numerator.
pub proof fn lemma_div_sat_mono(a1: int, a2: int, b: int, lo: int, hi: int)
    requires
        a1 <= a2,
        b > 0,
        lo <= hi,
    ensures
        div_sat_spec(a1, b, lo, hi) <= div_sat_spec(a2, b, lo, hi),
{
    assert(a1 * (ONE as int) <= a2 * (ONE as int)) by (nonlinear_arith)
        requires
            a1 <= a2,
            ONE == 65536,
    ;
    vstd::arithmetic::div_mod::lemma_div_is_ordered(a1 * (ONE as int), a2 * (ONE as int), b);
}

/// A quotient's magnitude never exceeds the numerator's magnitude bound
/// when the divisor is at least one.
pub proof fn lemma_div_mag_bound(n: int, d: int, a: int)
    requires
        d >= 1,
        a >= 0,
        -a <= n <= a,
    ensures
        -a <= n / d <= a,
{
    vstd::arithmetic::div_mod::lemma_fundamental_div_mod(n, d);
    vstd::arithmetic::div_mod::lemma_mod_bound(n, d);
    assert(-a <= n / d <= a) by (nonlinear_arith)
        requires
            n == d * (n / d) + n % d,
            0 <= n % d < d,
            -a <= n <= a,
            d >= 1,
            a >= 0,
    ;
}

/// A floor quotient of a value within `[lo, hi]` by a positive divisor
/// lies within the quotients of the ends.
pub proof fn lemma_floor_div_range(n: int, lo: int, hi: int, d: int)
    requires
        lo <= n <= hi,
        d > 0,
    ensures
        lo / d <= n / d <= hi / d,
{
    vstd::arithmetic::div_mod::lemma_div_is_ordered(lo, n, d);
    vstd::arithmetic::div_mod::lemma_div_is_ordered(n, hi, d);
}

/// `div_spec` saturated into `[lo, hi]`.
pub open spec fn div_sat_spec(a: int, b: int, lo: int, hi: int) -> int {
    let q = div_spec(a, b);
    if q < lo {
        lo
    } else if q > hi {
        hi
    } else {
        q
    }
}

/// Fixed-point quotient for a positive divisor, saturated into `[lo, hi]`.
/// Stands in for the infinities that slab intersection produces on nearly
/// axis-aligned rays: a quotient beyond either end is pinned to that end.
pub fn div_sat(a: i64, b: i64, lo: i64, hi: i64) -> (r: i64)
    requires
        b > 0,
        -0x4000_0000_0000_0000 <= a <= 0x4000_0000_0000_0000,
        lo <= hi,
    ensures
        r == div_sat_spec(a as int, b as int, lo as int, hi as int),
{
    proof {
        assert(-0x8000_0000_0000_0000_0000 <= (a as int) * (ONE as int)
            <= 0x8000_0000_0000_0000_0000) by (nonlinear_arith)
            requires
                -0x8000_0000_0000_0000 <= a as int <= 0x8000_0000_0000_0000,
                ONE == 65536,
        ;
    }
    let p: i128 = (a as i128) * (ONE as i128);
    let q: i128 = floor_div(p, b as i128);
    if q < lo as i128 {
        lo
    } else if q > hi as i128 {
        hi
    } else {
        q as i64
    }
}

} // verus!
