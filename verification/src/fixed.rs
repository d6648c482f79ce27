//! Fixed-point arithmetic on scaled 64-bit integers.
//!
//! A quantity `1.0` is represented as `SCALE`; a price of `100.25` is
//! `1_002_500`. Multiplication and division rescale with truncating
//! (round-toward-zero) integer division, the same rule `tdiv` states in
//! specifications.

use vstd::prelude::*;

verus! {

/// Number of fixed-point units in one whole: four decimal places.
pub const SCALE: i64 = 10_000;

/// Truncating (round-toward-zero) division, defined for positive divisors.
/// This is the division the executable code performs on scaled values.
pub open spec fn tdiv(a: int, b: int) -> int {
    if a >= 0 {
        a / b
    } else {
        -((-a) / b)
    }
}

proof fn lemma_nat_div_le(m: u128, b: u128)
    requires
        b >= 1,
    ensures
        m / b <= m,
{
    assert(m / b <= m) by (nonlinear_arith)
        requires b >= 1,
    ;
}

/// Truncating division of a 128-bit value by a positive divisor.
pub fn div_i128(a: i128, b: i128) -> (r: i128)
    requires
        b > 0,
        a != i128::MIN,
    ensures
        r == tdiv(a as int, b as int),
{
    if a >= 0 {
        let q: u128 = (a as u128) / (b as u128);
        proof {
            lemma_nat_div_le(a as u128, b as u128);
        }
        q as i128
    } else {
        let m: u128 = (-a) as u128;
        let q: u128 = m / (b as u128);
        proof {
            lemma_nat_div_le(m, b as u128);
        }
        -(q as i128)
    }
}

/// The scaled product of two fixed-point values, as the executable
/// multiplication computes it.
pub open spec fn fx_mul_spec(a: int, b: int) -> int {
    tdiv(a * b, SCALE as int)
}

/// The scaled quotient of two fixed-point values, as the executable
/// division computes it.
pub open spec fn fx_div_spec(a: int, b: int) -> int {
    tdiv(a * (SCALE as int), b)
}

/// Fixed-point multiplication: `a * b / SCALE`, truncating.
pub fn fx_mul(a: i64, b: i64) -> (r: i64)
    requires
        i64::MIN <= fx_mul_spec(a as int, b as int) <= i64::MAX,
    ensures
        r == fx_mul_spec(a as int, b as int),
{
    let p: i128 = (a as i128) * (b as i128);
    let q: i128 = div_i128(p, SCALE as i128);
    q as i64
}

/// Fixed-point division: `a * SCALE / b`, truncating; the divisor must be
/// positive.
pub fn fx_div(a: i64, b: i64) -> (r: i64)
    requires
        b > 0,
        i64::MIN <= fx_div_spec(a as int, b as int) <= i64::MAX,
    ensures
        r == fx_div_spec(a as int, b as int),
{
    let p: i128 = (a as i128) * (SCALE as i128);
    let q: i128 = div_i128(p, b as i128);
    q as i64
}

/// Whether a mathematical value fits the 64-bit fixed-point range.
pub open spec fn in_i64(v: int) -> bool {
    i64::MIN <= v <= i64::MAX
}

/// Checked fixed-point multiplication at the specification level: `None`
/// exactly when the scaled product leaves the representable range.
pub open spec fn cmul(a: int, b: int) -> Option<int> {
    if in_i64(fx_mul_spec(a, b)) {
        Some(fx_mul_spec(a, b))
    } else {
        None
    }
}

/// Checked fixed-point division at the specification level (positive
/// divisor): `None` exactly when the scaled quotient leaves the range.
pub open spec fn cdiv(a: int, b: int) -> Option<int> {
    if in_i64(fx_div_spec(a, b)) {
        Some(fx_div_spec(a, b))
    } else {
        None
    }
}

/// An executable option of scaled values agrees with a specification-level
/// checked result.
pub open spec fn opt_match(r: Option<i64>, m: Option<int>) -> bool {
    match (r, m) {
        (Some(x), Some(y)) => x as int == y,
        (None, None) => true,
        _ => false,
    }
}

/// The product of two 64-bit values fits the 128-bit range.
pub proof fn lemma_i64_prod(a: int, b: int)
    requires
        i64::MIN <= a <= i64::MAX,
        i64::MIN <= b <= i64::MAX,
    ensures
        i128::MIN < a * b <= i128::MAX,
{
    assert(i128::MIN < a * b <= i128::MAX) by (nonlinear_arith)
        requires
            i64::MIN <= a <= i64::MAX,
            i64::MIN <= b <= i64::MAX,
    ;
}

/// Checked fixed-point multiplication.
pub fn cfx_mul(a: i64, b: i64) -> (r: Option<i64>)
    ensures
        opt_match(r, cmul(a as int, b as int)),
{
    proof {
        lemma_i64_prod(a as int, b as int);
    }
    let p: i128 = (a as i128) * (b as i128);
    let q: i128 = div_i128(p, SCALE as i128);
    if i64::MIN as i128 <= q && q <= i64::MAX as i128 {
        Some(q as i64)
    } else {
        None
    }
}

/// Checked fixed-point division by a positive divisor.
pub fn cfx_div(a: i64, b: i64) -> (r: Option<i64>)
    requires
        b > 0,
    ensures
        opt_match(r, cdiv(a as int, b as int)),
{
    proof {
        lemma_i64_prod(a as int, SCALE as int);
    }
    let p: i128 = (a as i128) * (SCALE as i128);
    let q: i128 = div_i128(p, b as i128);
    if i64::MIN as i128 <= q && q <= i64::MAX as i128 {
        Some(q as i64)
    } else {
        None
    }
}

/// Clamp a mathematical value into the 64-bit range. The endpoints serve as
/// the library's saturation sentinels for "positive infinity" and "negative
/// infinity" readings.
pub open spec fn sat_i64(v: int) -> int {
    if v > i64::MAX {
        i64::MAX as int
    } else if v < i64::MIN {
        i64::MIN as int
    } else {
        v
    }
}

/// Clamp a 128-bit value into the 64-bit range.
pub fn clamp_i64(v: i128) -> (r: i64)
    ensures
        r as int == sat_i64(v as int),
{
    if v > i64::MAX as i128 {
        i64::MAX
    } else if v < i64::MIN as i128 {
        i64::MIN
    } else {
        v as i64
    }
}

/// Saturating fixed-point multiplication at the specification level.
pub open spec fn mul_sat(a: int, b: int) -> int {
    sat_i64(fx_mul_spec(a, b))
}

/// Saturating fixed-point power with a non-negative base: `SCALE` (one) at
/// exponent zero, then one saturating multiplication per step.
pub open spec fn pow_sat(b: int, n: nat) -> int
    decreases n,
{
    if n == 0 {
        SCALE as int
    } else {
        mul_sat(pow_sat(b, (n - 1) as nat), b)
    }
}

/// Saturating fixed-point multiplication.
pub fn fx_mul_sat(a: i64, b: i64) -> (r: i64)
    ensures
        r as int == mul_sat(a as int, b as int),
{
    proof {
        lemma_i64_prod(a as int, b as int);
    }
    let p: i128 = (a as i128) * (b as i128);
    let q: i128 = div_i128(p, SCALE as i128);
    clamp_i64(q)
}

/// Saturating fixed-point power.
pub fn fx_pow_sat(b: i64, n: u64) -> (r: i64)
    ensures
        r as int == pow_sat(b as int, n as nat),
{
    let mut acc: i64 = SCALE;
    let mut k: u64 = 0;
    while k < n
        invariant
            0 <= k <= n,
            acc as int == pow_sat(b as int, k as nat),
        decreases n - k,
    {
        acc = fx_mul_sat(acc, b);
        k = k + 1;
    }
    acc
}

/// Truncating division keeps a symmetric bound: if `|a| <= b * c` then
/// `|a / b| <= c`.
pub proof fn lemma_tdiv_bound(a: int, b: int, c: int)
    requires
        b > 0,
        c >= 0,
        -(b * c) <= a <= b * c,
    ensures
        -c <= tdiv(a, b) <= c,
{
    if a >= 0 {
        vstd::arithmetic::div_mod::lemma_div_is_ordered(a, b * c, b);
        vstd::arithmetic::div_mod::lemma_div_multiples_vanish(c, b);
        vstd::arithmetic::div_mod::lemma_div_pos_is_pos(a, b);
    } else {
        vstd::arithmetic::div_mod::lemma_div_is_ordered(-a, b * c, b);
        vstd::arithmetic::div_mod::lemma_div_multiples_vanish(c, b);
        vstd::arithmetic::div_mod::lemma_div_pos_is_pos(-a, b);
    }
}

/// One-sided bound: if `a >= -(b * c)` then `a / b >= -c`.
pub proof fn lemma_tdiv_lower(a: int, b: int, c: int)
    requires
        b > 0,
        c >= 0,
        a >= -(b * c),
    ensures
        tdiv(a, b) >= -c,
{
    if a >= 0 {
        vstd::arithmetic::div_mod::lemma_div_pos_is_pos(a, b);
    } else {
        vstd::arithmetic::div_mod::lemma_div_is_ordered(-a, b * c, b);
        vstd::arithmetic::div_mod::lemma_div_multiples_vanish(c, b);
    }
}

/// One-sided bound: if `a <= b * c` then `a / b <= c`.
pub proof fn lemma_tdiv_upper(a: int, b: int, c: int)
    requires
        b > 0,
        c >= 0,
        a <= b * c,
    ensures
        tdiv(a, b) <= c,
{
    if a >= 0 {
        vstd::arithmetic::div_mod::lemma_div_is_ordered(a, b * c, b);
        vstd::arithmetic::div_mod::lemma_div_multiples_vanish(c, b);
    } else {
        vstd::arithmetic::div_mod::lemma_div_pos_is_pos(-a, b);
    }
}

/// Truncating division of a non-negative value is non-negative and no
/// larger than the dividend.
pub proof fn lemma_tdiv_nonneg(a: int, b: int)
    requires
        a >= 0,
        b > 0,
    ensures
        0 <= tdiv(a, b) <= a,
{
    vstd::arithmetic::div_mod::lemma_div_basics_4(a, b);
    vstd::arithmetic::div_mod::lemma_div_basics_5(a, b);
}

/// The high-precision scale used inside compound-growth calculations:
/// eight decimal places.
pub const SCALE_HI: i64 = 100_000_000;

/// Cap on high-precision intermediates: one ten-billion-fold growth.
pub const HI_CAP: i64 = 1_000_000_000_000_000_000;

/// High-precision saturating multiplication over non-negative values.
pub open spec fn mul_hi(a: int, b: int) -> int {
    let v = tdiv(a * b, SCALE_HI as int);
    if v > HI_CAP as int {
        HI_CAP as int
    } else {
        v
    }
}

/// High-precision saturating power of a non-negative base.
pub open spec fn pow_hi(b: int, n: nat) -> int
    decreases n,
{
    if n == 0 {
        SCALE_HI as int
    } else {
        mul_hi(pow_hi(b, (n - 1) as nat), b)
    }
}

/// High-precision saturating power.
pub fn fx_pow_hi(b: i128, n: u64) -> (r: i128)
    requires
        0 <= b <= HI_CAP as int,
    ensures
        r as int == pow_hi(b as int, n as nat),
        0 <= r <= HI_CAP as int,
{
    proof {
        lemma_pow_hi_range(b as int, n as nat);
    }
    let mut acc: i128 = SCALE_HI as i128;
    let mut k: u64 = 0;
    while k < n
        invariant
            0 <= k <= n,
            0 <= b <= HI_CAP as int,
            acc as int == pow_hi(b as int, k as nat),
            0 <= acc <= HI_CAP as int,
        decreases n - k,
    {
        proof {
            assert(0 <= acc as int * (b as int)
                && acc as int * (b as int) <= 1_000_000_000_000_000_000_000_000_000_000_000_000)
                by (nonlinear_arith)
                requires
                    0 <= acc as int <= 1_000_000_000_000_000_000,
                    0 <= b as int <= 1_000_000_000_000_000_000,
            ;
        }
        let p: i128 = acc * b;
        let q: i128 = div_i128(p, SCALE_HI as i128);
        proof {
            lemma_tdiv_nonneg(acc as int * (b as int), SCALE_HI as int);
        }
        acc = if q > HI_CAP as i128 { HI_CAP as i128 } else { q };
        k = k + 1;
    }
    acc
}

/// A high-precision power of a value in range stays in range.
pub proof fn lemma_pow_hi_range(b: int, n: nat)
    requires
        0 <= b <= HI_CAP as int,
    ensures
        0 <= pow_hi(b, n) <= HI_CAP as int,
    decreases n,
{
    if n > 0 {
        lemma_pow_hi_range(b, (n - 1) as nat);
        assert(pow_hi(b, (n - 1) as nat) * b >= 0) by (nonlinear_arith)
            requires
                pow_hi(b, (n - 1) as nat) >= 0,
                b >= 0,
        ;
        lemma_tdiv_nonneg(pow_hi(b, (n - 1) as nat) * b, SCALE_HI as int);
    }
}

/// Binary search for the largest high-precision value whose power does not
/// exceed `x`, mirrored step for step by the executable search.
pub open spec fn root_hi_search(x: int, n: nat, lo: int, hi: int) -> int
    decreases hi - lo,
{
    if hi - lo <= 1 {
        lo
    } else {
        let mid = lo + (hi - lo) / 2;
        if pow_hi(mid, n) <= x {
            root_hi_search(x, n, mid, hi)
        } else {
            root_hi_search(x, n, lo, mid)
        }
    }
}

/// The high-precision `n`-th root, as the executable search computes it.
pub open spec fn fx_root_hi_spec(x: int, n: nat) -> int {
    root_hi_search(x, n, 0, if x + 2 > HI_CAP as int + 1 { HI_CAP as int + 1 } else { x + 2 })
}

/// High-precision `n`-th root of a non-negative value by binary search
/// over the saturating power.
pub fn fx_root_hi(x: i128, n: u64) -> (r: i128)
    requires
        0 <= x <= HI_CAP as int,
    ensures
        r as int == fx_root_hi_spec(x as int, n as nat),
        0 <= r <= HI_CAP as int,
{
    let ghost hi0: int = if x as int + 2 > HI_CAP as int + 1 { HI_CAP as int + 1 } else { x as int + 2 };
    let mut lo: i128 = 0;
    let mut hi: i128 = if x >= HI_CAP as i128 - 1 {
        HI_CAP as i128 + 1
    } else {
        x + 2
    };
    proof {
        assert(hi as int == hi0);
    }
    while hi - lo > 1
        invariant
            0 <= lo < hi,
            hi <= HI_CAP as int + 1,
            root_hi_search(x as int, n as nat, lo as int, hi as int)
                == root_hi_search(x as int, n as nat, 0, hi0),
        decreases hi - lo,
    {
        let mid: i128 = lo + (hi - lo) / 2;
        let p: i128 = fx_pow_hi(mid, n);
        if p <= x {
            proof {
                assert(root_hi_search(x as int, n as nat, lo as int, hi as int)
                    == root_hi_search(x as int, n as nat, mid as int, hi as int));
            }
            lo = mid;
        } else {
            proof {
                assert(root_hi_search(x as int, n as nat, lo as int, hi as int)
                    == root_hi_search(x as int, n as nat, lo as int, mid as int));
            }
            hi = mid;
        }
    }
    proof {
        assert(root_hi_search(x as int, n as nat, lo as int, hi as int) == lo as int);
    }
    lo
}

/// Binary search for the integer square root, mirrored step for step by the
/// executable search.
pub open spec fn sqrt_search(x: int, lo: int, hi: int) -> int
    decreases hi - lo,
{
    if hi - lo <= 1 {
        lo
    } else {
        let mid = lo + (hi - lo) / 2;
        if mid * mid <= x {
            sqrt_search(x, mid, hi)
        } else {
            sqrt_search(x, lo, mid)
        }
    }
}

/// The integer square root of a non-negative value within the square of the
/// 64-bit range.
pub open spec fn isqrt_spec(x: int) -> int {
    sqrt_search(x, 0, if x + 2 > i64::MAX + 1 { i64::MAX + 1 } else { x + 2 })
}

/// The search result is the floor of the square root.
pub proof fn lemma_sqrt_search(x: int, lo: int, hi: int)
    requires
        0 <= lo < hi,
        lo * lo <= x,
        hi * hi > x,
    ensures
        lo <= sqrt_search(x, lo, hi) < hi,
        sqrt_search(x, lo, hi) * sqrt_search(x, lo, hi) <= x,
        (sqrt_search(x, lo, hi) + 1) * (sqrt_search(x, lo, hi) + 1) > x,
    decreases hi - lo,
{
    if hi - lo <= 1 {
    } else {
        let mid = lo + (hi - lo) / 2;
        if mid * mid <= x {
            lemma_sqrt_search(x, mid, hi);
        } else {
            lemma_sqrt_search(x, lo, mid);
        }
    }
}

/// The floor of the square root: `r * r <= x < (r + 1) * (r + 1)`.
pub proof fn lemma_isqrt(x: int)
    requires
        0 <= x <= i64::MAX as int * i64::MAX as int,
    ensures
        isqrt_spec(x) * isqrt_spec(x) <= x,
        (isqrt_spec(x) + 1) * (isqrt_spec(x) + 1) > x,
        isqrt_spec(x) >= 0,
{
    let hi = if x + 2 > i64::MAX + 1 { i64::MAX + 1int } else { x + 2 };
    assert(hi * hi > x) by (nonlinear_arith)
        requires
            hi == (if x + 2 > i64::MAX + 1 { i64::MAX + 1int } else { x + 2 }),
            0 <= x <= i64::MAX as int * i64::MAX as int,
    ;
    lemma_sqrt_search(x, 0, hi);
}

/// Integer square root of a non-negative 128-bit value no larger than the
/// square of the largest 64-bit value.
pub fn isqrt_i128(x: i128) -> (r: i64)
    requires
        0 <= x,
        x <= i64::MAX as int * i64::MAX as int,
    ensures
        r as int == isqrt_spec(x as int),
        r >= 0,
{
    let ghost hi0: int = if x + 2 > i64::MAX + 1 { i64::MAX as int + 1 } else { x as int + 2 };
    let mut lo: i128 = 0;
    let mut hi: i128 = if x >= i64::MAX as i128 {
        i64::MAX as i128 + 1
    } else {
        x + 2
    };
    proof {
        assert(hi as int == hi0);
    }
    while hi - lo > 1
        invariant
            0 <= lo < hi,
            hi <= i64::MAX as int + 1,
            sqrt_search(x as int, lo as int, hi as int) == sqrt_search(x as int, 0, hi0),
        decreases hi - lo,
    {
        let mid: i128 = lo + (hi - lo) / 2;
        proof {
            assert(mid as int * mid as int <= i128::MAX as int) by (nonlinear_arith)
                requires
                    0 <= (mid as int) <= i64::MAX as int,
            ;
        }
        if mid * mid <= x {
            proof {
                assert(sqrt_search(x as int, lo as int, hi as int)
                    == sqrt_search(x as int, mid as int, hi as int));
            }
            lo = mid;
        } else {
            proof {
                assert(sqrt_search(x as int, lo as int, hi as int)
                    == sqrt_search(x as int, lo as int, mid as int));
            }
            hi = mid;
        }
    }
    proof {
        lemma_isqrt(x as int);
        assert(sqrt_search(x as int, lo as int, hi as int) == lo as int);
        assert(lo as int == isqrt_spec(x as int));
    }
    lo as i64
}

} // verus!
