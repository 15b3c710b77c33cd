//! Fixed-point decimals: a quantity `q` is stored as the integer `q * SCALE`.

use vstd::prelude::*;

verus! {

/// Number of stored units per whole unit (eight decimal places).
pub const SCALE: i64 = 100_000_000;

/// The largest integer `q` with `q * d <= n`, for a positive divisor.
pub open spec fn floor_div(n: int, d: int) -> int
    recommends
        d > 0,
{
    n / d
}

/// Magnitude of a stored quantity.
pub open spec fn abs_int(x: int) -> int {
    if x < 0 {
        -x
    } else {
        x
    }
}

/// Floor division of a signed numerator by a positive divisor.
pub fn div_floor(n: i128, d: i128) -> (q: i128)
    requires
        d > 0,
    ensures
        q == floor_div(n as int, d as int),
        q * d <= n < q * d + d,
{
    proof {
        vstd::arithmetic::div_mod::lemma_fundamental_div_mod(n as int, d as int);
        vstd::arithmetic::div_mod::lemma_mod_bound(n as int, d as int);
        assert(d * (n / d) == (n / d) * d) by (nonlinear_arith);
    }
    if n >= 0 {
        n / d
    } else {
        let m: i128 = -(n + 1);
        let t: i128 = m / d;
        let q: i128 = -t - 1;
        proof {
            let ni = n as int;
            let di = d as int;
            vstd::arithmetic::div_mod::lemma_fundamental_div_mod(m as int, di);
            vstd::arithmetic::div_mod::lemma_mod_bound(m as int, di);
            assert(di * (m as int / di) == (m as int / di) * di) by (nonlinear_arith);
            // q*d <= n < q*d + d pins q as the floor quotient
            assert(q * di <= ni < q * di + di) by (nonlinear_arith)
                requires
                    q == -t - 1,
                    m == -(ni + 1),
                    m == t * di + (m as int % di),
                    0 <= (m as int % di) < di,
            ;
            vstd::arithmetic::div_mod::lemma_fundamental_div_mod_converse(
                ni,
                di,
                q as int,
                ni - q * di,
            );
        }
        q
    }
}

/// The stored value nearest to `x` that an `i64` can hold.
pub open spec fn saturate(x: int) -> i64 {
    if x < i64::MIN {
        i64::MIN
    } else if x > i64::MAX {
        i64::MAX
    } else {
        x as i64
    }
}

/// Narrows a wide intermediate to a stored value, pinning it at the ends of
/// the representable range.
pub fn saturate_i128(x: i128) -> (r: i64)
    ensures
        r == saturate(x as int),
{
    if x < i64::MIN as i128 {
        i64::MIN
    } else if x > i64::MAX as i128 {
        i64::MAX
    } else {
        x as i64
    }
}

/// Product of two stored quantities, as a stored quantity, rounded down.
pub open spec fn fixed_mul(a: int, b: int) -> int {
    floor_div(a * b, SCALE as int)
}

/// Quotient of two stored quantities, as a stored quantity, rounded down.
pub open spec fn fixed_div(a: int, b: int) -> int
    recommends
        b > 0,
{
    floor_div(a * SCALE, b)
}

/// Exact product of two stored quantities in wide arithmetic.
pub fn wide_mul(a: i64, b: i64) -> (p: i128)
    ensures
        p == a * b,
        -0x4000_0000_0000_0000_0000_0000_0000_0000 <= p <= 0x4000_0000_0000_0000_0000_0000_0000_0000,
{
    proof {
        assert(-0x4000_0000_0000_0000_0000_0000_0000_0000 <= a * b
            <= 0x4000_0000_0000_0000_0000_0000_0000_0000) by (nonlinear_arith)
            requires
                -0x8000_0000_0000_0000 <= a <= 0x7fff_ffff_ffff_ffff,
                -0x8000_0000_0000_0000 <= b <= 0x7fff_ffff_ffff_ffff,
        ;
    }
    (a as i128) * (b as i128)
}

/// `fixed_mul` on stored values, in wide arithmetic.
pub fn mul_fixed(a: i64, b: i64) -> (p: i128)
    ensures
        p == fixed_mul(a as int, b as int),
        -0x4000_0000_0000_0000_0000_0000_0000_0000 <= p <= 0x4000_0000_0000_0000_0000_0000_0000_0000,
{
    let w: i128 = wide_mul(a, b);
    let q: i128 = div_floor(w, SCALE as i128);
    proof {
        assert(-0x4000_0000_0000_0000_0000_0000_0000_0000 <= q
            <= 0x4000_0000_0000_0000_0000_0000_0000_0000) by (nonlinear_arith)
            requires
                q * 100_000_000 <= w < q * 100_000_000 + 100_000_000,
                -0x4000_0000_0000_0000_0000_0000_0000_0000 <= w
                    <= 0x4000_0000_0000_0000_0000_0000_0000_0000,
        ;
    }
    q
}

/// `fixed_div` of a stored value by a positive stored value, in wide
/// arithmetic.
pub fn div_fixed(a: i64, b: i64) -> (q: i128)
    requires
        b > 0,
    ensures
        q == fixed_div(a as int, b as int),
{
    let w: i128 = wide_mul(a, SCALE);
    div_floor(w, b as i128)
}

} // verus!
