use vstd::prelude::*;
use vstd::arithmetic::div_mod::{
    lemma_fundamental_div_mod, lemma_fundamental_div_mod_converse, lemma_div_is_ordered,
    lemma_div_multiples_vanish,
};

verus! {

/// One unit in the fixed-point scale used for model-space coordinates,
/// matrix entries and normal vectors: values carry 10 fractional bits.
pub const FX_ONE: i64 = 1024;

/// Half of `FX_ONE`, used for round-to-nearest when converting a fixed-point
/// coordinate to a whole pixel coordinate.
pub const FX_HALF: i64 = 512;

/// Magnitude bound accepted for fixed-point inputs of the vertex stage;
/// products of two such values still fit comfortably in `i64`.
pub const FX_LIMIT: i64 = 0x40000000;

/// Magnitude bound on whole-pixel vertex coordinates the rasterizer accepts:
/// sixteen times the largest surface dimension on each side. A triangle with
/// a vertex farther out than this is skipped like off-screen geometry, a
/// machine limit that keeps every edge-function product exact in `i64`.
pub const COORD_LIMIT: i64 = 0x1000000;

/// Magnitude bound on normal components the fragment stage accepts.
pub const NORMAL_LIMIT: i64 = 4096;

/// Magnitude bound on light-direction components.
pub const LIGHT_LIMIT: i64 = 0x100000;

/// Floor division: the quotient rounded toward negative infinity, which for a
/// positive divisor coincides with mathematical (Euclidean) integer division.
pub fn div_floor(a: i64, b: i64) -> (q: i64)
    requires
        b > 0,
        a > i64::MIN,
    ensures
        q == a as int / b as int,
{
    if a >= 0 {
        let qu: u64 = (a as u64) / (b as u64);
        qu as i64
    } else {
        let m: u64 = (-a) as u64;
        let qm: u64 = m / (b as u64);
        let rm: u64 = m % (b as u64);
        proof {
            lemma_fundamental_div_mod(m as int, b as int);
        }
        if rm == 0 {
            proof {
                assert(a as int == -(qm as int) * b + 0) by (nonlinear_arith)
                    requires
                        m as int == qm as int * b + rm,
                        rm == 0,
                        a as int == -(m as int),
                ;
                lemma_fundamental_div_mod_converse(a as int, b as int, -(qm as int), 0);
            }
            -(qm as i64)
        } else {
            proof {
                assert(a as int == (-(qm as int) - 1) * b + (b - rm)) by (nonlinear_arith)
                    requires
                        m as int == qm as int * b + rm,
                        a as int == -(m as int),
                ;
                lemma_fundamental_div_mod_converse(
                    a as int,
                    b as int,
                    -(qm as int) - 1,
                    b - rm,
                );
            }
            -(qm as i64) - 1
        }
    }
}

/// Fixed-point product: multiplies two scaled values and rescales, rounding
/// toward negative infinity.
pub fn fx_mul(a: i64, b: i64) -> (r: i64)
    requires
        -FX_LIMIT <= a <= FX_LIMIT,
        -FX_LIMIT <= b <= FX_LIMIT,
    ensures
        r == (a * b) / (FX_ONE as int),
        -0x4000000000000 <= r <= 0x4000000000000,
{
    proof {
        assert(-0x1000000000000000 <= a * b && a * b <= 0x1000000000000000) by (nonlinear_arith)
            requires
                -0x40000000 <= a <= 0x40000000,
                -0x40000000 <= b <= 0x40000000,
        ;
    }
    let p: i64 = a * b;
    proof {
        lemma_div_magnitude_bound(p as int, FX_ONE as int, 0x4000000000000);
    }
    div_floor(p, FX_ONE)
}

/// Whether `r` is the floor of the (real) square root of `n`.
pub open spec fn is_sqrt_floor(n: int, r: int) -> bool {
    &&& 0 <= r
    &&& r * r <= n
    &&& n < (r + 1) * (r + 1)
}

/// The floor of the square root of a nonnegative integer.
pub closed spec fn sqrt_floor(n: int) -> int {
    choose|r: int| is_sqrt_floor(n, r)
}

/// Every nonnegative integer has a square-root floor, and `sqrt_floor`
/// denotes it.
pub proof fn lemma_sqrt_floor_exists(n: int)
    requires
        n >= 0,
    ensures
        is_sqrt_floor(n, sqrt_floor(n)),
    decreases n,
{
    if n == 0 {
        assert(is_sqrt_floor(0, 0));
    } else {
        lemma_sqrt_floor_exists(n - 1);
        let r = sqrt_floor(n - 1);
        if (r + 1) * (r + 1) <= n {
            assert(is_sqrt_floor(n, r + 1)) by (nonlinear_arith)
                requires
                    is_sqrt_floor(n - 1, r),
                    (r + 1) * (r + 1) <= n,
            ;
        } else {
            assert(is_sqrt_floor(n, r));
        }
        assert(exists|s: int| is_sqrt_floor(n, s));
    }
}

/// The square-root floor is unique.
pub proof fn lemma_sqrt_floor_unique(n: int, r: int)
    requires
        is_sqrt_floor(n, r),
    ensures
        r == sqrt_floor(n),
{
    assert(n >= 0) by (nonlinear_arith)
        requires
            is_sqrt_floor(n, r),
    ;
    lemma_sqrt_floor_exists(n);
    let s = sqrt_floor(n);
    assert(r == s) by (nonlinear_arith)
        requires
            is_sqrt_floor(n, r),
            is_sqrt_floor(n, s),
    ;
}

/// Binary-search integer square root.
pub fn isqrt(n: u64) -> (r: u64)
    requires
        n < 0x4000000000000000,
    ensures
        r == sqrt_floor(n as int),
        is_sqrt_floor(n as int, r as int),
{
    let mut lo: u64 = 0;
    let mut hi: u64 = 0x80000000;
    while hi - lo > 1
        invariant
            lo < hi,
            hi <= 0x80000000,
            lo * lo <= n,
            n < hi * hi,
        decreases hi - lo,
    {
        let mid: u64 = lo + (hi - lo) / 2;
        proof {
            assert(mid * mid <= 0x4000000000000000) by (nonlinear_arith)
                requires
                    mid <= 0x80000000,
            ;
        }
        if mid * mid <= n {
            lo = mid;
        } else {
            hi = mid;
        }
    }
    proof {
        lemma_sqrt_floor_unique(n as int, lo as int);
    }
    lo
}

/// A quotient does not exceed any multiple bound: if `0 <= a <= b * c` with
/// `b > 0` and `c >= 0`, then `a / b <= c`.
pub proof fn lemma_div_le_multiple(a: int, b: int, c: int)
    requires
        b > 0,
        c >= 0,
        0 <= a,
        a <= b * c,
    ensures
        0 <= a / b <= c,
{
    lemma_div_is_ordered(a, b * c, b);
    lemma_div_multiples_vanish(c, b);
    assert(a / b >= 0) by (nonlinear_arith)
        requires
            a >= 0,
            b > 0,
    ;
}

/// A quotient of a value bounded in magnitude by `b * c` is bounded in
/// magnitude by `c`.
pub proof fn lemma_div_magnitude_bound(a: int, b: int, c: int)
    requires
        b > 0,
        c >= 0,
        -(b * c) <= a <= b * c,
    ensures
        -c <= a / b <= c,
{
    lemma_div_is_ordered(a, b * c, b);
    lemma_div_is_ordered(-(b * c), a, b);
    lemma_div_multiples_vanish(c, b);
    lemma_div_multiples_vanish(-c, b);
    assert(b * -c == -(b * c)) by (nonlinear_arith);
}

} // verus!
