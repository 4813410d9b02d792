//! Fixed-point numeric core.
//!
//! Every scalar of the library is an `i64` holding a value in thousandths: a
//! raw value `v` stands for the real number `v / SCALE`. All geometry is done
//! exactly on these integers (widening to `i128` for intermediates), so the
//! contracts below pin each result down to the unit in the last place.

use vstd::arithmetic::div_mod::lemma_div_is_ordered;
use vstd::arithmetic::div_mod::lemma_div_nonincreasing;
use vstd::arithmetic::div_mod::lemma_fundamental_div_mod;
use vstd::arithmetic::div_mod::lemma_fundamental_div_mod_converse;
use vstd::prelude::*;

verus! {

/// One whole unit: a raw scalar of `SCALE` stands for the real number 1.
pub const SCALE: i64 = 1000;

/// Largest magnitude allowed for a coordinate, direction component or radius
/// (2000 whole units). Keeps every quartic intermediate of the sphere
/// quadratic well inside `i128`.
pub const COORD_LIMIT: i64 = 2_000_000;

/// Largest magnitude allowed for a ray parameter `t` (a billion whole
/// units); used as the stand-in for an unbounded upper search range.
pub const T_LIMIT: i64 = 1_000_000_000_000;

/// Largest magnitude allowed for a ray origin or hit point (8000 whole
/// units): a hit on a sphere of extreme center and radius can lie this far
/// out.
pub const ORIGIN_LIMIT: i64 = 8_000_000;

/// A raw scalar small enough to serve as a coordinate, direction component
/// or radius.
pub open spec fn in_coord(v: int) -> bool {
    -COORD_LIMIT <= v <= COORD_LIMIT
}

/// A raw scalar small enough to serve as a ray origin or hit point
/// coordinate.
pub open spec fn in_origin(v: int) -> bool {
    -ORIGIN_LIMIT <= v <= ORIGIN_LIMIT
}

/// Widening product of two bounded scalars, exact.
pub fn mul_wide(a: i64, b: i64) -> (r: i128)
    requires
        -3_000_000_000_000 <= a <= 3_000_000_000_000,
        -3_000_000_000_000 <= b <= 3_000_000_000_000,
    ensures
        r == a * b,
        -9_000_000_000_000_000_000_000_000 <= r <= 9_000_000_000_000_000_000_000_000,
{
    proof {
        assert(-9_000_000_000_000_000_000_000_000 <= (a as int) * (b as int)
            <= 9_000_000_000_000_000_000_000_000) by (nonlinear_arith)
            requires
                -3_000_000_000_000 <= a as int <= 3_000_000_000_000,
                -3_000_000_000_000 <= b as int <= 3_000_000_000_000,
        ;
    }
    (a as i128) * (b as i128)
}

/// Floor of the real square root of `n`, defined by counting up.
pub open spec fn sqrt_floor(n: nat) -> nat
    decreases n,
{
    if n == 0 {
        0
    } else {
        let r = sqrt_floor((n - 1) as nat);
        if (r + 1) * (r + 1) <= n {
            r + 1
        } else {
            r
        }
    }
}

/// `sqrt_floor(n)` squares to at most `n` while the next square is beyond
/// `n`.
pub proof fn lemma_sqrt_floor(n: nat)
    ensures
        sqrt_floor(n) * sqrt_floor(n) <= n,
        n < (sqrt_floor(n) + 1) * (sqrt_floor(n) + 1),
    decreases n,
{
    if n == 0 {
        assert(sqrt_floor(0) == 0);
        assert(0 * 0 <= 0 && 0 < (0 + 1) * (0 + 1)) by (nonlinear_arith);
    } else {
        lemma_sqrt_floor((n - 1) as nat);
        let r = sqrt_floor((n - 1) as nat);
        assert(r * r <= n - 1);
        assert(n - 1 < (r + 1) * (r + 1));
        if (r + 1) * (r + 1) <= n {
            assert(sqrt_floor(n) == r + 1);
            assert(n < (r + 1 + 1) * (r + 1 + 1)) by (nonlinear_arith)
                requires
                    n <= (r + 1) * (r + 1),
                    r >= 0,
            ;
        } else {
            assert(sqrt_floor(n) == r);
        }
    }
}

/// Any integer squeezed between the same two squares equals `sqrt_floor(n)`.
pub proof fn lemma_sqrt_floor_unique(n: nat, r: nat)
    requires
        r * r <= n,
        n < (r + 1) * (r + 1),
    ensures
        r == sqrt_floor(n),
{
    lemma_sqrt_floor(n);
    let s = sqrt_floor(n);
    if r < s {
        assert((r + 1) * (r + 1) <= s * s) by (nonlinear_arith)
            requires
                r < s,
        ;
    }
    if s < r {
        assert((s + 1) * (s + 1) <= r * r) by (nonlinear_arith)
            requires
                s < r,
        ;
    }
}

/// Integer square root by bisection.
pub fn isqrt(n: u128) -> (r: u128)
    requires
        n < 85070591730234615865843651857942052864,
    ensures
        r == sqrt_floor(n as nat),
        r * r <= n,
        n < (r + 1) * (r + 1),
{
    if n == 0 {
        proof {
            assert(0 * 0 <= 0 && 0 < (0 + 1) * (0 + 1)) by (nonlinear_arith);
            lemma_sqrt_floor_unique(0, 0);
        }
        return 0;
    }
    let mut lo: u128 = 0;
    let mut hi: u128 = 9223372036854775808;
    assert(hi * hi == 85070591730234615865843651857942052864);
    while lo + 1 < hi
        invariant
            lo < hi,
            hi <= 9223372036854775808,
            lo * lo <= n,
            (n as nat) < hi * hi,
        decreases hi - lo,
    {
        let mid = lo + (hi - lo) / 2;
        assert(mid * mid < 85070591730234615865843651857942052864) by (nonlinear_arith)
            requires
                0 <= mid < 9223372036854775808,
        ;
        if mid * mid <= n {
            lo = mid;
        } else {
            hi = mid;
        }
    }
    proof {
        lemma_sqrt_floor_unique(n as nat, lo as nat);
    }
    lo
}

/// Division rounding toward minus infinity, on a positive divisor; matches
/// mathematical integer division exactly.
pub fn div_floor(a: i128, b: i128) -> (q: i128)
    requires
        0 < b,
        -170141183460469231731687303715884105727 <= a,
    ensures
        q == a as int / b as int,
        a >= 0 ==> 0 <= q <= a,
        a < 0 ==> a <= q <= 0,
{
    if a >= 0 {
        let q = (a as u128) / (b as u128);
        proof {
            lemma_div_nonincreasing(a as int, b as int);
        }
        q as i128
    } else {
        let n = (-a) as u128;
        let d = b as u128;
        let q0 = (n + d - 1) / d;
        proof {
            let ni = n as int;
            let di = d as int;
            let qi = q0 as int;
            lemma_fundamental_div_mod(ni + di - 1, di);
            assert(ni <= qi * di < ni + di) by (nonlinear_arith)
                requires
                    di > 0,
                    ni > 0,
                    (ni + di - 1) == di * qi + (ni + di - 1) % di,
                    0 <= (ni + di - 1) % di < di,
            ;
            assert(qi <= ni) by (nonlinear_arith)
                requires
                    di >= 1,
                    ni >= 1,
                    qi >= 0,
                    qi * di < ni + di,
            ;
            assert((-qi) * di == -(qi * di)) by (nonlinear_arith);
            lemma_fundamental_div_mod_converse(a as int, di, -qi, qi * di - ni);
        }
        -(q0 as i128)
    }
}

/// Fixed-point product: the exact real product, rounded toward minus
/// infinity to the grid.
pub fn fx_mul(a: i64, b: i64) -> (r: i64)
    requires
        -3_000_000_000 <= a <= 3_000_000_000,
        -3_000_000_000 <= b <= 3_000_000_000,
    ensures
        r == (a * b) as int / (SCALE as int),
        a * b >= 0 ==> 0 <= r <= a * b,
        a * b < 0 ==> a * b <= r <= 0,
{
    proof {
        assert(-9_000_000_000_000_000_000 <= (a as int) * (b as int) <= 9_000_000_000_000_000_000)
            by (nonlinear_arith)
            requires
                -3_000_000_000 <= a as int <= 3_000_000_000,
                -3_000_000_000 <= b as int <= 3_000_000_000,
        ;
    }
    let p: i128 = (a as i128) * (b as i128);
    let q = div_floor(p, SCALE as i128);
    proof {
        lemma_div_is_ordered(p as int, 9_000_000_000_000_000_000, SCALE as int);
        lemma_div_is_ordered(-9_000_000_000_000_000_000, p as int, SCALE as int);
    }
    q as i64
}

/// Fixed-point quotient `a / b` (result on the grid, rounded toward minus
/// infinity), on a positive divisor.
pub fn fx_div(a: i64, b: i64) -> (r: i64)
    requires
        0 < b,
        -3_000_000_000_000 <= a <= 3_000_000_000_000,
    ensures
        r == a * (SCALE as int) / (b as int),
        a >= 0 ==> 0 <= r <= a * SCALE,
        a < 0 ==> a * SCALE <= r <= 0,
{
    proof {
        assert(-3_000_000_000_000_000 <= (a as int) * (SCALE as int) <= 3_000_000_000_000_000)
            by (nonlinear_arith)
            requires
                -3_000_000_000_000 <= a as int <= 3_000_000_000_000,
                SCALE == 1000,
        ;
    }
    let p: i128 = (a as i128) * (SCALE as i128);
    let q = div_floor(p, b as i128);
    q as i64
}

/// A product of two symmetrically bounded factors is bounded by the
/// product of the bounds.
pub proof fn lemma_abs_mul_bound(a: int, b: int, m: int, n: int)
    requires
        -m <= a <= m,
        -n <= b <= n,
        0 <= m,
        0 <= n,
    ensures
        -(m * n) <= a * b <= m * n,
{
    assert(-(m * n) <= a * b <= m * n) by (nonlinear_arith)
        requires
            -m <= a <= m,
            -n <= b <= n,
            0 <= m,
            0 <= n,
    ;
}

/// A square is never negative.
pub proof fn lemma_square_nonneg(a: int)
    ensures
        a * a >= 0,
{
    assert(a * a >= 0) by (nonlinear_arith);
}

/// A value whose square is at most another square is bounded by the other
/// value.
pub proof fn lemma_square_le(u: int, m: int)
    requires
        u * u <= m * m,
        0 <= m,
    ensures
        -m <= u <= m,
{
    assert(-m <= u <= m) by (nonlinear_arith)
        requires
            u * u <= m * m,
            0 <= m,
    ;
}

/// A value whose square is beneath another square is strictly bounded by
/// the other value.
pub proof fn lemma_square_lt(u: int, m: int)
    requires
        u * u < m * m,
        0 <= m,
    ensures
        -m < u < m,
{
    assert(-m < u < m) by (nonlinear_arith)
        requires
            u * u < m * m,
            0 <= m,
    ;
}

/// Dividing by the scale shrinks a symmetric bound by the scale.
pub proof fn lemma_div_scaled_bound(a: int, q: int)
    requires
        0 <= q,
        -SCALE * q <= a <= SCALE * q,
    ensures
        -q <= a / (SCALE as int) <= q,
{
    lemma_fundamental_div_mod(a, SCALE as int);
    if a >= 0 {
        lemma_div_le(a, SCALE as int, q);
        assert(a / (SCALE as int) >= 0) by (nonlinear_arith)
            requires
                a >= 0,
                SCALE == 1000,
                a == (SCALE as int) * (a / (SCALE as int)) + a % (SCALE as int),
                0 <= a % (SCALE as int) < (SCALE as int),
        ;
    } else {
        assert((SCALE as int) * (-q) == (-SCALE) * q && (SCALE as int) * (-q) == -(SCALE * q))
            by (nonlinear_arith);
        lemma_div_ge(a, SCALE as int, -q);
        assert(a / (SCALE as int) <= 0) by (nonlinear_arith)
            requires
                a < 0,
                SCALE == 1000,
                a == (SCALE as int) * (a / (SCALE as int)) + a % (SCALE as int),
                0 <= a % (SCALE as int) < (SCALE as int),
        ;
    }
}

/// A quotient is at most `c` when the dividend is at most `b * c`.
pub proof fn lemma_div_le(a: int, b: int, c: int)
    requires
        0 < b,
        0 <= a <= b * c,
    ensures
        a / b <= c,
{
    lemma_fundamental_div_mod(a, b);
    assert(a / b <= c) by (nonlinear_arith)
        requires
            b > 0,
            a == b * (a / b) + a % b,
            0 <= a % b,
            a <= b * c,
    ;
}

/// A quotient is at least `c` when the dividend is at least `b * c`.
pub proof fn lemma_div_ge(a: int, b: int, c: int)
    requires
        0 < b,
        b * c <= a,
    ensures
        a / b >= c,
{
    lemma_fundamental_div_mod(a, b);
    assert(a / b >= c) by (nonlinear_arith)
        requires
            b > 0,
            a == b * (a / b) + a % b,
            a % b < b,
            a >= b * c,
    ;
}

} // verus!
