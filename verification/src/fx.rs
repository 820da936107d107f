//! Fixed-point scalars.
//!
//! A scalar is an `i64` raw value denoting `raw / FX_ONE` world units.
//! Addition and subtraction are exact; multiplication and division round
//! toward negative infinity on the lattice, and their results are pinned
//! exactly by the spec functions below.

use vstd::prelude::*;

verus! {

/// Raw value of the scalar one: the lattice has `FX_ONE` steps per world unit.
pub const FX_ONE: i64 = 65536;

/// Largest raw magnitude allowed for a coordinate, direction component,
/// radius or color channel.  Keeping coordinates within this bound lets every
/// intermediate product in the geometry kernel fit in `i128`.
pub const COORD_MAX: i64 = 0x1000_0000;

/// Raw padding added on every side of a primitive's bounding box, so that a
/// reported hit point lies strictly inside the box even after lattice
/// rounding.
pub const BOX_PAD: i64 = 8;

/// True of raw values that may serve as coordinates.
pub open spec fn in_coord(x: int) -> bool {
    -COORD_MAX <= x <= COORD_MAX
}

/// What fixed-point multiplication returns: the exact product scaled down,
/// rounded toward negative infinity.
pub open spec fn fx_mul_spec(a: int, b: int) -> int {
    (a * b) / (FX_ONE as int)
}

/// What fixed-point division returns for a nonzero divisor: the scaled
/// quotient, rounded toward negative infinity for a positive divisor and
/// toward positive infinity for a negative one.
pub open spec fn fx_div_spec(a: int, b: int) -> int {
    if b > 0 {
        (a * (FX_ONE as int)) / b
    } else {
        -((a * (FX_ONE as int)) / (-b))
    }
}

/// Quotient of `a` by `b`, rounded toward negative infinity (`b != 0`).
pub open spec fn floor_div(a: int, b: int) -> int {
    if b > 0 {
        a / b
    } else {
        -(a / (-b))
    }
}

/// Quotient of `a` by `b > 0`, rounded toward positive infinity.
pub open spec fn ceil_div(a: int, b: int) -> int {
    -((-a) / b)
}

/// Negating a dividend turns a floor quotient into a ceiling quotient.
proof fn lemma_neg_div(m: int, b: int)
    requires
        b > 0,
        m >= 0,
    ensures
        m % b == 0 ==> (-m) / b == -(m / b),
        m % b != 0 ==> (-m) / b == -(m / b) - 1,
{
    vstd::arithmetic::div_mod::lemma_fundamental_div_mod(m, b);
    vstd::arithmetic::div_mod::lemma_fundamental_div_mod(-m, b);
    vstd::arithmetic::div_mod::lemma_mod_division_less_than_divisor(m, b);
    vstd::arithmetic::div_mod::lemma_mod_division_less_than_divisor(-m, b);
    let q1 = (-m) / b;
    let r1 = (-m) % b;
    let q2 = m / b;
    let r2 = m % b;
    if r2 == 0 {
        assert(q1 == -q2) by (nonlinear_arith)
            requires
                b * q1 + r1 == -m,
                b * q2 + r2 == m,
                r2 == 0,
                0 <= r1 < b,
                b > 0,
        ;
    } else {
        assert(q1 == -q2 - 1) by (nonlinear_arith)
            requires
                b * q1 + r1 == -m,
                b * q2 + r2 == m,
                0 <= r1 < b,
                0 < r2 < b,
                b > 0,
        ;
    }
}

/// Floor division of `i128` values with a positive divisor.
pub fn div_floor_i128(a: i128, b: i128) -> (r: i128)
    requires
        b > 0,
        -0x4000_0000_0000_0000_0000_0000_0000_0000 <= a,
    ensures
        r == a as int / b as int,
        a >= 0 ==> 0 <= r <= a,
        a < 0 ==> a <= r <= 0,
{
    if a >= 0 {
        proof {
            vstd::arithmetic::div_mod::lemma_div_pos_is_pos(a as int, b as int);
            vstd::arithmetic::div_mod::lemma_div_nonincreasing(a as int, b as int);
        }
        a / b
    } else {
        let m = -a;
        let q = m / b;
        let rem = m % b;
        proof {
            lemma_neg_div(m as int, b as int);
            vstd::arithmetic::div_mod::lemma_div_pos_is_pos(m as int, b as int);
            vstd::arithmetic::div_mod::lemma_div_nonincreasing(m as int, b as int);
            if rem != 0 {
                vstd::arithmetic::div_mod::lemma_fundamental_div_mod(m as int, b as int);
                vstd::arithmetic::div_mod::lemma_mod_division_less_than_divisor(
                    m as int, b as int);
                assert(q as int + 1 <= m) by (nonlinear_arith)
                    requires
                        b as int * (q as int) + rem == m,
                        1 <= rem < b,
                        q >= 0,
                ;
            }
        }
        if rem == 0 {
            -q
        } else {
            -q - 1
        }
    }
}

/// Ceiling division of `i128` values with a positive divisor.
pub fn div_ceil_i128(a: i128, b: i128) -> (r: i128)
    requires
        b > 0,
        -0x4000_0000_0000_0000_0000_0000_0000_0000 < a
            < 0x4000_0000_0000_0000_0000_0000_0000_0000,
    ensures
        r == ceil_div(a as int, b as int),
        a >= 0 ==> 0 <= r <= a + 1,
        a < 0 ==> a <= r <= 0,
{
    if a >= 0 {
        let q = a / b;
        let rem = a % b;
        proof {
            lemma_neg_div(a as int, b as int);
            vstd::arithmetic::div_mod::lemma_div_pos_is_pos(a as int, b as int);
            vstd::arithmetic::div_mod::lemma_div_nonincreasing(a as int, b as int);
        }
        if rem == 0 {
            q
        } else {
            q + 1
        }
    } else {
        let m = -a;
        proof {
            lemma_neg_div(m as int, b as int);
            vstd::arithmetic::div_mod::lemma_div_pos_is_pos(m as int, b as int);
            vstd::arithmetic::div_mod::lemma_div_nonincreasing(m as int, b as int);
        }
        -(m / b)
    }
}

/// Fixed-point product of two raw scalars.
pub fn fx_mul(a: i64, b: i64) -> (r: i64)
    requires
        -0x4000_0000_0000_0000_0000 <= a as int * b as int
            <= 0x4000_0000_0000_0000_0000,
    ensures
        r == fx_mul_spec(a as int, b as int),
{
    let p: i128 = (a as i128) * (b as i128);
    let q = div_floor_i128(p, FX_ONE as i128);
    q as i64
}

/// Fixed-point quotient of two raw scalars (`b != 0`).
pub fn fx_div(a: i64, b: i64) -> (r: i64)
    requires
        b != 0,
        -0x4000_0000_0000 <= a as int <= 0x4000_0000_0000,
    ensures
        r == fx_div_spec(a as int, b as int),
{
    let num: i128 = (a as i128) * 65536;
    proof {
        assert(num == a as int * (FX_ONE as int));
    }
    if b > 0 {
        div_floor_i128(num, b as i128) as i64
    } else {
        let nb: i128 = -(b as i128);
        let q = div_floor_i128(num, nb);
        (-q) as i64
    }
}

/// Clamps a raw scalar into `[lo, hi]`.
pub fn clamp_i64(v: i64, lo: i64, hi: i64) -> (r: i64)
    requires
        lo <= hi,
    ensures
        r == if v < lo { lo as int } else if v > hi { hi as int } else { v as int },
        lo <= r <= hi,
{
    if v < lo {
        lo
    } else if v > hi {
        hi
    } else {
        v
    }
}

/// The clamp applied to wide intermediates that must become coordinates.
pub open spec fn sat_c(v: int) -> int {
    if v < -COORD_MAX as int {
        -COORD_MAX as int
    } else if v > COORD_MAX as int {
        COORD_MAX as int
    } else {
        v
    }
}

/// Clamps a wide intermediate into the coordinate range.
pub fn sat_coord(v: i128) -> (r: i64)
    ensures
        r as int == sat_c(v as int),
        in_coord(r as int),
{
    if v < -(COORD_MAX as i128) {
        -COORD_MAX
    } else if v > COORD_MAX as i128 {
        COORD_MAX
    } else {
        v as i64
    }
}

/// The square root of `n`, rounded down, as a spec value.
pub open spec fn sqrt_floor(n: nat) -> nat
    decreases n,
{
    if n == 0 {
        0
    } else {
        let p = sqrt_floor((n - 1) as nat);
        if (p + 1) * (p + 1) <= n {
            p + 1
        } else {
            p
        }
    }
}

/// `sqrt_floor(n)` is the unique value whose square brackets `n`.
pub proof fn lemma_sqrt_floor_bracket(n: nat)
    ensures
        sqrt_floor(n) * sqrt_floor(n) <= n,
        (sqrt_floor(n) + 1) * (sqrt_floor(n) + 1) > n,
    decreases n,
{
    if n == 0 {
        assert(sqrt_floor(0) == 0);
        assert(sqrt_floor(n) * sqrt_floor(n) <= n);
        assert((sqrt_floor(n) + 1) * (sqrt_floor(n) + 1) > n) by (nonlinear_arith)
            requires
                sqrt_floor(n) == 0,
                n == 0,
        ;
    } else {
        lemma_sqrt_floor_bracket((n - 1) as nat);
        let p = sqrt_floor((n - 1) as nat);
        let s = sqrt_floor(n);
        assert(s == if (p + 1) * (p + 1) <= n { p + 1 } else { p as nat });
        if (p + 1) * (p + 1) <= n {
            assert(s * s <= n && (s + 1) * (s + 1) > n) by (nonlinear_arith)
                requires
                    s == p + 1,
                    (p + 1) * (p + 1) <= n,
                    (p + 1) * (p + 1) > n - 1,
                    p >= 0,
                    n >= 1,
            ;
        } else {
            assert(s * s <= n && (s + 1) * (s + 1) > n) by (nonlinear_arith)
                requires
                    s == p,
                    p * p <= n - 1,
                    (p + 1) * (p + 1) > n,
                    p >= 0,
                    n >= 1,
            ;
        }
    }
}

/// Any value whose square brackets `n` is `sqrt_floor(n)`.
pub proof fn lemma_sqrt_floor_unique(n: nat, r: nat)
    requires
        r * r <= n,
        (r + 1) * (r + 1) > n,
    ensures
        r == sqrt_floor(n),
{
    lemma_sqrt_floor_bracket(n);
    let s = sqrt_floor(n);
    if r < s {
        assert((r + 1) * (r + 1) <= s * s) by (nonlinear_arith)
            requires
                r + 1 <= s,
                r >= 0,
        ;
    }
    if s < r {
        assert((s + 1) * (s + 1) <= r * r) by (nonlinear_arith)
            requires
                s + 1 <= r,
                s >= 0,
        ;
    }
}

/// The rounded square root is monotone.
pub proof fn lemma_sqrt_floor_monotone(a: nat, b: nat)
    requires
        a <= b,
    ensures
        sqrt_floor(a) <= sqrt_floor(b),
{
    lemma_sqrt_floor_bracket(a);
    lemma_sqrt_floor_bracket(b);
    let sa = sqrt_floor(a);
    let sb = sqrt_floor(b);
    if sa > sb {
        assert((sb + 1) * (sb + 1) <= sa * sa) by (nonlinear_arith)
            requires
                sb + 1 <= sa,
                sb >= 0,
        ;
    }
}

/// The rounded square root of an exact square is its root.
pub proof fn lemma_sqrt_floor_square(x: nat)
    ensures
        sqrt_floor(x * x) == x,
{
    assert(x * x < (x + 1) * (x + 1)) by (nonlinear_arith)
        requires x >= 0,
    ;
    lemma_sqrt_floor_unique(x * x, x);
}

/// The square root of `n`, rounded down: the unique `r` with
/// `r * r <= n < (r + 1) * (r + 1)`.
pub fn isqrt_u128(n: u128) -> (r: u128)
    ensures
        r * r <= n,
        (r + 1) * (r + 1) > n,
        r < 0x1_0000_0000_0000_0000,
        r == sqrt_floor(n as nat),
{
    if n == 0 {
        return 0;
    }
    let mut lo: u128 = 0;
    let mut hi: u128 = 0x1_0000_0000_0000_0000;
    while lo + 1 < hi
        invariant
            lo < hi <= 0x1_0000_0000_0000_0000,
            lo * lo <= n,
            hi * hi > n,
        decreases hi - lo,
    {
        let mid = lo + (hi - lo) / 2;
        proof {
            assert(lo < mid < hi);
            assert(mid * mid < 0x1_0000_0000_0000_0000 * 0x1_0000_0000_0000_0000)
                by (nonlinear_arith)
                requires 0 <= mid < 0x1_0000_0000_0000_0000,
            ;
        }
        if mid * mid <= n {
            lo = mid;
        } else {
            hi = mid;
        }
    }
    proof {
        lemma_sqrt_floor_unique(n as nat, lo as nat);
    }
    lo
}

} // verus!
