//! Exact rational ray parameters.
//!
//! A ray parameter is a fraction `num / den` with a positive denominator.
//! Comparisons cross-multiply in `i128`, so closest-hit selection and
//! parameter windows are exact: no rounding is involved anywhere.

use vstd::prelude::*;
use crate::fx::FX_ONE;

verus! {

/// Largest numerator magnitude a well-formed parameter may carry.
pub const T_NUM_MAX: i128 = 0x1_0000_0000_0000_0000;

/// Largest denominator a well-formed parameter may carry.
pub const T_DEN_MAX: i128 = 0x4000_0000_0000_0000;

/// The parameter at the bottom of the representable range.
pub open spec fn t_below_all() -> TParam {
    TParam { num: (-(T_NUM_MAX as int)) as i128, den: 1 }
}

/// The parameter at the top of the representable range.
pub open spec fn t_above_all() -> TParam {
    TParam { num: T_NUM_MAX, den: 1 }
}

/// A ray parameter `num / den`, exact.
#[derive(Clone, Copy, Debug, PartialEq, Eq, Structural)]
pub struct TParam {
    pub num: i128,
    pub den: i128,
}

/// `a/b < c/d` for positive denominators `b`, `d`.
pub open spec fn rat_lt(a: int, b: int, c: int, d: int) -> bool {
    a * d < c * b
}

/// `a/b <= c/d` for positive denominators `b`, `d`.
pub open spec fn rat_le(a: int, b: int, c: int, d: int) -> bool {
    a * d <= c * b
}

pub open spec fn t_lt(x: TParam, y: TParam) -> bool {
    rat_lt((x.num as int), (x.den as int), (y.num as int), (y.den as int))
}

pub open spec fn t_le(x: TParam, y: TParam) -> bool {
    rat_le((x.num as int), (x.den as int), (y.num as int), (y.den as int))
}

pub open spec fn t_eq(x: TParam, y: TParam) -> bool {
    (x.num as int) * (y.den as int) == (y.num as int) * (x.den as int)
}


impl TParam {
    /// Denominator positive and both components within the product-safe range.
    pub open spec fn wf(self) -> bool {
        0 < self.den <= T_DEN_MAX && -T_NUM_MAX <= self.num <= T_NUM_MAX
    }

    /// Well-formed and strictly inside the representable range, so that the
    /// extreme window bounds lie strictly outside it.
    pub open spec fn interior(self) -> bool {
        self.wf() && -T_NUM_MAX < self.num < T_NUM_MAX
    }

    /// The parameter `v` (a whole number of raw lattice steps over `FX_ONE`).
    pub fn from_fx(v: i64) -> (r: TParam)
        ensures
            r.interior(),
            r.num == (v as int),
            r.den == (FX_ONE as int),
    {
        TParam { num: v as i128, den: FX_ONE as i128 }
    }

    /// A parameter at or below every well-formed parameter, and strictly
    /// below every interior one: the open window `(below_all(), above_all())`
    /// admits every interior parameter.
    pub fn below_all() -> (r: TParam)
        ensures
            r == t_below_all(),
            r.wf(),
            forall|t: TParam| t.wf() ==> #[trigger] t_le(r, t),
            forall|t: TParam| t.interior() ==> #[trigger] t_lt(r, t),
    {
        let r = TParam { num: -T_NUM_MAX, den: 1 };
        proof {
            assert forall|t: TParam| t.wf() implies #[trigger] t_le(r, t) by {
                assert((-T_NUM_MAX) * (t.den as int) <= (t.num as int) * 1) by (nonlinear_arith)
                    requires
                        (t.den as int) >= 1,
                        (t.num as int) >= -T_NUM_MAX,
                ;
            }
            assert forall|t: TParam| t.interior() implies #[trigger] t_lt(r, t) by {
                assert((-T_NUM_MAX) * (t.den as int) < (t.num as int) * 1) by (nonlinear_arith)
                    requires
                        (t.den as int) >= 1,
                        (t.num as int) > -T_NUM_MAX,
                ;
            }
        }
        r
    }

    /// A parameter at or above every well-formed parameter, and strictly
    /// above every interior one.
    pub fn above_all() -> (r: TParam)
        ensures
            r == t_above_all(),
            r.wf(),
            forall|t: TParam| t.wf() ==> #[trigger] t_le(t, r),
            forall|t: TParam| t.interior() ==> #[trigger] t_lt(t, r),
    {
        let r = TParam { num: T_NUM_MAX, den: 1 };
        proof {
            assert forall|t: TParam| t.wf() implies #[trigger] t_le(t, r) by {
                assert((t.num as int) * 1 <= T_NUM_MAX * (t.den as int)) by (nonlinear_arith)
                    requires
                        (t.den as int) >= 1,
                        (t.num as int) <= T_NUM_MAX,
                ;
            }
            assert forall|t: TParam| t.interior() implies #[trigger] t_lt(t, r) by {
                assert((t.num as int) * 1 < T_NUM_MAX * (t.den as int)) by (nonlinear_arith)
                    requires
                        (t.den as int) >= 1,
                        (t.num as int) < T_NUM_MAX,
                ;
            }
        }
        r
    }

    /// Exact strict comparison.
    pub fn lt(&self, other: &TParam) -> (r: bool)
        requires
            self.wf(),
            other.wf(),
        ensures
            r == t_lt(*self, *other),
    {
        proof {
            lemma_cross_products_fit(*self, *other);
        }
        self.num * other.den < other.num * self.den
    }

    /// Exact non-strict comparison.
    pub fn le(&self, other: &TParam) -> (r: bool)
        requires
            self.wf(),
            other.wf(),
        ensures
            r == t_le(*self, *other),
    {
        proof {
            lemma_cross_products_fit(*self, *other);
        }
        self.num * other.den <= other.num * self.den
    }

    /// Exact equality as rationals.
    pub fn eq_rat(&self, other: &TParam) -> (r: bool)
        requires
            self.wf(),
            other.wf(),
        ensures
            r == t_eq(*self, *other),
    {
        proof {
            lemma_cross_products_fit(*self, *other);
        }
        self.num * other.den == other.num * self.den
    }

    /// The smaller of two parameters (the left one on ties).
    pub fn min_with(&self, other: &TParam) -> (r: TParam)
        requires
            self.wf(),
            other.wf(),
        ensures
            r.wf(),
            r == if t_le(*self, *other) { *self } else { *other },
    {
        if self.le(other) {
            *self
        } else {
            *other
        }
    }

    /// The larger of two parameters (the left one on ties).
    pub fn max_with(&self, other: &TParam) -> (r: TParam)
        requires
            self.wf(),
            other.wf(),
        ensures
            r.wf(),
            r == if t_le(*other, *self) { *self } else { *other },
    {
        if other.le(self) {
            *self
        } else {
            *other
        }
    }
}

/// Cross products of two well-formed parameters fit in `i128`.
proof fn lemma_cross_products_fit(x: TParam, y: TParam)
    requires
        x.wf(),
        y.wf(),
    ensures
        -0x4000_0000_0000_0000_0000_0000_0000_0000 <= (x.num as int) * (y.den as int)
            <= 0x4000_0000_0000_0000_0000_0000_0000_0000,
        -0x4000_0000_0000_0000_0000_0000_0000_0000 <= (y.num as int) * (x.den as int)
            <= 0x4000_0000_0000_0000_0000_0000_0000_0000,
{
    lemma_abs_product_bound((x.num as int), (y.den as int), (T_NUM_MAX as int), (T_DEN_MAX as int));
    lemma_abs_product_bound((y.num as int), (x.den as int), (T_NUM_MAX as int), (T_DEN_MAX as int));
}

/// `|a| <= ba` and `|b| <= bb` bound `|a * b|` by `ba * bb`.
pub proof fn lemma_abs_product_bound(a: int, b: int, ba: int, bb: int)
    requires
        -ba <= a <= ba,
        -bb <= b <= bb,
        0 <= ba,
        0 <= bb,
    ensures
        -(ba * bb) <= a * b <= ba * bb,
{
    assert(-(ba * bb) <= a * b <= ba * bb) by (nonlinear_arith)
        requires
            -ba <= a <= ba,
            -bb <= b <= bb,
            0 <= ba,
            0 <= bb,
    ;
}

/// Transitivity of the strict rational order over raw numerator/denominator
/// pairs with positive denominators.
pub proof fn lemma_rat_lt_trans(an: int, ad: int, bn: int, bd: int, cn: int, cd: int)
    requires
        ad > 0,
        bd > 0,
        cd > 0,
        rat_lt(an, ad, bn, bd),
        rat_lt(bn, bd, cn, cd),
    ensures
        rat_lt(an, ad, cn, cd),
{
    assert(an * cd < cn * ad) by (nonlinear_arith)
        requires
            an * bd < bn * ad,
            bn * cd < cn * bd,
            ad > 0,
            bd > 0,
            cd > 0,
    ;
}

/// Mixed strict/non-strict transitivity over raw pairs.
pub proof fn lemma_rat_lt_le_trans(an: int, ad: int, bn: int, bd: int, cn: int, cd: int)
    requires
        ad > 0,
        bd > 0,
        cd > 0,
        rat_lt(an, ad, bn, bd),
        rat_le(bn, bd, cn, cd),
    ensures
        rat_lt(an, ad, cn, cd),
{
    assert(an * cd < cn * ad) by (nonlinear_arith)
        requires
            an * bd < bn * ad,
            bn * cd <= cn * bd,
            ad > 0,
            bd > 0,
            cd > 0,
    ;
}

/// Mixed non-strict/strict transitivity over raw pairs.
pub proof fn lemma_rat_le_lt_trans(an: int, ad: int, bn: int, bd: int, cn: int, cd: int)
    requires
        ad > 0,
        bd > 0,
        cd > 0,
        rat_le(an, ad, bn, bd),
        rat_lt(bn, bd, cn, cd),
    ensures
        rat_lt(an, ad, cn, cd),
{
    assert(an * cd < cn * ad) by (nonlinear_arith)
        requires
            an * bd <= bn * ad,
            bn * cd < cn * bd,
            ad > 0,
            bd > 0,
            cd > 0,
    ;
}


/// The strict order is transitive.
pub proof fn lemma_t_lt_trans(a: TParam, b: TParam, c: TParam)
    requires
        a.wf(),
        b.wf(),
        c.wf(),
        t_lt(a, b),
        t_lt(b, c),
    ensures
        t_lt(a, c),
{
    assert((a.num as int) * (c.den as int) < (c.num as int) * (a.den as int)) by (nonlinear_arith)
        requires
            (a.num as int) * (b.den as int) < (b.num as int) * (a.den as int),
            (b.num as int) * (c.den as int) < (c.num as int) * (b.den as int),
            (a.den as int) > 0,
            (b.den as int) > 0,
            (c.den as int) > 0,
    ;
}

/// Strict-then-non-strict chains stay strict.
pub proof fn lemma_t_lt_le_trans(a: TParam, b: TParam, c: TParam)
    requires
        a.wf(),
        b.wf(),
        c.wf(),
        t_lt(a, b),
        t_le(b, c),
    ensures
        t_lt(a, c),
{
    assert((a.num as int) * (c.den as int) < (c.num as int) * (a.den as int)) by (nonlinear_arith)
        requires
            (a.num as int) * (b.den as int) < (b.num as int) * (a.den as int),
            (b.num as int) * (c.den as int) <= (c.num as int) * (b.den as int),
            (a.den as int) > 0,
            (b.den as int) > 0,
            (c.den as int) > 0,
    ;
}



/// Exactly one of `x < y`, `x == y`, `y < x` holds.
pub proof fn lemma_t_trichotomy(x: TParam, y: TParam)
    requires
        x.wf(),
        y.wf(),
    ensures
        t_lt(x, y) || t_eq(x, y) || t_lt(y, x),
        t_lt(x, y) ==> !t_eq(x, y) && !t_lt(y, x),
        t_eq(x, y) ==> !t_lt(x, y) && !t_lt(y, x),
        t_le(x, y) <==> !t_lt(y, x),
{
}

} // verus!
