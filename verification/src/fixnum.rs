//! Fixed-point scalars.
//!
//! Every physical quantity in the engine (moles, thermal energy, momentum,
//! displacements) is a [`Fix`]: a signed count of ten-thousandths, plus a
//! finiteness flag. Arithmetic that overflows the representation, or divides
//! by zero, yields the non-finite value, which then propagates through
//! further arithmetic and is ultimately caught by the sanitizer. Comparisons
//! against a non-finite value are always false, and `min`/`max` ignore a
//! non-finite operand.
//!
//! Multiplication and division round toward negative infinity; this exact
//! rounding rule is what the solver's ordering guarantee is proved against.

use vstd::arithmetic::div_mod::{
    lemma_div_is_ordered_by_denominator, lemma_fundamental_div_mod,
    lemma_fundamental_div_mod_converse,
};
use vstd::prelude::*;

verus! {

/// Raw units per whole unit: `Fix { raw: 10000, .. }` is 1.0.
pub const FIX_SCALE: i64 = 10000;

/// A fixed-point scalar. `raw` is meaningful only when `finite` holds;
/// every operation in this module returns `raw == 0` otherwise.
#[derive(Clone, Copy, Debug, PartialEq, Eq, Structural)]
pub struct Fix {
    pub finite: bool,
    pub raw: i64,
}

/// The finite value with the given raw magnitude.
pub open spec fn fix(raw: i64) -> Fix {
    Fix { finite: true, raw }
}

/// The non-finite value.
pub open spec fn fix_nonf() -> Fix {
    Fix { finite: false, raw: 0 }
}

pub open spec fn in_i64(v: int) -> bool {
    i64::MIN as int <= v <= i64::MAX as int
}

/// Integer division rounding toward negative infinity.
pub open spec fn floor_div(p: int, q: int) -> int
    recommends
        q != 0,
{
    if q > 0 {
        p / q
    } else {
        (-p) / (-q)
    }
}

pub open spec fn spec_add(a: Fix, b: Fix) -> Fix {
    if a.finite && b.finite && in_i64(a.raw + b.raw) {
        fix((a.raw + b.raw) as i64)
    } else {
        fix_nonf()
    }
}

pub open spec fn spec_sub(a: Fix, b: Fix) -> Fix {
    if a.finite && b.finite && in_i64(a.raw - b.raw) {
        fix((a.raw - b.raw) as i64)
    } else {
        fix_nonf()
    }
}

pub open spec fn spec_mul(a: Fix, b: Fix) -> Fix {
    if a.finite && b.finite && in_i64(floor_div(a.raw * b.raw, FIX_SCALE as int)) {
        fix(floor_div(a.raw * b.raw, FIX_SCALE as int) as i64)
    } else {
        fix_nonf()
    }
}

pub open spec fn spec_div(a: Fix, b: Fix) -> Fix {
    if a.finite && b.finite && b.raw != 0 && in_i64(
        floor_div(a.raw * FIX_SCALE, b.raw as int),
    ) {
        fix(floor_div(a.raw * FIX_SCALE, b.raw as int) as i64)
    } else {
        fix_nonf()
    }
}

pub open spec fn spec_neg(a: Fix) -> Fix {
    if a.finite && in_i64(-(a.raw as int)) {
        fix((-(a.raw as int)) as i64)
    } else {
        fix_nonf()
    }
}

pub open spec fn spec_abs(a: Fix) -> Fix {
    if a.finite && a.raw >= 0 {
        a
    } else {
        spec_neg(a)
    }
}

/// `min` ignores a non-finite operand, as floating-point `min` ignores NaN.
pub open spec fn spec_min(a: Fix, b: Fix) -> Fix {
    if !a.finite {
        b
    } else if !b.finite {
        a
    } else if a.raw <= b.raw {
        a
    } else {
        b
    }
}

pub open spec fn spec_max(a: Fix, b: Fix) -> Fix {
    if !a.finite {
        b
    } else if !b.finite {
        a
    } else if a.raw >= b.raw {
        a
    } else {
        b
    }
}

/// Comparisons hold only between finite values.
pub open spec fn spec_lt(a: Fix, b: Fix) -> bool {
    a.finite && b.finite && a.raw < b.raw
}

pub open spec fn spec_le(a: Fix, b: Fix) -> bool {
    a.finite && b.finite && a.raw <= b.raw
}

pub open spec fn spec_gt(a: Fix, b: Fix) -> bool {
    spec_lt(b, a)
}

pub open spec fn spec_ge(a: Fix, b: Fix) -> bool {
    spec_le(b, a)
}

/// Whole units below the value, clamped to zero; non-finite clamps to zero.
pub open spec fn spec_floor0(a: Fix) -> int {
    if a.finite && a.raw >= 0 {
        floor_div(a.raw as int, FIX_SCALE as int)
    } else {
        0
    }
}

/// For nonnegative `a` and positive divisor `d`, floor division of `-a`
/// is the negated, outward-rounded quotient.
proof fn lemma_neg_div(a: int, d: int)
    requires
        a >= 0,
        d > 0,
    ensures
        a % d == 0 ==> (-a) / d == -(a / d),
        a % d != 0 ==> (-a) / d == -(a / d) - 1,
{
    lemma_fundamental_div_mod(a, d);
    vstd::arithmetic::div_mod::lemma_mod_pos_bound(a, d);
    let q = a / d;
    let r = a % d;
    if r == 0 {
        assert(-a == (-q) * d + 0) by (nonlinear_arith)
            requires
                a == d * q + r,
                r == 0,
        ;
        lemma_fundamental_div_mod_converse(-a, d, -q, 0);
    } else {
        assert(-a == (-q - 1) * d + (d - r)) by (nonlinear_arith)
            requires
                a == d * q + r,
        ;
        lemma_fundamental_div_mod_converse(-a, d, -q - 1, d - r);
    }
}

/// Floor division on `i128`, the exec counterpart of [`floor_div`].
fn floor_div_i128(p: i128, q: i128) -> (r: i128)
    requires
        q != 0,
        p > i128::MIN,
        q > i128::MIN,
    ensures
        r == floor_div(p as int, q as int),
{
    let pneg: bool = p < 0;
    let qneg: bool = q < 0;
    let up: u128 = if pneg {
        (-p) as u128
    } else {
        p as u128
    };
    let uq: u128 = if qneg {
        (-q) as u128
    } else {
        q as u128
    };
    let m: u128 = up / uq;
    let rem: u128 = up % uq;
    proof {
        lemma_fundamental_div_mod(up as int, uq as int);
        assert(m <= up) by (nonlinear_arith)
            requires
                m == up as int / uq as int,
                uq >= 1,
                up as int == uq as int * (up as int / uq as int) + up as int % uq as int,
                up as int % uq as int >= 0,
        ;
    }
    if pneg == qneg {
        proof {
            if !pneg {
                assert(floor_div(p as int, q as int) == up as int / uq as int);
            } else {
                assert(floor_div(p as int, q as int) == (-(p as int)) / (-(q as int)));
            }
        }
        m as i128
    } else if rem == 0 {
        proof {
            lemma_neg_div(up as int, uq as int);
            if pneg {
                assert(p as int == -(up as int));
                assert(floor_div(p as int, q as int) == (-(up as int)) / (uq as int));
            } else {
                assert(-(p as int) == -(up as int));
                assert(floor_div(p as int, q as int) == (-(up as int)) / (uq as int));
            }
        }
        -(m as i128)
    } else {
        proof {
            lemma_neg_div(up as int, uq as int);
            assert(uq >= 2) by {
                if uq == 1 {
                    assert(up as int % 1 == 0) by (nonlinear_arith);
                }
            }
            lemma_div_is_ordered_by_denominator(up as int, 2, uq as int);
            assert(m <= up as int / 2);
            assert(up as int / 2 <= i128::MAX as int / 2) by {
                vstd::arithmetic::div_mod::lemma_div_is_ordered(
                    up as int,
                    i128::MAX as int,
                    2,
                );
            }
            if pneg {
                assert(floor_div(p as int, q as int) == (-(up as int)) / (uq as int));
            } else {
                assert(floor_div(p as int, q as int) == (-(up as int)) / (uq as int));
            }
        }
        -((m + 1) as i128)
    }
}

impl Fix {
    /// The finite value with the given raw magnitude.
    pub fn of(raw: i64) -> (r: Fix)
        ensures
            r == fix(raw),
    {
        Fix { finite: true, raw }
    }

    /// Zero.
    pub fn zero() -> (r: Fix)
        ensures
            r == fix(0),
    {
        Fix { finite: true, raw: 0 }
    }

    /// The non-finite value.
    pub fn non_finite() -> (r: Fix)
        ensures
            r == fix_nonf(),
    {
        Fix { finite: false, raw: 0 }
    }

    pub fn is_finite(self) -> (r: bool)
        ensures
            r == self.finite,
    {
        self.finite
    }

    pub fn add(self, o: Fix) -> (r: Fix)
        ensures
            r == spec_add(self, o),
    {
        if self.finite && o.finite {
            let s: i128 = self.raw as i128 + o.raw as i128;
            if s >= i64::MIN as i128 && s <= i64::MAX as i128 {
                Fix { finite: true, raw: s as i64 }
            } else {
                Fix::non_finite()
            }
        } else {
            Fix::non_finite()
        }
    }

    pub fn sub(self, o: Fix) -> (r: Fix)
        ensures
            r == spec_sub(self, o),
    {
        if self.finite && o.finite {
            let s: i128 = self.raw as i128 - o.raw as i128;
            if s >= i64::MIN as i128 && s <= i64::MAX as i128 {
                Fix { finite: true, raw: s as i64 }
            } else {
                Fix::non_finite()
            }
        } else {
            Fix::non_finite()
        }
    }

    pub fn mul(self, o: Fix) -> (r: Fix)
        ensures
            r == spec_mul(self, o),
    {
        if self.finite && o.finite {
            proof {
                assert((self.raw as int) * (o.raw as int) < i128::MAX as int
                    && (self.raw as int) * (o.raw as int) > i128::MIN as int)
                    by (nonlinear_arith)
                    requires
                        i64::MIN as int <= self.raw as int <= i64::MAX as int,
                        i64::MIN as int <= o.raw as int <= i64::MAX as int,
                ;
            }
            let p: i128 = (self.raw as i128) * (o.raw as i128);
            let d: i128 = floor_div_i128(p, FIX_SCALE as i128);
            if d >= i64::MIN as i128 && d <= i64::MAX as i128 {
                Fix { finite: true, raw: d as i64 }
            } else {
                Fix::non_finite()
            }
        } else {
            Fix::non_finite()
        }
    }

    pub fn div(self, o: Fix) -> (r: Fix)
        ensures
            r == spec_div(self, o),
    {
        if self.finite && o.finite && o.raw != 0 {
            let p: i128 = (self.raw as i128) * (FIX_SCALE as i128);
            let d: i128 = floor_div_i128(p, o.raw as i128);
            if d >= i64::MIN as i128 && d <= i64::MAX as i128 {
                Fix { finite: true, raw: d as i64 }
            } else {
                Fix::non_finite()
            }
        } else {
            Fix::non_finite()
        }
    }

    pub fn neg(self) -> (r: Fix)
        ensures
            r == spec_neg(self),
    {
        if self.finite && self.raw > i64::MIN {
            Fix { finite: true, raw: -self.raw }
        } else {
            Fix::non_finite()
        }
    }

    pub fn abs(self) -> (r: Fix)
        ensures
            r == spec_abs(self),
    {
        if self.finite && self.raw >= 0 {
            self
        } else {
            self.neg()
        }
    }

    pub fn min(self, o: Fix) -> (r: Fix)
        ensures
            r == spec_min(self, o),
    {
        if !self.finite {
            o
        } else if !o.finite {
            self
        } else if self.raw <= o.raw {
            self
        } else {
            o
        }
    }

    pub fn max(self, o: Fix) -> (r: Fix)
        ensures
            r == spec_max(self, o),
    {
        if !self.finite {
            o
        } else if !o.finite {
            self
        } else if self.raw >= o.raw {
            self
        } else {
            o
        }
    }

    pub fn lt(self, o: Fix) -> (r: bool)
        ensures
            r == spec_lt(self, o),
    {
        self.finite && o.finite && self.raw < o.raw
    }

    pub fn le(self, o: Fix) -> (r: bool)
        ensures
            r == spec_le(self, o),
    {
        self.finite && o.finite && self.raw <= o.raw
    }

    pub fn gt(self, o: Fix) -> (r: bool)
        ensures
            r == spec_gt(self, o),
    {
        self.finite && o.finite && self.raw > o.raw
    }

    pub fn ge(self, o: Fix) -> (r: bool)
        ensures
            r == spec_ge(self, o),
    {
        self.finite && o.finite && self.raw >= o.raw
    }

    /// Whole units below the value, clamped to zero. The bound keeps the
    /// result inside `usize` on every platform; callers pass chain offsets,
    /// which are far smaller.
    pub fn floor0(self) -> (r: usize)
        requires
            self.finite ==> self.raw <= 1_000_000_000,
        ensures
            r == spec_floor0(self),
    {
        if self.finite && self.raw >= 0 {
            let units: u64 = (self.raw as u64) / (FIX_SCALE as u64);
            units as usize
        } else {
            0
        }
    }
}

} // verus!
