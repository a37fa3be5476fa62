//! The spring-chain solver.
//!
//! Air along one chain of tiles is modeled as point masses joined by springs
//! of rest length one: spring constants are the tiles' mole counts, and the
//! border momenta act as external forces on the interior masses. The solver
//! relaxes a naive iterative solution, then scales every displacement down
//! by a reduction factor so that no mass ends up more than one rest length
//! past its neighbor; [`lemma_reduction_restores_order`] proves that the
//! scaled displacements are free of such inversions.

use crate::fixnum::{
    fix, floor_div, spec_abs, spec_add, spec_div, spec_lt, spec_max, spec_mul, spec_neg,
    spec_sub, Fix, FIX_SCALE,
};
use vstd::arithmetic::div_mod::{
    lemma_div_is_ordered, lemma_fundamental_div_mod, lemma_fundamental_div_mod_converse,
};
use vstd::arithmetic::mul::lemma_mul_inequality;
use vstd::prelude::*;

verus! {

/// Relaxation stops once a pass adjusts the displacements by less than this.
pub const RELAX_THRESHOLD: i64 = 10;

/// Number of relaxation passes attempted before giving up on convergence.
pub const RELAX_PASSES: usize = 50;

/// State after the first `n` masses of one relaxation pass: the
/// displacements, the displacement just written, and the accumulated
/// adjustment.
pub open spec fn spec_relax_upto(k: Seq<Fix>, f: Seq<Fix>, d0: Seq<Fix>, n: int) -> (
    Seq<Fix>,
    Fix,
    Fix,
)
    decreases n,
{
    if n <= 0 {
        (d0, fix(0), fix(0))
    } else {
        let (d, left, adj) = spec_relax_upto(k, f, d0, n - 1);
        let i = n - 1;
        let right = if i == f.len() - 1 {
            fix(0)
        } else {
            d[i + 1]
        };
        let old_guess = d[i];
        let strong = spec_div(
            spec_add(spec_add(f[i], spec_mul(left, k[i])), spec_mul(right, k[i + 1])),
            spec_add(k[i], k[i + 1]),
        );
        let new_guess = spec_div(
            spec_add(spec_add(old_guess, old_guess), strong),
            fix((3 * FIX_SCALE) as i64),
        );
        (
            d.update(i, new_guess),
            new_guess,
            spec_add(adj, spec_abs(spec_sub(new_guess, old_guess))),
        )
    }
}

/// One full relaxation pass: the new displacements and the total adjustment.
pub open spec fn spec_relax(k: Seq<Fix>, f: Seq<Fix>, d0: Seq<Fix>) -> (Seq<Fix>, Fix) {
    let (d, left, adj) = spec_relax_upto(k, f, d0, f.len() as int);
    (d, adj)
}

/// One left-to-right relaxation pass over the displacements.
pub fn relax(k: &Vec<Fix>, f: &Vec<Fix>, displacements: &mut Vec<Fix>) -> (adjustment: Fix)
    requires
        k@.len() == f@.len() + 1,
        old(displacements)@.len() == f@.len(),
    ensures
        final(displacements)@ == spec_relax(k@, f@, old(displacements)@).0,
        adjustment == spec_relax(k@, f@, old(displacements)@).1,
        final(displacements)@.len() == f@.len(),
{
    let mut adjustment = Fix::zero();
    let mut left = Fix::zero();
    let mut i: usize = 0;
    while i < f.len()
        invariant
            k@.len() == f@.len() + 1,
            i <= f@.len(),
            displacements@.len() == f@.len(),
            (displacements@, left, adjustment) == spec_relax_upto(
                k@,
                f@,
                old(displacements)@,
                i as int,
            ),
        decreases f@.len() - i,
    {
        let right: Fix;
        if i == f.len() - 1 {
            right = Fix::zero();
        } else {
            right = displacements[i + 1];
        }
        let old_guess = displacements[i];
        let strong_new_guess = f[i]
            .add(left.mul(k[i]))
            .add(right.mul(k[i + 1]))
            .div(k[i].add(k[i + 1]));
        let new_guess = old_guess.add(old_guess).add(strong_new_guess).div(
            Fix::of(3 * FIX_SCALE),
        );
        displacements[i] = new_guess;
        adjustment = adjustment.add(new_guess.sub(old_guess).abs());
        left = new_guess;
        i = i + 1;
    }
    adjustment
}

/// Displacements after `p` relaxation passes, with a flag recording whether
/// the adjustment has dropped below [`RELAX_THRESHOLD`]; once it has, later
/// passes change nothing.
pub open spec fn spec_approx_upto(k: Seq<Fix>, f: Seq<Fix>, p: int) -> (Seq<Fix>, bool)
    decreases p,
{
    if p <= 0 {
        (Seq::new(f.len(), |i: int| fix(0)), false)
    } else {
        let (d, done) = spec_approx_upto(k, f, p - 1);
        if done {
            (d, true)
        } else {
            let (d2, adj) = spec_relax(k, f, d);
            (d2, spec_lt(adj, fix(RELAX_THRESHOLD)))
        }
    }
}

/// The naive solution: up to [`RELAX_PASSES`] relaxation passes.
pub open spec fn spec_approx(k: Seq<Fix>, f: Seq<Fix>) -> Seq<Fix> {
    spec_approx_upto(k, f, RELAX_PASSES as int).0
}

proof fn lemma_approx_stable(k: Seq<Fix>, f: Seq<Fix>, p: int, q: int)
    requires
        0 <= p <= q,
        spec_approx_upto(k, f, p).1,
    ensures
        spec_approx_upto(k, f, q) == spec_approx_upto(k, f, p),
    decreases q - p,
{
    if p < q {
        lemma_approx_stable(k, f, p, q - 1);
    }
}

/// Approximates the displacements of the masses in a spring chain. The
/// result may still leave masses out of order; see
/// [`calculate_reduction_factor`].
pub fn approximate_displacements(k: Vec<Fix>, f: Vec<Fix>) -> (r: Vec<Fix>)
    requires
        k@.len() == f@.len() + 1,
    ensures
        r@ == spec_approx(k@, f@),
        r@.len() == f@.len(),
{
    let mut displacements: Vec<Fix> = Vec::new();
    let n = f.len();
    let mut i: usize = 0;
    while i < n
        invariant
            i <= n,
            displacements@.len() == i,
            forall|j: int| 0 <= j < i ==> displacements@[j] == fix(0),
        decreases n - i,
    {
        displacements.push(Fix::zero());
        i = i + 1;
    }
    proof {
        assert(displacements@ =~= spec_approx_upto(k@, f@, 0).0);
    }

    let mut pass: usize = 0;
    let mut stopped = false;
    while pass < RELAX_PASSES && !stopped
        invariant
            k@.len() == f@.len() + 1,
            pass <= RELAX_PASSES,
            displacements@.len() == f@.len(),
            (displacements@, stopped) == spec_approx_upto(k@, f@, pass as int),
        decreases RELAX_PASSES - pass,
    {
        let adjustment = relax(&k, &f, &mut displacements);
        stopped = adjustment.lt(Fix::of(RELAX_THRESHOLD));
        pass = pass + 1;
    }
    proof {
        if stopped {
            lemma_approx_stable(k@, f@, pass as int, RELAX_PASSES as int);
        }
    }
    displacements
}

/// Running maximum inversion over adjacent pairs `1 .. n`.
pub open spec fn spec_pair_inversions(x: Seq<Fix>, m0: Fix, n: int) -> Fix
    decreases n,
{
    if n <= 1 {
        m0
    } else {
        spec_max(
            spec_pair_inversions(x, m0, n - 1),
            spec_sub(spec_sub(x[n - 2], x[n - 1]), fix(FIX_SCALE)),
        )
    }
}

/// The largest distance by which neighboring masses have been inverted,
/// never less than zero.
pub open spec fn spec_max_inversion(x: Seq<Fix>, unbound_start: bool, unbound_end: bool) -> Fix {
    let m0 = if !unbound_start {
        spec_max(fix(0), spec_sub(spec_neg(x[0]), fix(FIX_SCALE)))
    } else {
        fix(0)
    };
    let m1 = spec_pair_inversions(x, m0, x.len() as int);
    if !unbound_end {
        spec_max(m1, spec_sub(x[x.len() - 1], fix(FIX_SCALE)))
    } else {
        m1
    }
}

/// The factor naive displacements must be divided by to restore ordering.
pub open spec fn spec_reduction(x: Seq<Fix>, unbound_start: bool, unbound_end: bool) -> Fix {
    spec_add(spec_max_inversion(x, unbound_start, unbound_end), fix(FIX_SCALE))
}

/// Given a naive solution, calculates the reduction factor needed to return
/// the masses to their initial ordering.
pub fn calculate_reduction_factor(x: &Vec<Fix>, unbound_start: bool, unbound_end: bool) -> (r:
    Fix)
    requires
        x@.len() >= 1,
    ensures
        r == spec_reduction(x@, unbound_start, unbound_end),
{
    let mut max_inversion = Fix::zero();
    if !unbound_start {
        let first_inversion = x[0].neg().sub(Fix::of(FIX_SCALE));
        max_inversion = max_inversion.max(first_inversion);
    }
    let mut i: usize = 1;
    while i < x.len()
        invariant
            1 <= i <= x@.len(),
            max_inversion == spec_pair_inversions(
                x@,
                if !unbound_start {
                    spec_max(fix(0), spec_sub(spec_neg(x@[0]), fix(FIX_SCALE)))
                } else {
                    fix(0)
                },
                i as int,
            ),
        decreases x@.len() - i,
    {
        let left_inversion = x[i - 1].sub(x[i]).sub(Fix::of(FIX_SCALE));
        max_inversion = max_inversion.max(left_inversion);
        i = i + 1;
    }
    if !unbound_end {
        let last_inversion = x[x.len() - 1].sub(Fix::of(FIX_SCALE));
        max_inversion = max_inversion.max(last_inversion);
    }
    max_inversion.add(Fix::of(FIX_SCALE))
}

/// The solver's final answer: the naive displacements, each divided by the
/// reduction factor. A chain with no interior mass has an empty answer.
pub open spec fn spec_solve(
    k: Seq<Fix>,
    f: Seq<Fix>,
    unbound_start: bool,
    unbound_end: bool,
) -> Seq<Fix> {
    let naive = spec_approx(k, f);
    if f.len() == 0 {
        naive
    } else {
        let r = spec_reduction(naive, unbound_start, unbound_end);
        naive.map_values(|d: Fix| spec_div(d, r))
    }
}

/// The main solver: approximate displacements, scaled back so that no mass
/// is carried past its neighbor. Whenever the naive displacements stay
/// within [`SOLVER_ORDER_BOUND`], the answer itself carries the ordering
/// guarantee: finite throughout, no displacement more than one rest length
/// past its right neighbor, and bound ends kept inside the walls.
pub fn solve(
    mole_counts: Vec<Fix>,
    forces: Vec<Fix>,
    unbound_start: bool,
    unbound_end: bool,
) -> (r: Vec<Fix>)
    requires
        mole_counts@.len() == forces@.len() + 1,
    ensures
        r@ == spec_solve(mole_counts@, forces@, unbound_start, unbound_end),
        r@.len() == forces@.len(),
        forces@.len() >= 1 && bounded_seq(spec_approx(mole_counts@, forces@)) ==> forall|i: int|
            0 <= i < r@.len() ==> (#[trigger] r@[i]).finite,
        forces@.len() >= 1 && bounded_seq(spec_approx(mole_counts@, forces@)) ==> forall|i: int|
            1 <= i < r@.len() ==> r@[i - 1].raw <= (#[trigger] r@[i]).raw + FIX_SCALE,
        forces@.len() >= 1 && bounded_seq(spec_approx(mole_counts@, forces@)) && !unbound_start
            ==> r@[0].raw >= -FIX_SCALE,
        forces@.len() >= 1 && bounded_seq(spec_approx(mole_counts@, forces@)) && !unbound_end
            ==> r@[r@.len() - 1].raw <= FIX_SCALE,
{
    let ghost k = mole_counts@;
    let ghost f = forces@;
    let mut solution = approximate_displacements(mole_counts, forces);
    if solution.len() == 0 {
        return solution;
    }
    let factor = calculate_reduction_factor(&solution, unbound_start, unbound_end);
    let ghost naive = solution@;
    let mut i: usize = 0;
    while i < solution.len()
        invariant
            solution@.len() == naive.len(),
            i <= naive.len(),
            forall|j: int| i <= j < naive.len() ==> solution@[j] == naive[j],
            forall|j: int| 0 <= j < i ==> solution@[j] == spec_div(naive[j], factor),
            factor == spec_reduction(naive, unbound_start, unbound_end),
        decreases solution@.len() - i,
    {
        solution[i] = solution[i].div(factor);
        i = i + 1;
    }
    proof {
        assert(solution@ =~= naive.map_values(
            |d: Fix| spec_div(d, spec_reduction(naive, unbound_start, unbound_end)),
        ));
        if bounded_seq(naive) {
            lemma_reduction_restores_order(naive, unbound_start, unbound_end);
            assert forall|j: int| 0 <= j < solution@.len() implies #[trigger] solution@[j]
                == spec_scaled(naive, unbound_start, unbound_end, j) by {}
        }
    }
    solution
}

/// Inputs whose raw magnitude stays within this bound are covered by the
/// ordering law below.
pub const SOLVER_ORDER_BOUND: i64 = 4_000_000_000_000_000_000;

pub open spec fn bounded_seq(x: Seq<Fix>) -> bool {
    forall|i: int|
        0 <= i < x.len() ==> (#[trigger] x[i]).finite && -SOLVER_ORDER_BOUND <= x[i].raw
            <= SOLVER_ORDER_BOUND
}

proof fn lemma_div_add_multiple(b: int, s: int, r: int)
    requires
        r > 0,
    ensures
        (b + r * s) / r == b / r + s,
{
    lemma_fundamental_div_mod(b, r);
    vstd::arithmetic::div_mod::lemma_mod_bound(b, r);
    let q = b / r;
    let m = b % r;
    assert(b + r * s == (q + s) * r + m) by (nonlinear_arith)
        requires
            b == r * q + m,
    ;
    lemma_fundamental_div_mod_converse(b + r * s, r, q + s, m);
}

/// The scaled value of one displacement.
pub open spec fn spec_scaled(x: Seq<Fix>, unbound_start: bool, unbound_end: bool, i: int) -> Fix {
    spec_div(x[i], spec_reduction(x, unbound_start, unbound_end))
}

proof fn lemma_pair_inversions_ge(x: Seq<Fix>, m0: Fix, n: int, i: int)
    requires
        m0.finite,
        -2 * SOLVER_ORDER_BOUND <= m0.raw <= 2 * SOLVER_ORDER_BOUND,
        bounded_seq(x),
        n <= x.len(),
    ensures
        spec_pair_inversions(x, m0, n).finite,
        spec_pair_inversions(x, m0, n).raw >= m0.raw,
        spec_pair_inversions(x, m0, n).raw <= 2 * SOLVER_ORDER_BOUND,
        1 <= i < n ==> spec_pair_inversions(x, m0, n).raw >= spec_sub(
            spec_sub(x[i - 1], x[i]),
            fix(FIX_SCALE),
        ).raw,
    decreases n,
{
    if n > 1 {
        lemma_pair_inversions_ge(x, m0, n - 1, i);
    }
}

/// Law: dividing the naive displacements by the reduction factor yields a
/// chain free of inversions. For bounded finite inputs, each scaled
/// displacement exceeds its right neighbor by at most one rest length, a
/// bounded start keeps the first mass at or after the left wall, and a
/// bounded end keeps the last mass at or before the right wall.
pub proof fn lemma_reduction_restores_order(x: Seq<Fix>, unbound_start: bool, unbound_end: bool)
    requires
        x.len() >= 1,
        bounded_seq(x),
    ensures
        forall|i: int|
            0 <= i < x.len() ==> (#[trigger] spec_scaled(x, unbound_start, unbound_end, i)).finite,
        forall|i: int|
            1 <= i < x.len() ==> (#[trigger] spec_scaled(x, unbound_start, unbound_end, i)).raw
                + FIX_SCALE >= spec_scaled(x, unbound_start, unbound_end, i - 1).raw,
        !unbound_start ==> spec_scaled(x, unbound_start, unbound_end, 0).raw >= -FIX_SCALE,
        !unbound_end ==> spec_scaled(x, unbound_start, unbound_end, x.len() - 1).raw <= FIX_SCALE,
{
    let m0 = if !unbound_start {
        spec_max(fix(0), spec_sub(spec_neg(x[0]), fix(FIX_SCALE)))
    } else {
        fix(0)
    };
    let m1 = spec_pair_inversions(x, m0, x.len() as int);
    let minv = spec_max_inversion(x, unbound_start, unbound_end);
    let r = spec_reduction(x, unbound_start, unbound_end);
    lemma_pair_inversions_ge(x, m0, x.len() as int, 0);
    assert(minv.finite && minv.raw >= 0 && minv.raw <= 2 * SOLVER_ORDER_BOUND);
    assert(r.finite && r.raw >= FIX_SCALE);

    let rr = r.raw as int;
    let s = FIX_SCALE as int;

    assert forall|i: int| 0 <= i < x.len() implies (#[trigger] spec_scaled(
        x,
        unbound_start,
        unbound_end,
        i,
    )).finite by {
        lemma_scaled_bounded(x, unbound_start, unbound_end, i);
    }

    assert forall|i: int| 1 <= i < x.len() implies (#[trigger] spec_scaled(
        x,
        unbound_start,
        unbound_end,
        i,
    )).raw + FIX_SCALE >= spec_scaled(x, unbound_start, unbound_end, i - 1).raw by {
        lemma_scaled_bounded(x, unbound_start, unbound_end, i);
        lemma_scaled_bounded(x, unbound_start, unbound_end, i - 1);
        lemma_pair_inversions_ge(x, m0, x.len() as int, i);
        // x[i-1].raw - x[i].raw - s <= minv.raw == rr - s
        assert(x[i - 1].raw as int * s <= x[i].raw as int * s + rr * s) by (nonlinear_arith)
            requires
                x[i - 1].raw as int - x[i].raw as int <= rr,
                s > 0,
        ;
        lemma_div_is_ordered(x[i - 1].raw as int * s, x[i].raw as int * s + rr * s, rr);
        lemma_div_add_multiple(x[i].raw as int * s, s, rr);
    }

    if !unbound_start {
        lemma_scaled_bounded(x, unbound_start, unbound_end, 0);
        // -x[0].raw - s <= minv.raw == rr - s, so x[0].raw >= -rr
        assert(x[0].raw as int * s >= (-rr) * s) by (nonlinear_arith)
            requires
                x[0].raw as int >= -rr,
                s > 0,
        ;
        lemma_div_is_ordered((-rr) * s, x[0].raw as int * s, rr);
        lemma_div_add_multiple(0, -s, rr);
        assert((0 + rr * (-s)) / rr == -s);
        assert((-rr) * s == 0 + rr * (-s)) by (nonlinear_arith);
    }

    if !unbound_end {
        let l = x.len() - 1;
        lemma_scaled_bounded(x, unbound_start, unbound_end, l);
        lemma_pair_inversions_ge(x, m0, x.len() as int, 0);
        // x[l].raw - s <= minv.raw == rr - s, so x[l].raw <= rr
        assert(x[l].raw as int * s <= rr * s) by (nonlinear_arith)
            requires
                x[l].raw as int <= rr,
                s > 0,
        ;
        lemma_div_is_ordered(x[l].raw as int * s, rr * s, rr);
        lemma_div_add_multiple(0, s, rr);
        assert(rr * s == 0 + rr * s);
    }
}

/// Each scaled displacement is finite, with magnitude at most the naive
/// displacement's.
proof fn lemma_scaled_bounded(x: Seq<Fix>, unbound_start: bool, unbound_end: bool, i: int)
    requires
        x.len() >= 1,
        bounded_seq(x),
        0 <= i < x.len(),
    ensures
        spec_scaled(x, unbound_start, unbound_end, i).finite,
        spec_scaled(x, unbound_start, unbound_end, i).raw == floor_div(
            x[i].raw as int * FIX_SCALE,
            spec_reduction(x, unbound_start, unbound_end).raw as int,
        ),
        -SOLVER_ORDER_BOUND <= spec_scaled(x, unbound_start, unbound_end, i).raw
            <= SOLVER_ORDER_BOUND,
{
    let m0 = if !unbound_start {
        spec_max(fix(0), spec_sub(spec_neg(x[0]), fix(FIX_SCALE)))
    } else {
        fix(0)
    };
    lemma_pair_inversions_ge(x, m0, x.len() as int, 0);
    let r = spec_reduction(x, unbound_start, unbound_end);
    let rr = r.raw as int;
    let s = FIX_SCALE as int;
    assert(r.finite && rr >= s);
    let b = x[i].raw as int;
    let q = floor_div(b * s, rr);
    lemma_mul_inequality(s, rr, if b >= 0 { b } else { -b });
    if b >= 0 {
        assert(b * s <= b * rr) by (nonlinear_arith)
            requires
                s <= rr,
                b >= 0,
        ;
        lemma_div_is_ordered(b * s, b * rr, rr);
        lemma_div_add_multiple(0, b, rr);
        assert(b * rr == 0 + rr * b) by (nonlinear_arith);
        assert(q <= b);
        assert(b * s >= 0) by (nonlinear_arith)
            requires
                b >= 0,
                s > 0,
        ;
        lemma_div_is_ordered(0, b * s, rr);
        assert(q >= 0);
    } else {
        assert(b * rr <= b * s) by (nonlinear_arith)
            requires
                s <= rr,
                b < 0,
        ;
        lemma_div_is_ordered(b * rr, b * s, rr);
        lemma_div_add_multiple(0, b, rr);
        assert(b * rr == 0 + rr * b) by (nonlinear_arith);
        assert(q >= b);
        assert(b * s <= 0) by (nonlinear_arith)
            requires
                b < 0,
                s > 0,
        ;
        lemma_div_is_ordered(b * s, 0, rr);
        assert(q <= 0);
    }
}

} // verus!
