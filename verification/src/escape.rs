//! The escape-time evaluator: how long the orbit of a point stays within
//! the bailout radius.

use vstd::prelude::*;

verus! {

use crate::fixed::{scale_down, scale_down_spec};
use crate::plane::ComplexPoint;

/// Largest raw magnitude accepted for either component of an evaluated
/// point (a plane value of 65536, far beyond the bailout radius of 2);
/// the bound keeps the orbit arithmetic inside `i64`/`i128`.
pub const COORD_LIMIT: i64 = 0x100_0000_0000;

/// The squared bailout magnitude in raw units: a product of two raw
/// coordinates carries `SCALE * SCALE`, so the plane bound `|z|^2 > 4`
/// becomes `4 * SCALE * SCALE` here.
pub const BAILOUT_MAG2: i128 = 0x4_0000_0000_0000;

/// Bound on either orbit component during the iteration: one squaring step
/// from within the bailout radius, plus the offset `c`, stays below this.
pub(crate) const Z_LIMIT: i64 = 0x200_0000_0000;

/// The squared magnitude of a raw point.
pub open spec fn mag2_spec(zr: int, zi: int) -> int {
    zr * zr + zi * zi
}

/// Real part of one orbit step `z * z + c` in raw form.
pub open spec fn step_re_spec(zr: int, zi: int, cr: int) -> int {
    scale_down_spec(zr * zr - zi * zi) + cr
}

/// Imaginary part of one orbit step `z * z + c` in raw form.
pub open spec fn step_im_spec(zr: int, zi: int, ci: int) -> int {
    scale_down_spec(2 * zr * zi) + ci
}

/// How many bailout checks the orbit of `c`, continued from `z`, passes
/// before its squared magnitude exceeds the bailout, capped at `fuel`.
pub open spec fn survived_from(zr: int, zi: int, cr: int, ci: int, fuel: nat) -> nat
    decreases fuel,
{
    if fuel == 0 {
        0
    } else if mag2_spec(zr, zi) > BAILOUT_MAG2 {
        0
    } else {
        1 + survived_from(
            step_re_spec(zr, zi, cr),
            step_im_spec(zr, zi, ci),
            cr,
            ci,
            (fuel - 1) as nat,
        )
    }
}

/// How many of the `budget` bailout checks the orbit of `c` passes,
/// starting from `z = c`.
pub open spec fn survived_spec(cr: int, ci: int, budget: nat) -> nat {
    survived_from(cr, ci, cr, ci, budget)
}

/// Whether the orbit of `c` escapes within `budget` checks.
pub open spec fn escapes_spec(cr: int, ci: int, budget: nat) -> bool {
    survived_spec(cr, ci, budget) < budget
}

/// The outcome of evaluating one point: whether its orbit escaped, and how
/// many bailout checks it survived. When `escaped` is false the point ran
/// the full budget, so `iterations_survived` equals the budget.
#[derive(Clone, Copy, Debug, PartialEq, Eq, Structural)]
pub struct EscapeResult {
    pub escaped: bool,
    pub iterations_survived: u32,
}

/// The outcome [`evaluate`] reports for a point, as a value of the model.
pub open spec fn eval_result_spec(cr: int, ci: int, budget: nat) -> EscapeResult {
    EscapeResult {
        escaped: escapes_spec(cr, ci, budget),
        iterations_survived: survived_spec(cr, ci, budget) as u32,
    }
}

/// Iterate `z = z * z + c` from `z = c`, testing the squared magnitude
/// against the bailout before every step, and report how far the orbit got.
pub fn evaluate(c: ComplexPoint, budget: u32) -> (r: EscapeResult)
    requires
        budget >= 1,
        -COORD_LIMIT <= c.re <= COORD_LIMIT,
        -COORD_LIMIT <= c.im <= COORD_LIMIT,
    ensures
        r == eval_result_spec(c.re as int, c.im as int, budget as nat),
        r.iterations_survived == survived_spec(c.re as int, c.im as int, budget as nat),
        r.escaped <==> escapes_spec(c.re as int, c.im as int, budget as nat),
        r.iterations_survived <= budget,
        !r.escaped ==> r.iterations_survived == budget,
        r.escaped ==> r.iterations_survived < budget,
{
    let mut zr: i64 = c.re;
    let mut zi: i64 = c.im;
    let mut i: u32 = 0;
    while i < budget
        invariant
            i <= budget,
            -COORD_LIMIT <= c.re <= COORD_LIMIT,
            -COORD_LIMIT <= c.im <= COORD_LIMIT,
            -Z_LIMIT <= zr <= Z_LIMIT,
            -Z_LIMIT <= zi <= Z_LIMIT,
            survived_spec(c.re as int, c.im as int, budget as nat) == i + survived_from(
                zr as int,
                zi as int,
                c.re as int,
                c.im as int,
                (budget - i) as nat,
            ),
        decreases budget - i,
    {
        proof {
            assert(0 <= (zr as int) * (zr as int) <= Z_LIMIT * Z_LIMIT
                && 0 <= (zi as int) * (zi as int) <= Z_LIMIT * Z_LIMIT) by (nonlinear_arith)
                requires
                    -Z_LIMIT <= zr <= Z_LIMIT,
                    -Z_LIMIT <= zi <= Z_LIMIT,
            ;
        }
        let rr: i128 = (zr as i128) * (zr as i128);
        let ii: i128 = (zi as i128) * (zi as i128);
        if rr + ii > BAILOUT_MAG2 {
            return EscapeResult { escaped: true, iterations_survived: i };
        }
        proof {
            assert(-(rr as int + ii as int) <= 2 * (zr as int) * (zi as int) <= rr as int
                + ii as int) by (nonlinear_arith)
                requires
                    rr as int == (zr as int) * (zr as int),
                    ii as int == (zi as int) * (zi as int),
            ;
        }
        let diff: i128 = rr - ii;
        let cross: i128 = 2 * (zr as i128) * (zi as i128);
        let next_re: i128 = scale_down(diff) + c.re as i128;
        let next_im: i128 = scale_down(cross) + c.im as i128;
        zr = next_re as i64;
        zi = next_im as i64;
        i = i + 1;
    }
    EscapeResult { escaped: false, iterations_survived: budget }
}

/// Report whether a point belongs to the set under the given budget, and
/// how many checks its orbit survived: `(true, budget)` for a point that
/// never escaped, `(false, i)` for one whose orbit escaped at check `i`.
pub fn in_mandelbrot_set(c: ComplexPoint, iterations: u32) -> (r: (bool, u32))
    requires
        iterations >= 1,
        -COORD_LIMIT <= c.re <= COORD_LIMIT,
        -COORD_LIMIT <= c.im <= COORD_LIMIT,
    ensures
        r.0 <==> !escapes_spec(c.re as int, c.im as int, iterations as nat),
        r.1 == survived_spec(c.re as int, c.im as int, iterations as nat),
        r.0 ==> r.1 == iterations,
{
    let result = evaluate(c, iterations);
    (!result.escaped, result.iterations_survived)
}

/// A point whose squared magnitude already exceeds the bailout escapes at
/// the very first check, whatever the budget.
pub proof fn lemma_outside_bailout_escapes(cr: int, ci: int, budget: nat)
    requires
        budget >= 1,
        mag2_spec(cr, ci) > BAILOUT_MAG2,
    ensures
        escapes_spec(cr, ci, budget),
        survived_spec(cr, ci, budget) == 0,
{
}

/// Under a budget of one, an escaping point escapes at the very first
/// check: it survives none of them.
pub proof fn lemma_budget_one_survives_zero(cr: int, ci: int)
    requires
        escapes_spec(cr, ci, 1),
    ensures
        survived_spec(cr, ci, 1) == 0,
{
}

/// The orbit of the origin stays at the origin, so the origin never escapes.
pub proof fn lemma_origin_never_escapes(budget: nat)
    ensures
        !escapes_spec(0, 0, budget),
        survived_spec(0, 0, budget) == budget,
{
    lemma_origin_orbit(budget);
}

/// The orbit started at the origin with offset zero passes every check.
proof fn lemma_origin_orbit(fuel: nat)
    ensures
        survived_from(0, 0, 0, 0, fuel) == fuel,
    decreases fuel,
{
    if fuel > 0 {
        assert(step_re_spec(0, 0, 0) == 0);
        assert(step_im_spec(0, 0, 0) == 0);
        lemma_origin_orbit((fuel - 1) as nat);
    }
}

} // verus!
