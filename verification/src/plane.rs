//! The viewport and its mapping from pixel coordinates to the complex plane.

use vstd::prelude::*;

verus! {

use vstd::arithmetic::div_mod::{
    lemma_div_by_multiple, lemma_div_is_ordered, lemma_fundamental_div_mod,
    lemma_hoist_over_denominator, lemma_mod_division_less_than_divisor, lemma_multiply_divide_le,
};
use crate::escape::COORD_LIMIT;

/// A point of the complex plane, both components in fixed-point raw form
/// (the plane value times [`crate::fixed::SCALE`]).
#[derive(Clone, Copy, Debug, PartialEq, Eq, Structural)]
pub struct ComplexPoint {
    pub re: i64,
    pub im: i64,
}

/// Largest raw magnitude accepted for the radius of a viewport
/// (a plane radius of 256).
pub const RADIUS_LIMIT: i64 = 0x1_0000_0000;

/// Largest raw magnitude accepted for either centre component of a viewport
/// (a plane offset of 256 either way).
pub const CENTER_LIMIT: i64 = 0x1_0000_0000;

/// The rectangular window of the plane that maps onto the pixel grid:
/// pixel dimensions, centre point and radius, the latter three in
/// fixed-point raw form. Immutable once a render starts.
#[derive(Clone, Copy, Debug, PartialEq, Eq, Structural)]
pub struct Viewport {
    pub width: u32,
    pub height: u32,
    pub center_re: i64,
    pub center_im: i64,
    pub radius: i64,
}

impl Viewport {
    /// The invariant every rendered viewport satisfies: positive dimensions,
    /// a positive radius, and bounds that keep all plane arithmetic inside
    /// the fixed-width integers.
    pub open spec fn wf(self) -> bool {
        &&& self.width >= 1
        &&& self.height >= 1
        &&& 1 <= self.radius <= RADIUS_LIMIT
        &&& -CENTER_LIMIT <= self.center_re <= CENTER_LIMIT
        &&& -CENTER_LIMIT <= self.center_im <= CENTER_LIMIT
        &&& (self.width as int) * (self.height as int) <= usize::MAX as int
    }

    /// Check a configuration and build the viewport: the value comes back
    /// exactly when every field is within the invariant's bounds.
    pub fn new(width: u32, height: u32, center_re: i64, center_im: i64, radius: i64) -> (r:
        Option<Viewport>)
        ensures
            r is Some <==> (Viewport { width, height, center_re, center_im, radius }).wf(),
            r matches Some(v) ==> v == (Viewport { width, height, center_re, center_im, radius }),
    {
        if width < 1 || height < 1 {
            return None;
        }
        let fits: bool = (width as u64) <= (usize::MAX as u64) / (height as u64);
        proof {
            let m = usize::MAX as int;
            let w = width as int;
            let h = height as int;
            if w <= m / h {
                lemma_fundamental_div_mod(m, h);
                lemma_mod_division_less_than_divisor(m, h);
                assert(w * h <= m) by (nonlinear_arith)
                    requires
                        w <= m / h,
                        h >= 1,
                        h * (m / h) <= m,
                ;
            }
            if w * h <= m {
                lemma_div_is_ordered(w * h, m, h);
                lemma_div_by_multiple(w, h);
                assert(w * h == h * w) by (nonlinear_arith);
            }
        }
        if fits && 1 <= radius && radius <= RADIUS_LIMIT && -CENTER_LIMIT <= center_re && center_re
            <= CENTER_LIMIT && -CENTER_LIMIT <= center_im && center_im <= CENTER_LIMIT {
            Some(Viewport { width, height, center_re, center_im, radius })
        } else {
            None
        }
    }
}

/// Real part of the plane point of pixel column `x`: the column's share of
/// the radius, shifted so the viewport is centred on `center_re`.
pub open spec fn map_re_spec(x: int, vp: Viewport) -> int {
    (x * vp.radius) / (vp.width as int) - (vp.radius as int) / 2 + vp.center_re
}

/// Imaginary part of the plane point of pixel row `y`. The vertical axis is
/// flipped: increasing `y` moves down the image but toward smaller
/// imaginary parts.
pub open spec fn map_im_spec(y: int, vp: Viewport) -> int {
    -((y * vp.radius) / (vp.height as int) - (vp.radius as int) / 2) + vp.center_im
}

/// Map a pixel coordinate of the grid onto its point of the complex plane.
/// A pure total function: two calls on the same arguments give the same
/// point, and the point always lies within the evaluator's bounds.
pub fn map_pixel(x: u32, y: u32, vp: Viewport) -> (c: ComplexPoint)
    requires
        vp.wf(),
        x < vp.width,
        y < vp.height,
    ensures
        c.re as int == map_re_spec(x as int, vp),
        c.im as int == map_im_spec(y as int, vp),
        -COORD_LIMIT <= c.re <= COORD_LIMIT,
        -COORD_LIMIT <= c.im <= COORD_LIMIT,
{
    proof {
        assert(0 <= (x as int) * (vp.radius as int) <= (u32::MAX as int) * (RADIUS_LIMIT as int)
            && 0 <= (y as int) * (vp.radius as int) <= (u32::MAX as int) * (
        RADIUS_LIMIT as int)) by (nonlinear_arith)
            requires
                1 <= vp.radius <= RADIUS_LIMIT,
        ;
        assert((x as int) * (vp.radius as int) <= (vp.width as int) * (vp.radius as int)
            && (y as int) * (vp.radius as int) <= (vp.height as int) * (
        vp.radius as int)) by (nonlinear_arith)
            requires
                x < vp.width,
                y < vp.height,
                vp.radius >= 1,
        ;
    }
    let xr: u64 = (x as u64) * (vp.radius as u64);
    let qx: u64 = xr / (vp.width as u64);
    let yr: u64 = (y as u64) * (vp.radius as u64);
    let qy: u64 = yr / (vp.height as u64);
    proof {
        lemma_multiply_divide_le(xr as int, vp.width as int, vp.radius as int);
        lemma_multiply_divide_le(yr as int, vp.height as int, vp.radius as int);
    }
    let half: i64 = ((vp.radius as u64) / 2) as i64;
    let re: i64 = (qx as i64) - half + vp.center_re;
    let im: i64 = -((qy as i64) - half) + vp.center_im;
    ComplexPoint { re, im }
}

/// For a fixed well-formed viewport whose raw radius is at least each pixel
/// dimension, the pixel-to-plane mapping is injective over the grid: two
/// distinct pixels land on distinct plane points. (At coarser radii the
/// fixed-point rounding can collapse neighbouring columns, just as float
/// rounding would at extreme scales.)
pub proof fn lemma_map_pixel_injective(vp: Viewport, x1: u32, y1: u32, x2: u32, y2: u32)
    requires
        vp.wf(),
        vp.radius >= vp.width,
        vp.radius >= vp.height,
        x1 < vp.width,
        y1 < vp.height,
        x2 < vp.width,
        y2 < vp.height,
        !(x1 == x2 && y1 == y2),
    ensures
        map_re_spec(x1 as int, vp) != map_re_spec(x2 as int, vp) || map_im_spec(y1 as int, vp)
            != map_im_spec(y2 as int, vp),
{
    if x1 != x2 {
        if x1 < x2 {
            lemma_scaled_div_strict_mono(x1 as int, x2 as int, vp.radius as int, vp.width as int);
        } else {
            lemma_scaled_div_strict_mono(x2 as int, x1 as int, vp.radius as int, vp.width as int);
        }
    } else {
        if y1 < y2 {
            lemma_scaled_div_strict_mono(y1 as int, y2 as int, vp.radius as int, vp.height as int);
        } else {
            lemma_scaled_div_strict_mono(y2 as int, y1 as int, vp.radius as int, vp.height as int);
        }
    }
}

/// When the numerator grows by at least one full denominator, the quotient
/// grows strictly: `a < b` and `r >= d` give `(a*r)/d < (b*r)/d`.
proof fn lemma_scaled_div_strict_mono(a: int, b: int, r: int, d: int)
    requires
        0 <= a < b,
        r >= d,
        d >= 1,
    ensures
        (a * r) / d < (b * r) / d,
{
    assert(b * r >= a * r + r) by (nonlinear_arith)
        requires
            a < b,
            r >= 1,
    ;
    lemma_hoist_over_denominator(a * r, 1, d as nat);
    lemma_div_is_ordered(a * r + d, b * r, d);
}

} // verus!
