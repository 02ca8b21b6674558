//! Fixed-point representation of plane coordinates.
//!
//! A coordinate of the complex plane is stored as an `i64` holding the real
//! value multiplied by [`SCALE`]. Products of two stored coordinates carry a
//! factor of `SCALE * SCALE`; [`scale_down`] divides one factor back out,
//! rounding toward negative infinity.

use vstd::prelude::*;

verus! {

use vstd::arithmetic::div_mod::lemma_fundamental_div_mod_converse_div;

/// Number of raw steps per unit of the plane: a stored coordinate is the
/// real value times `SCALE`.
pub const SCALE: i64 = 0x100_0000;

/// What [`scale_down`] returns: the quotient by `SCALE`, rounded toward
/// negative infinity.
pub open spec fn scale_down_spec(n: int) -> int {
    n / (SCALE as int)
}

/// Floor-divide a double-width raw product by `SCALE`.
pub(crate) fn scale_down(n: i128) -> (r: i128)
    requires
        i128::MIN < n,
    ensures
        r == scale_down_spec(n as int),
{
    let s: u128 = SCALE as u128;
    if n >= 0 {
        let q: u128 = (n as u128) / s;
        proof {
            lemma_fundamental_div_mod_converse_div(
                n as int,
                SCALE as int,
                q as int,
                (n as u128) as int % (SCALE as int),
            );
        }
        q as i128
    } else {
        let m: u128 = (-n) as u128;
        let q: u128 = m / s;
        let rem: u128 = m % s;
        if rem == 0 {
            proof {
                lemma_fundamental_div_mod_converse_div(n as int, SCALE as int, -(q as int), 0);
            }
            -(q as i128)
        } else {
            proof {
                lemma_fundamental_div_mod_converse_div(
                    n as int,
                    SCALE as int,
                    -(q as int) - 1,
                    SCALE as int - rem as int,
                );
            }
            -(q as i128) - 1
        }
    }
}

} // verus!
