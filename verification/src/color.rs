//! The two colour policies: how an escape outcome becomes a pixel colour.

use vstd::prelude::*;

verus! {

use vstd::arithmetic::div_mod::lemma_multiply_divide_lt;
use crate::escape::{eval_result_spec, evaluate, EscapeResult, COORD_LIMIT};
use crate::plane::ComplexPoint;

/// A three-channel byte colour.
#[derive(Clone, Copy, Debug, PartialEq, Eq, Structural)]
pub struct PixelColor {
    pub r: u8,
    pub g: u8,
    pub b: u8,
}

/// Which of the two interchangeable colour policies to apply.
#[derive(Clone, Copy, Debug, PartialEq, Eq, Structural)]
pub enum ColorMode {
    Grayscale,
    Spectrum,
}

/// Pure black, the colour of every point that stays in the set.
pub open spec fn black() -> PixelColor {
    PixelColor { r: 0, g: 0, b: 0 }
}

/// The grayscale level of an escaped point: the escape ratio
/// `survived / budget` times 255, rounded to the nearest integer
/// (halves up).
pub open spec fn gray_level_spec(survived: int, budget: int) -> int {
    (510 * survived + budget) / (2 * budget)
}

/// The grayscale pixel of an escaped point: the level on all three
/// channels.
pub open spec fn gray_pixel_spec(survived: int, budget: int) -> PixelColor {
    let level = gray_level_spec(survived, budget) as u8;
    PixelColor { r: level, g: level, b: level }
}

/// The 24-bit value behind the spectrum pixel of an escaped point: the
/// escape ratio times `0xFFFFFF`, rounded to the nearest integer
/// (halves up).
pub open spec fn spectrum_value_spec(survived: int, budget: int) -> int {
    (2 * 0xFFFFFF * survived + budget) / (2 * budget)
}

/// The spectrum pixel of an escaped point: the 24-bit value split into its
/// three bytes, highest first.
pub open spec fn spectrum_pixel_spec(survived: int, budget: int) -> PixelColor {
    let value = spectrum_value_spec(survived, budget);
    PixelColor {
        r: (value / 0x10000) as u8,
        g: ((value / 0x100) % 0x100) as u8,
        b: (value % 0x100) as u8,
    }
}

/// The colour of an escape outcome under a policy: black for a point of
/// the set, otherwise the policy's colour of the escape ratio.
pub open spec fn colorize_spec(result: EscapeResult, budget: int, mode: ColorMode) -> PixelColor {
    if !result.escaped {
        black()
    } else {
        match mode {
            ColorMode::Grayscale => gray_pixel_spec(result.iterations_survived as int, budget),
            ColorMode::Spectrum => spectrum_pixel_spec(result.iterations_survived as int, budget),
        }
    }
}

/// The grayscale policy for an escaped point.
pub fn get_greyscale_pixel(survived: u32, budget: u32) -> (color: PixelColor)
    requires
        budget >= 1,
        survived < budget,
    ensures
        color == gray_pixel_spec(survived as int, budget as int),
{
    let num: u64 = 510 * (survived as u64) + (budget as u64);
    let den: u64 = 2 * (budget as u64);
    let level: u64 = num / den;
    proof {
        assert(num < den * 256) by (nonlinear_arith)
            requires
                num == 510 * (survived as int) + budget,
                den == 2 * (budget as int),
                survived < budget,
        ;
        lemma_multiply_divide_lt(num as int, den as int, 256);
    }
    let level8: u8 = level as u8;
    PixelColor { r: level8, g: level8, b: level8 }
}

/// The full-spectrum policy for an escaped point.
pub fn get_color_pixel(survived: u32, budget: u32) -> (color: PixelColor)
    requires
        budget >= 1,
        survived < budget,
    ensures
        color == spectrum_pixel_spec(survived as int, budget as int),
{
    proof {
        assert(0 <= 2 * 0xFFFFFF * (survived as int) <= 0x1FF_FFFE * 0xFFFF_FFFF) by (nonlinear_arith)
            requires
                0 <= survived <= 0xFFFF_FFFF,
        ;
    }
    let num: u64 = 2 * 0xFFFFFF * (survived as u64) + (budget as u64);
    let den: u64 = 2 * (budget as u64);
    let value: u64 = num / den;
    proof {
        assert(num < den * 0x100_0000) by (nonlinear_arith)
            requires
                num == 2 * 0xFFFFFF * (survived as int) + budget,
                den == 2 * (budget as int),
                survived < budget,
        ;
        lemma_multiply_divide_lt(num as int, den as int, 0x100_0000);
    }
    PixelColor {
        r: (value / 0x10000) as u8,
        g: ((value / 0x100) % 0x100) as u8,
        b: (value % 0x100) as u8,
    }
}

/// Colour one escape outcome under the chosen policy. Deterministic: the
/// colour is a function of the outcome, the budget and the mode alone, and
/// a point of the set is black under either policy.
pub fn colorize(result: EscapeResult, budget: u32, mode: ColorMode) -> (color: PixelColor)
    requires
        budget >= 1,
        result.escaped ==> result.iterations_survived < budget,
        !result.escaped ==> result.iterations_survived == budget,
    ensures
        color == colorize_spec(result, budget as int, mode),
        !result.escaped ==> color == black(),
{
    if !result.escaped {
        PixelColor { r: 0, g: 0, b: 0 }
    } else {
        match mode {
            ColorMode::Grayscale => get_greyscale_pixel(result.iterations_survived, budget),
            ColorMode::Spectrum => get_color_pixel(result.iterations_survived, budget),
        }
    }
}

/// Both policies send a point of the set to exactly black.
pub proof fn lemma_in_set_is_black(result: EscapeResult, budget: int, mode: ColorMode)
    requires
        !result.escaped,
    ensures
        colorize_spec(result, budget, mode) == black(),
{
}

/// Evaluate one plane point against the budget and colour the outcome:
/// black when the point stays in the set, else the policy's colour.
pub fn get_mandelbrot_color(c: ComplexPoint, iterations: u32, color: bool) -> (px: PixelColor)
    requires
        iterations >= 1,
        -COORD_LIMIT <= c.re <= COORD_LIMIT,
        -COORD_LIMIT <= c.im <= COORD_LIMIT,
    ensures
        px == colorize_spec(
            eval_result_spec(c.re as int, c.im as int, iterations as nat),
            iterations as int,
            if color {
                ColorMode::Spectrum
            } else {
                ColorMode::Grayscale
            },
        ),
{
    let result = evaluate(c, iterations);
    let mode = if color {
        ColorMode::Spectrum
    } else {
        ColorMode::Grayscale
    };
    colorize(result, iterations, mode)
}

} // verus!
