//! A Mandelbrot-set renderer core with verified arithmetic.
//!
//! The complex plane is modelled in fixed-point arithmetic: a coordinate is an
//! `i64` holding the real value times [`fixed::SCALE`]. Every pixel of the
//! output image is mapped to a point of the plane, run through the bounded
//! escape iteration, and coloured by one of two interchangeable policies.
//! The sequential renderer here is the reference result; a caller that fans
//! the per-pixel work out over threads can rely on the collection lemmas to
//! reassemble the very same image whatever the arrival order.

pub mod color;
pub mod escape;
pub mod fixed;
pub mod plane;
pub mod render;
pub mod util;

pub use color::{colorize, get_color_pixel, get_greyscale_pixel, get_mandelbrot_color, ColorMode,
    PixelColor};
pub use escape::{evaluate, in_mandelbrot_set, EscapeResult};
pub use fixed::SCALE;
pub use plane::{map_pixel, ComplexPoint, Viewport};
pub use render::{apply_points, compute_point, render, render_points, MandelbrotPoint,
    OutputImage};
pub use util::parse_list;
