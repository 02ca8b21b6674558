use mandelbrot::{
    colorize, evaluate, get_color_pixel, get_greyscale_pixel, get_mandelbrot_color,
    in_mandelbrot_set, map_pixel, parse_list, ColorMode, ComplexPoint, EscapeResult, PixelColor,
    Viewport, SCALE,
};

fn black() -> PixelColor {
    PixelColor { r: 0, g: 0, b: 0 }
}

#[test]
fn parse_list_dimensions() {
    assert_eq!(parse_list(String::from("1000x1000"), 'x'), Some((1000, 1000)));
    assert_eq!(parse_list(String::from("3,4"), ','), Some((3, 4)));
    assert_eq!(parse_list(String::from("1x2x3"), 'x'), Some((1, 2)));
}

#[test]
fn parse_list_rejects_missing_delimiter() {
    assert_eq!(parse_list(String::from("12"), 'x'), None);
    assert_eq!(parse_list(String::from(""), 'x'), None);
}

#[test]
fn parse_list_rejects_bad_segments() {
    assert_eq!(parse_list(String::from("axb"), 'x'), None);
    assert_eq!(parse_list(String::from("x5"), 'x'), None);
    assert_eq!(parse_list(String::from("5x"), 'x'), None);
    assert_eq!(parse_list(String::from("1.5x2"), 'x'), None);
}

#[test]
fn parse_list_handles_u32_range() {
    assert_eq!(
        parse_list(String::from("4294967295x1"), 'x'),
        Some((4294967295, 1))
    );
    assert_eq!(parse_list(String::from("4294967296x1"), 'x'), None);
}

#[test]
fn origin_is_always_in_the_set() {
    // The origin's orbit never moves, so it survives any budget.
    for budget in [1u32, 2, 10, 100] {
        let r = evaluate(ComplexPoint { re: 0, im: 0 }, budget);
        assert!(!r.escaped);
        assert_eq!(r.iterations_survived, budget);
    }
}

#[test]
fn far_points_escape_at_once() {
    // |c| > 2 trips the bailout before the first step, whatever the budget.
    for budget in [1u32, 5, 64] {
        let r = evaluate(ComplexPoint { re: 3 * SCALE, im: 0 }, budget);
        assert!(r.escaped);
        assert_eq!(r.iterations_survived, 0);
        let r = evaluate(ComplexPoint { re: -2 * SCALE, im: 2 * SCALE }, budget);
        assert!(r.escaped);
        assert_eq!(r.iterations_survived, 0);
    }
}

#[test]
fn boundary_point_never_escapes() {
    // c = (-2, 0) cycles between (-2, 0) and (2, 0); the bailout test is
    // strict, so the squared magnitude of exactly 4 never trips it.
    let r = evaluate(ComplexPoint { re: -2 * SCALE, im: 0 }, 50);
    assert!(!r.escaped);
    assert_eq!(r.iterations_survived, 50);
}

#[test]
fn escape_after_one_step() {
    // c = (0, 2) passes the first check and escapes at the second.
    let r = evaluate(ComplexPoint { re: 0, im: 2 * SCALE }, 10);
    assert!(r.escaped);
    assert_eq!(r.iterations_survived, 1);
}

#[test]
fn in_mandelbrot_set_matches_evaluate() {
    assert_eq!(in_mandelbrot_set(ComplexPoint { re: 0, im: 0 }, 10), (true, 10));
    assert_eq!(
        in_mandelbrot_set(ComplexPoint { re: 3 * SCALE, im: 0 }, 10),
        (false, 0)
    );
}

#[test]
fn colorize_is_deterministic() {
    let result = EscapeResult { escaped: true, iterations_survived: 7 };
    for mode in [ColorMode::Grayscale, ColorMode::Spectrum] {
        let a = colorize(result, 32, mode);
        let b = colorize(result, 32, mode);
        assert_eq!(a, b);
    }
}

#[test]
fn in_set_is_black_under_both_policies() {
    let result = EscapeResult { escaped: false, iterations_survived: 32 };
    assert_eq!(colorize(result, 32, ColorMode::Grayscale), black());
    assert_eq!(colorize(result, 32, ColorMode::Spectrum), black());
}

#[test]
fn grayscale_rounds_the_ratio() {
    // ratio 1/10: 255 * 0.1 = 25.5 rounds up to 26.
    let px = get_greyscale_pixel(1, 10);
    assert_eq!(px, PixelColor { r: 26, g: 26, b: 26 });
    // ratio 0: exactly black.
    let px = get_greyscale_pixel(0, 10);
    assert_eq!(px, black());
    // ratio 9/10: 229.5 rounds up to 230.
    let px = get_greyscale_pixel(9, 10);
    assert_eq!(px, PixelColor { r: 230, g: 230, b: 230 });
}

#[test]
fn spectrum_splits_the_value_into_bytes() {
    // ratio 1/10: round(0xFFFFFF / 10) = 1677722 = 0x19999A.
    let px = get_color_pixel(1, 10);
    assert_eq!(px, PixelColor { r: 0x19, g: 0x99, b: 0x9A });
    // ratio 0 gives value 0.
    assert_eq!(get_color_pixel(0, 10), black());
}

#[test]
fn get_mandelbrot_color_covers_both_outcomes() {
    let in_set = get_mandelbrot_color(ComplexPoint { re: 0, im: 0 }, 10, false);
    assert_eq!(in_set, black());
    let escaped = get_mandelbrot_color(ComplexPoint { re: 0, im: 2 * SCALE }, 10, false);
    assert_eq!(escaped, PixelColor { r: 26, g: 26, b: 26 });
    let spectral = get_mandelbrot_color(ComplexPoint { re: 0, im: 2 * SCALE }, 10, true);
    assert_eq!(spectral, PixelColor { r: 0x19, g: 0x99, b: 0x9A });
}

#[test]
fn map_pixel_matches_the_formula() {
    let vp = Viewport {
        width: 2,
        height: 2,
        center_re: 0,
        center_im: 0,
        radius: 4 * SCALE,
    };
    // re = (x/width)*radius - radius/2 + center.re, im flipped.
    assert_eq!(map_pixel(0, 0, vp), ComplexPoint { re: -2 * SCALE, im: 2 * SCALE });
    assert_eq!(map_pixel(1, 0, vp), ComplexPoint { re: 0, im: 2 * SCALE });
    assert_eq!(map_pixel(0, 1, vp), ComplexPoint { re: -2 * SCALE, im: 0 });
    assert_eq!(map_pixel(1, 1, vp), ComplexPoint { re: 0, im: 0 });
}

#[test]
fn map_pixel_is_deterministic_and_injective_on_a_grid() {
    let vp = Viewport {
        width: 4,
        height: 3,
        center_re: -3 * SCALE / 4,
        center_im: 3 * SCALE / 10,
        radius: SCALE / 2,
    };
    let mut seen: Vec<ComplexPoint> = Vec::new();
    for x in 0..4u32 {
        for y in 0..3u32 {
            let c = map_pixel(x, y, vp);
            assert_eq!(c, map_pixel(x, y, vp));
            assert!(!seen.contains(&c), "two pixels mapped to {:?}", c);
            seen.push(c);
        }
    }
}

#[test]
fn viewport_new_checks_the_bounds() {
    assert!(Viewport::new(2, 2, 0, 0, 4 * SCALE).is_some());
    assert_eq!(Viewport::new(0, 2, 0, 0, 4 * SCALE), None);
    assert_eq!(Viewport::new(2, 0, 0, 0, 4 * SCALE), None);
    assert_eq!(Viewport::new(2, 2, 0, 0, 0), None);
    assert_eq!(Viewport::new(2, 2, 0, 0, -SCALE), None);
    assert_eq!(Viewport::new(2, 2, 0, 0, 0x2_0000_0000), None);
    assert_eq!(Viewport::new(2, 2, 0x2_0000_0000, 0, SCALE), None);
}
