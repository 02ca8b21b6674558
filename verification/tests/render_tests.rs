use mandelbrot::{
    apply_points, compute_point, render, render_points, ColorMode, MandelbrotPoint, OutputImage,
    PixelColor, Viewport, SCALE,
};

fn black() -> PixelColor {
    PixelColor { r: 0, g: 0, b: 0 }
}

fn small_viewport() -> Viewport {
    Viewport {
        width: 2,
        height: 2,
        center_re: 0,
        center_im: 0,
        radius: 4 * SCALE,
    }
}

#[test]
fn output_image_starts_black_and_put_writes_one_cell() {
    let mut img = OutputImage::new(3, 2);
    for x in 0..3u32 {
        for y in 0..2u32 {
            assert_eq!(img.pixel_at(x, y), black());
        }
    }
    let red = PixelColor { r: 255, g: 0, b: 0 };
    img.put(&MandelbrotPoint { x: 2, y: 1, color: red });
    for x in 0..3u32 {
        for y in 0..2u32 {
            let expected = if (x, y) == (2, 1) { red } else { black() };
            assert_eq!(img.pixel_at(x, y), expected);
        }
    }
}

#[test]
fn render_points_covers_every_pixel_exactly_once() {
    let vp = Viewport {
        width: 2,
        height: 3,
        center_re: 0,
        center_im: 0,
        radius: 4 * SCALE,
    };
    let pts = render_points(vp, 10, ColorMode::Grayscale);
    assert_eq!(pts.len(), 6);
    let mut coords: Vec<(u32, u32)> = pts.iter().map(|p| (p.x, p.y)).collect();
    coords.sort();
    let expected: Vec<(u32, u32)> = vec![(0, 0), (0, 1), (0, 2), (1, 0), (1, 1), (1, 2)];
    assert_eq!(coords, expected);
    for p in &pts {
        assert_eq!(
            p.color,
            compute_point(p.x, p.y, vp, 10, ColorMode::Grayscale).color
        );
    }
}

#[test]
fn two_by_two_grayscale_scene() {
    // width=2, height=2, center=(0,0), radius=4, budget=10, grayscale.
    let img = render(small_viewport(), 10, ColorMode::Grayscale, 1);
    // The pixel mapped to the origin is in the set: black.
    assert_eq!(img.pixel_at(1, 1), black());
    // (-2, 0) cycles on the bailout boundary without escaping: black.
    assert_eq!(img.pixel_at(0, 1), black());
    // (0, 2) escapes after one survived check: ratio 1/10, level 26.
    assert_eq!(img.pixel_at(1, 0), PixelColor { r: 26, g: 26, b: 26 });
    // (-2, 2) lies outside the bailout and escapes at the first check:
    // ratio 0 rounds to level 0, so this escaped corner is still black.
    assert_eq!(img.pixel_at(0, 0), black());
}

#[test]
fn budget_of_one_leaves_only_minimal_colors() {
    // With a single iteration every escaping point survives zero checks,
    // so both policies give the minimal (black) colour everywhere.
    let img = render(small_viewport(), 1, ColorMode::Grayscale, 1);
    for x in 0..2u32 {
        for y in 0..2u32 {
            assert_eq!(img.pixel_at(x, y), black());
        }
    }
    let pts = render_points(small_viewport(), 1, ColorMode::Spectrum);
    for p in &pts {
        assert_eq!(p.color, black());
    }
}

#[test]
fn worker_count_cannot_change_the_image() {
    let vp = Viewport {
        width: 8,
        height: 6,
        center_re: -3 * SCALE / 4,
        center_im: 3 * SCALE / 10,
        radius: SCALE / 2,
    };
    let one = render(vp, 32, ColorMode::Spectrum, 1);
    let four = render(vp, 32, ColorMode::Spectrum, 4);
    assert_eq!(one, four);
    let sixteen = render(vp, 32, ColorMode::Spectrum, 16);
    assert_eq!(one, sixteen);
    let sixty_four = render(vp, 32, ColorMode::Spectrum, 64);
    assert_eq!(one.pixels, sixty_four.pixels);
}

#[test]
fn arrival_order_cannot_change_the_image() {
    // Collect the same work results in reverse order: the assembled image
    // is identical to the sequential render.
    let vp = Viewport {
        width: 5,
        height: 4,
        center_re: 0,
        center_im: 0,
        radius: 3 * SCALE,
    };
    let reference = render(vp, 16, ColorMode::Grayscale, 1);
    let mut pts = render_points(vp, 16, ColorMode::Grayscale);
    pts.reverse();
    let mut img = OutputImage::new(5, 4);
    apply_points(&mut img, &pts);
    assert_eq!(img, reference);
}

#[test]
fn rendering_twice_is_byte_identical() {
    let vp = small_viewport();
    let a = render(vp, 10, ColorMode::Spectrum, 1);
    let b = render(vp, 10, ColorMode::Spectrum, 1);
    assert_eq!(a.pixels, b.pixels);
}
