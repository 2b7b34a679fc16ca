use mandelbrot::escape::{Step, MAX_ITERATIONS};
use mandelbrot::frame::{FrameSize, HEIGHT, WIDTH};
use mandelbrot::render::{paint_pixel, render, render_pixel, OPAQUE};
use std::sync::atomic::{AtomicUsize, Ordering};

/// The window into the plane, as the viewer holds it.
struct View {
    scale: f64,
    x_offset: f64,
    y_offset: f64,
}

const DEFAULT_VIEW: View = View { scale: 0.5, x_offset: 0.0, y_offset: 0.0 };

fn plane_point(view: &View, size: &FrameSize, x: usize, y: usize) -> (f64, f64) {
    let re = x as f64 / (size.half_width() as f64 * view.scale) + view.x_offset - 1.0 / view.scale;
    let im = y as f64 / (size.half_height() as f64 * view.scale) + view.y_offset - 1.0 / view.scale;
    (re, im)
}

fn advance(z: (f64, f64), c: (f64, f64)) -> Step<(f64, f64)> {
    let x = z.0 + c.0;
    let y = z.1 + c.1;
    if (x * x + y * y).sqrt() > 64.0 {
        Step::Escaped
    } else {
        Step::Bounded((x * x - y * y, 2.0 * x * y))
    }
}

fn render_view(view: &View, size: &FrameSize) -> Vec<u8> {
    let mut frame = vec![0x5a_u8; size.byte_len()];
    let locate = |x: usize, y: usize| plane_point(view, size, x, y);
    render(size, MAX_ITERATIONS, &locate, (0.0, 0.0), &advance, &mut frame);
    frame
}

/// A pattern in which neighbours differ, as the number of iterations that the
/// counting orbit below takes to escape.
fn pattern(x: usize, y: usize) -> u16 {
    ((x * 7 + y * 31) % 256) as u16
}

/// Counts up to `limit` and escapes there.
fn count_to(n: u16, limit: u16) -> Step<u16> {
    if n == limit {
        Step::Escaped
    } else {
        Step::Bounded(n + 1)
    }
}

fn render_pattern(size: &FrameSize) -> Vec<u8> {
    let mut frame = vec![0x5a_u8; size.byte_len()];
    render(size, 1000, &pattern, 0u16, &count_to, &mut frame);
    frame
}

#[test]
fn opaque_is_255() {
    assert_eq!(OPAQUE, 255);
}

#[test]
fn pixel_is_painted_grey_and_opaque() {
    let mut pixel = [1u8, 2, 3, 4];
    paint_pixel(&mut pixel, 77);
    assert_eq!(pixel, [77, 77, 77, 255]);
    paint_pixel(&mut pixel, 0);
    assert_eq!(pixel, [0, 0, 0, 255]);
    paint_pixel(&mut pixel, 255);
    assert_eq!(pixel, [255, 255, 255, 255]);
}

#[test]
fn pixel_is_shaded_by_its_position() {
    let size = FrameSize::new(5, 3).unwrap();
    let locate = |x: usize, y: usize| (10 * y + x) as u16;
    let mut pixel = [0u8; 4];
    render_pixel(&mut pixel, 7, &size, 1000, &locate, 0u16, &count_to);
    assert_eq!(pixel, [12, 12, 12, 255]);
    render_pixel(&mut pixel, 14, &size, 1000, &locate, 0u16, &count_to);
    assert_eq!(pixel, [24, 24, 24, 255]);
    // Under a cap of 20 the orbit of the last pixel does not escape.
    render_pixel(&mut pixel, 14, &size, 20, &locate, 0u16, &count_to);
    assert_eq!(pixel, [0, 0, 0, 255]);
}

#[test]
fn every_pixel_gets_the_level_of_its_position() {
    let size = FrameSize::new(37, 23).unwrap();
    let frame = render_pattern(&size);
    assert_eq!(frame.len(), 37 * 23 * 4);
    for y in 0..23 {
        for x in 0..37 {
            let at = 4 * (y * 37 + x);
            let level = u8::try_from(pattern(x, y)).unwrap();
            assert_eq!(&frame[at..at + 4], &[level, level, level, 255], "at ({}, {})", x, y);
        }
    }
}

#[test]
fn every_pixel_is_shaded_once() {
    let size = FrameSize::new(16, 16).unwrap();
    let calls: Vec<AtomicUsize> = (0..256).map(|_| AtomicUsize::new(0)).collect();
    let mut frame = vec![0u8; size.byte_len()];
    let locate = |x: usize, y: usize| {
        calls[y * 16 + x].fetch_add(1, Ordering::SeqCst);
        pattern(x, y)
    };
    render(&size, 1000, &locate, 0u16, &count_to, &mut frame);
    for (index, count) in calls.iter().enumerate() {
        assert_eq!(count.load(Ordering::SeqCst), 1, "pixel {}", index);
        assert_eq!(u16::from(frame[4 * index]), pattern(index % 16, index / 16));
    }
}

#[test]
fn single_pixel_frame() {
    let size = FrameSize::new(1, 1).unwrap();
    let mut frame = vec![9u8; 4];
    render(&size, 1000, &|x, y| (200 + x + y) as u16, 0u16, &count_to, &mut frame);
    assert_eq!(frame, vec![200, 200, 200, 255]);
}

#[test]
fn alpha_is_opaque_whatever_the_level() {
    let size = FrameSize::new(64, 48).unwrap();
    for view in [
        DEFAULT_VIEW,
        View { scale: 3.0, x_offset: -0.7, y_offset: 0.3 },
        View { scale: 0.01, x_offset: 5.0, y_offset: -5.0 },
    ] {
        let frame = render_view(&view, &size);
        assert_eq!(frame.len(), size.byte_len());
        for pixel in frame.chunks_exact(4) {
            assert_eq!(pixel[3], 255);
            assert_eq!(pixel[0], pixel[1]);
            assert_eq!(pixel[1], pixel[2]);
        }
    }
}

#[test]
fn centre_of_the_default_view_is_in_the_set() {
    let size = FrameSize::new(WIDTH as usize, HEIGHT as usize).unwrap();
    let (cx, cy) = (size.half_width(), size.half_height());
    assert_eq!(plane_point(&DEFAULT_VIEW, &size, cx, cy), (0.0, 0.0));
    let frame = render_view(&DEFAULT_VIEW, &size);
    assert_eq!(frame.len(), 1024 * 1024 * 4);
    let at = 4 * size.index_of(cx, cy);
    assert_eq!(&frame[at..at + 4], &[0, 0, 0, 255]);
    for pixel in frame.chunks_exact(4) {
        assert_eq!(pixel[3], 255);
    }
}

#[test]
fn default_view_shows_the_known_shape() {
    let size = FrameSize::new(WIDTH as usize, HEIGHT as usize).unwrap();
    let frame = render_view(&DEFAULT_VIEW, &size);
    let level_at = |x: usize, y: usize| frame[4 * size.index_of(x, y)];
    // The corner of the view is the point (-2, -2): three squarings take it past the radius.
    assert_eq!(plane_point(&DEFAULT_VIEW, &size, 0, 0), (-2.0, -2.0));
    assert_eq!(level_at(0, 0), 3);
    // (-1, 0) lies in the set, (1, 0) does not.
    assert_eq!(plane_point(&DEFAULT_VIEW, &size, 256, 512), (-1.0, 0.0));
    assert_eq!(level_at(256, 512), 0);
    assert_eq!(plane_point(&DEFAULT_VIEW, &size, 768, 512), (1.0, 0.0));
    assert_eq!(level_at(768, 512), 4);
}

#[test]
fn cap_bounds_the_levels() {
    let size = FrameSize::new(32, 8).unwrap();
    let mut frame = vec![0x5a_u8; size.byte_len()];
    render(&size, 100, &pattern, 0u16, &count_to, &mut frame);
    for y in 0..8 {
        for x in 0..32 {
            let expected = if pattern(x, y) < 100 { u8::try_from(pattern(x, y)).unwrap() } else { 0 };
            assert_eq!(frame[4 * size.index_of(x, y)], expected, "at ({}, {})", x, y);
        }
    }
}

#[test]
fn rendering_is_repeatable() {
    let size = FrameSize::new(128, 128).unwrap();
    assert_eq!(render_view(&DEFAULT_VIEW, &size), render_view(&DEFAULT_VIEW, &size));
}
