use artop::buffer::SampleBuffer;
use artop::canvas::Canvas;
use artop::color::ColorSample;
use artop::fill::{render, FillMethod};

fn buffer_of(triples: &[(u8, u8, u8)]) -> SampleBuffer {
    let mut buffer = SampleBuffer::new();
    for &(red, green, blue) in triples {
        buffer.push(ColorSample::new(red, green, blue));
    }
    buffer
}

fn pixel(canvas: &Canvas, x: usize, y: usize) -> (u8, u8, u8) {
    let p = canvas.get(x, y);
    (p.red, p.green, p.blue)
}

#[test]
fn smooth_scenario_three_samples() {
    let buffer = buffer_of(&[(255, 0, 0), (0, 255, 0), (0, 0, 255)]);
    let canvas = render(FillMethod::Smooth, &buffer);
    assert_eq!(canvas.size(), 3);
    assert_eq!(pixel(&canvas, 0, 0), (255, 0, 0));
    assert_eq!(pixel(&canvas, 1, 1), (0, 255, 0));
    assert_eq!(pixel(&canvas, 2, 2), (0, 0, 255));
    assert_eq!(pixel(&canvas, 1, 0), (127, 127, 0));
    assert_eq!(pixel(&canvas, 0, 1), (127, 127, 0));
    assert_eq!(pixel(&canvas, 2, 1), (0, 127, 127));
    assert_eq!(pixel(&canvas, 1, 2), (0, 127, 127));
    assert_eq!(pixel(&canvas, 2, 0), (63, 127, 63));
    assert_eq!(pixel(&canvas, 0, 2), (63, 127, 63));
}

#[test]
fn gradient_scenario_two_samples() {
    let buffer = buffer_of(&[(255, 0, 0), (0, 255, 0)]);
    let canvas = render(FillMethod::Gradient, &buffer);
    assert_eq!(canvas.size(), 2);
    assert_eq!(pixel(&canvas, 0, 0), (255, 0, 0));
    assert_eq!(pixel(&canvas, 1, 1), (0, 255, 0));
    // The blended seam survives below the diagonal ...
    assert_eq!(pixel(&canvas, 1, 0), (127, 127, 0));
    // ... but above it the current color is written after the blend and
    // wins: the gradient canvas is not symmetric.
    assert_eq!(pixel(&canvas, 0, 1), (0, 255, 0));
    assert_ne!(pixel(&canvas, 1, 0), pixel(&canvas, 0, 1));
}

#[test]
fn gradient_three_samples_fold_and_seam() {
    let buffer = buffer_of(&[(255, 0, 0), (0, 255, 0), (0, 0, 255)]);
    let canvas = render(FillMethod::Gradient, &buffer);
    assert_eq!(canvas.size(), 3);
    assert_eq!(pixel(&canvas, 0, 0), (255, 0, 0));
    assert_eq!(pixel(&canvas, 1, 1), (0, 255, 0));
    assert_eq!(pixel(&canvas, 2, 2), (0, 0, 255));
    // Step 1: seam below the diagonal, current color above it and on the
    // fold-edge cells (2, 0) and (0, 2).
    assert_eq!(pixel(&canvas, 1, 0), (127, 127, 0));
    assert_eq!(pixel(&canvas, 0, 1), (0, 255, 0));
    assert_eq!(pixel(&canvas, 2, 0), (0, 255, 0));
    assert_eq!(pixel(&canvas, 0, 2), (0, 255, 0));
    // Step 2: seam below the diagonal, current color overwrites the mirror
    // seam cell.
    assert_eq!(pixel(&canvas, 2, 1), (0, 127, 127));
    assert_eq!(pixel(&canvas, 1, 2), (0, 0, 255));
}

#[test]
fn gradient_four_samples_paints_both_wings() {
    let buffer = buffer_of(&[(200, 0, 0), (0, 200, 0), (0, 0, 200), (200, 200, 0)]);
    let canvas = render(FillMethod::Gradient, &buffer);
    assert_eq!(canvas.size(), 4);
    // Diagonal: the samples in arrival order.
    assert_eq!(pixel(&canvas, 0, 0), (200, 0, 0));
    assert_eq!(pixel(&canvas, 1, 1), (0, 200, 0));
    assert_eq!(pixel(&canvas, 2, 2), (0, 0, 200));
    assert_eq!(pixel(&canvas, 3, 3), (200, 200, 0));
    // Step 1 (half-width 1): seam below the diagonal, current color above
    // it and on the fold-edge cells.
    assert_eq!(pixel(&canvas, 1, 0), (100, 100, 0));
    assert_eq!(pixel(&canvas, 0, 1), (0, 200, 0));
    assert_eq!(pixel(&canvas, 2, 0), (0, 200, 0));
    assert_eq!(pixel(&canvas, 0, 2), (0, 200, 0));
    // Step 2 (half-width 2, past the fold): the seam pair of each wing
    // position, the lower wing at (3, 1), and the upper wing at (1, 3) —
    // both wings of the anti-diagonal x + y = 4 hold sample 2.
    assert_eq!(pixel(&canvas, 2, 1), (0, 100, 100));
    assert_eq!(pixel(&canvas, 1, 2), (0, 0, 200));
    assert_eq!(pixel(&canvas, 3, 0), (0, 100, 100));
    assert_eq!(pixel(&canvas, 0, 3), (0, 100, 100));
    assert_eq!(pixel(&canvas, 3, 1), (0, 0, 200));
    assert_eq!(pixel(&canvas, 1, 3), (0, 0, 200));
    // Step 3 (far corner, single position): seam below, current color
    // overwrites the mirror seam cell.
    assert_eq!(pixel(&canvas, 3, 2), (100, 100, 100));
    assert_eq!(pixel(&canvas, 2, 3), (200, 200, 0));
}

#[test]
fn empty_buffer_renders_empty_canvas() {
    let buffer = SampleBuffer::new();
    let smooth_canvas = render(FillMethod::Smooth, &buffer);
    assert_eq!(smooth_canvas.size(), 0);
    let gradient_canvas = render(FillMethod::Gradient, &buffer);
    assert_eq!(gradient_canvas.size(), 0);
}

#[test]
fn canvas_size_equals_buffer_length() {
    for n in 0..8usize {
        let triples: Vec<(u8, u8, u8)> = (0..n).map(|k| (k as u8, 7, 200)).collect();
        let buffer = buffer_of(&triples);
        assert_eq!(buffer.len(), n);
        assert_eq!(render(FillMethod::Smooth, &buffer).size(), n);
        assert_eq!(render(FillMethod::Gradient, &buffer).size(), n);
    }
}

#[test]
fn single_sample_sits_alone_on_the_diagonal() {
    let buffer = buffer_of(&[(12, 34, 56)]);
    let smooth_canvas = render(FillMethod::Smooth, &buffer);
    assert_eq!(smooth_canvas.size(), 1);
    assert_eq!(pixel(&smooth_canvas, 0, 0), (12, 34, 56));
    let gradient_canvas = render(FillMethod::Gradient, &buffer);
    assert_eq!(gradient_canvas.size(), 1);
    assert_eq!(pixel(&gradient_canvas, 0, 0), (12, 34, 56));
}

#[test]
fn smooth_canvas_is_symmetric_with_samples_on_the_diagonal() {
    let triples = [(255, 0, 0), (10, 20, 30), (0, 0, 255), (200, 150, 100), (5, 250, 125)];
    let buffer = buffer_of(&triples);
    let canvas = render(FillMethod::Smooth, &buffer);
    for (i, &t) in triples.iter().enumerate() {
        assert_eq!(pixel(&canvas, i, i), t);
    }
    for x in 0..triples.len() {
        for y in 0..triples.len() {
            assert_eq!(pixel(&canvas, x, y), pixel(&canvas, y, x));
        }
    }
}

#[test]
fn gradient_preserves_the_diagonal() {
    let triples = [(1, 2, 3), (40, 50, 60), (70, 80, 90), (255, 255, 255), (0, 0, 0)];
    let buffer = buffer_of(&triples);
    let canvas = render(FillMethod::Gradient, &buffer);
    for (i, &t) in triples.iter().enumerate() {
        assert_eq!(pixel(&canvas, i, i), t);
    }
}

#[test]
fn fillers_are_deterministic() {
    let triples = [(9, 8, 7), (60, 50, 40), (30, 20, 10), (111, 222, 33)];
    for method in [FillMethod::Smooth, FillMethod::Gradient] {
        let first = render(method, &buffer_of(&triples));
        let second = render(method, &buffer_of(&triples));
        assert_eq!(first.size(), second.size());
        for x in 0..first.size() {
            for y in 0..first.size() {
                assert_eq!(pixel(&first, x, y), pixel(&second, x, y));
            }
        }
    }
}

#[test]
fn blend_floors_each_channel() {
    let mixed = ColorSample::blend(ColorSample::new(255, 0, 1), ColorSample::new(0, 255, 2));
    assert_eq!((mixed.red, mixed.green, mixed.blue), (127, 127, 1));
    let same = ColorSample::blend(ColorSample::new(10, 20, 30), ColorSample::new(10, 20, 30));
    assert_eq!((same.red, same.green, same.blue), (10, 20, 30));
}

#[test]
fn buffer_keeps_arrival_order() {
    let mut buffer = SampleBuffer::new();
    assert_eq!(buffer.len(), 0);
    buffer.push(ColorSample::new(1, 2, 3));
    buffer.push(ColorSample::new(4, 5, 6));
    assert_eq!(buffer.len(), 2);
    let first = buffer.get(0);
    assert_eq!((first.red, first.green, first.blue), (1, 2, 3));
    let second = buffer.get(1);
    assert_eq!((second.red, second.green, second.blue), (4, 5, 6));
}

#[test]
fn fresh_canvas_is_zeroed_and_writable() {
    let mut canvas = Canvas::create(3);
    assert_eq!(canvas.size(), 3);
    for x in 0..3 {
        for y in 0..3 {
            assert_eq!(pixel(&canvas, x, y), (0, 0, 0));
        }
    }
    canvas.set(2, 1, ColorSample::new(9, 9, 9));
    assert_eq!(pixel(&canvas, 2, 1), (9, 9, 9));
    assert_eq!(pixel(&canvas, 1, 2), (0, 0, 0));
}
