//! The discrete render pipeline, driven end to end on small frames.

use raytracer::buffer::{FrameBuffer, PixelColor};
use raytracer::pixel::{enumerate_pixels, Pixel};
use raytracer::plan::{make_batches, partition_pixels, plan_render, BATCH_SIZE};

fn sample(p: Pixel, r: u8, g: u8, b: u8, a: u8) -> PixelColor {
    PixelColor {
        x: p.x,
        y: p.y,
        r,
        g,
        b,
        a,
    }
}

/// Trace a whole plan with one fixed color and aggregate it, as one worker
/// and the aggregator would, returning the finished buffer.
fn render_uniform(width: u32, height: u32, workers: usize, rgba: (u8, u8, u8, u8)) -> FrameBuffer {
    let plan = plan_render(width, height, workers);
    let mut buf = FrameBuffer::new(width, height);
    for slice in &plan.slices {
        let batches = make_batches(slice, BATCH_SIZE);
        for batch in &batches {
            let samples: Vec<PixelColor> = batch
                .iter()
                .map(|p| sample(*p, rgba.0, rgba.1, rgba.2, rgba.3))
                .collect();
            buf.apply_batch(&samples);
        }
    }
    buf
}

#[test]
fn enumeration_is_row_major() {
    let pixels = enumerate_pixels(3, 2);
    let coords: Vec<(u32, u32)> = pixels.iter().map(|p| (p.x, p.y)).collect();
    assert_eq!(
        coords,
        vec![(0, 0), (0, 1), (0, 2), (1, 0), (1, 1), (1, 2)]
    );
}

#[test]
fn enumeration_of_empty_frame() {
    assert_eq!(enumerate_pixels(0, 7).len(), 0);
    assert_eq!(enumerate_pixels(7, 0).len(), 0);
}

#[test]
fn partition_gives_last_slice_the_remainder() {
    let pixels = enumerate_pixels(10, 1);
    let slices = partition_pixels(&pixels, 4);
    let lens: Vec<usize> = slices.iter().map(|s| s.len()).collect();
    assert_eq!(lens, vec![2, 2, 2, 4]);
    let rejoined: Vec<Pixel> = slices.into_iter().flatten().collect();
    assert_eq!(rejoined, pixels);
}

#[test]
fn partition_degenerates_to_one_pixel_per_slice() {
    let pixels = enumerate_pixels(3, 1);
    let slices = partition_pixels(&pixels, 5);
    let lens: Vec<usize> = slices.iter().map(|s| s.len()).collect();
    assert_eq!(lens, vec![1, 1, 1]);
}

#[test]
fn partition_of_no_pixels_is_empty() {
    let pixels = enumerate_pixels(0, 0);
    let slices = partition_pixels(&pixels, 3);
    assert_eq!(slices.len(), 0);
}

#[test]
fn batches_are_full_but_the_last() {
    let pixels = enumerate_pixels(10, 1);
    let batches = make_batches(&pixels, 4);
    let lens: Vec<usize> = batches.iter().map(|b| b.len()).collect();
    assert_eq!(lens, vec![4, 4, 2]);
    let rejoined: Vec<Pixel> = batches.into_iter().flatten().collect();
    assert_eq!(rejoined, pixels);
}

#[test]
fn batch_size_splits_a_large_slice() {
    let pixels = enumerate_pixels(40, 30);
    let batches = make_batches(&pixels, BATCH_SIZE);
    let lens: Vec<usize> = batches.iter().map(|b| b.len()).collect();
    assert_eq!(lens, vec![500, 500, 200]);
}

#[test]
fn shuffled_plan_still_holds_every_pixel_once() {
    // The shuffle is trusted to permute: a plan for a larger frame must
    // still hold exactly the frame's pixels, each exactly once.
    let coords = coverage(50, 20, 3);
    let mut expected: Vec<(u32, u32)> = Vec::new();
    for x in 0..20 {
        for y in 0..50 {
            expected.push((x, y));
        }
    }
    assert_eq!(coords, expected);
}

fn coverage(width: u32, height: u32, workers: usize) -> Vec<(u32, u32)> {
    let plan = plan_render(width, height, workers);
    let mut coords: Vec<(u32, u32)> = plan
        .slices
        .iter()
        .flatten()
        .map(|p| (p.x, p.y))
        .collect();
    coords.sort();
    coords
}

#[test]
fn plan_covers_every_pixel_exactly_once() {
    let coords = coverage(4, 3, 2);
    let mut expected: Vec<(u32, u32)> = Vec::new();
    for x in 0..3 {
        for y in 0..4 {
            expected.push((x, y));
        }
    }
    assert_eq!(coords, expected);
}

#[test]
fn coverage_is_identical_for_any_worker_count() {
    let one = coverage(5, 4, 1);
    let four = coverage(5, 4, 4);
    let many = coverage(5, 4, 100);
    assert_eq!(one, four);
    assert_eq!(one, many);
}

#[test]
fn new_buffer_is_zeroed_with_four_bytes_per_pixel() {
    let buf = FrameBuffer::new(6, 5);
    assert_eq!(buf.data.len(), 4 * 6 * 5);
    assert!(buf.data.iter().all(|&b| b == 0));
    assert_eq!(buf.completed, 0);
}

#[test]
fn write_pixel_touches_only_its_cell() {
    let mut buf = FrameBuffer::new(3, 2);
    buf.write_pixel(PixelColor {
        x: 1,
        y: 2,
        r: 10,
        g: 20,
        b: 30,
        a: 255,
    });
    let off = 4 * (1 * 3 + 2);
    for i in 0..buf.data.len() {
        let expected = match i {
            _ if i == off => 10,
            _ if i == off + 1 => 20,
            _ if i == off + 2 => 30,
            _ if i == off + 3 => 255,
            _ => 0,
        };
        assert_eq!(buf.data[i], expected);
    }
    assert_eq!(buf.completed, 0);
}

#[test]
fn progress_counts_each_delivered_batch() {
    let mut buf = FrameBuffer::new(4, 4);
    let pixels = enumerate_pixels(4, 4);
    let batches = make_batches(&pixels, 5);
    let mut last = 0;
    for batch in &batches {
        let samples: Vec<PixelColor> = batch.iter().map(|p| sample(*p, 1, 2, 3, 255)).collect();
        buf.apply_batch(&samples);
        assert!(buf.completed >= last);
        assert_eq!(buf.completed, last + samples.len());
        last = buf.completed;
    }
    assert_eq!(buf.completed, 16);
    assert_eq!(buf.total_pixels(), 16);
}

#[test]
fn progress_reaches_total_for_any_worker_count() {
    for workers in [1usize, 3, 16] {
        let buf = render_uniform(7, 5, workers, (9, 9, 9, 255));
        assert_eq!(buf.completed, 35);
        assert_eq!(buf.data.len(), 4 * 35);
    }
}

#[test]
fn uniform_samples_fill_the_buffer_uniformly() {
    // The discrete half of a render over a pure white background: after
    // gamma correction every traced pixel quantises to 254, so the finished
    // buffer must hold (254, 254, 254, 255) in every cell.
    let buf = render_uniform(3, 2, 2, (254, 254, 254, 255));
    for p in 0..6 {
        assert_eq!(&buf.data[4 * p..4 * p + 4], &[254, 254, 254, 255]);
    }
}

#[test]
fn black_background_renders_to_opaque_black() {
    // A 2 by 2 frame over an empty scene with a black background: every
    // sample is black, so the buffer is sixteen zero bytes except the alpha
    // byte of each pixel.
    let buf = render_uniform(2, 2, 1, (0, 0, 0, 255));
    assert_eq!(buf.data.len(), 16);
    for i in 0..16 {
        let expected = if i % 4 == 3 { 255 } else { 0 };
        assert_eq!(buf.data[i], expected);
    }
    assert_eq!(buf.completed, 4);
}
