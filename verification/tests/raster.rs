//! The fixed-point engine, the mask and the two draws, on whole paths.

use kiss2d::image::{Rectangle, RGBA};
use kiss2d::vg::raster_fixed::{ceil, floor, fmax, fmin, FixedScan, FX_ONE, FX_ONE_AND_A_HALF, FX_ONE_MINUS_IOTA, PHI};
use kiss2d::vg::{clamp, Op, Rasterizer, SimdVec};

/// Adds a segment from the pen to `(bx, by)` with the fixed-point engine.
fn line_to(z: &mut Rasterizer, bx: f32, by: f32) {
    let [ax, ay] = z.pen();
    let (ax, ay) = (f32::from_bits(ax), f32::from_bits(ay));
    z.set_pen(bx.to_bits(), by.to_bits());
    let (reversed, ax, ay, bx, by) = if ay > by { (true, bx, by, ax, ay) } else { (false, ax, ay, bx, by) };
    if by - ay <= 0.000001 {
        return;
    }
    let dxdy = (bx - ax) / (by - ay);
    let height = z.size()[1];
    let mut scan = FixedScan::new((ax * 512.0) as i32, (ay * 512.0) as i32, (by * 512.0) as i32, reversed, height);
    while !scan.done() {
        let step = ((scan.dy() as f32) * dxdy) as i32;
        assert!(z.fixed_row(&mut scan, step));
    }
}

fn move_to(z: &mut Rasterizer, ax: f32, ay: f32) {
    z.move_to(ax.to_bits(), ay.to_bits());
}

/// The scan of the segment from the pen to `(bx, by)` and the advance of
/// each of its rows; no rows for a flat segment.
fn scan_to(z: &Rasterizer, bx: f32, by: f32) -> (FixedScan, Vec<i32>) {
    let [ax, ay] = z.pen();
    let (ax, ay) = (f32::from_bits(ax), f32::from_bits(ay));
    let height = z.size()[1];
    let (reversed, ax, ay, bx, by) = if ay > by { (true, bx, by, ax, ay) } else { (false, ax, ay, bx, by) };
    if by - ay <= 0.000001 {
        return (FixedScan::new(0, 0, 0, false, height), Vec::new());
    }
    let dxdy = (bx - ax) / (by - ay);
    let scan = FixedScan::new((ax * 512.0) as i32, (ay * 512.0) as i32, (by * 512.0) as i32, reversed, height);
    let steps = scan.overlaps().iter().map(|dy| ((*dy as f32) * dxdy) as i32).collect();
    (scan, steps)
}

fn close_path(z: &mut Rasterizer) {
    let [fx, fy] = z.first();
    let (mut scan, steps) = scan_to(z, f32::from_bits(fx), f32::from_bits(fy));
    assert_eq!(z.close_path(&mut scan, &steps), steps.len());
    assert!(scan.done());
}

fn polygon(z: &mut Rasterizer, pts: &[(f32, f32)]) {
    move_to(z, pts[0].0, pts[0].1);
    for p in &pts[1..] {
        line_to(z, p.0, p.1);
    }
    close_path(z);
}

fn square(z: &mut Rasterizer) {
    polygon(z, &[(8.0, 8.0), (56.0, 8.0), (56.0, 56.0), (8.0, 56.0)]);
}

#[test]
fn square_fill_src() {
    let mut z = Rasterizer::new(64, 64);
    square(&mut z);
    let mut buf = Vec::new();
    let r = Rectangle::from_size(64, 64);
    let mut dst = RGBA::new(&mut buf, r);
    z.rgba_uniform_src(&mut dst, r, [0, 0, 0xFFFF, 0xFFFF]);
    for y in 0..64isize {
        for x in 0..64isize {
            let inside = (8..56).contains(&x) && (8..56).contains(&y);
            // Blue and opaque: a pixel keeps blue, green, red, alpha.
            let want = if inside { [0xFF, 0, 0, 0xFF] } else { [0, 0, 0, 0] };
            assert_eq!(dst.at(x, y), want, "pixel ({}, {})", x, y);
        }
    }
}

#[test]
fn triangle_edges() {
    let mut z = Rasterizer::new(16, 16);
    polygon(&mut z, &[(2.0, 2.0), (14.0, 2.0), (2.0, 14.0)]);
    z.fixed_accumulate_mask();
    let m = z.as_mask_u32();
    let at = |x: usize, y: usize| m[y * 16 + x];
    // The long edge runs through the pixels whose coordinates add up to 15.
    assert_eq!(at(8, 7), 0x8000);
    assert!(at(7, 8) > 0 && at(7, 8) < 0xFFFF, "{}", at(7, 8));
    assert_eq!(at(7, 7), 0xFFFF);
    assert!(at(2, 2) >= 0xF000, "{}", at(2, 2));
    assert_eq!(at(13, 13), 0);
}

#[test]
fn winding_direction_symmetry() {
    let mut cw = Rasterizer::new(64, 64);
    polygon(&mut cw, &[(8.0, 8.0), (56.0, 8.0), (56.0, 56.0), (8.0, 56.0)]);
    cw.fixed_accumulate_mask();
    let mut ccw = Rasterizer::new(64, 64);
    polygon(&mut ccw, &[(8.0, 8.0), (8.0, 56.0), (56.0, 56.0), (56.0, 8.0)]);
    ccw.fixed_accumulate_mask();
    assert_eq!(cw.as_mask_u32(), ccw.as_mask_u32());
    assert!(cw.as_mask_u32().iter().any(|c| *c == 0xFFFF));
}

#[test]
fn triangle_reversed_has_same_mask() {
    let (a, b, c) = ((3.25, 1.5), (29.75, 9.125), (11.0, 30.5));
    let mut there = Rasterizer::new(32, 32);
    polygon(&mut there, &[a, b, c]);
    there.fixed_accumulate_mask();
    let mut back = Rasterizer::new(32, 32);
    polygon(&mut back, &[a, c, b]);
    back.fixed_accumulate_mask();
    assert_eq!(there.as_mask_u32(), back.as_mask_u32());
    assert!(there.as_mask_u32().iter().any(|c| *c != 0));
}

#[test]
fn move_to_alone_gives_zero_mask() {
    let mut z = Rasterizer::new(16, 16);
    move_to(&mut z, 3.0, 4.0);
    z.fixed_accumulate_mask();
    assert!(z.as_mask_u32().iter().all(|c| *c == 0));
}

#[test]
fn retraced_segment_gives_zero_mask() {
    let mut z = Rasterizer::new(16, 16);
    move_to(&mut z, 1.5, 2.0);
    line_to(&mut z, 13.25, 11.0);
    close_path(&mut z);
    z.fixed_accumulate_mask();
    assert!(z.as_mask_u32().iter().all(|c| *c == 0));
}

#[test]
fn mask_cells_are_sixteen_bit_after_a_draw() {
    let mut z = Rasterizer::new(64, 64);
    // Drawn twice in the same direction, the square winds twice.
    square(&mut z);
    square(&mut z);
    let mut buf = Vec::new();
    let r = Rectangle::from_size(64, 64);
    let mut dst = RGBA::new(&mut buf, r);
    z.rgba_uniform_over(&mut dst, r, [0xFFFF, 0, 0xFFFF, 0xFFFF]);
    assert!(z.has_mask());
    assert!(z.as_mask_u32().iter().all(|c| *c <= 0xFFFF));
    assert_eq!(z.as_mask_u32()[20 * 64 + 20], 0xFFFF);
}

#[test]
fn accumulate_runs_on_through_the_rows() {
    let mut z = Rasterizer::new(2, 2);
    z.set_cell(0, 4);
    z.set_cell(1, 0u32.wrapping_sub(12));
    z.set_cell(3, 0x8000_0008);
    z.fixed_accumulate_mask();
    // 4, then 4 - 12 = -8, still -8, then the sum wraps to 2^31.
    assert_eq!(z.as_mask_u32(), &[1, 2, 2, 0xFFFF][..]);
}

#[test]
fn accumulate_takes_the_size_of_the_least_number() {
    let mut z = Rasterizer::new(1, 1);
    z.set_cell(0, 0x8000_0000);
    z.fixed_accumulate_mask();
    assert_eq!(z.as_mask_u32()[0], 0xFFFF);
    assert!(z.has_mask());
}

#[test]
fn over_with_magenta_on_transparent() {
    let mut z = Rasterizer::new(16, 16);
    polygon(&mut z, &[(2.0, 2.0), (14.0, 2.0), (2.0, 14.0)]);
    let mut buf = Vec::new();
    let r = Rectangle::from_size(16, 16);
    let mut dst = RGBA::new(&mut buf, r);
    z.rgba_uniform_over(&mut dst, r, [0xFFFF, 0, 0xFFFF, 0xFFFF]);
    let mut partial = 0;
    for y in 0..16usize {
        for x in 0..16usize {
            let ma = z.as_mask_u32()[y * 16 + x];
            let want = ((0xFFFFu32 * ma / 0xFFFF) >> 8) as u8;
            assert_eq!(dst.at(x as isize, y as isize), [want, 0, want, want]);
            if ma != 0 && ma != 0xFFFF {
                partial += 1;
            }
        }
    }
    assert!(partial > 0);
}

#[test]
fn src_white_gives_the_high_byte_of_the_mask() {
    let mut z = Rasterizer::new(16, 16);
    polygon(&mut z, &[(2.0, 2.0), (14.0, 2.0), (2.0, 14.0)]);
    let r = Rectangle::from_size(16, 16);
    let mut buf = Vec::new();
    let mut dst = RGBA::new(&mut buf, r);
    // An opaque black image.
    for i in 0..16 * 16 {
        dst.pix[4 * i + 3] = 0xFF;
    }
    z.rgba_uniform_src(&mut dst, r, [0xFFFF, 0xFFFF, 0xFFFF, 0xFFFF]);
    for y in 0..16usize {
        for x in 0..16usize {
            let b = (z.as_mask_u32()[y * 16 + x] >> 8) as u8;
            assert_eq!(dst.at(x as isize, y as isize), [b, b, b, b]);
        }
    }
    assert_eq!(dst.at(8, 7), [0x80, 0x80, 0x80, 0x80]);
}

#[test]
fn over_opaque_under_full_mask_overwrites() {
    let mut z = Rasterizer::new(64, 64);
    square(&mut z);
    let r = Rectangle::from_size(64, 64);
    let mut buf = Vec::new();
    let mut dst = RGBA::new(&mut buf, r);
    for b in dst.pix.iter_mut() {
        *b = 0x5A;
    }
    z.rgba_uniform_over(&mut dst, r, [0x1234, 0xABCD, 0x00FF, 0xFFFF]);
    assert_eq!(dst.at(20, 20), [0x00, 0xAB, 0x12, 0xFF]);
    assert_eq!(dst.at(2, 2), [0x5A, 0x5A, 0x5A, 0x5A]);
}

#[test]
fn over_blends_half_coverage() {
    let mut z = Rasterizer::new(1, 1);
    z.set_cell(0, 0x8000 << 2);
    let r = Rectangle::from_size(1, 1);
    let mut buf = Vec::new();
    let mut dst = RGBA::new(&mut buf, r);
    dst.pix.copy_from_slice(&[200, 100, 0, 255]);
    z.rgba_uniform_over(&mut dst, r, [0x4000, 0x8000, 0xFFFF, 0xFFFF]);
    assert_eq!(z.as_mask_u32()[0], 0x8000);
    // a = 0xFFFF - 0xFFFF * 0x8000 / 0xFFFF = 0x7FFF.
    let over = |d: u32, s: u32| (((d * 0x101 * 0x7FFF + s * 0x8000) / 0xFFFF) >> 8) as u8;
    // Blue over 200, green over 100, red over 0, alpha over 255.
    assert_eq!(dst.at(0, 0), [over(200, 0xFFFF), over(100, 0x8000), over(0, 0x4000), over(255, 0xFFFF)]);
    assert_eq!(dst.at(0, 0), [228, 114, 32, 255]);
}

#[test]
fn draw_on_a_part_of_the_image() {
    let mut z = Rasterizer::new(4, 4);
    for i in 0..16 {
        z.set_cell(i, if i == 0 { 0xFFFF << 2 } else { 0 });
    }
    let bounds = Rectangle::from_size(8, 8);
    let mut buf = Vec::new();
    let mut dst = RGBA::new(&mut buf, bounds);
    let mut r = Rectangle::from_size(3, 2);
    r.min.x += 4;
    r.max.x += 4;
    r.min.y += 5;
    r.max.y += 5;
    z.rgba_uniform_src(&mut dst, r, [0xFFFF, 0x8080, 0x0101, 0xFFFF]);
    for y in 0..8isize {
        for x in 0..8isize {
            let inside = (4..7).contains(&x) && (5..7).contains(&y);
            let want = if inside { [0x01, 0x80, 0xFF, 0xFF] } else { [0, 0, 0, 0] };
            assert_eq!(dst.at(x, y), want, "pixel ({}, {})", x, y);
        }
    }
}

#[test]
fn empty_target_draws_nothing_and_still_integrates() {
    let mut z = Rasterizer::new(4, 4);
    z.set_cell(5, 0xFFFF << 2);
    let bounds = Rectangle::from_size(4, 4);
    let mut buf = Vec::new();
    let mut dst = RGBA::new(&mut buf, bounds);
    let mut r = Rectangle::from_size(0, 4);
    r.min.x = 9;
    r.max.x = 2;
    assert!(z.takes_target(&dst, r));
    z.rgba_uniform_src(&mut dst, r, [0xFFFF, 0xFFFF, 0xFFFF, 0xFFFF]);
    assert!(dst.pix.iter().all(|b| *b == 0));
    assert_eq!(z.as_mask_u32()[5], 0xFFFF);
    assert_eq!(z.as_mask_u32()[4], 0);
}

#[test]
fn targets_and_sources_that_a_draw_takes() {
    let z = Rasterizer::new(4, 4);
    let bounds = Rectangle::from_size(8, 8);
    let mut buf = Vec::new();
    let dst = RGBA::new(&mut buf, bounds);
    assert!(z.takes_target(&dst, Rectangle::from_size(4, 4)));
    // Five rows of the mask do not exist.
    assert!(!z.takes_target(&dst, Rectangle::from_size(4, 5)));
    // The target leaves the image.
    assert!(!z.takes_target(&dst, Rectangle::from_size(9, 1)));
    assert!(Rasterizer::takes_source(Op::Over, &[1, 2, 3, 3]));
    assert!(!Rasterizer::takes_source(Op::Over, &[4, 2, 3, 3]));
    assert!(Rasterizer::takes_source(Op::Src, &[4, 2, 3, 3]));
    assert!(!Rasterizer::takes_source(Op::Src, &[0x1_0000, 2, 3, 3]));
    assert!(!Rasterizer::takes_source(Op::Src, &[0, 0, 0, 0x1_0000]));
}

#[test]
fn engine_follows_the_size() {
    assert!(!Rasterizer::new(512, 512).use_fpm());
    assert!(Rasterizer::new(513, 1).use_fpm());
    assert!(Rasterizer::new(1, 513).use_fpm());
    assert!(!Rasterizer::new(0, 0).use_fpm());
}

#[test]
fn buffer_is_padded_to_four_cells() {
    assert_eq!(Rasterizer::new(0, 0).cell_count(), 0);
    assert_eq!(Rasterizer::new(1, 1).cell_count(), 4);
    assert_eq!(Rasterizer::new(2, 2).cell_count(), 4);
    assert_eq!(Rasterizer::new(3, 3).cell_count(), 12);
    assert_eq!(Rasterizer::new(5, 1).as_mask_u32().len(), 8);
    assert!(Rasterizer::new(5, 3).as_mask_u32().iter().all(|c| *c == 0));
}

#[test]
fn simd_vec_rounds_up_and_recycles() {
    let mut v = SimdVec::new(5);
    assert_eq!(v.len(), 8);
    v.set(7, 9);
    assert_eq!(v.get(7), 9);
    assert_eq!(v.as_slice_u32()[7], 9);
    v.recycle(3);
    assert_eq!(v.as_slice_u32(), &[0, 0, 0, 0][..]);
    v.recycle(0);
    assert_eq!(v.len(), 0);
}

#[test]
fn new_reset_and_clear() {
    let mut z = Rasterizer::new(3, 2);
    assert_eq!(z.size(), [3, 2]);
    assert!(matches!(z.draw_op, Op::Over));
    assert_eq!(z.pen(), [0, 0]);
    assert_eq!(z.first(), [0, 0]);
    z.move_to(7, 8);
    z.set_cell(1, 5);
    z.reset(600, 1, Op::Src);
    assert_eq!(z.size(), [600, 1]);
    assert!(matches!(z.draw_op, Op::Src));
    assert!(z.use_fpm());
    assert_eq!(z.pen(), [0, 0]);
    assert!(z.as_mask_u32().iter().all(|c| *c == 0));
    z.set_cell(1, 5);
    z.move_to(1, 2);
    z.clear();
    assert_eq!(z.size(), [600, 1]);
    assert!(matches!(z.draw_op, Op::Over));
    assert_eq!(z.pen(), [0, 0]);
    assert_eq!(z.first(), [0, 0]);
    assert_eq!(z.cell(1), 0);
}

#[test]
fn pen_follows_the_path() {
    let mut z = Rasterizer::new(8, 8);
    move_to(&mut z, 1.0, 2.0);
    assert_eq!(z.pen(), [1.0f32.to_bits(), 2.0f32.to_bits()]);
    assert_eq!(z.first(), [1.0f32.to_bits(), 2.0f32.to_bits()]);
    line_to(&mut z, 5.0, 6.0);
    assert_eq!(z.pen(), [5.0f32.to_bits(), 6.0f32.to_bits()]);
    assert_eq!(z.first(), [1.0f32.to_bits(), 2.0f32.to_bits()]);
    close_path(&mut z);
    assert_eq!(z.pen(), z.first());
    // A flat segment moves the pen and adds nothing.
    let before = z.as_mask_u32().to_vec();
    line_to(&mut z, 7.0, 2.0);
    assert_eq!(z.pen(), [7.0f32.to_bits(), 2.0f32.to_bits()]);
    assert_eq!(z.as_mask_u32(), &before[..]);
}

#[test]
fn fixed_point_helpers() {
    assert_eq!(PHI, 9);
    assert_eq!(FX_ONE, 512);
    assert_eq!(FX_ONE_AND_A_HALF, 768);
    assert_eq!(FX_ONE_MINUS_IOTA, 511);
    assert_eq!(fmax(3, -4), 3);
    assert_eq!(fmax(-4, 3), 3);
    assert_eq!(fmin(3, -4), -4);
    assert_eq!(fmin(5, 5), 5);
    assert_eq!(floor(1023), 1);
    assert_eq!(floor(1024), 2);
    assert_eq!(floor(-1), -1);
    assert_eq!(floor(-512), -1);
    assert_eq!(floor(-513), -2);
    assert_eq!(ceil(1024), 2);
    assert_eq!(ceil(1025), 3);
    assert_eq!(ceil(0), 0);
    assert_eq!(ceil(-1), 0);
    assert_eq!(ceil(-512), -1);
    assert_eq!(ceil(i32::MAX - 511), (1 << 22) - 1);
}

#[test]
fn clamp_limits_columns() {
    assert_eq!(clamp(-5, 10), 0);
    assert_eq!(clamp(0, 10), 0);
    assert_eq!(clamp(9, 10), 9);
    assert_eq!(clamp(10, 10), 10);
    assert_eq!(clamp(11, 10), 10);
    assert_eq!(clamp(3, 0), 0);
}

#[test]
fn scan_visits_the_rows_of_a_segment() {
    // From y = 0.5 to y = 2.25, on a mask of height 10.
    let mut scan = FixedScan::new(100, 256, 1152, false, 10);
    let mut z = Rasterizer::new(10, 10);
    let mut dys = Vec::new();
    while !scan.done() {
        dys.push(scan.dy());
        assert!(z.fixed_row(&mut scan, 0));
    }
    assert_eq!(dys, vec![256, 512, 128]);
    assert_eq!(scan.dy(), 0);
    assert!(!z.fixed_row(&mut scan, 0));
}

#[test]
fn scan_stops_at_the_height() {
    let mut scan = FixedScan::new(0, 0, 100 * 512, false, 3);
    let mut z = Rasterizer::new(4, 3);
    let mut rows = 0;
    while !scan.done() {
        assert!(z.fixed_row(&mut scan, 0));
        rows += 1;
    }
    assert_eq!(rows, 3);
}

#[test]
fn rows_above_the_mask_move_the_scan_only() {
    // From y = -2 to y = 1; each row moves x by one column.
    let mut scan = FixedScan::new(0, -1024, 512, false, 4);
    let mut z = Rasterizer::new(4, 4);
    assert!(z.fixed_row(&mut scan, 512));
    assert!(z.fixed_row(&mut scan, 512));
    assert!(z.as_mask_u32().iter().all(|c| *c == 0));
    assert!(z.fixed_row(&mut scan, 512));
    assert!(scan.done());
    // The third row runs from column 2 to column 3.
    assert_eq!(&z.as_mask_u32()[..5], &[0, 0, 131072, 131072, 0][..]);
}

#[test]
fn narrow_row_shares_between_two_cells() {
    let mut z = Rasterizer::new(8, 2);
    // Row 1, from x = 2.25 to x = 2.75: the middle lies at 2.5.
    let mut scan = FixedScan::new(1152, 512, 1024, false, 2);
    assert!(z.fixed_row(&mut scan, 256));
    assert_eq!(z.cell(8 + 2), 512 * 256);
    assert_eq!(z.cell(8 + 3), 512 * 256);
    assert_eq!(z.as_mask_u32().iter().map(|c| *c as u64).sum::<u64>(), 512 * 512);
}

#[test]
fn upward_row_adds_negative_deltas() {
    let mut z = Rasterizer::new(8, 1);
    let mut scan = FixedScan::new(1152, 0, 512, true, 1);
    assert!(z.fixed_row(&mut scan, 256));
    assert_eq!(z.cell(2), (-(512i32 * 256)) as u32);
    assert_eq!(z.cell(3), (-(512i32 * 256)) as u32);
}

#[test]
fn three_column_row() {
    let mut z = Rasterizer::new(8, 1);
    let mut scan = FixedScan::new(0, 0, 512, false, 1);
    assert!(z.fixed_row(&mut scan, 1024));
    assert_eq!(&z.as_mask_u32()[..4], &[65536, 131072, 65536, 0][..]);
}

#[test]
fn wide_row() {
    let mut z = Rasterizer::new(8, 1);
    let mut scan = FixedScan::new(0, 0, 512, false, 1);
    assert!(z.fixed_row(&mut scan, 2048));
    assert_eq!(&z.as_mask_u32()[..6], &[32768, 65536, 65536, 65536, 32768, 0][..]);
    z.fixed_accumulate_mask();
    assert_eq!(&z.as_mask_u32()[..6], &[8192, 24576, 40960, 57344, 0xFFFF, 0xFFFF][..]);
}

#[test]
fn wide_row_with_fractions() {
    let mut z = Rasterizer::new(8, 1);
    // From x = 0.5 to x = 4.25, over half a row.
    let mut scan = FixedScan::new(256, 0, 256, false, 1);
    assert!(z.fixed_row(&mut scan, 1920));
    let d: i64 = 256;
    let (s1, s2) = (1920i64, 3840i64);
    let (omx, x1f) = (256i64, 128i64);
    let want = [
        omx * omx * d / s2,
        ((768 - 256) * 1024 - omx * omx) * d / s2,
        d * 262144 / s1,
        d * 262144 / s1,
        ((x1f * 2 + 512) * 512 - x1f * x1f) * d / s2,
        x1f * x1f * d / s2,
    ];
    assert_eq!(want, [4369, 30583, 34952, 34952, 25122, 1092]);
    let got: Vec<i64> = z.as_mask_u32()[..6].iter().map(|c| *c as i64).collect();
    assert_eq!(got, want);
}

#[test]
fn columns_off_the_mask_are_limited() {
    let mut z = Rasterizer::new(4, 2);
    // Left of the mask: everything lands in column 0.
    let mut scan = FixedScan::new(-5 * 512, 0, 512, false, 2);
    assert!(z.fixed_row(&mut scan, 2 * 512));
    assert_eq!(z.cell(0), 512 * 512);
    // Right of the mask: everything lands one past the row.
    // Thirds are rounded toward zero, each of the four shares on its own.
    let mut scan = FixedScan::new(20 * 512, 0, 512, false, 2);
    assert!(z.fixed_row(&mut scan, 3 * 512));
    assert_eq!(z.cell(4), 2 * 43690 + 2 * 87381);
    z.set_cell(4, 512 * 512);
    // In the last row, past the last cell, nothing is written.
    let mut scan = FixedScan::new(20 * 512, 512, 1024, false, 2);
    assert!(z.fixed_row(&mut scan, 3 * 512));
    assert_eq!(z.as_mask_u32(), &[512 * 512, 0, 0, 0, 512 * 512, 0, 0, 0][..]);
}

#[test]
fn row_that_does_not_fit_is_refused() {
    let mut z = Rasterizer::new(4, 4);
    let mut scan = FixedScan::new(i32::MAX - 10, 0, 512, false, 4);
    assert!(!z.fixed_row(&mut scan, 11));
    assert!(!z.fixed_row(&mut scan, 0));
    assert!(!scan.done());
    let mut scan = FixedScan::new(-0x4000_0000, 0, 512, false, 4);
    assert!(!z.fixed_row(&mut scan, i32::MAX));
    let mut scan = FixedScan::new(-0x2000_0000, 0, 512, false, 4);
    assert!(z.fixed_row(&mut scan, 0x3000_0000));
    // Above the mask only the new position has to fit.
    let mut scan = FixedScan::new(i32::MAX - 10, -512, 512, false, 4);
    assert!(z.fixed_row(&mut scan, 10));
    assert!(!z.fixed_row(&mut scan, 0));
}

#[test]
fn overlaps_list_the_rows_that_are_left() {
    let mut scan = FixedScan::new(100, 256, 1152, false, 10);
    assert_eq!(scan.overlaps(), vec![256, 512, 128]);
    let mut z = Rasterizer::new(10, 10);
    assert!(z.fixed_row(&mut scan, 0));
    assert_eq!(scan.overlaps(), vec![512, 128]);
    assert!(z.fixed_row(&mut scan, 0));
    assert!(z.fixed_row(&mut scan, 0));
    assert_eq!(scan.overlaps(), vec![]);
    // The height cuts the list, rows above the mask stay in it.
    assert_eq!(FixedScan::new(0, -700, 5000, false, 2).overlaps(), vec![188, 512, 512, 512]);
    // A segment within one row.
    assert_eq!(FixedScan::new(0, 520, 600, true, 9).overlaps(), vec![80]);
    assert_eq!(FixedScan::new(0, 512, 512, false, 9).overlaps(), vec![]);
}

#[test]
fn segment_with_its_advances() {
    let mut whole = Rasterizer::new(8, 4);
    let mut scan = FixedScan::new(256, 128, 1500, false, 4);
    let steps = vec![300, 700, 2000];
    assert_eq!(whole.fixed_line_to(11, 22, &mut scan, &steps), 3);
    assert!(scan.done());
    assert_eq!(whole.pen(), [11, 22]);

    let mut by_rows = Rasterizer::new(8, 4);
    let mut scan = FixedScan::new(256, 128, 1500, false, 4);
    for s in &steps {
        assert!(by_rows.fixed_row(&mut scan, *s));
    }
    assert_eq!(whole.as_mask_u32(), by_rows.as_mask_u32());
    assert!(whole.as_mask_u32().iter().any(|c| *c != 0));
}

#[test]
fn segment_stops_where_it_cannot_go_on() {
    let mut z = Rasterizer::new(8, 4);
    // More advances than rows.
    let mut scan = FixedScan::new(0, 0, 600, false, 4);
    assert_eq!(z.fixed_line_to(0, 0, &mut scan, &[1, 2, 3, 4]), 2);
    // Fewer advances than rows.
    let mut scan = FixedScan::new(0, 0, 2000, false, 4);
    assert_eq!(z.fixed_line_to(0, 0, &mut scan, &[1, 2]), 2);
    assert!(!scan.done());
    // An advance that does not fit.
    let mut scan = FixedScan::new(i32::MAX - 600, 0, 2000, false, 4);
    let before = z.as_mask_u32().to_vec();
    assert_eq!(z.fixed_line_to(5, 6, &mut scan, &[0, 600, 0]), 0);
    assert_eq!(z.as_mask_u32(), &before[..]);
    assert_eq!(z.pen(), [5, 6]);
}

#[test]
fn path_moved_by_whole_pixels_moves_its_mask() {
    let shape = [(8.25f32, 8.5f32), (30.0, 11.75), (21.5, 27.0), (3.0, 19.125)];
    let (dx, dy) = (5usize, 7usize);
    let mut here = Rasterizer::new(64, 64);
    polygon(&mut here, &shape);
    here.fixed_accumulate_mask();
    let moved: Vec<(f32, f32)> = shape.iter().map(|p| (p.0 + dx as f32, p.1 + dy as f32)).collect();
    let mut there = Rasterizer::new(64, 64);
    polygon(&mut there, &moved);
    there.fixed_accumulate_mask();
    let s = dy * 64 + dx;
    let (a, b) = (here.as_mask_u32(), there.as_mask_u32());
    for k in 0..64 * 64 {
        assert_eq!(b[k], if k >= s { a[k - s] } else { 0 }, "cell {}", k);
    }
    assert!(a.iter().any(|c| *c == 0xFFFF) && a.iter().any(|c| *c != 0 && *c != 0xFFFF));
}

#[test]
fn row_adds_its_overlap_less_the_rounding() {
    // Slices of one row, downward and upward, from narrow to very wide.
    let cases: [(i32, i32, i32); 7] =
        [(700, 40, 512), (700, 800, 512), (100, 1536, 300), (37, 5000, 511), (9000, -8000, 512), (512, 1024, 1), (0, 15000, 77)];
    for (x, step, dy) in cases {
        for reversed in [false, true] {
            let mut z = Rasterizer::new(40, 2);
            let mut scan = FixedScan::new(x, 0, dy, reversed, 2);
            assert_eq!(scan.dy(), dy);
            assert!(z.fixed_row(&mut scan, step));
            let sum: i64 = z.as_mask_u32().iter().map(|c| *c as i32 as i64).sum();
            let sum = if reversed { -sum } else { sum };
            let (x0, x1) = (x.min(x + step), x.max(x + step));
            let columns = ((x1 + 511) >> 9) - (x0 >> 9);
            let slack = if columns <= 1 { 0 } else { columns as i64 };
            let whole = 512 * dy as i64;
            assert!(whole - slack <= sum && sum <= whole, "{} {} {}: {}", x, step, dy, sum);
        }
    }
}

/// One row by the plain formulas, in 32-bit arithmetic throughout.
fn plain_row(buf: &mut [u32], width: i32, y: i32, x: i32, x_next: i32, d: i32) {
    let buf = &mut buf[(y * width) as usize..];
    let (x0, x1) = if x > x_next { (x_next, x) } else { (x, x_next) };
    let x0i = x0 >> 9;
    let x0floor = x0i << 9;
    let x1i = (x1 + 511) >> 9;
    let x1ceil = x1i << 9;
    let mut put = |i: usize, v: i32| {
        if i < buf.len() {
            buf[i] = buf[i].wrapping_add(v as u32);
        }
    };
    if x1i <= x0i + 1 {
        let xmf = ((x + x_next) >> 1) - x0floor;
        put(clamp(x0i, width), d * (512 - xmf));
        put(clamp(x0i + 1, width), d * xmf);
    } else {
        let one_over_s = x1 - x0;
        let two_over_s = 2 * one_over_s;
        let x0f = x0 - x0floor;
        let one_minus_x0f = 512 - x0f;
        let one_minus_x0f_squared = one_minus_x0f * one_minus_x0f;
        let x1f = x1 - x1ceil + 512;
        let x1f_squared = x1f * x1f;
        put(clamp(x0i, width), one_minus_x0f_squared * d / two_over_s);
        if x1i == x0i + 2 {
            put(clamp(x0i + 1, width), ((two_over_s << 9) - one_minus_x0f_squared - x1f_squared) * d / two_over_s);
        } else {
            put(clamp(x0i + 1, width), (((768 - x0f) << 10) - one_minus_x0f_squared) * d / two_over_s);
            let d_times_s = (d << 18) / one_over_s;
            for xi in (x0i + 2)..(x1i - 1) {
                put(clamp(xi, width), d_times_s);
            }
            let mut big = (x1f << 1) + ((1 << 11) - (768 << 1));
            big <<= 9;
            big -= x1f_squared;
            big *= d;
            big /= two_over_s;
            put(clamp(x1i - 1, width), big);
        }
        put(clamp(x1i, width), x1f_squared * d / two_over_s);
    }
}

#[test]
fn rows_agree_with_the_plain_formulas() {
    let (w, h) = (37usize, 5usize);
    let mut seed = 0x2545_F491u32;
    let mut next = move || {
        seed ^= seed << 13;
        seed ^= seed >> 17;
        seed ^= seed << 5;
        seed
    };
    let mut z = Rasterizer::new(w, h);
    let mut plain = vec![0u32; z.cell_count()];
    for _ in 0..20_000 {
        // A start between ten columns left of the mask and ten right of it,
        // an advance of up to thirty columns either way, any row.
        let x = (next() % ((w as u32 + 20) * 512)) as i32 - 10 * 512;
        let step = (next() % (60 * 512)) as i32 - 30 * 512;
        let y = (next() % h as u32) as i32;
        let top = (y << 9) + (next() % 512) as i32;
        let bottom = top + (next() % 1024) as i32;
        let reversed = next() % 2 == 0;
        let mut scan = FixedScan::new(x, top, bottom, reversed, h);
        let dy = scan.dy();
        if scan.done() {
            continue;
        }
        assert!(z.fixed_row(&mut scan, step));
        plain_row(&mut plain, w as i32, y, x, x + step, if reversed { -dy } else { dy });
        assert_eq!(z.as_mask_u32(), &plain[..]);
    }
    assert!(plain.iter().filter(|c| **c != 0).count() > w);
}

#[test]
fn each_byte_takes_the_component_of_its_channel() {
    for (w, h) in [(513usize, 1usize), (4, 1)] {
        let mut z = Rasterizer::new(w, h);
        // Full coverage of the first pixel, for either engine.
        z.set_cell(0, if z.use_fpm() { 0xFFFF } else { 0xFFFF << 2 });
        if !z.use_fpm() {
            z.set_cell(1, 0u32.wrapping_sub(0xFFFF << 2));
        }
        let r = Rectangle::from_size(w as isize, h as isize);
        let mut buf = Vec::new();
        let mut dst = RGBA::new(&mut buf, r);
        z.rgba_uniform_src(&mut dst, r, [0x1100, 0x2200, 0x3300, 0xFFFF]);
        assert_eq!(dst.at(0, 0), [0x33, 0x22, 0x11, 0xFF]);
        assert_eq!(dst.at(1, 0), [0, 0, 0, 0]);
        assert_eq!(z.as_mask_u32()[0], 0xFFFF);

        let mut z = Rasterizer::new(w, h);
        z.set_cell(0, if z.use_fpm() { 0xFFFF } else { 0xFFFF << 2 });
        let mut buf = Vec::new();
        let mut dst = RGBA::new(&mut buf, r);
        z.rgba_uniform_over(&mut dst, r, [0x1100, 0x2200, 0x3300, 0xFFFF]);
        assert_eq!(dst.at(0, 0), [0x33, 0x22, 0x11, 0xFF]);
    }
}

#[test]
fn close_path_leads_back_to_the_start() {
    let mut z = Rasterizer::new(16, 16);
    move_to(&mut z, 2.0, 3.0);
    line_to(&mut z, 9.0, 12.5);
    let before = z.as_mask_u32().to_vec();
    let (mut scan, steps) = scan_to(&z, 2.0, 3.0);
    assert_eq!(steps.len(), 10);
    assert_eq!(z.close_path(&mut scan, &steps), 10);
    assert_eq!(z.pen(), [2.0f32.to_bits(), 3.0f32.to_bits()]);
    assert_eq!(z.first(), z.pen());
    assert_ne!(z.as_mask_u32(), &before[..]);
    // The way there and the way back cancel.
    assert!(z.as_mask_u32().iter().all(|c| *c == 0));
    // A path that is closed where it started moves the pen and adds nothing.
    let mut z = Rasterizer::new(16, 16);
    move_to(&mut z, 4.0, 4.0);
    z.set_pen(9.0f32.to_bits(), 4.0f32.to_bits());
    let (mut scan, steps) = scan_to(&z, 4.0, 4.0);
    assert_eq!(z.close_path(&mut scan, &steps), 0);
    assert_eq!(z.pen(), [4.0f32.to_bits(), 4.0f32.to_bits()]);
    assert!(z.as_mask_u32().iter().all(|c| *c == 0));
}

#[test]
fn floating_cells_are_limited_by_a_draw() {
    let mut z = Rasterizer::new(600, 1);
    z.set_cell(0, 0x12345);
    z.set_cell(1, 0x8000);
    assert!(!z.has_mask());
    let r = Rectangle::from_size(2, 1);
    let mut buf = Vec::new();
    let mut dst = RGBA::new(&mut buf, r);
    z.rgba_uniform_src(&mut dst, r, [0xFFFF, 0xFFFF, 0xFFFF, 0xFFFF]);
    assert!(z.has_mask());
    assert_eq!(&z.as_mask_u32()[..3], &[0xFFFF, 0x8000, 0][..]);
    assert_eq!(dst.at(0, 0), [0xFF; 4]);
    assert_eq!(dst.at(1, 0), [0x80; 4]);
}
