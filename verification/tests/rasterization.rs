use soft_render::color::vector3_to_u32;
use soft_render::framebuffer::FrameBuffer;
use soft_render::raster::{
    clamp_index, clamp_rows, clamp_span, triangle, PixelStage, ScreenPoint, MAX_OUT_VALUES,
};
use soft_render::scalar::{single_depth_key, Scalar};
use std::cell::{Cell, RefCell};

#[derive(Clone, Copy, Debug, PartialEq)]
struct Real(f32);

impl Scalar for Real {
    fn from_index(v: usize) -> Self {
        Real(v as f32)
    }

    fn plus(self, rhs: Self) -> Self {
        Real(self.0 + rhs.0)
    }

    fn minus(self, rhs: Self) -> Self {
        Real(self.0 - rhs.0)
    }

    fn times(self, rhs: Self) -> Self {
        Real(self.0 * rhs.0)
    }

    fn over(self, rhs: Self) -> Self {
        Real(self.0 / rhs.0)
    }

    fn less(self, rhs: Self) -> bool {
        self.0 < rhs.0
    }

    fn negated(self) -> Self {
        Real(-self.0)
    }

    fn abs(self) -> Self {
        Real(self.0.abs())
    }

    fn is_sign_positive(self) -> bool {
        self.0.is_sign_positive()
    }

    fn sqrt(self) -> Self {
        Real(self.0.sqrt())
    }

    fn log2(self) -> Self {
        Real(self.0.log2())
    }

    fn trunc(self) -> i32 {
        self.0 as i32
    }

    fn to_index(self) -> usize {
        self.0 as usize
    }

    fn depth_key(self) -> u32 {
        single_depth_key(self.0.to_bits())
    }
}

struct Gold;

impl PixelStage<Real> for Gold {
    fn pixel(&self, _varyings: &[Real; 16]) -> [Real; 3] {
        [Real(255.0), Real(215.0), Real(0.0)]
    }
}

fn point(x: f32, y: f32) -> ScreenPoint<Real> {
    ScreenPoint { x: Real(x), y: Real(y), inv_w: Real(0.5) }
}

/// Draws the triangle on a 7 by 5 frame and compares which pixels were
/// filled with `rows`, given from the top row down, one digit per pixel.
fn expect_mask(corners: [(f32, f32); 3], rows: [&str; 5]) {
    let mut fb = FrameBuffer::new(7, 5);
    let points = corners.map(|(x, y)| point(x, y));
    let varyings = [[Real(0.0); MAX_OUT_VALUES]; 3];
    triangle(&mut fb, &points, &varyings, 0, &Gold);

    let filled = fb.colors();
    for (from_top, row) in rows.iter().enumerate() {
        let y = 4 - from_top;
        assert_eq!(row.len(), 7);
        for (x, digit) in row.chars().enumerate() {
            let drawn = filled[y * 7 + x] != 0;
            assert_eq!(drawn, digit != '0', "pixel x = {} y = {}", x, y);
        }
    }
}

#[test]
fn triangle_00() {
    expect_mask(
        [(1.0, 4.0), (2.0, 1.0), (6.0, 3.0)],
        ["0000000", "0110000", "0111100", "0010000", "0000000"],
    );
}

#[test]
fn triangle_01() {
    expect_mask(
        [(1.4, 1.6), (2.4, 1.6), (2.4, 2.6)],
        ["0000000", "0000000", "0000000", "0000000", "0000000"],
    );
}

#[test]
fn triangle_02() {
    expect_mask(
        [(3.5, 1.5), (4.5, 1.5), (4.5, 2.5)],
        ["0000000", "0000000", "0000000", "0000000", "0000000"],
    );
}

#[test]
fn triangle_03() {
    expect_mask(
        [(2.5, 2.5), (2.5, 2.5), (2.5, 2.5)],
        ["0000000", "0000000", "0000000", "0000000", "0000000"],
    );
}

#[test]
fn triangle_04() {
    expect_mask(
        [(0.0, 0.0), (4.0, 0.0), (6.0, 2.0)],
        ["0000000", "0000000", "0000000", "0000100", "0111000"],
    );
}

#[test]
fn triangle_05() {
    expect_mask(
        [(1.0, 2.0), (4.0, 1.0), (3.0, 4.0)],
        ["0000000", "0010000", "0110000", "0011000", "0000000"],
    );
}

#[test]
fn triangle_06() {
    expect_mask(
        [(5.5, 2.5), (4.0, 1.0), (3.0, 4.0)],
        ["0000000", "0001000", "0001100", "0000000", "0000000"],
    );
}

#[test]
fn triangle_07() {
    expect_mask(
        [(1.5, 0.5), (2.5, 0.5), (1.5, -2.0)],
        ["0000000", "0000000", "0000000", "0000000", "0100000"],
    );
}

#[test]
fn triangle_08() {
    expect_mask(
        [(0.7, 3.5), (2.5, 0.7), (4.6, 3.5)],
        ["0000000", "0111100", "0111000", "0010000", "0000000"],
    );
}

#[test]
fn triangle_09() {
    expect_mask(
        [(0.7, 1.5), (2.7, 3.2), (4.7, 1.5)],
        ["0000000", "0000000", "0011000", "0000000", "0000000"],
    );
}

#[test]
fn triangle_10() {
    expect_mask(
        [(0.5, 0.5), (0.5, 2.5), (1.5, 1.5)],
        ["0000000", "0000000", "0000000", "1000000", "0000000"],
    );
}

#[test]
fn triangle_11() {
    expect_mask(
        [(0.5, 0.5), (0.5, 2.5), (2.5, 2.5)],
        ["0000000", "0000000", "1100000", "1000000", "0000000"],
    );
}

#[test]
fn triangle_12() {
    expect_mask(
        [(0.5, 0.5), (2.5, 2.5), (2.5, 0.5)],
        ["0000000", "0000000", "0000000", "0100000", "0000000"],
    );
}

#[test]
fn triangle_13() {
    expect_mask(
        [(0.5, 3.5), (1.5, 2.5), (1.5, 0.5)],
        ["0000000", "0000000", "0000000", "0000000", "0000000"],
    );
}

#[test]
fn triangle_14() {
    expect_mask(
        [(0.5, 3.5), (1.5, 2.5), (2.0, 5.0)],
        ["0100000", "1100000", "0000000", "0000000", "0000000"],
    );
}

#[test]
fn triangle_15() {
    expect_mask(
        [(0.5, 0.5), (2.5, 0.5), (0.5, 2.5)],
        ["0000000", "0000000", "0000000", "1000000", "0000000"],
    );
}

#[test]
fn triangle_16() {
    expect_mask(
        [(2.5, 2.5), (2.5, 0.5), (0.5, 2.5)],
        ["0000000", "0000000", "1100000", "0100000", "0000000"],
    );
}

#[test]
fn triangle_17() {
    expect_mask(
        [(5.0, 2.0), (5.0, -2.0), (10.0, 2.0)],
        ["0000000", "0000000", "0000000", "0000011", "0000011"],
    );
}

#[test]
fn triangle_18() {
    expect_mask(
        [(5.0, 3.0), (5.0, 10.0), (10.0, 3.0)],
        ["0000011", "0000011", "0000000", "0000000", "0000000"],
    );
}

/// A stage that paints one colour and counts how often it is asked.
struct Paint {
    rgb: [f32; 3],
    calls: Cell<usize>,
}

impl Paint {
    fn new(r: f32, g: f32, b: f32) -> Paint {
        Paint { rgb: [r, g, b], calls: Cell::new(0) }
    }
}

impl PixelStage<Real> for Paint {
    fn pixel(&self, _varyings: &[Real; 16]) -> [Real; 3] {
        self.calls.set(self.calls.get() + 1);
        [Real(self.rgb[0]), Real(self.rgb[1]), Real(self.rgb[2])]
    }
}

fn at_depth(corners: [(f32, f32); 3], inv_w: f32) -> [ScreenPoint<Real>; 3] {
    corners.map(|(x, y)| ScreenPoint { x: Real(x), y: Real(y), inv_w: Real(inv_w) })
}

fn no_varyings() -> [[Real; MAX_OUT_VALUES]; 3] {
    [[Real(0.0); MAX_OUT_VALUES]; 3]
}

#[test]
fn filled_pixels_hold_the_packed_colour_and_the_depth_key() {
    let mut fb = FrameBuffer::new(7, 5);
    let stage = Paint::new(300.0, 127.9, -4.0);
    triangle(&mut fb, &at_depth([(1.0, 4.0), (2.0, 1.0), (6.0, 3.0)], 0.5), &no_varyings(), 0, &stage);
    let expected: [&str; 5] = ["0000000", "0110000", "0111100", "0010000", "0000000"];
    let mut filled = 0;
    for (from_top, row) in expected.iter().enumerate() {
        let y = 4 - from_top;
        for (x, digit) in row.chars().enumerate() {
            let i = y * 7 + x;
            if digit == '1' {
                filled += 1;
                assert_eq!(fb.colors()[i], 0xFF7F00);
                assert_eq!(fb.depths()[i], 0.5f32.to_bits());
            } else {
                assert_eq!(fb.colors()[i], 0);
                assert_eq!(fb.depths()[i], 0);
            }
        }
    }
    assert_eq!(stage.calls.get(), filled);
}

#[test]
fn drawing_a_triangle_twice_changes_nothing_the_second_time() {
    let mut fb = FrameBuffer::new(16, 12);
    let points = at_depth([(1.2, 10.7), (14.9, 6.1), (4.4, 0.3)], 0.25);
    let first = Paint::new(10.0, 20.0, 30.0);
    triangle(&mut fb, &points, &no_varyings(), 0, &first);
    assert!(first.calls.get() > 20);
    let colors = fb.colors().clone();
    let depths = fb.depths().clone();

    let second = Paint::new(200.0, 100.0, 50.0);
    triangle(&mut fb, &points, &no_varyings(), 0, &second);
    assert_eq!(second.calls.get(), 0);
    assert_eq!(fb.colors(), &colors);
    assert_eq!(fb.depths(), &depths);
}

#[test]
fn overlapping_triangles_show_the_nearer_one_in_either_order() {
    let near = at_depth([(2.0, 2.0), (18.0, 3.0), (9.0, 17.0)], 0.8);
    let far = at_depth([(1.0, 12.0), (19.0, 14.0), (10.0, 1.0)], 0.3);
    let red = Paint::new(255.0, 0.0, 0.0);
    let blue = Paint::new(0.0, 0.0, 255.0);

    let mut near_first = FrameBuffer::new(20, 20);
    triangle(&mut near_first, &near, &no_varyings(), 0, &red);
    triangle(&mut near_first, &far, &no_varyings(), 0, &blue);

    let mut far_first = FrameBuffer::new(20, 20);
    triangle(&mut far_first, &far, &no_varyings(), 0, &blue);
    triangle(&mut far_first, &near, &no_varyings(), 0, &red);

    assert_eq!(near_first.colors(), far_first.colors());
    assert_eq!(near_first.depths(), far_first.depths());

    let mut only_near = FrameBuffer::new(20, 20);
    triangle(&mut only_near, &near, &no_varyings(), 0, &red);
    let mut only_far = FrameBuffer::new(20, 20);
    triangle(&mut only_far, &far, &no_varyings(), 0, &blue);
    let mut shared = 0;
    for i in 0..400 {
        let in_near = only_near.colors()[i] != 0;
        let in_far = only_far.colors()[i] != 0;
        if in_near {
            assert_eq!(near_first.colors()[i], 0xFF0000);
        } else if in_far {
            assert_eq!(near_first.colors()[i], 0x0000FF);
        } else {
            assert_eq!(near_first.colors()[i], 0);
        }
        if in_near && in_far {
            shared += 1;
        }
    }
    assert!(shared > 10);
}

#[test]
fn triangles_outside_the_frame_leave_it_unchanged() {
    let mut fb = FrameBuffer::new(7, 5);
    fb.clear(0x123456);
    let stage = Paint::new(255.0, 255.0, 255.0);
    let outside: [[(f32, f32); 3]; 6] = [
        // below
        [(1.0, -1.0), (5.0, -3.0), (3.0, -8.0)],
        // above
        [(1.0, 5.5), (5.0, 9.0), (3.0, 6.0)],
        // to the left
        [(-5.0, 1.0), (-1.0, 2.0), (-3.0, 4.0)],
        // to the right
        [(8.0, 1.0), (12.0, 2.0), (9.0, 4.0)],
        // far away
        [(1.0e9, 1.0e9), (2.0e9, 1.0e9), (1.0e9, 2.0e9)],
        [(-40.0, -40.0), (-20.0, -40.0), (-30.0, -10.0)],
    ];
    for corners in outside {
        triangle(&mut fb, &at_depth(corners, 0.5), &no_varyings(), 0, &stage);
    }
    assert_eq!(stage.calls.get(), 0);
    assert_eq!(fb.colors(), &vec![0x123456u32; 35]);
    assert_eq!(fb.depths(), &vec![0u32; 35]);
}

#[test]
fn triangles_beside_the_frame_that_pass_the_bounding_test_draw_nothing() {
    let stage = Paint::new(255.0, 255.0, 255.0);
    let beside: [[(f32, f32); 3]; 4] = [
        [(8.0, 4.9), (8.0, -1.0), (6.4, -10.0)],
        [(12.0, 3.0), (5.0, -5.0), (12.0, -5.0)],
        [(-3.0, 2.0), (2.0, -3.0), (-10.0, -10.0)],
        [(-5.0, 3.0), (1.0, 9.0), (-5.0, 9.0)],
    ];
    for corners in beside {
        let mut fb = FrameBuffer::new(7, 5);
        triangle(&mut fb, &at_depth(corners, 0.5), &no_varyings(), 0, &stage);
        assert_eq!(fb.colors(), &vec![0u32; 35], "{:?}", corners);
        assert_eq!(fb.depths(), &vec![0u32; 35]);
    }
    assert_eq!(stage.calls.get(), 0);
}

#[test]
fn a_triangle_behind_the_camera_is_not_drawn() {
    let mut fb = FrameBuffer::new(7, 5);
    let stage = Paint::new(255.0, 255.0, 255.0);
    triangle(&mut fb, &at_depth([(1.0, 4.0), (2.0, 1.0), (6.0, 3.0)], -0.5), &no_varyings(), 0, &stage);
    triangle(&mut fb, &at_depth([(1.0, 4.0), (2.0, 1.0), (6.0, 3.0)], 0.0), &no_varyings(), 0, &stage);
    triangle(&mut fb, &at_depth([(1.0, 4.0), (2.0, 1.0), (6.0, 3.0)], f32::NAN), &no_varyings(), 0, &stage);
    assert_eq!(stage.calls.get(), 0);
    assert_eq!(fb.colors(), &vec![0u32; 35]);
}

#[test]
fn a_partly_visible_triangle_is_cut_at_the_frame() {
    let mut fb = FrameBuffer::new(7, 5);
    let stage = Paint::new(255.0, 255.0, 255.0);
    triangle(&mut fb, &at_depth([(-20.0, -20.0), (40.0, -20.0), (3.0, 40.0)], 0.5), &no_varyings(), 0, &stage);
    assert_eq!(fb.colors(), &vec![0xFFFFFFu32; 35]);
    assert_eq!(stage.calls.get(), 35);
}

/// A stage that remembers the values it was handed and paints the number of
/// the call, so that the frame says which call belongs to which pixel.
struct Recorder {
    seen: RefCell<Vec<(f32, f32)>>,
}

impl PixelStage<Real> for Recorder {
    fn pixel(&self, varyings: &[Real; 16]) -> [Real; 3] {
        let mut seen = self.seen.borrow_mut();
        seen.push((varyings[0].0, varyings[1].0));
        let n = seen.len();
        [Real((n >> 16) as f32), Real(((n >> 8) & 0xFF) as f32), Real((n & 0xFF) as f32)]
    }
}

#[test]
fn interpolated_values_match_the_unprojected_ones() {
    // A triangle seen at a steep angle: its corners differ much in depth.
    let corners: [(f64, f64); 3] = [(5.0, 5.0), (60.0, 10.0), (20.0, 58.0)];
    let w: [f64; 3] = [1.0, 4.0, 2.0];
    let uv: [(f64, f64); 3] = [(0.0, 0.0), (1.0, 0.0), (0.0, 1.0)];

    let points = [0, 1, 2].map(|i| ScreenPoint {
        x: Real(corners[i].0 as f32),
        y: Real(corners[i].1 as f32),
        inv_w: Real((1.0 / w[i]) as f32),
    });
    let mut varyings = no_varyings();
    for i in 0..3 {
        varyings[i][0] = Real((uv[i].0 / w[i]) as f32);
        varyings[i][1] = Real((uv[i].1 / w[i]) as f32);
    }
    let mut fb = FrameBuffer::new(64, 64);
    let stage = Recorder { seen: RefCell::new(Vec::new()) };
    triangle(&mut fb, &points, &varyings, 2, &stage);

    let seen = stage.seen.borrow();
    assert!(seen.len() > 1000);
    let area = (corners[1].0 - corners[0].0) * (corners[2].1 - corners[0].1)
        - (corners[2].0 - corners[0].0) * (corners[1].1 - corners[0].1);
    let mut checked = 0;
    for y in 0..64 {
        for x in 0..64 {
            let n = fb.colors()[y * 64 + x] as usize;
            if n == 0 {
                continue;
            }
            let (px, py) = (x as f64 + 0.5, y as f64 + 0.5);
            let l1 = ((px - corners[0].0) * (corners[2].1 - corners[0].1)
                - (corners[2].0 - corners[0].0) * (py - corners[0].1))
                / area;
            let l2 = ((corners[1].0 - corners[0].0) * (py - corners[0].1)
                - (px - corners[0].0) * (corners[1].1 - corners[0].1))
                / area;
            let l0 = 1.0 - l1 - l2;
            let inv = l0 / w[0] + l1 / w[1] + l2 / w[2];
            let u = (l0 * uv[0].0 / w[0] + l1 * uv[1].0 / w[1] + l2 * uv[2].0 / w[2]) / inv;
            let v = (l0 * uv[0].1 / w[0] + l1 * uv[1].1 / w[1] + l2 * uv[2].1 / w[2]) / inv;
            let (got_u, got_v) = seen[n - 1];
            assert!((got_u as f64 - u).abs() < 1e-3, "u at {} {}: {} and {}", x, y, got_u, u);
            assert!((got_v as f64 - v).abs() < 1e-3, "v at {} {}: {} and {}", x, y, got_v, v);
            let depth = f32::from_bits(fb.depths()[y * 64 + x]) as f64;
            assert!((depth - inv).abs() < 1e-4);
            checked += 1;
        }
    }
    assert_eq!(checked, seen.len());
}

#[test]
fn a_textured_quad_at_a_steep_angle_is_interpolated_in_perspective() {
    // A square on the ground, one unit below the eye, from 2 to 6 units
    // ahead. A point (x, y, z) is seen at (x / z, y / z) and has depth z.
    let size = 128.0f64;
    let ground: [(f64, f64); 4] = [(-1.0, 2.0), (1.0, 2.0), (1.0, 6.0), (-1.0, 6.0)];
    let uv_of = |x: f64, z: f64| ((x + 1.0) / 2.0, (z - 2.0) / 4.0);
    let to_screen = |c: f64| (c * 0.5 + 0.5) * size;

    let corner = |i: usize| {
        let (x, z) = ground[i];
        let (u, v) = uv_of(x, z);
        let point = ScreenPoint {
            x: Real(to_screen(x / z) as f32),
            y: Real(to_screen(-1.0 / z) as f32),
            inv_w: Real((1.0 / z) as f32),
        };
        let mut values = [Real(0.0); MAX_OUT_VALUES];
        values[0] = Real((u / z) as f32);
        values[1] = Real((v / z) as f32);
        (point, values)
    };

    let mut fb = FrameBuffer::new(128, 128);
    let stage = Recorder { seen: RefCell::new(Vec::new()) };
    for half in [[0, 1, 2], [0, 2, 3]] {
        let (points, varyings): (Vec<_>, Vec<_>) = half.iter().map(|&i| corner(i)).unzip();
        let points: [ScreenPoint<Real>; 3] = points.try_into().ok().unwrap();
        let varyings: [[Real; MAX_OUT_VALUES]; 3] = varyings.try_into().ok().unwrap();
        triangle(&mut fb, &points, &varyings, 2, &stage);
    }

    let seen = stage.seen.borrow();
    let mut checked = 0;
    for y in 0..128 {
        for x in 0..128 {
            let n = fb.colors()[y * 128 + x] as usize;
            if n == 0 {
                continue;
            }
            // The ray through the pixel's centre meets the ground at depth z.
            let sx = (x as f64 + 0.5) / size * 2.0 - 1.0;
            let sy = (y as f64 + 0.5) / size * 2.0 - 1.0;
            let z = -1.0 / sy;
            let (u, v) = uv_of(sx * z, z);
            let (got_u, got_v) = seen[n - 1];
            assert!((got_u as f64 - u).abs() < 1e-3, "u at {} {}: {} and {}", x, y, got_u, u);
            assert!((got_v as f64 - v).abs() < 1e-3, "v at {} {}: {} and {}", x, y, got_v, v);
            assert!(-1e-3 < u && u < 1.0 + 1e-3 && -1e-3 < v && v < 1.0 + 1e-3);
            checked += 1;
        }
    }
    assert!(checked > 800, "{} pixels", checked);
}

#[test]
fn the_order_of_the_vertices_does_not_matter() {
    let corners = [(1.0, 4.0), (2.0, 1.0), (6.0, 3.0)];
    let orders = [[0, 1, 2], [0, 2, 1], [1, 0, 2], [1, 2, 0], [2, 0, 1], [2, 1, 0]];
    for order in orders {
        expect_mask(
            order.map(|i| corners[i]),
            ["0000000", "0110000", "0111100", "0010000", "0000000"],
        );
    }
}

#[test]
fn clamp_index_cuts_to_the_range() {
    assert_eq!(clamp_index(-1, 6), 0);
    assert_eq!(clamp_index(i32::MIN, 6), 0);
    assert_eq!(clamp_index(0, 6), 0);
    assert_eq!(clamp_index(4, 6), 4);
    assert_eq!(clamp_index(6, 6), 6);
    assert_eq!(clamp_index(7, 6), 6);
    assert_eq!(clamp_index(i32::MAX, 6), 6);
    assert_eq!(clamp_index(5, 0), 0);
}

#[test]
fn a_row_is_cut_to_the_frame() {
    assert_eq!(clamp_span(2, 5, 7), Some((2, 5)));
    assert_eq!(clamp_span(-3, 5, 7), Some((0, 5)));
    assert_eq!(clamp_span(2, 9, 7), Some((2, 7)));
    assert_eq!(clamp_span(-3, 9, 7), Some((0, 7)));
    assert_eq!(clamp_span(6, 7, 7), Some((6, 7)));
    assert_eq!(clamp_span(0, 1, 1), Some((0, 1)));
}

#[test]
fn a_row_without_columns_fills_nothing() {
    assert_eq!(clamp_span(3, 3, 7), None);
    assert_eq!(clamp_span(5, 2, 7), None);
    assert_eq!(clamp_span(-9, -2, 7), None);
    assert_eq!(clamp_span(-9, 0, 7), None);
    assert_eq!(clamp_span(i32::MIN, i32::MIN, 7), None);
}

#[test]
fn a_row_right_of_the_frame_fills_nothing() {
    assert_eq!(clamp_span(7, 8, 7), None);
    assert_eq!(clamp_span(7, 7, 7), None);
    assert_eq!(clamp_span(100, 200, 7), None);
    assert_eq!(clamp_span(i32::MAX, i32::MAX, 7), None);
}

#[test]
fn the_rows_of_a_triangle_are_cut_to_the_frame() {
    assert_eq!(clamp_rows(1, 3, 4, 5), (1, 3, 4));
    assert_eq!(clamp_rows(-2, 3, 9, 5), (0, 3, 5));
    assert_eq!(clamp_rows(-9, -4, -1, 5), (0, 0, 0));
    assert_eq!(clamp_rows(5, 6, 7, 5), (4, 5, 5));
    assert_eq!(clamp_rows(4, 4, 5, 5), (4, 4, 5));
    assert_eq!(clamp_rows(0, 0, 0, 1), (0, 0, 0));
}

#[test]
fn a_colour_vector_is_cut_and_packed() {
    assert_eq!(vector3_to_u32(&[Real(255.9), Real(128.0), Real(0.2)]), 0xFF8000);
    assert_eq!(vector3_to_u32(&[Real(-3.0), Real(1.0e12), Real(f32::NAN)]), 0x00FF00);
    assert_eq!(vector3_to_u32(&[Real(1.0), Real(2.0), Real(3.0)]), 0x010203);
}

#[test]
fn depth_keys_of_single_precision_numbers() {
    assert_eq!(single_depth_key(0.5f32.to_bits()), 0x3F00_0000);
    assert_eq!(single_depth_key(1.0f32.to_bits()), 0x3F80_0000);
    assert_eq!(single_depth_key(f32::MIN_POSITIVE.to_bits()), 0x0080_0000);
    assert_eq!(single_depth_key(1), 1);
    assert_eq!(single_depth_key(f32::MAX.to_bits()), 0x7F7F_FFFF);
    assert_eq!(single_depth_key(f32::INFINITY.to_bits()), 0x7F80_0000);
    assert_eq!(single_depth_key(0.0f32.to_bits()), 0);
    assert_eq!(single_depth_key((-0.0f32).to_bits()), 0);
    assert_eq!(single_depth_key((-0.5f32).to_bits()), 0);
    assert_eq!(single_depth_key(f32::NEG_INFINITY.to_bits()), 0);
    assert_eq!(single_depth_key(f32::NAN.to_bits()), 0);
    assert_eq!(single_depth_key(0x7F80_0001), 0);
    assert_eq!(single_depth_key(0xFFFF_FFFF), 0);
}

#[test]
fn depth_keys_compare_as_the_depths_do() {
    let samples: Vec<f32> = vec![
        f32::NEG_INFINITY,
        -3.0e30,
        -1.0,
        -1.0e-40,
        -0.0,
        0.0,
        1.0e-45,
        1.0e-40,
        f32::MIN_POSITIVE,
        0.1,
        0.5,
        0.500_000_06,
        1.0,
        2.5,
        1.0e30,
        f32::MAX,
        f32::INFINITY,
        f32::NAN,
    ];
    for &stored in &samples {
        // A frame only ever stores zero and what passed a test before.
        if !(stored >= 0.0) {
            continue;
        }
        let stored_key = single_depth_key(stored.to_bits());
        for &z in &samples {
            let key = single_depth_key(z.to_bits());
            assert_eq!(stored_key < key, stored < z, "{} and {}", stored, z);
        }
    }
}
