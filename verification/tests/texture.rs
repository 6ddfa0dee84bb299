use soft_render::scalar::{single_depth_key, Scalar};
use soft_render::texture::{
    cube_face, decode_argb8888, face_index, Surface, Texture, TextureCube,
};

#[derive(Clone, Copy, Debug, PartialEq)]
struct Real(f32);

impl Scalar for Real {
    fn from_index(v: usize) -> Self {
        Real(v as f32)
    }

    fn plus(self, rhs: Self) -> Self {
        Real(self.0 + rhs.0)
    }

    fn minus(self, rhs: Self) -> Self {
        Real(self.0 - rhs.0)
    }

    fn times(self, rhs: Self) -> Self {
        Real(self.0 * rhs.0)
    }

    fn over(self, rhs: Self) -> Self {
        Real(self.0 / rhs.0)
    }

    fn less(self, rhs: Self) -> bool {
        self.0 < rhs.0
    }

    fn negated(self) -> Self {
        Real(-self.0)
    }

    fn abs(self) -> Self {
        Real(self.0.abs())
    }

    fn is_sign_positive(self) -> bool {
        self.0.is_sign_positive()
    }

    fn sqrt(self) -> Self {
        Real(self.0.sqrt())
    }

    fn log2(self) -> Self {
        Real(self.0.log2())
    }

    fn trunc(self) -> i32 {
        self.0 as i32
    }

    fn to_index(self) -> usize {
        self.0 as usize
    }

    fn depth_key(self) -> u32 {
        single_depth_key(self.0.to_bits())
    }
}


fn grey(v: f32) -> [Real; 3] {
    [Real(v), Real(v), Real(v)]
}

fn rgb(r: f32, g: f32, b: f32) -> [Real; 3] {
    [Real(r), Real(g), Real(b)]
}

/// A 2 by 2 image whose texels are 10, 20 in row 0 and 30, 40 in row 1.
fn two_by_two() -> Surface<Real> {
    Surface::from_texels(2, 2, vec![grey(10.0), grey(20.0), grey(30.0), grey(40.0)]).unwrap()
}

/// An ARGB8888 image of one colour.
fn plain_image(size_x: usize, size_y: usize, r: u8, g: u8, b: u8) -> Vec<u8> {
    let mut bytes = Vec::new();
    for _ in 0..size_x * size_y {
        bytes.extend_from_slice(&[b, g, r, 0xFF]);
    }
    bytes
}

#[test]
fn a_surface_needs_one_texel_per_position() {
    assert!(Surface::from_texels(2, 2, vec![grey(0.0); 4]).is_some());
    assert!(Surface::from_texels(2, 2, vec![grey(0.0); 3]).is_none());
    assert!(Surface::from_texels(2, 2, vec![grey(0.0); 5]).is_none());
    assert!(Surface::<Real>::from_texels(0, 2, vec![]).is_none());
    assert!(Surface::<Real>::from_texels(2, 0, vec![]).is_none());
    assert!(Surface::from_texels(usize::MAX, 2, vec![grey(0.0); 2]).is_none());
    let s = Surface::from_texels(3, 1, vec![grey(1.0), grey(2.0), grey(3.0)]).unwrap();
    assert_eq!(s.size_x(), 3);
    assert_eq!(s.size_y(), 1);
    assert_eq!(s.data(), &vec![grey(1.0), grey(2.0), grey(3.0)]);
}

#[test]
fn texel_wraps_both_ways() {
    let s = two_by_two();
    assert_eq!(s.texel(0, 0), grey(10.0));
    assert_eq!(s.texel(1, 0), grey(20.0));
    assert_eq!(s.texel(0, 1), grey(30.0));
    assert_eq!(s.texel(1, 1), grey(40.0));
    assert_eq!(s.texel(2, 0), grey(10.0));
    assert_eq!(s.texel(3, 5), grey(40.0));
    assert_eq!(s.texel(usize::MAX, usize::MAX), grey(40.0));
}

#[test]
fn nearest_lookup() {
    let s = two_by_two();
    assert_eq!(s.tex_2d(Real(0.0), Real(0.0)), grey(10.0));
    assert_eq!(s.tex_2d(Real(0.75), Real(0.25)), grey(20.0));
    assert_eq!(s.tex_2d(Real(0.25), Real(0.75)), grey(30.0));
    assert_eq!(s.tex_2d(Real(0.99), Real(0.99)), grey(40.0));
}

#[test]
fn nearest_lookup_wraps_and_takes_negative_as_zero() {
    let s = two_by_two();
    assert_eq!(s.tex_2d(Real(1.0), Real(0.0)), grey(10.0));
    assert_eq!(s.tex_2d(Real(1.75), Real(2.75)), grey(40.0));
    assert_eq!(s.tex_2d(Real(-0.25), Real(-7.0)), grey(10.0));
}

#[test]
fn neighbours_wrap_at_the_last_column_and_row() {
    let s = two_by_two();
    assert_eq!(s.neighbours(0, 0), [grey(10.0), grey(20.0), grey(30.0), grey(40.0)]);
    assert_eq!(s.neighbours(1, 0), [grey(20.0), grey(10.0), grey(40.0), grey(30.0)]);
    assert_eq!(s.neighbours(0, 1), [grey(30.0), grey(40.0), grey(10.0), grey(20.0)]);
    assert_eq!(s.neighbours(1, 1), [grey(40.0), grey(30.0), grey(20.0), grey(10.0)]);
    assert_eq!(s.neighbours(2, 3), [grey(30.0), grey(40.0), grey(10.0), grey(20.0)]);
    let row = Surface::from_texels(3, 1, vec![grey(1.0), grey(2.0), grey(3.0)]).unwrap();
    assert_eq!(row.neighbours(2, 0), [grey(3.0), grey(1.0), grey(3.0), grey(1.0)]);
    assert_eq!(row.neighbours(1, 7), [grey(2.0), grey(3.0), grey(2.0), grey(3.0)]);
}

#[test]
fn bilinear_lookup_blends_four_texels() {
    let s = two_by_two();
    assert_eq!(s.tex_2d_bilinear(Real(0.0), Real(0.0)), grey(10.0));
    assert_eq!(s.tex_2d_bilinear(Real(0.25), Real(0.0)), grey(15.0));
    assert_eq!(s.tex_2d_bilinear(Real(0.0), Real(0.25)), grey(20.0));
    assert_eq!(s.tex_2d_bilinear(Real(0.25), Real(0.25)), grey(25.0));
    assert_eq!(s.tex_2d_bilinear(Real(0.125), Real(0.375)), grey(27.5));
}

#[test]
fn bilinear_lookup_wraps_at_the_far_edges() {
    let s = two_by_two();
    // Right of the last column lies column 0.
    assert_eq!(s.tex_2d_bilinear(Real(0.5), Real(0.0)), grey(20.0));
    assert_eq!(s.tex_2d_bilinear(Real(0.75), Real(0.0)), grey(15.0));
    assert_eq!(s.tex_2d_bilinear(Real(0.75), Real(0.25)), grey(25.0));
    // Above the last row lies row 0.
    assert_eq!(s.tex_2d_bilinear(Real(0.0), Real(0.75)), grey(20.0));
    assert_eq!(s.tex_2d_bilinear(Real(0.25), Real(0.75)), grey(25.0));
    assert_eq!(s.tex_2d_bilinear(Real(0.75), Real(0.75)), grey(25.0));
    let t = Surface::from_texels(
        2,
        2,
        vec![grey(0.0), grey(100.0), grey(200.0), grey(300.0)],
    )
    .unwrap();
    assert_eq!(t.tex_2d_bilinear(Real(0.75), Real(0.0)), grey(50.0));
}

#[test]
fn bilinear_lookup_blends_each_channel() {
    let s = Surface::from_texels(2, 1, vec![rgb(0.0, 100.0, 8.0), rgb(64.0, 0.0, 8.0)]).unwrap();
    assert_eq!(s.tex_2d_bilinear(Real(0.125), Real(0.0)), rgb(16.0, 75.0, 8.0));
    assert_eq!(s.tex_2d_bilinear(Real(0.625), Real(0.0)), rgb(48.0, 25.0, 8.0));
}

#[test]
fn decoding_turns_the_image_upside_down() {
    // 2 by 2: top row A B, bottom row C D; each pixel as blue, green, red, alpha.
    let bytes = vec![
        1, 2, 3, 255, 4, 5, 6, 255, // A B
        7, 8, 9, 255, 10, 11, 12, 255, // C D
    ];
    assert_eq!(
        decode_argb8888(&bytes, 2, 2),
        vec![[9, 8, 7], [12, 11, 10], [3, 2, 1], [6, 5, 4]]
    );
    assert_eq!(decode_argb8888(&Vec::new(), 0, 0), Vec::<[u8; 3]>::new());
    assert_eq!(decode_argb8888(&Vec::new(), 5, 0), Vec::<[u8; 3]>::new());
}

#[test]
fn a_texture_needs_four_bytes_per_pixel() {
    assert!(Texture::<Real>::new(&plain_image(2, 2, 1, 2, 3), 2, 2).is_some());
    assert!(Texture::<Real>::new(&vec![0u8; 15], 2, 2).is_none());
    assert!(Texture::<Real>::new(&vec![0u8; 17], 2, 2).is_none());
    assert!(Texture::<Real>::new(&Vec::new(), 0, 0).is_none());
    assert!(Texture::<Real>::new(&Vec::new(), 0, 3).is_none());
    assert!(Texture::<Real>::new(&Vec::new(), 3, 0).is_none());
    assert!(Texture::<Real>::new(&vec![0u8; 16], usize::MAX, usize::MAX).is_none());
}

#[test]
fn level_zero_holds_the_image() {
    let bytes = vec![
        1, 2, 3, 255, 4, 5, 6, 255, // top row
        7, 8, 9, 255, 10, 11, 12, 255, // bottom row
    ];
    let t = Texture::<Real>::new(&bytes, 2, 2).unwrap();
    let level0 = t.get_surface(0);
    assert_eq!(level0.size_x(), 2);
    assert_eq!(level0.size_y(), 2);
    assert_eq!(
        level0.data(),
        &vec![rgb(9.0, 8.0, 7.0), rgb(12.0, 11.0, 10.0), rgb(3.0, 2.0, 1.0), rgb(6.0, 5.0, 4.0)]
    );
}

#[test]
fn the_pyramid_halves_down_to_a_side_of_one() {
    let sizes = |t: &Texture<Real>| -> Vec<(usize, usize)> {
        (0..t.level_count()).map(|i| (t.get_surface(i).size_x(), t.get_surface(i).size_y())).collect()
    };
    let t = Texture::<Real>::new(&plain_image(8, 8, 0, 0, 0), 8, 8).unwrap();
    assert_eq!(sizes(&t), vec![(8, 8), (4, 4), (2, 2), (1, 1)]);
    let t = Texture::<Real>::new(&plain_image(8, 2, 0, 0, 0), 8, 2).unwrap();
    assert_eq!(sizes(&t), vec![(8, 2), (4, 1)]);
    let t = Texture::<Real>::new(&plain_image(5, 7, 0, 0, 0), 5, 7).unwrap();
    assert_eq!(sizes(&t), vec![(5, 7), (2, 3), (1, 1)]);
    let t = Texture::<Real>::new(&plain_image(1, 9, 0, 0, 0), 1, 9).unwrap();
    assert_eq!(sizes(&t), vec![(1, 9)]);
    let t = Texture::<Real>::new(&plain_image(1, 1, 0, 0, 0), 1, 1).unwrap();
    assert_eq!(sizes(&t), vec![(1, 1)]);
}

#[test]
fn a_plain_image_stays_plain_in_every_level() {
    let t = Texture::<Real>::new(&plain_image(8, 4, 200, 16, 3), 8, 4).unwrap();
    assert_eq!(t.level_count(), 3);
    for level in 0..3 {
        for texel in t.get_surface(level).data() {
            assert_eq!(*texel, rgb(200.0, 16.0, 3.0));
        }
    }
}

#[test]
fn the_next_level_is_the_weighted_mean_of_the_taps_inside() {
    // Row 0: 9 18; row 1: 27 90. The centre tap weighs 4, its two direct
    // neighbours 2 each, the diagonal one 1; the other taps are outside.
    let base =
        Surface::from_texels(2, 2, vec![grey(9.0), grey(18.0), grey(27.0), grey(90.0)]).unwrap();
    let t = Texture::from_surface(base);
    assert_eq!(t.level_count(), 2);
    let top = t.get_surface(1);
    assert_eq!((top.size_x(), top.size_y()), (1, 1));
    assert_eq!(top.data(), &vec![grey((4.0 * 9.0 + 2.0 * 18.0 + 2.0 * 27.0 + 90.0) / 9.0)]);
}

#[test]
fn inner_texels_of_the_next_level_use_all_nine_taps() {
    // A 4 by 4 image whose texel at column x, row y is 16 * (x + 4 * y).
    let texels: Vec<[Real; 3]> = (0..16).map(|i| grey(16.0 * i as f32)).collect();
    let t = Texture::from_surface(Surface::from_texels(4, 4, texels).unwrap());
    let level1 = t.get_surface(1);
    assert_eq!((level1.size_x(), level1.size_y()), (2, 2));
    // Around source position (2, 2): the kernel is symmetric, so the mean of
    // a ramp is the centre value 16 * 10.
    assert_eq!(level1.data()[3], grey(160.0));
    // Around source position (0, 0) only the taps at 0, 1, 4 and 5 are inside.
    assert_eq!(level1.data()[0], grey(16.0 * (2.0 * 1.0 + 2.0 * 4.0 + 5.0) / 9.0));
    // Around source position (2, 0): taps at 1, 2, 3 and at 5, 6, 7.
    assert_eq!(level1.data()[1], grey(16.0 * (2.0 + 4.0 * 2.0 + 2.0 * 3.0 + 5.0 + 2.0 * 6.0 + 7.0) / 12.0));
}

#[test]
fn get_surface_gives_each_level() {
    let t = Texture::<Real>::new(&plain_image(4, 4, 0, 0, 0), 4, 4).unwrap();
    assert_eq!(t.level_count(), 3);
    assert_eq!(t.get_surface(0).size_x(), 4);
    assert_eq!(t.get_surface(1).size_x(), 2);
    assert_eq!(t.get_surface(2).size_x(), 1);
}

#[test]
fn cube_faces_by_dominant_axis() {
    let hit = cube_face(&[Real(1.0), Real(0.0), Real(0.0)]);
    assert_eq!((hit.face, hit.u, hit.v), (0, Real(0.5), Real(0.5)));
    let hit = cube_face(&[Real(-1.0), Real(0.5), Real(0.25)]);
    assert_eq!((hit.face, hit.u, hit.v), (1, Real(0.625), Real(0.75)));
    let hit = cube_face(&[Real(0.0), Real(2.0), Real(1.0)]);
    assert_eq!((hit.face, hit.u, hit.v), (2, Real(0.5), Real(0.25)));
    let hit = cube_face(&[Real(1.0), Real(-2.0), Real(1.0)]);
    assert_eq!((hit.face, hit.u, hit.v), (3, Real(0.75), Real(0.75)));
    let hit = cube_face(&[Real(1.0), Real(-1.0), Real(4.0)]);
    assert_eq!((hit.face, hit.u, hit.v), (4, Real(0.625), Real(0.375)));
    let hit = cube_face(&[Real(1.0), Real(-1.0), Real(-4.0)]);
    assert_eq!((hit.face, hit.u, hit.v), (5, Real(0.375), Real(0.375)));
}

#[test]
fn face_numbers() {
    assert_eq!(face_index(true, false, true), 0);
    assert_eq!(face_index(true, true, true), 0);
    assert_eq!(face_index(true, false, false), 1);
    assert_eq!(face_index(false, true, true), 2);
    assert_eq!(face_index(false, true, false), 3);
    assert_eq!(face_index(false, false, true), 4);
    assert_eq!(face_index(false, false, false), 5);
}

#[test]
fn cube_faces_when_axes_tie() {
    // The first axis must be greater than both others, the second greater
    // than the third; else the third axis decides.
    assert_eq!(cube_face(&[Real(1.0), Real(1.0), Real(0.5)]).face, 2);
    assert_eq!(cube_face(&[Real(1.0), Real(0.5), Real(1.0)]).face, 4);
    assert_eq!(cube_face(&[Real(0.5), Real(1.0), Real(1.0)]).face, 4);
    assert_eq!(cube_face(&[Real(1.0), Real(1.0), Real(-1.0)]).face, 5);
    assert_eq!(cube_face(&[Real(0.0), Real(0.0), Real(0.0)]).face, 4);
    assert_eq!(cube_face(&[Real(0.0), Real(0.0), Real(-0.0)]).face, 5);
}

fn face_of(value: f32) -> Texture<Real> {
    Texture::from_surface(Surface::from_texels(1, 1, vec![grey(value)]).unwrap())
}

#[test]
fn a_cube_has_six_faces() {
    assert!(TextureCube::new((0..6).map(|i| face_of(i as f32)).collect()).is_some());
    assert!(TextureCube::new((0..5).map(|i| face_of(i as f32)).collect()).is_none());
    assert!(TextureCube::new((0..7).map(|i| face_of(i as f32)).collect()).is_none());
    assert!(TextureCube::<Real>::new(Vec::new()).is_none());
}

#[test]
fn a_cube_is_sampled_on_the_face_the_direction_looks_at() {
    let cube = TextureCube::new((0..6).map(|i| face_of(10.0 * i as f32)).collect()).unwrap();
    assert_eq!(cube.get_texture(3).get_surface(0).data(), &vec![grey(30.0)]);
    assert_eq!(cube.sample(&[Real(1.0), Real(0.2), Real(0.1)], 0), grey(0.0));
    assert_eq!(cube.sample(&[Real(-1.0), Real(0.2), Real(0.1)], 0), grey(10.0));
    assert_eq!(cube.sample(&[Real(0.3), Real(0.9), Real(0.1)], 0), grey(20.0));
    assert_eq!(cube.sample(&[Real(0.3), Real(-0.9), Real(0.1)], 0), grey(30.0));
    assert_eq!(cube.sample(&[Real(0.3), Real(0.2), Real(0.8)], 0), grey(40.0));
    assert_eq!(cube.sample(&[Real(0.3), Real(0.2), Real(-0.8)], 0), grey(50.0));
}
