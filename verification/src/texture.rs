//! Images in linear RGB, their mipmap pyramids, and the nearest and bilinear
//! lookups that shading uses.

use vstd::prelude::*;
use crate::scalar::{
    is_abs, is_from_index, is_larger, is_less, is_log2, is_minus, is_negated, is_over, is_plus,
    is_sign_positive, is_sqrt, is_times, is_to_index, larger, one, Scalar,
};

verus! {

/// A rectangular image of RGB triples, stored row by row.
pub struct Surface<N> {
    size_x: usize,
    size_y: usize,
    data: Vec<[N; 3]>,
}

impl<N> Surface<N> {
    #[verifier::type_invariant]
    spec fn well_formed(self) -> bool {
        &&& self.size_x >= 1
        &&& self.size_y >= 1
        &&& self.data@.len() == self.size_x * self.size_y
    }

    /// The number of texels in a row.
    pub closed spec fn width(&self) -> nat {
        self.size_x as nat
    }

    /// The number of rows.
    pub closed spec fn height(&self) -> nat {
        self.size_y as nat
    }

    /// The texels, row by row.
    pub closed spec fn texels(&self) -> Seq<[N; 3]> {
        self.data@
    }

    /// The image is not empty and holds one texel per position.
    pub open spec fn wf(&self) -> bool {
        &&& self.width() >= 1
        &&& self.height() >= 1
        &&& self.texels().len() == self.width() * self.height()
    }
}

/// The position in a `w` by `h` image that a lookup at column `x`, row `y`
/// reads: both coordinates wrap around.
pub open spec fn wrapped_index(w: nat, h: nat, x: nat, y: nat) -> int {
    ((y % h) * w + (x % w)) as int
}

/// The four positions a bilinear lookup blends, for the texel at column `x`,
/// row `y` (both wrapped): the texel, its right neighbour, the texel above
/// and that one's right neighbour. The neighbours wrap too: right of the
/// last column lies column 0, and above the last row lies row 0.
pub open spec fn bilinear_taps(w: nat, h: nat, x: nat, y: nat) -> Seq<int> {
    let xi = x % w;
    let yi = y % h;
    let xr = (xi + 1) % w;
    let yu = (yi + 1) % h;
    seq![
        (yi * w + xi) as int,
        (yi * w + xr) as int,
        (yu * w + xi) as int,
        (yu * w + xr) as int,
    ]
}

/// A wrapped position, and the four taps around it, lie inside the image.
pub proof fn lemma_taps_in_range(w: nat, h: nat, x: nat, y: nat)
    requires
        w >= 1,
        h >= 1,
    ensures
        0 <= wrapped_index(w, h, x, y) < w * h,
        forall|i: int| 0 <= i < 4 ==> 0 <= #[trigger] bilinear_taps(w, h, x, y)[i] < w * h,
{
    let xi = x % w;
    let yi = y % h;
    let xr = (xi + 1) % w;
    let yu = (yi + 1) % h;
    assert(0 <= yi * w + xi < w * h && 0 <= yi * w + xr < w * h && 0 <= yu * w + xi < w * h && 0
        <= yu * w + xr < w * h) by (nonlinear_arith)
        requires
            0 <= xi < w,
            0 <= xr < w,
            0 <= yi < h,
            0 <= yu < h,
    ;
    let taps = bilinear_taps(w, h, x, y);
    assert(0 <= taps[0] < w * h);
    assert(0 <= taps[1] < w * h);
    assert(0 <= taps[2] < w * h);
    assert(0 <= taps[3] < w * h);
}

impl<N: Copy> Surface<N> {
    /// An image from its texels, given row by row; `None` unless both sizes
    /// are at least 1 and there is exactly one texel per position.
    pub fn from_texels(size_x: usize, size_y: usize, data: Vec<[N; 3]>) -> (s: Option<Surface<N>>)
        ensures
            s is Some <==> size_x >= 1 && size_y >= 1 && data@.len() == size_x * size_y,
            s matches Some(surface) ==> {
                &&& surface.wf()
                &&& surface.width() == size_x
                &&& surface.height() == size_y
                &&& surface.texels() == data@
            },
    {
        if size_x == 0 || size_y == 0 {
            return None;
        }
        match size_x.checked_mul(size_y) {
            Some(n) => {
                if data.len() == n {
                    Some(Surface { size_x, size_y, data })
                } else {
                    None
                }
            },
            None => {
                proof {
                    vstd::std_specs::vec::axiom_spec_len(&data);
                }
                None
            },
        }
    }

    /// The number of texels in a row.
    pub fn size_x(&self) -> (w: usize)
        ensures
            w == self.width(),
            w >= 1,
            self.wf(),
    {
        proof {
            use_type_invariant(self);
        }
        self.size_x
    }

    /// The number of rows.
    pub fn size_y(&self) -> (h: usize)
        ensures
            h == self.height(),
            h >= 1,
            self.wf(),
    {
        proof {
            use_type_invariant(self);
        }
        self.size_y
    }

    /// The texels, row by row.
    pub fn data(&self) -> (d: &Vec<[N; 3]>)
        ensures
            d@ == self.texels(),
            self.wf(),
    {
        proof {
            use_type_invariant(self);
        }
        &self.data
    }

    /// The texel at column `x`, row `y`, both wrapped around the image.
    pub fn texel(&self, x: usize, y: usize) -> (t: [N; 3])
        ensures
            self.wf(),
            t == self.texels()[wrapped_index(self.width(), self.height(), x as nat, y as nat)],
    {
        proof {
            use_type_invariant(self);
            vstd::std_specs::vec::axiom_spec_len(&self.data);
            lemma_taps_in_range(self.size_x as nat, self.size_y as nat, x as nat, y as nat);
        }
        let xi: usize = x % self.size_x;
        let yi: usize = y % self.size_y;
        self.data[yi * self.size_x + xi]
    }

    /// The four texels that a bilinear lookup blends around column `x`,
    /// row `y`.
    pub fn neighbours(&self, x: usize, y: usize) -> (t: [[N; 3]; 4])
        ensures
            self.wf(),
            forall|i: int|
                0 <= i < 4 ==> #[trigger] t[i] == self.texels()[bilinear_taps(
                    self.width(),
                    self.height(),
                    x as nat,
                    y as nat,
                )[i]],
    {
        proof {
            use_type_invariant(self);
            vstd::std_specs::vec::axiom_spec_len(&self.data);
            lemma_taps_in_range(self.size_x as nat, self.size_y as nat, x as nat, y as nat);
        }
        let ghost taps = bilinear_taps(self.size_x as nat, self.size_y as nat, x as nat, y as nat);
        assert(0 <= taps[0] < self.size_x * self.size_y);
        assert(0 <= taps[1] < self.size_x * self.size_y);
        assert(0 <= taps[2] < self.size_x * self.size_y);
        assert(0 <= taps[3] < self.size_x * self.size_y);
        let xi: usize = x % self.size_x;
        let yi: usize = y % self.size_y;
        let xr: usize = (xi + 1) % self.size_x;
        let yu: usize = (yi + 1) % self.size_y;
        [
            self.data[yi * self.size_x + xi],
            self.data[yi * self.size_x + xr],
            self.data[yu * self.size_x + xi],
            self.data[yu * self.size_x + xr],
        ]
    }
}

/// `r` is `c * t`, channel by channel.
pub open spec fn is_scale3<N: Scalar>(c: [N; 3], t: N, r: [N; 3]) -> bool {
    forall|i: int| 0 <= i < 3 ==> is_times(c@[i], t, #[trigger] r@[i])
}

/// `r` is `a + b`, channel by channel.
pub open spec fn is_add3<N: Scalar>(a: [N; 3], b: [N; 3], r: [N; 3]) -> bool {
    forall|i: int| 0 <= i < 3 ==> is_plus(a@[i], b@[i], #[trigger] r@[i])
}

/// `r` is `a * rest + b * d`, channel by channel.
pub open spec fn is_mix3<N: Scalar>(a: [N; 3], b: [N; 3], rest: N, d: N, r: [N; 3]) -> bool {
    exists|x: [N; 3], y: [N; 3]| is_scale3(a, rest, x) && is_scale3(b, d, y) && #[trigger] is_add3(
        x,
        y,
        r,
    )
}

/// `r` is `1 - d`.
pub open spec fn is_rest<N: Scalar>(d: N, r: N) -> bool {
    exists|unit: N| is_from_index(1, unit) && #[trigger] is_minus(unit, d, r)
}

/// `r` is the blend of four texels, the lower pair `t0`, `t1` and the upper
/// pair `t2`, `t3`: `(t0 * (1 - dx) + t1 * dx) * (1 - dy)
/// + (t2 * (1 - dx) + t3 * dx) * dy`.
pub open spec fn is_blend<N: Scalar>(
    t0: [N; 3],
    t1: [N; 3],
    t2: [N; 3],
    t3: [N; 3],
    dx: N,
    dy: N,
    r: [N; 3],
) -> bool {
    exists|rest_x: N, rest_y: N, lower: [N; 3], low: [N; 3], upper: [N; 3], high: [N; 3]|
        #![trigger is_rest(dx, rest_x), is_scale3(lower, rest_y, low), is_scale3(upper, dy, high)]
        {
            &&& is_rest(dx, rest_x)
            &&& is_rest(dy, rest_y)
            &&& is_mix3(t0, t1, rest_x, dx, lower)
            &&& is_scale3(lower, rest_y, low)
            &&& is_mix3(t2, t3, rest_x, dx, upper)
            &&& is_scale3(upper, dy, high)
            &&& is_add3(low, high, r)
        }
}

/// A texture coordinate `c` on an axis of `size` texels falls on the texel
/// `index`, the integer part of `c * size`, and lies `fraction` beyond it.
pub open spec fn is_texel_coord<N: Scalar>(c: N, size: usize, index: usize, fraction: N) -> bool {
    exists|s: N, x: N, whole: N|
        #![trigger is_times(c, s, x), is_minus(x, whole, fraction)]
        {
            &&& is_from_index(size, s)
            &&& is_times(c, s, x)
            &&& is_to_index(x, index)
            &&& is_from_index(index, whole)
            &&& is_minus(x, whole, fraction)
        }
}

/// A texture coordinate `c` on an axis of `size` texels falls on the texel
/// `index`, the integer part of `c * size`.
pub open spec fn is_texel_index<N: Scalar>(c: N, size: usize, index: usize) -> bool {
    exists|s: N, x: N| is_from_index(size, s) && #[trigger] is_times(c, s, x) && is_to_index(x, index)
}

impl<N: Scalar> Surface<N> {
    /// `r` is the nearest lookup at the texture coordinate `(u, v)`: the
    /// texel that the coordinate falls on, both indices wrapped.
    pub open spec fn is_nearest(&self, u: N, v: N, r: [N; 3]) -> bool {
        exists|x: usize, y: usize|
            #![trigger is_texel_index(u, self.width() as usize, x), is_texel_index(v, self.height() as usize, y)]
            {
                &&& is_texel_index(u, self.width() as usize, x)
                &&& is_texel_index(v, self.height() as usize, y)
                &&& r == self.texels()[wrapped_index(
                    self.width(),
                    self.height(),
                    x as nat,
                    y as nat,
                )]
            }
    }

    /// Texel `i` of the four that a bilinear lookup blends around column
    /// `x`, row `y`.
    pub open spec fn tap(&self, x: usize, y: usize, i: int) -> [N; 3] {
        self.texels()[bilinear_taps(self.width(), self.height(), x as nat, y as nat)[i]]
    }

    /// `r` is the bilinear lookup at the texture coordinate `(u, v)`: the
    /// blend of the four texels around the texel that the coordinate falls
    /// on, weighted by how far the coordinate lies beyond it.
    pub open spec fn is_bilinear(&self, u: N, v: N, r: [N; 3]) -> bool {
        exists|x: usize, y: usize, dx: N, dy: N|
            #![trigger is_texel_coord(u, self.width() as usize, x, dx), is_texel_coord(v, self.height() as usize, y, dy)]
            {
                &&& is_texel_coord(u, self.width() as usize, x, dx)
                &&& is_texel_coord(v, self.height() as usize, y, dy)
                &&& is_blend(
                    self.tap(x, y, 0),
                    self.tap(x, y, 1),
                    self.tap(x, y, 2),
                    self.tap(x, y, 3),
                    dx,
                    dy,
                    r,
                )
            }
    }
}

/// `t * c`, channel by channel.
fn scale3<N: Scalar>(c: &[N; 3], t: N) -> (r: [N; 3])
    ensures
        is_scale3(*c, t, r),
{
    [c[0].times(t), c[1].times(t), c[2].times(t)]
}

/// `a + b`, channel by channel.
fn add3<N: Scalar>(a: &[N; 3], b: &[N; 3]) -> (r: [N; 3])
    ensures
        is_add3(*a, *b, r),
{
    [a[0].plus(b[0]), a[1].plus(b[1]), a[2].plus(b[2])]
}

impl<N: Scalar> Surface<N> {
    /// The texel nearest to the texture coordinate `(u, v)`: the coordinate is
    /// scaled by the image's size, cut to its integer part and wrapped.
    pub fn tex_2d(&self, u: N, v: N) -> (t: [N; 3])
        ensures
            self.wf(),
            self.is_nearest(u, v, t),
    {
        let size_x: usize = self.size_x();
        let size_y: usize = self.size_y();
        let sx: N = N::from_index(size_x);
        let fx: N = u.times(sx);
        let x: usize = fx.to_index();
        let sy: N = N::from_index(size_y);
        let fy: N = v.times(sy);
        let y: usize = fy.to_index();
        let t = self.texel(x, y);
        proof {
            assert(size_x == self.width() as usize && size_y == self.height() as usize);
            assert(is_from_index(size_x, sx) && is_times(u, sx, fx) && is_to_index(fx, x));
            assert(is_texel_index(u, size_x, x));
            assert(is_from_index(size_y, sy) && is_times(v, sy, fy) && is_to_index(fy, y));
            assert(is_texel_index(v, size_y, y));
        }
        t
    }

    /// The blend of the four texels around the texture coordinate `(u, v)`,
    /// weighted by the fractional parts of the scaled coordinate.
    pub fn tex_2d_bilinear(&self, u: N, v: N) -> (t: [N; 3])
        ensures
            self.wf(),
            self.is_bilinear(u, v, t),
    {
        let size_x: usize = self.size_x();
        let size_y: usize = self.size_y();
        let sx: N = N::from_index(size_x);
        let x: N = u.times(sx);
        let sy: N = N::from_index(size_y);
        let y: N = v.times(sy);
        let x_int: usize = x.to_index();
        let y_int: usize = y.to_index();
        let whole_x: N = N::from_index(x_int);
        let dx: N = x.minus(whole_x);
        let whole_y: N = N::from_index(y_int);
        let dy: N = y.minus(whole_y);
        let taps = self.neighbours(x_int, y_int);
        let unit_x: N = one::<N>();
        let rest_x: N = unit_x.minus(dx);
        let unit_y: N = one::<N>();
        let rest_y: N = unit_y.minus(dy);
        let low_a = scale3(&taps[0], rest_x);
        let low_b = scale3(&taps[1], dx);
        let lower = add3(&low_a, &low_b);
        let low = scale3(&lower, rest_y);
        let high_a = scale3(&taps[2], rest_x);
        let high_b = scale3(&taps[3], dx);
        let upper = add3(&high_a, &high_b);
        let high = scale3(&upper, dy);
        let t = add3(&low, &high);
        proof {
            assert(size_x == self.width() as usize && size_y == self.height() as usize);
            assert(is_from_index(size_x, sx) && is_times(u, sx, x) && is_to_index(x, x_int)
                && is_from_index(x_int, whole_x) && is_minus(x, whole_x, dx));
            assert(is_texel_coord(u, size_x, x_int, dx));
            assert(is_from_index(size_y, sy) && is_times(v, sy, y) && is_to_index(y, y_int)
                && is_from_index(y_int, whole_y) && is_minus(y, whole_y, dy));
            assert(is_texel_coord(v, size_y, y_int, dy));
            assert(taps[0] == self.tap(x_int, y_int, 0));
            assert(taps[1] == self.tap(x_int, y_int, 1));
            assert(taps[2] == self.tap(x_int, y_int, 2));
            assert(taps[3] == self.tap(x_int, y_int, 3));
            assert(is_from_index(1, unit_x) && is_minus(unit_x, dx, rest_x));
            assert(is_rest(dx, rest_x));
            assert(is_from_index(1, unit_y) && is_minus(unit_y, dy, rest_y));
            assert(is_rest(dy, rest_y));
            assert(is_scale3(taps[0], rest_x, low_a) && is_scale3(taps[1], dx, low_b) && is_add3(
                low_a,
                low_b,
                lower,
            ));
            assert(is_mix3(taps[0], taps[1], rest_x, dx, lower));
            assert(is_scale3(taps[2], rest_x, high_a) && is_scale3(taps[3], dx, high_b) && is_add3(
                high_a,
                high_b,
                upper,
            ));
            assert(is_mix3(taps[2], taps[3], rest_x, dx, upper));
            assert(is_rest(dx, rest_x) && is_scale3(lower, rest_y, low) && is_scale3(
                upper,
                dy,
                high,
            ) && is_add3(low, high, t));
            assert(is_blend(taps[0], taps[1], taps[2], taps[3], dx, dy, t));
        }
        t
    }
}

/// The texels of a decoded ARGB8888 image of `w` by `h` pixels whose rows run
/// from the top down: row 0 of the result is the image's bottom row, and each
/// texel holds the red, green and blue byte of its pixel.
pub open spec fn decoded(bytes: Seq<u8>, w: nat, h: nat) -> Seq<[u8; 3]> {
    Seq::new(w * h, |i: int| decoded_texel(bytes, w, h, i))
}

/// Texel `i` of the decoded image: column `i % w` of row `i / w`, which the
/// bytes hold in row `h - 1 - i / w`.
pub open spec fn decoded_texel(bytes: Seq<u8>, w: nat, h: nat, i: int) -> [u8; 3] {
    let at = (((h - 1 - i / (w as int)) * w + i % (w as int)) * 4) as int;
    [bytes[at + 2], bytes[at + 1], bytes[at]]
}

/// Reads the pixels of an ARGB8888 image, four bytes per pixel in the order
/// blue, green, red, alpha, and turns the image upside down.
pub fn decode_argb8888(bytes: &Vec<u8>, size_x: usize, size_y: usize) -> (texels: Vec<[u8; 3]>)
    requires
        bytes@.len() == 4 * size_x * size_y,
    ensures
        texels@ == decoded(bytes@, size_x as nat, size_y as nat),
{
    let ghost w = size_x as int;
    let ghost h = size_y as int;
    let mut texels: Vec<[u8; 3]> = Vec::new();
    let mut y: usize = 0;
    proof {
        vstd::std_specs::vec::axiom_spec_len(bytes);
        assert(4 * size_x * size_y == 4 * (w * h)) by (nonlinear_arith)
            requires
                w == size_x,
                h == size_y,
        ;
        assert(0 * w == 0);
    }
    while y < size_y
        invariant
            y <= size_y,
            w == size_x,
            h == size_y,
            bytes@.len() == 4 * (w * h),
            bytes@.len() <= usize::MAX,
            texels@.len() == y * w,
            forall|i: int|
                0 <= i < y * w ==> #[trigger] texels@[i] == decoded_texel(
                    bytes@,
                    size_x as nat,
                    size_y as nat,
                    i,
                ),
        decreases size_y - y,
    {
        let mut x: usize = 0;
        while x < size_x
            invariant
                x <= size_x,
                y < size_y,
                w == size_x,
                h == size_y,
                bytes@.len() == 4 * (w * h),
                bytes@.len() <= usize::MAX,
                texels@.len() == y * w + x,
                forall|i: int|
                    0 <= i < y * w + x ==> #[trigger] texels@[i] == decoded_texel(
                        bytes@,
                        size_x as nat,
                        size_y as nat,
                        i,
                    ),
            decreases size_x - x,
        {
            let ghost i = y * w + x;
            let ghost row = h - 1 - y;
            proof {
                assert(0 <= row * w + x && (row * w + x) * 4 + 3 < 4 * (w * h) && 0 <= i < w * h
                    && row * w <= (row * w + x) * 4) by (nonlinear_arith)
                    requires
                        0 <= x < w,
                        0 <= row < h,
                        0 <= y < h,
                        i == y * w + x,
                ;
                vstd::arithmetic::div_mod::lemma_fundamental_div_mod_converse(
                    i,
                    w,
                    y as int,
                    x as int,
                );
            }
            let ind: usize = ((size_y - y - 1) * size_x + x) * 4;
            texels.push([bytes[ind + 2], bytes[ind + 1], bytes[ind]]);
            x += 1;
        }
        y += 1;
        proof {
            assert(y * w == (y - 1) * w + w) by (nonlinear_arith);
        }
    }
    proof {
        assert(h * w == w * h) by (nonlinear_arith);
    }
    assert(texels@ =~= decoded(bytes@, size_x as nat, size_y as nat));
    texels
}

/// The weight of the tap at offset `(ax, ay)` of the 3 by 3 kernel
/// `1 2 1 / 2 4 2 / 1 2 1`, whose centre is offset `(0, 0)`.
pub open spec fn kernel_weight(ax: int, ay: int) -> int {
    (if ax == 0 { 2int } else { 1int }) * (if ay == 0 { 2int } else { 1int })
}

/// What the tap at offset `(ax, ay)` from source position `(2x, 2y)` adds to
/// the divisor: its weight where it falls inside the `w` by `h` source, else 0.
pub open spec fn tap_share(w: nat, h: nat, x: nat, y: nat, ax: int, ay: int) -> int {
    if 0 <= 2 * x + ax < w && 0 <= 2 * y + ay < h {
        kernel_weight(ax, ay)
    } else {
        0
    }
}

/// The divisor of the texel at `(x, y)` of the next level: the weights of the
/// nine taps that fall inside the source.
pub open spec fn kernel_total(w: nat, h: nat, x: nat, y: nat) -> int {
    tap_share(w, h, x, y, -1, -1) + tap_share(w, h, x, y, 0, -1) + tap_share(w, h, x, y, 1, -1)
        + tap_share(w, h, x, y, -1, 0) + tap_share(w, h, x, y, 0, 0) + tap_share(w, h, x, y, 1, 0)
        + tap_share(w, h, x, y, -1, 1) + tap_share(w, h, x, y, 0, 1) + tap_share(w, h, x, y, 1, 1)
}

/// Whether the levels form a mipmap pyramid: every level is a proper image,
/// each level after the first has half the width and half the height of the
/// one before (rounded down), and the pyramid ends with the first level whose
/// width or height is 1.
pub open spec fn is_mip_chain<N>(levels: Seq<Surface<N>>) -> bool {
    &&& levels.len() >= 1
    &&& forall|i: int| 0 <= i < levels.len() ==> (#[trigger] levels[i]).wf()
    &&& forall|i: int| 0 <= i < levels.len() - 1 ==> #[trigger] halves_at(levels, i)
    &&& (levels.last().width() == 1 || levels.last().height() == 1)
}

/// Level `i` is larger than 1 both ways, and level `i + 1` has half its width
/// and half its height, rounded down.
pub open spec fn halves_at<N>(levels: Seq<Surface<N>>, i: int) -> bool {
    &&& levels[i].width() > 1
    &&& levels[i].height() > 1
    &&& levels[i + 1].width() == levels[i].width() / 2
    &&& levels[i + 1].height() == levels[i].height() / 2
}

/// The level that a request for level `lod` gets from a pyramid of `count`
/// levels: that level, or the smallest where the pyramid has fewer.
pub open spec fn selected_level(count: nat, lod: nat) -> int {
    if lod < count {
        lod as int
    } else {
        count - 1
    }
}

/// In a pyramid a later level is never wider or higher than an earlier one.
pub proof fn lemma_levels_shrink<N>(levels: Seq<Surface<N>>, i: int, j: int)
    requires
        is_mip_chain(levels),
        0 <= i <= j < levels.len(),
    ensures
        levels[j].width() <= levels[i].width(),
        levels[j].height() <= levels[i].height(),
    decreases j - i,
{
    if i < j {
        lemma_levels_shrink(levels, i, j - 1);
        assert(halves_at(levels, j - 1));
    }
}

/// A request for a coarser level never gets a finer one: the level selected
/// for a greater request is the same or a later one, and is no larger.
pub proof fn lemma_coarser_request_never_finer<N>(levels: Seq<Surface<N>>, a: nat, b: nat)
    requires
        is_mip_chain(levels),
        a <= b,
    ensures
        0 <= selected_level(levels.len(), a) <= selected_level(levels.len(), b) < levels.len(),
        levels[selected_level(levels.len(), b)].width() <= levels[selected_level(
            levels.len(),
            a,
        )].width(),
        levels[selected_level(levels.len(), b)].height() <= levels[selected_level(
            levels.len(),
            a,
        )].height(),
{
    lemma_levels_shrink(
        levels,
        selected_level(levels.len(), a),
        selected_level(levels.len(), b),
    );
}

/// An image with its mipmap pyramid.
pub struct Texture<N> {
    levels: Vec<Surface<N>>,
}

impl<N> Texture<N> {
    #[verifier::type_invariant]
    spec fn well_formed(self) -> bool {
        is_mip_chain(self.levels@)
    }

    /// The levels, from the full image down to the smallest.
    pub closed spec fn levels(&self) -> Seq<Surface<N>> {
        self.levels@
    }
}

/// The offset of tap `i` of the kernel from its centre, in the order in
/// which the taps are added: row by row from the row below, each row from
/// the left.
pub open spec fn kernel_tap(i: int) -> (int, int) {
    (i % 3 - 1, i / 3 - 1)
}

impl<N: Scalar> Surface<N> {
    /// `after` is `before` with the texel at column `x`, row `y` added `k`
    /// times, where there is such a texel; else `after` is `before`.
    pub open spec fn is_tap_added(&self, x: int, y: int, k: u32, before: [N; 3], after: [N; 3]) -> bool {
        if 0 <= x < self.width() && 0 <= y < self.height() {
            exists|weight: N, weighted: [N; 3]|
                {
                    &&& is_from_index(k as usize, weight)
                    &&& #[trigger] is_scale3(self.texels()[y * self.width() + x], weight, weighted)
                    &&& is_add3(before, weighted, after)
                }
        } else {
            after == before
        }
    }

    /// Tap `i` of the kernel around source position `(2x, 2y)` takes the sum
    /// from `sums[i]` to `sums[i + 1]`.
    pub open spec fn is_tap_at(&self, x: int, y: int, sums: Seq<[N; 3]>, i: int) -> bool {
        self.is_tap_added(
            2 * x + kernel_tap(i).0,
            2 * y + kernel_tap(i).1,
            kernel_weight(kernel_tap(i).0, kernel_tap(i).1) as u32,
            sums[i],
            sums[i + 1],
        )
    }

    /// `d` is the divisor of the texel at `(x, y)` of the next level: what
    /// the scalar gives for the weights of the taps inside the image.
    pub open spec fn is_divisor(&self, x: int, y: int, d: N) -> bool {
        is_from_index(kernel_total(self.width(), self.height(), x as nat, y as nat) as usize, d)
    }

    /// `texel` is the texel at `(x, y)` of the next level: the sum, from
    /// zero, of the nine taps of the kernel around source position
    /// `(2x, 2y)`, each times its weight where it lies inside the image,
    /// over the sum of the weights of those inside.
    pub open spec fn is_downsampled_texel(&self, x: int, y: int, texel: [N; 3]) -> bool {
        exists|zero: N, sums: Seq<[N; 3]>, d: N|
            #![trigger is_from_index(0, zero), self.is_tap_at(x, y, sums, 0), self.is_divisor(x, y, d)]
            {
                &&& is_from_index(0, zero)
                &&& sums.len() == 10
                &&& sums[0]@ =~= seq![zero, zero, zero]
                &&& forall|i: int| 0 <= i < 9 ==> #[trigger] self.is_tap_at(x, y, sums, i)
                &&& self.is_divisor(x, y, d)
                &&& forall|ch: int| 0 <= ch < 3 ==> is_over(sums[9]@[ch], d, #[trigger] texel@[ch])
            }
    }

    /// Texel `i` of `next` is the downsampled texel at its position.
    pub open spec fn is_downsampled_at(&self, next: Surface<N>, i: int) -> bool {
        self.is_downsampled_texel(
            i % (next.width() as int),
            i / (next.width() as int),
            next.texels()[i],
        )
    }

    /// `next` is the next smaller level of this image: half as wide and half
    /// as high, each texel the weighted mean of the texels under the kernel.
    pub open spec fn is_downsampled(&self, next: Surface<N>) -> bool {
        &&& next.wf()
        &&& next.width() == self.width() / 2
        &&& next.height() == self.height() / 2
        &&& forall|i: int|
            0 <= i < next.texels().len() ==> #[trigger] self.is_downsampled_at(next, i)
    }
}

/// Level `i + 1` is the next smaller level of level `i`.
pub open spec fn is_downsampled_pair<N: Scalar>(levels: Seq<Surface<N>>, i: int) -> bool {
    levels[i].is_downsampled(levels[i + 1])
}

/// The levels form the mipmap pyramid of the first one: each level after it
/// is the next smaller level of the one before.
pub open spec fn is_pyramid<N: Scalar>(levels: Seq<Surface<N>>) -> bool {
    &&& is_mip_chain(levels)
    &&& forall|i: int| 0 <= i < levels.len() - 1 ==> #[trigger] is_downsampled_pair(levels, i)
}

/// Channel by channel, texel `i` of the surface is what the scalar gives
/// for the byte of texel `i` of the decoded image.
pub open spec fn is_loaded_at<N: Scalar>(texels: Seq<[u8; 3]>, surface: Surface<N>, i: int) -> bool {
    forall|ch: int|
        0 <= ch < 3 ==> is_from_index(texels[i]@[ch] as usize, #[trigger] surface.texels()[i]@[ch])
}

/// The surface holds the decoded image `texels`, each channel as a number.
pub open spec fn is_loaded<N: Scalar>(texels: Seq<[u8; 3]>, surface: Surface<N>) -> bool {
    &&& surface.texels().len() == texels.len()
    &&& forall|i: int| 0 <= i < texels.len() ==> #[trigger] is_loaded_at(texels, surface, i)
}

impl<N: Scalar> Texture<N> {
    /// Adds the source texel at column `x1 - 1`, row `y1 - 1`, `k` times to
    /// `clr`, if there is such a texel. Returns what the tap adds to the
    /// divisor: `k` if the texel exists, else 0.
    fn add_color(clr: &mut [N; 3], src: &Surface<N>, x1: usize, y1: usize, k: u32) -> (share: u32)
        ensures
            share == if 1 <= x1 <= src.width() && 1 <= y1 <= src.height() {
                k
            } else {
                0
            },
            src.is_tap_added(x1 - 1, y1 - 1, k, *old(clr), *final(clr)),
    {
        let w: usize = src.size_x();
        let h: usize = src.size_y();
        if x1 >= 1 && y1 >= 1 && x1 <= w && y1 <= h {
            let t = src.texel(x1 - 1, y1 - 1);
            let weight: N = N::from_index(k as usize);
            let weighted = scale3(&t, weight);
            let sum = add3(clr, &weighted);
            proof {
                let x = x1 - 1;
                let y = y1 - 1;
                assert(wrapped_index(src.width(), src.height(), x as nat, y as nat) == y
                    * src.width() + x) by {
                    vstd::arithmetic::div_mod::lemma_small_mod(x as nat, src.width());
                    vstd::arithmetic::div_mod::lemma_small_mod(y as nat, src.height());
                }
                assert(is_from_index(k as usize, weight) && is_scale3(
                    src.texels()[y * src.width() + x],
                    weight,
                    weighted,
                ) && is_add3(*clr, weighted, sum));
            }
            *clr = sum;
            k
        } else {
            0
        }
    }

    /// The next smaller level: each texel is the weighted mean of the source
    /// texels under the 3 by 3 kernel around its position, where taps outside
    /// the source count neither in the sum nor in the divisor.
    fn downsample(src: &Surface<N>) -> (next: Surface<N>)
        requires
            src.width() > 1,
            src.height() > 1,
        ensures
            src.is_downsampled(next),
    {
        let w: usize = src.size_x();
        let h: usize = src.size_y();
        let next_w: usize = w >> 1;
        let next_h: usize = h >> 1;
        assert(w >> 1 == w / 2 && h >> 1 == h / 2) by (bit_vector);
        let mut data: Vec<[N; 3]> = Vec::new();
        let mut y: usize = 0;
        proof {
            assert(0 * (next_w as int) == 0);
        }
        while y < next_h
            invariant
                y <= next_h,
                w == src.width(),
                h == src.height(),
                next_w == w / 2,
                next_h == h / 2,
                w > 1,
                h > 1,
                data@.len() == y * next_w,
                forall|i: int|
                    0 <= i < data@.len() ==> src.is_downsampled_texel(
                        i % (next_w as int),
                        i / (next_w as int),
                        #[trigger] data@[i],
                    ),
            decreases next_h - y,
        {
            let mut x: usize = 0;
            while x < next_w
                invariant
                    x <= next_w,
                    y < next_h,
                    w == src.width(),
                    h == src.height(),
                    next_w == w / 2,
                    next_h == h / 2,
                    data@.len() == y * next_w + x,
                    forall|i: int|
                        0 <= i < data@.len() ==> src.is_downsampled_texel(
                            i % (next_w as int),
                            i / (next_w as int),
                            #[trigger] data@[i],
                        ),
                decreases next_w - x,
            {
                let zero: N = N::from_index(0);
                let mut clr: [N; 3] = [zero, zero, zero];
                let mut cnt: u32 = 0;
                let x1: usize = 2 * x + 1;
                let y1: usize = 2 * y + 1;
                let ghost s0 = clr;
                cnt += Self::add_color(&mut clr, src, x1 - 1, y1 - 1, 1);
                let ghost s1 = clr;
                cnt += Self::add_color(&mut clr, src, x1, y1 - 1, 2);
                let ghost s2 = clr;
                cnt += Self::add_color(&mut clr, src, x1 + 1, y1 - 1, 1);
                let ghost s3 = clr;
                cnt += Self::add_color(&mut clr, src, x1 - 1, y1, 2);
                let ghost s4 = clr;
                cnt += Self::add_color(&mut clr, src, x1, y1, 4);
                let ghost s5 = clr;
                cnt += Self::add_color(&mut clr, src, x1 + 1, y1, 2);
                let ghost s6 = clr;
                cnt += Self::add_color(&mut clr, src, x1 - 1, y1 + 1, 1);
                let ghost s7 = clr;
                cnt += Self::add_color(&mut clr, src, x1, y1 + 1, 2);
                let ghost s8 = clr;
                cnt += Self::add_color(&mut clr, src, x1 + 1, y1 + 1, 1);
                assert(cnt == kernel_total(w as nat, h as nat, x as nat, y as nat));
                let d: N = N::from_index(cnt as usize);
                let texel: [N; 3] = [clr[0].over(d), clr[1].over(d), clr[2].over(d)];
                proof {
                    let sums = seq![s0, s1, s2, s3, s4, s5, s6, s7, s8, clr];
                    let xi = x as int;
                    let yi = y as int;
                    assert(src.is_tap_at(xi, yi, sums, 0));
                    assert(src.is_tap_at(xi, yi, sums, 1));
                    assert(src.is_tap_at(xi, yi, sums, 2));
                    assert(src.is_tap_at(xi, yi, sums, 3));
                    assert(src.is_tap_at(xi, yi, sums, 4));
                    assert(src.is_tap_at(xi, yi, sums, 5));
                    assert(src.is_tap_at(xi, yi, sums, 6));
                    assert(src.is_tap_at(xi, yi, sums, 7));
                    assert(src.is_tap_at(xi, yi, sums, 8));
                    assert(is_from_index(0, zero) && src.is_divisor(xi, yi, d));
                    assert(sums[0]@ =~= seq![zero, zero, zero]);
                    assert(src.is_downsampled_texel(xi, yi, texel));
                    let i = y * next_w + x;
                    vstd::arithmetic::div_mod::lemma_fundamental_div_mod_converse(
                        i,
                        next_w as int,
                        yi,
                        xi,
                    );
                }
                data.push(texel);
                x += 1;
            }
            y += 1;
            proof {
                assert(y * next_w == (y - 1) * next_w + next_w) by (nonlinear_arith);
            }
        }
        proof {
            assert(next_h * next_w == next_w * next_h) by (nonlinear_arith);
        }
        let next = Surface { size_x: next_w, size_y: next_h, data };
        proof {
            assert forall|i: int| 0 <= i < next.texels().len() implies #[trigger] src.is_downsampled_at(
                next,
                i,
            ) by {
                assert(src.is_downsampled_texel(
                    i % (next_w as int),
                    i / (next_w as int),
                    data@[i],
                ));
            }
        }
        next
    }

    /// Appends to a full image the levels of its pyramid.
    fn gen_mipmap(levels: &mut Vec<Surface<N>>)
        requires
            old(levels)@.len() == 1,
            old(levels)@[0].wf(),
        ensures
            is_pyramid(final(levels)@),
            final(levels)@[0] == old(levels)@[0],
    {
        let mut surface_ind: usize = 0;
        let mut size_x: usize = levels[surface_ind].size_x();
        let mut size_y: usize = levels[surface_ind].size_y();
        while size_x != 1 && size_y != 1
            invariant
                old(levels)@.len() == 1,
                levels@.len() == surface_ind + 1,
                levels@[0] == old(levels)@[0],
                size_x == levels@[surface_ind as int].width(),
                size_y == levels@[surface_ind as int].height(),
                size_x >= 1,
                size_y >= 1,
                forall|i: int| 0 <= i < levels@.len() ==> (#[trigger] levels@[i]).wf(),
                forall|i: int| 0 <= i < levels@.len() - 1 ==> #[trigger] halves_at(levels@, i),
                forall|i: int|
                    0 <= i < levels@.len() - 1 ==> #[trigger] is_downsampled_pair(levels@, i),
            decreases size_x,
        {
            let ghost before = levels@;
            let next = Self::downsample(&levels[surface_ind]);
            size_x = next.size_x();
            size_y = next.size_y();
            levels.push(next);
            proof {
                assert forall|i: int| 0 <= i < levels@.len() implies (#[trigger] levels@[i]).wf() by {
                    if i < before.len() {
                        assert(levels@[i] == before[i]);
                    }
                }
                assert forall|i: int| 0 <= i < levels@.len() - 1 implies #[trigger] halves_at(
                    levels@,
                    i,
                ) by {
                    if i < before.len() - 1 {
                        assert(halves_at(before, i));
                        assert(levels@[i] == before[i] && levels@[i + 1] == before[i + 1]);
                    } else {
                        assert(levels@[i] == before[i]);
                    }
                }
                assert forall|i: int|
                    0 <= i < levels@.len() - 1 implies #[trigger] is_downsampled_pair(
                    levels@,
                    i,
                ) by {
                    if i < before.len() - 1 {
                        assert(is_downsampled_pair(before, i));
                        assert(levels@[i] == before[i] && levels@[i + 1] == before[i + 1]);
                    } else {
                        assert(levels@[i] == before[i]);
                    }
                }
            }
            surface_ind = levels.len() - 1;
        }
    }

    /// A texture from a full image: the image becomes level 0 and the smaller
    /// levels are computed from it.
    pub fn from_surface(base: Surface<N>) -> (texture: Texture<N>)
        ensures
            is_pyramid(texture.levels()),
            texture.levels()[0] == base,
    {
        let mut levels: Vec<Surface<N>> = Vec::new();
        let _ = base.size_x();
        levels.push(base);
        Self::gen_mipmap(&mut levels);
        Texture { levels }
    }

    /// A texture from a decoded ARGB8888 image of `size_x` by `size_y` pixels:
    /// level 0 holds the image upside down, each channel as a number, and the
    /// smaller levels are computed from it. `None` unless both sizes are at
    /// least 1 and `bytes` holds exactly four bytes per pixel.
    pub fn new(bytes: &Vec<u8>, size_x: usize, size_y: usize) -> (texture: Option<Texture<N>>)
        ensures
            texture is Some <==> size_x >= 1 && size_y >= 1 && bytes@.len() == 4 * size_x * size_y,
            texture matches Some(t) ==> {
                &&& is_pyramid(t.levels())
                &&& t.levels()[0].width() == size_x
                &&& t.levels()[0].height() == size_y
                &&& is_loaded(decoded(bytes@, size_x as nat, size_y as nat), t.levels()[0])
            },
    {
        if size_x == 0 || size_y == 0 {
            return None;
        }
        let n: usize = match size_x.checked_mul(size_y) {
            Some(n) => n,
            None => {
                proof {
                    vstd::std_specs::vec::axiom_spec_len(bytes);
                    assert(4 * size_x * size_y >= size_x * size_y) by (nonlinear_arith)
                        requires
                            size_x >= 0,
                            size_y >= 0,
                    ;
                }
                return None;
            },
        };
        proof {
            assert(4 * size_x * size_y == 4 * n) by (nonlinear_arith)
                requires
                    n == size_x * size_y,
            ;
        }
        if bytes.len() / 4 != n || bytes.len() % 4 != 0 {
            return None;
        }
        let rgb = decode_argb8888(bytes, size_x, size_y);
        let mut data: Vec<[N; 3]> = Vec::new();
        let mut i: usize = 0;
        while i < n
            invariant
                i <= n,
                rgb@.len() == n,
                data@.len() == i,
                forall|j: int, ch: int|
                    0 <= j < i && 0 <= ch < 3 ==> is_from_index(
                        rgb@[j]@[ch] as usize,
                        #[trigger] data@[j]@[ch],
                    ),
            decreases n - i,
        {
            let t: [u8; 3] = rgb[i];
            let texel: [N; 3] = [
                N::from_index(t[0] as usize),
                N::from_index(t[1] as usize),
                N::from_index(t[2] as usize),
            ];
            data.push(texel);
            i += 1;
        }
        let ghost loaded = data@;
        match Surface::from_texels(size_x, size_y, data) {
            Some(base) => {
                proof {
                    assert forall|j: int| 0 <= j < rgb@.len() implies #[trigger] is_loaded_at(
                        rgb@,
                        base,
                        j,
                    ) by {
                        assert forall|ch: int| 0 <= ch < 3 implies is_from_index(
                            rgb@[j]@[ch] as usize,
                            #[trigger] base.texels()[j]@[ch],
                        ) by {
                            assert(is_from_index(rgb@[j]@[ch] as usize, loaded[j]@[ch]));
                        }
                    }
                }
                Some(Self::from_surface(base))
            },
            None => None,
        }
    }

    /// The number of levels in the pyramid.
    pub fn level_count(&self) -> (n: usize)
        ensures
            n == self.levels().len(),
            n >= 1,
            is_mip_chain(self.levels()),
    {
        proof {
            use_type_invariant(self);
        }
        self.levels.len()
    }

    /// The level `mip_lvl` of the pyramid.
    pub fn get_surface(&self, mip_lvl: usize) -> (surface: &Surface<N>)
        requires
            mip_lvl < self.levels().len(),
        ensures
            is_mip_chain(self.levels()),
            *surface == self.levels()[mip_lvl as int],
    {
        proof {
            use_type_invariant(self);
        }
        &self.levels[mip_lvl]
    }
}

/// The face of a cube map that a direction with the given signs and
/// magnitudes looks at: faces 0 and 1 where the first axis dominates, 2 and 3
/// where the second does, else 4 and 5; the even face of each pair on the
/// positive side.
pub open spec fn cube_face_index(
    first_dominates: bool,
    second_dominates: bool,
    positive: bool,
) -> nat {
    if first_dominates {
        if positive { 0 } else { 1 }
    } else if second_dominates {
        if positive { 2 } else { 3 }
    } else {
        if positive { 4 } else { 5 }
    }
}

/// Where a direction hits a cube map: the face, and the position on it.
pub struct CubeHit<N> {
    pub face: usize,
    pub u: N,
    pub v: N,
}

/// Says which face a direction looks at, from which of its axes dominates
/// and whether it points to the positive side of that axis.
pub fn face_index(first_dominates: bool, second_dominates: bool, positive: bool) -> (face: usize)
    ensures
        face == cube_face_index(first_dominates, second_dominates, positive),
        face < 6,
{
    if first_dominates {
        if positive { 0 } else { 1 }
    } else if second_dominates {
        if positive { 2 } else { 3 }
    } else {
        if positive { 4 } else { 5 }
    }
}

/// `first` says whether the first axis dominates: whether the scalar
/// answers that both other magnitudes are less than the first one. The
/// second comparison is made only where the first holds.
pub open spec fn is_dominant<N: Scalar>(urx: N, ury: N, urz: N, first: bool) -> bool {
    if first {
        is_less(urz, urx, true) && is_less(ury, urx, true)
    } else {
        is_less(urz, urx, false) || (is_less(urz, urx, true) && is_less(ury, urx, false))
    }
}

/// `positive` says whether the direction `r` points to the positive side of
/// its dominant axis: by the sign where the first or the third axis
/// dominates, by the comparison with zero where the second does.
pub open spec fn is_facing<N: Scalar>(r: [N; 3], first: bool, second: bool, positive: bool) -> bool {
    if first {
        is_sign_positive(r@[0], positive)
    } else if second {
        exists|zero: N| is_from_index(0, zero) && #[trigger] is_less(zero, r@[1], positive)
    } else {
        is_sign_positive(r@[2], positive)
    }
}

/// `sc` and `tc` are the two coordinates of the direction `r` that lie in
/// the face it looks at, one of them negated on three of the faces, and
/// `ma` is the magnitude of its dominant coordinate.
pub open spec fn is_face_axes<N: Scalar>(
    r: [N; 3],
    urx: N,
    ury: N,
    urz: N,
    first: bool,
    second: bool,
    positive: bool,
    sc: N,
    tc: N,
    ma: N,
) -> bool {
    if first {
        &&& ma == urx
        &&& tc == r@[1]
        &&& if positive {
            is_negated(r@[2], sc)
        } else {
            sc == r@[2]
        }
    } else if second {
        &&& ma == ury
        &&& sc == r@[0]
        &&& if positive {
            is_negated(r@[2], tc)
        } else {
            tc == r@[2]
        }
    } else {
        &&& ma == urz
        &&& tc == r@[1]
        &&& if positive {
            sc == r@[0]
        } else {
            is_negated(r@[0], sc)
        }
    }
}

/// `r` is `(c / ma + 1) / 2`: the coordinate `c` on a face whose half side is
/// `ma`, brought from `-ma ..= ma` to `0 ..= 1`.
pub open spec fn is_cube_coord<N: Scalar>(c: N, ma: N, r: N) -> bool {
    exists|q: N, unit: N, s: N, two: N|
        #![trigger is_plus(q, unit, s), is_over(s, two, r)]
        {
            &&& is_over(c, ma, q)
            &&& is_from_index(1, unit)
            &&& is_plus(q, unit, s)
            &&& is_from_index(2, two)
            &&& is_over(s, two, r)
        }
}

/// `hit` is where the direction `r` hits a cube map: the face by its
/// dominant axis and the side it points to, and the position on that face.
pub open spec fn is_cube_face<N: Scalar>(r: [N; 3], hit: CubeHit<N>) -> bool {
    exists|urx: N, ury: N, urz: N, first: bool, second: bool, positive: bool, sc: N, tc: N, ma: N|
        #![trigger is_abs(r@[0], urx), is_abs(r@[1], ury), is_abs(r@[2], urz), is_facing(r, first, second, positive), is_cube_coord(sc, ma, hit.u), is_cube_coord(tc, ma, hit.v)]
        {
            &&& is_abs(r@[0], urx)
            &&& is_abs(r@[1], ury)
            &&& is_abs(r@[2], urz)
            &&& is_dominant(urx, ury, urz, first)
            &&& is_less(urz, ury, second)
            &&& is_facing(r, first, second, positive)
            &&& hit.face == cube_face_index(first, second, positive)
            &&& is_face_axes(r, urx, ury, urz, first, second, positive, sc, tc, ma)
            &&& is_cube_coord(sc, ma, hit.u)
            &&& is_cube_coord(tc, ma, hit.v)
        }
}

/// The face that the direction `r` looks at and the texture coordinate on
/// that face. The first axis dominates where its magnitude is greater than
/// both others, the second where its magnitude is greater than the third's.
pub fn cube_face<N: Scalar>(r: &[N; 3]) -> (hit: CubeHit<N>)
    ensures
        hit.face < 6,
        is_cube_face(*r, hit),
{
    let irx: N = r[0];
    let iry: N = r[1];
    let irz: N = r[2];
    let urx: N = irx.abs();
    let ury: N = iry.abs();
    let urz: N = irz.abs();
    let first: bool = urz.less(urx) && ury.less(urx);
    let second: bool = urz.less(ury);
    let positive: bool = if first {
        irx.is_sign_positive()
    } else if second {
        let zero: N = N::from_index(0);
        let above: bool = zero.less(iry);
        assert(is_from_index(0, zero) && is_less(zero, iry, above));
        above
    } else {
        irz.is_sign_positive()
    };
    let face: usize = face_index(first, second, positive);
    let (sc, tc, ma): (N, N, N) = if first {
        if positive {
            (irz.negated(), iry, urx)
        } else {
            (irz, iry, urx)
        }
    } else if second {
        if positive {
            (irx, irz.negated(), ury)
        } else {
            (irx, irz, ury)
        }
    } else {
        if positive {
            (irx, iry, urz)
        } else {
            (irx.negated(), iry, urz)
        }
    };
    let two: N = N::from_index(2);
    let qu: N = sc.over(ma);
    let unit_u: N = one::<N>();
    let su: N = qu.plus(unit_u);
    let u: N = su.over(two);
    let qv: N = tc.over(ma);
    let unit_v: N = one::<N>();
    let sv: N = qv.plus(unit_v);
    let v: N = sv.over(two);
    let hit = CubeHit { face, u, v };
    proof {
        assert(is_over(sc, ma, qu) && is_from_index(1, unit_u) && is_plus(qu, unit_u, su)
            && is_from_index(2, two) && is_over(su, two, u));
        assert(is_cube_coord(sc, ma, hit.u));
        assert(is_over(tc, ma, qv) && is_from_index(1, unit_v) && is_plus(qv, unit_v, sv)
            && is_from_index(2, two) && is_over(sv, two, v));
        assert(is_cube_coord(tc, ma, hit.v));
        assert(is_facing(*r, first, second, positive));
        assert(is_face_axes(*r, urx, ury, urz, first, second, positive, sc, tc, ma));
        assert(is_abs(r@[0], urx) && is_abs(r@[1], ury) && is_abs(r@[2], urz) && is_dominant(
            urx,
            ury,
            urz,
            first,
        ) && is_less(urz, ury, second));
    }
    hit
}

/// Six textures that form the faces of a cube around the scene.
pub struct TextureCube<N> {
    faces: Vec<Texture<N>>,
}

impl<N> TextureCube<N> {
    #[verifier::type_invariant]
    spec fn well_formed(self) -> bool {
        self.faces@.len() == 6
    }

    /// The six faces.
    pub closed spec fn faces(&self) -> Seq<Texture<N>> {
        self.faces@
    }
}

impl<N: Scalar> TextureCube<N> {
    /// A cube map from its faces; `None` unless there are six.
    pub fn new(faces: Vec<Texture<N>>) -> (cube: Option<TextureCube<N>>)
        ensures
            cube is Some <==> faces@.len() == 6,
            cube matches Some(c) ==> c.faces() == faces@,
    {
        if faces.len() == 6 {
            Some(TextureCube { faces })
        } else {
            None
        }
    }

    /// The texture of face `index`.
    pub fn get_texture(&self, index: usize) -> (t: &Texture<N>)
        requires
            index < 6,
        ensures
            self.faces().len() == 6,
            *t == self.faces()[index as int],
    {
        proof {
            use_type_invariant(self);
        }
        &self.faces[index]
    }

    /// The colour that the direction `r` sees: the bilinear lookup, in level
    /// `lod`, on the face that `r` looks at.
    pub fn sample(&self, r: &[N; 3], lod: usize) -> (color: [N; 3])
        requires
            forall|i: int| 0 <= i < self.faces().len() ==> lod < (#[trigger] self.faces()[i]).levels().len(),
        ensures
            exists|hit: CubeHit<N>|
                {
                    &&& #[trigger] is_cube_face(*r, hit)
                    &&& hit.face < self.faces().len()
                    &&& self.faces()[hit.face as int].levels()[lod as int].is_bilinear(
                        hit.u,
                        hit.v,
                        color,
                    )
                },
    {
        let hit = cube_face(r);
        let color = self.get_texture(hit.face).get_surface(lod).tex_2d_bilinear(hit.u, hit.v);
        assert(is_cube_face(*r, hit));
        color
    }
}

/// `lod` is the integer part of `log2(max(1, sqrt(|texel_area /
/// pixel_area|)))`.
pub open spec fn is_level_of_detail<N: Scalar>(texel_area: N, pixel_area: N, lod: usize) -> bool {
    exists|q: N, size: N, ratio: N, unit: N, big: N, l: N|
        #![trigger is_abs(q, size), is_sqrt(size, ratio), is_larger(unit, ratio, big), is_log2(big, l)]
        {
            &&& is_over(texel_area, pixel_area, q)
            &&& is_abs(q, size)
            &&& is_sqrt(size, ratio)
            &&& is_from_index(1, unit)
            &&& is_larger(unit, ratio, big)
            &&& is_log2(big, l)
            &&& is_to_index(l, lod)
        }
}

/// The mip level for a triangle that covers `pixel_area` on the screen and
/// `texel_area` in the texture: the integer part of
/// `log2(sqrt(|texel_area / pixel_area|))`, and 0 where that is negative.
pub(crate) fn level_of_detail<N: Scalar>(texel_area: N, pixel_area: N) -> (lod: usize)
    ensures
        is_level_of_detail(texel_area, pixel_area, lod),
{
    let q: N = texel_area.over(pixel_area);
    let size: N = q.abs();
    let ratio: N = size.sqrt();
    let unit: N = one::<N>();
    let big: N = larger(unit, ratio);
    let l: N = big.log2();
    let lod: usize = l.to_index();
    assert(is_over(texel_area, pixel_area, q) && is_abs(q, size) && is_sqrt(size, ratio)
        && is_from_index(1, unit) && is_larger(unit, ratio, big) && is_log2(big, l) && is_to_index(
        l,
        lod,
    ));
    lod
}

} // verus!
