//! Scan conversion: fills a projected triangle row by row with
//! perspective-correct interpolation and a depth test.

use vstd::prelude::*;
use crate::color::{is_packed_color, vector3_to_u32};
use crate::framebuffer::{
    all_inside, lemma_draw_concat, lemma_draw_push, paints, scan_ordered, Fragment, FrameBuffer,
    FrameView,
};
use crate::scalar::{
    half, is_abs, is_depth_key, is_from_index, is_less, is_minus, is_over, is_plus, is_ratio,
    is_times, is_trunc, one, Scalar,
};

verus! {

/// The most values that a vertex stage can hand to the pixel stage.
pub const MAX_OUT_VALUES: usize = 16;

/// A vertex after projection, perspective divide and viewport transform.
/// `inv_w` is the inverse depth: larger is nearer.
pub struct ScreenPoint<N> {
    pub x: N,
    pub y: N,
    pub inv_w: N,
}

/// The stage that turns the interpolated values of one pixel into a colour.
pub trait PixelStage<N: Scalar> {
    /// The red, green and blue of the pixel, not yet clamped. Only the first
    /// values of `varyings`, as many as the vertex stage wrote, are meaningful.
    fn pixel(&self, varyings: &[N; 16]) -> [N; 3];
}

/// How much the position, the inverse depth and each interpolated value
/// change along an edge per row.
pub struct Slope<N> {
    pub x: N,
    pub inv_w: N,
    pub varyings: [N; 16],
}

/// `v` cut to `0..=limit`.
pub open spec fn clamped(v: int, limit: int) -> int {
    if v < 0 {
        0
    } else if v > limit {
        limit
    } else {
        v
    }
}

/// Cuts a signed coordinate to `0..=limit`.
pub fn clamp_index(v: i32, limit: usize) -> (r: usize)
    ensures
        r as int == clamped(v as int, limit as int),
{
    if v < 0 {
        0
    } else if v as usize > limit {
        limit
    } else {
        v as usize
    }
}

/// The columns `left .. right` that a row fills, from the integer parts `x1`
/// and `x2` of its bounds: both bounds are cut to `0 ..= width`, and a row
/// whose right bound is then not beyond its left bound fills nothing.
pub open spec fn span_of(x1: int, x2: int, width: int) -> Option<(int, int)> {
    let left = clamped(x1, width);
    let right = clamped(x2, width);
    if right > left {
        Some((left, right))
    } else {
        None
    }
}

/// Cuts the bounds of a row to a frame of `width` columns.
pub fn clamp_span(x1: i32, x2: i32, width: usize) -> (span: Option<(usize, usize)>)
    requires
        width > 0,
    ensures
        match span {
            Some((left, right)) => span_of(x1 as int, x2 as int, width as int) == Some(
                (left as int, right as int),
            ) && left < right <= width,
            None => span_of(x1 as int, x2 as int, width as int) is None,
        },
{
    let left: usize = clamp_index(x1, width);
    let right: usize = clamp_index(x2, width);
    if right > left {
        Some((left, right))
    } else {
        None
    }
}

/// A row that ends left of the frame fills nothing.
pub proof fn lemma_span_left_of_frame(x1: int, x2: int, width: int)
    requires
        width > 0,
        x2 <= 0,
    ensures
        span_of(x1, x2, width) is None,
{
}

/// A row that starts right of the frame fills nothing.
pub proof fn lemma_span_right_of_frame(x1: int, x2: int, width: int)
    requires
        width > 0,
        width <= x1,
    ensures
        span_of(x1, x2, width) is None,
{
}

/// The rows `first .. middle` and `middle .. last` that the lower and the
/// upper part of a triangle fill, from the integer parts of its vertices'
/// heights, lowest first: the first row is cut to the frame's rows, the
/// others to one past them.
pub open spec fn rows_of(low: int, mid: int, high: int, height: int) -> (int, int, int) {
    (clamped(low, height - 1), clamped(mid, height), clamped(high, height))
}

/// Cuts the rows of a triangle to a frame of `height` rows.
pub fn clamp_rows(low: i32, mid: i32, high: i32, height: usize) -> (rows: (usize, usize, usize))
    requires
        height > 0,
    ensures
        (rows.0 as int, rows.1 as int, rows.2 as int) == rows_of(
            low as int,
            mid as int,
            high as int,
            height as int,
        ),
        rows.0 < height,
        rows.1 <= height,
        rows.2 <= height,
{
    (clamp_index(low, height - 1), clamp_index(mid, height), clamp_index(high, height))
}

/// The order in which three exchanges leave the vertices, given whether
/// each exchange was made: of the first two vertices, then of the first and
/// the third, then of the second and the third.
pub open spec fn order_of(first: bool, second: bool, third: bool) -> (usize, usize, usize) {
    let (a1, b1): (usize, usize) = if first { (1, 0) } else { (0, 1) };
    let (a2, c2): (usize, usize) = if second { (2, a1) } else { (a1, 2) };
    let (b3, c3): (usize, usize) = if third { (c2, b1) } else { (b1, c2) };
    (a2, b3, c3)
}

/// `order` holds the vertex indices from the highest row down, as three
/// exchanges find them: two vertices are exchanged where the scalar answers
/// that the earlier one is lower, so equal heights keep their order.
pub open spec fn is_order<N: Scalar>(points: [ScreenPoint<N>; 3], order: (usize, usize, usize)) -> bool {
    exists|first: bool, second: bool, third: bool|
        #![trigger order_of(first, second, third)]
        {
            &&& is_less(points@[0].y, points@[1].y, first)
            &&& is_less(points@[order_of(first, false, false).0 as int].y, points@[2].y, second)
            &&& is_less(
                points@[order_of(first, false, false).1 as int].y,
                points@[order_of(first, second, false).2 as int].y,
                third,
            )
            &&& order == order_of(first, second, third)
        }
}

/// The vertex indices from the highest row down, found by three exchanges:
/// of the first two vertices, of the first and the third, and of the second
/// and the third. Vertices are exchanged only where the earlier one is
/// strictly lower, so equal heights keep their order.
fn order_by_height<N: Scalar>(points: &[ScreenPoint<N>; 3]) -> (order: (usize, usize, usize))
    ensures
        order.0 < 3 && order.1 < 3 && order.2 < 3,
        is_order(*points, order),
{
    let mut a: usize = 0;
    let mut b: usize = 1;
    let mut c: usize = 2;
    let first: bool = points[a].y.less(points[b].y);
    if first {
        a = 1;
        b = 0;
    }
    let second: bool = points[a].y.less(points[c].y);
    if second {
        let t: usize = a;
        a = c;
        c = t;
    }
    let third: bool = points[b].y.less(points[c].y);
    if third {
        let t: usize = b;
        b = c;
        c = t;
    }
    assert((a, b, c) == order_of(first, second, third));
    (a, b, c)
}

/// `r` is `1 / dy`, with `dy` replaced by the smallest distance that an edge
/// is divided by, a ten-thousandth of a row, where the scalar answers that
/// the absolute value of `dy` is less than that.
pub open spec fn is_inverse_delta<N: Scalar>(dy: N, r: N) -> bool {
    exists|eps: N, size: N, unit: N|
        #![trigger is_ratio(1, 10000, eps), is_abs(dy, size), is_from_index(1, unit)]
        {
            &&& is_ratio(1, 10000, eps)
            &&& is_abs(dy, size)
            &&& is_from_index(1, unit)
            &&& {
                ||| is_less(size, eps, true) && is_over(unit, eps, r)
                ||| is_less(size, eps, false) && is_over(unit, dy, r)
            }
        }
}

/// `r` is `base + t * step`.
pub open spec fn is_offset<N: Scalar>(base: N, step: N, t: N, r: N) -> bool {
    exists|m: N| is_times(t, step, m) && #[trigger] is_plus(base, m, r)
}

/// `r` is `(p - q) * inv`.
pub open spec fn is_step<N: Scalar>(p: N, q: N, inv: N, r: N) -> bool {
    exists|d: N| is_minus(p, q, d) && #[trigger] is_times(d, inv, r)
}

/// `r` is `inv * (p - q)`.
pub open spec fn is_value_step<N: Scalar>(p: N, q: N, inv: N, r: N) -> bool {
    exists|d: N| is_minus(p, q, d) && #[trigger] is_times(inv, d, r)
}

/// `out[i]` is `base[i] + t * step[i]` for the first `k` values, and
/// `base[i]` from there on.
pub open spec fn is_offsets<N: Scalar>(base: [N; 16], step: [N; 16], t: N, k: usize, out: [N; 16]) -> bool {
    &&& forall|i: int| 0 <= i < k ==> is_offset(base@[i], step@[i], t, #[trigger] out@[i])
    &&& forall|i: int| k <= i < 16 ==> #[trigger] out@[i] == base@[i]
}

/// `out[i]` is `a[i] - b[i]` for the first `k` values, and `a[i]` from
/// there on.
pub open spec fn is_differences<N: Scalar>(a: [N; 16], b: [N; 16], k: usize, out: [N; 16]) -> bool {
    &&& forall|i: int| 0 <= i < k ==> is_minus(a@[i], b@[i], #[trigger] out@[i])
    &&& forall|i: int| k <= i < 16 ==> #[trigger] out@[i] == a@[i]
}

/// `out[i]` is `a[i] + b[i]` for the first `k` values, and `a[i]` from
/// there on.
pub open spec fn is_sums<N: Scalar>(a: [N; 16], b: [N; 16], k: usize, out: [N; 16]) -> bool {
    &&& forall|i: int| 0 <= i < k ==> is_plus(a@[i], b@[i], #[trigger] out@[i])
    &&& forall|i: int| k <= i < 16 ==> #[trigger] out@[i] == a@[i]
}

/// `out[i]` is `t * a[i]` for the first `k` values, and `a[i]` from there
/// on.
pub open spec fn is_products<N: Scalar>(t: N, a: [N; 16], k: usize, out: [N; 16]) -> bool {
    &&& forall|i: int| 0 <= i < k ==> is_times(t, a@[i], #[trigger] out@[i])
    &&& forall|i: int| k <= i < 16 ==> #[trigger] out@[i] == a@[i]
}

/// `out[i]` is `a[i] / d` for the first `k` values, and `a[i]` from there
/// on.
pub open spec fn is_quotients<N: Scalar>(a: [N; 16], d: N, k: usize, out: [N; 16]) -> bool {
    &&& forall|i: int| 0 <= i < k ==> is_over(a@[i], d, #[trigger] out@[i])
    &&& forall|i: int| k <= i < 16 ==> #[trigger] out@[i] == a@[i]
}

/// `slope` is the change per row along the edge from `q` up to `p`: the
/// differences of the positions, of the inverse depths and of the first `k`
/// values, each times the inverse of the difference in height.
pub open spec fn is_edge_slope<N: Scalar>(
    p: ScreenPoint<N>,
    q: ScreenPoint<N>,
    vp: [N; 16],
    vq: [N; 16],
    k: usize,
    slope: Slope<N>,
) -> bool {
    exists|dy: N, inv: N|
        {
            &&& is_minus(p.y, q.y, dy)
            &&& #[trigger] is_inverse_delta(dy, inv)
            &&& is_step(p.x, q.x, inv, slope.x)
            &&& is_step(p.inv_w, q.inv_w, inv, slope.inv_w)
            &&& forall|i: int|
                0 <= i < k ==> is_value_step(vp@[i], vq@[i], inv, #[trigger] slope.varyings@[i])
            &&& forall|i: int| k <= i < 16 ==> #[trigger] slope.varyings@[i] == vp@[i]
        }
}

/// The smallest row distance that an edge is divided by.
fn epsilon<N: Scalar>() -> (r: N)
    ensures
        is_ratio(1, 10000, r),
{
    let a: N = N::from_index(1);
    let b: N = N::from_index(10000);
    let r: N = a.over(b);
    assert(is_from_index(1, a) && is_from_index(10000, b) && is_over(a, b, r));
    r
}

/// `1 / dy`, with `dy` replaced by the smallest distance where it is nearer
/// to zero than that.
fn inverse_delta<N: Scalar>(dy: N) -> (r: N)
    ensures
        is_inverse_delta(dy, r),
{
    let eps: N = epsilon();
    let size: N = dy.abs();
    if size.less(eps) {
        let unit: N = one::<N>();
        let r: N = unit.over(eps);
        assert(is_ratio(1, 10000, eps) && is_abs(dy, size) && is_from_index(1, unit) && is_less(
            size,
            eps,
            true,
        ) && is_over(unit, eps, r));
        r
    } else {
        let unit: N = one::<N>();
        let r: N = unit.over(dy);
        assert(is_ratio(1, 10000, eps) && is_abs(dy, size) && is_from_index(1, unit) && is_less(
            size,
            eps,
            false,
        ) && is_over(unit, dy, r));
        r
    }
}

/// `base[i] + t * step[i]` for the first `k` values.
fn offset_values<N: Scalar>(base: &[N; 16], step: &[N; 16], t: N, k: usize) -> (out: [N; 16])
    requires
        k <= 16,
    ensures
        is_offsets(*base, *step, t, k, out),
{
    let mut out: [N; 16] = *base;
    let mut i: usize = 0;
    while i < k
        invariant
            i <= k <= 16,
            forall|j: int| 0 <= j < i ==> is_offset(base@[j], step@[j], t, #[trigger] out@[j]),
            forall|j: int| i <= j < 16 ==> #[trigger] out@[j] == base@[j],
        decreases k - i,
    {
        let m: N = t.times(step[i]);
        let v: N = base[i].plus(m);
        out[i] = v;
        assert(is_times(t, step@[i as int], m) && is_plus(base@[i as int], m, v));
        i += 1;
    }
    out
}

/// `a[i] - b[i]` for the first `k` values.
fn difference<N: Scalar>(a: &[N; 16], b: &[N; 16], k: usize) -> (out: [N; 16])
    requires
        k <= 16,
    ensures
        is_differences(*a, *b, k, out),
{
    let mut out: [N; 16] = *a;
    let mut i: usize = 0;
    while i < k
        invariant
            i <= k <= 16,
            forall|j: int| 0 <= j < i ==> is_minus(a@[j], b@[j], #[trigger] out@[j]),
            forall|j: int| i <= j < 16 ==> #[trigger] out@[j] == a@[j],
        decreases k - i,
    {
        out[i] = a[i].minus(b[i]);
        i += 1;
    }
    out
}

/// `a[i] + b[i]` for the first `k` values.
fn sum<N: Scalar>(a: &[N; 16], b: &[N; 16], k: usize) -> (out: [N; 16])
    requires
        k <= 16,
    ensures
        is_sums(*a, *b, k, out),
{
    let mut out: [N; 16] = *a;
    let mut i: usize = 0;
    while i < k
        invariant
            i <= k <= 16,
            forall|j: int| 0 <= j < i ==> is_plus(a@[j], b@[j], #[trigger] out@[j]),
            forall|j: int| i <= j < 16 ==> #[trigger] out@[j] == a@[j],
        decreases k - i,
    {
        out[i] = a[i].plus(b[i]);
        i += 1;
    }
    out
}

/// `t * a[i]` for the first `k` values.
fn scaled<N: Scalar>(a: &[N; 16], t: N, k: usize) -> (out: [N; 16])
    requires
        k <= 16,
    ensures
        is_products(t, *a, k, out),
{
    let mut out: [N; 16] = *a;
    let mut i: usize = 0;
    while i < k
        invariant
            i <= k <= 16,
            forall|j: int| 0 <= j < i ==> is_times(t, a@[j], #[trigger] out@[j]),
            forall|j: int| i <= j < 16 ==> #[trigger] out@[j] == a@[j],
        decreases k - i,
    {
        out[i] = t.times(a[i]);
        i += 1;
    }
    out
}

/// `a[i] / d` for the first `k` values.
fn quotient<N: Scalar>(a: &[N; 16], d: N, k: usize) -> (out: [N; 16])
    requires
        k <= 16,
    ensures
        is_quotients(*a, d, k, out),
{
    let mut out: [N; 16] = *a;
    let mut i: usize = 0;
    while i < k
        invariant
            i <= k <= 16,
            forall|j: int| 0 <= j < i ==> is_over(a@[j], d, #[trigger] out@[j]),
            forall|j: int| i <= j < 16 ==> #[trigger] out@[j] == a@[j],
        decreases k - i,
    {
        out[i] = a[i].over(d);
        i += 1;
    }
    out
}

/// The per-row change along the edge from `q` up to `p`.
fn edge_slope<N: Scalar>(
    p: &ScreenPoint<N>,
    q: &ScreenPoint<N>,
    vp: &[N; 16],
    vq: &[N; 16],
    k: usize,
) -> (slope: Slope<N>)
    requires
        k <= 16,
    ensures
        is_edge_slope(*p, *q, *vp, *vq, k, slope),
{
    let dy: N = p.y.minus(q.y);
    let inv: N = inverse_delta(dy);
    let d: [N; 16] = difference(vp, vq, k);
    let dx: N = p.x.minus(q.x);
    let dz: N = p.inv_w.minus(q.inv_w);
    let slope = Slope { x: dx.times(inv), inv_w: dz.times(inv), varyings: scaled(&d, inv, k) };
    proof {
        assert(is_minus(p.x, q.x, dx) && is_times(dx, inv, slope.x));
        assert(is_minus(p.inv_w, q.inv_w, dz) && is_times(dz, inv, slope.inv_w));
        assert forall|i: int| 0 <= i < k implies is_value_step(
            vp@[i],
            vq@[i],
            inv,
            #[trigger] slope.varyings@[i],
        ) by {
            assert(is_minus(vp@[i], vq@[i], d@[i]) && is_times(inv, d@[i], slope.varyings@[i]));
        }
        assert(is_minus(p.y, q.y, dy) && is_inverse_delta(dy, inv));
    }
    slope
}

/// A pixel that a triangle visits: where it lies, the inverse depth and the
/// values accumulated for it, and the depth key of that inverse depth.
pub struct Candidate<N> {
    pub x: usize,
    pub y: usize,
    pub depth: u32,
    pub inv_w: N,
    pub values: [N; 16],
}

/// What is carried from row to row of a span: the left and right bound, the
/// inverse depth and the values on the left bound, and the differences
/// between the left and the right edge of the bound, the inverse depth and
/// the values.
pub struct RowState<N> {
    pub x1: N,
    pub x2: N,
    pub dx: N,
    pub z1: N,
    pub dz: N,
    pub v1: [N; 16],
    pub dv: [N; 16],
}

/// A run of rows between two edges that start at `base`, and what stays the
/// same from row to row: the slopes of the edges, their difference `delta`,
/// the ten-thousandth `eps` and the `half`.
pub struct Span<N> {
    pub base: ScreenPoint<N>,
    pub values: [N; 16],
    pub left: Slope<N>,
    pub right: Slope<N>,
    pub delta: Slope<N>,
    pub eps: N,
    pub half: N,
    pub y_begin: int,
    pub k: usize,
    pub width: usize,
}

/// `limit` is `size - half`: the centre of the last pixel along an axis of
/// `size` pixels.
pub open spec fn is_limit<N: Scalar>(size: usize, half: N, limit: N) -> bool {
    exists|n: N| is_from_index(size, n) && #[trigger] is_minus(n, half, limit)
}

/// `all` says whether the scalar answers of all three vertices that their
/// `x` is less than `min`.
pub open spec fn is_left_of<N: Scalar>(
    a: ScreenPoint<N>,
    b: ScreenPoint<N>,
    c: ScreenPoint<N>,
    min: N,
    all: bool,
) -> bool {
    exists|la: bool, lb: bool, lc: bool|
        #![trigger is_less(a.x, min, la), is_less(b.x, min, lb), is_less(c.x, min, lc)]
        is_less(a.x, min, la) && is_less(b.x, min, lb) && is_less(c.x, min, lc) && all == (la && lb
            && lc)
}

/// `all` says whether the scalar answers of all three vertices that `max`
/// is less than their `x`.
pub open spec fn is_right_of<N: Scalar>(
    a: ScreenPoint<N>,
    b: ScreenPoint<N>,
    c: ScreenPoint<N>,
    max: N,
    all: bool,
) -> bool {
    exists|ra: bool, rb: bool, rc: bool|
        #![trigger is_less(max, a.x, ra), is_less(max, b.x, rb), is_less(max, c.x, rc)]
        is_less(max, a.x, ra) && is_less(max, b.x, rb) && is_less(max, c.x, rc) && all == (ra && rb
            && rc)
}

/// `rejected` says whether the bounding test skips the triangle with the
/// highest vertex `a` and the lowest vertex `c`: whether `a` lies below the
/// centre of the first row, `c` above the centre of the last row, or all
/// three vertices left of the centre of the first column or right of the
/// centre of the last column.
pub open spec fn is_rejected<N: Scalar>(
    a: ScreenPoint<N>,
    b: ScreenPoint<N>,
    c: ScreenPoint<N>,
    half: N,
    width: usize,
    height: usize,
    rejected: bool,
) -> bool {
    exists|max_y: N, max_x: N, below: bool, above: bool, left: bool, right: bool|
        #![trigger is_limit(height, half, max_y), is_limit(width, half, max_x), is_less(a.y, half, below), is_less(max_y, c.y, above), is_left_of(a, b, c, half, left), is_right_of(a, b, c, max_x, right)]
        {
            &&& is_limit(height, half, max_y)
            &&& is_limit(width, half, max_x)
            &&& is_less(a.y, half, below)
            &&& is_less(max_y, c.y, above)
            &&& is_left_of(a, b, c, half, left)
            &&& is_right_of(a, b, c, max_x, right)
            &&& rejected == (below || above || left || right)
        }
}

/// `row` is the integer part of `y + half`: the first row whose centre does
/// not lie below `y`.
pub open spec fn is_row_number<N: Scalar>(y: N, half: N, row: i32) -> bool {
    exists|s: N| is_plus(y, half, s) && #[trigger] is_trunc(s, row)
}

/// `r` is `x + y_step * step + half - eps`: where an edge with this slope
/// that passes through `x` crosses a row `y_step` rows away, moved so that
/// its integer part is the first column whose centre lies right of it.
pub open spec fn is_edge_start<N: Scalar>(x: N, step: N, y_step: N, half: N, eps: N, r: N) -> bool {
    exists|o: N, p: N| is_offset(x, step, y_step, o) && #[trigger] is_plus(o, half, p) && is_minus(
        p,
        eps,
        r,
    )
}

/// `st` is the state of the first row of the span: every edge value taken
/// from the base vertex to the centre of that row.
pub open spec fn is_first_row<N: Scalar>(span: Span<N>, st: RowState<N>) -> bool {
    exists|yb: N, s: N, y_step: N|
        #![trigger is_plus(yb, span.half, s), is_minus(s, span.base.y, y_step)]
        {
            &&& 0 <= span.y_begin <= usize::MAX
            &&& is_from_index(span.y_begin as usize, yb)
            &&& is_plus(yb, span.half, s)
            &&& is_minus(s, span.base.y, y_step)
            &&& is_edge_start(span.base.x, span.left.x, y_step, span.half, span.eps, st.x1)
            &&& is_offset(span.base.inv_w, span.left.inv_w, y_step, st.z1)
            &&& is_offsets(span.values, span.left.varyings, y_step, span.k, st.v1)
            &&& is_edge_start(span.base.x, span.right.x, y_step, span.half, span.eps, st.x2)
            &&& is_times(y_step, span.delta.x, st.dx)
            &&& is_times(y_step, span.delta.inv_w, st.dz)
            &&& is_products(y_step, span.delta.varyings, span.k, st.dv)
        }
}

/// `next` is the state of the row after the one with the state `prev`:
/// every value moved on by its slope.
pub open spec fn is_next_row<N: Scalar>(span: Span<N>, prev: RowState<N>, next: RowState<N>) -> bool {
    &&& is_plus(prev.x1, span.left.x, next.x1)
    &&& is_plus(prev.x2, span.right.x, next.x2)
    &&& is_plus(prev.dx, span.delta.x, next.dx)
    &&& is_plus(prev.z1, span.left.inv_w, next.z1)
    &&& is_plus(prev.dz, span.delta.inv_w, next.dz)
    &&& is_sums(prev.v1, span.left.varyings, span.k, next.v1)
    &&& is_sums(prev.dv, span.delta.varyings, span.k, next.dv)
}

/// What a row starts from at its first filled column `left`: the change per
/// column `z_step` of the inverse depth and `v_step` of the values, the
/// difference across the row over its width, and the inverse depth `z0` and
/// values `v0` one column before the centre of that column.
pub open spec fn is_row_start<N: Scalar>(
    span: Span<N>,
    st: RowState<N>,
    left: usize,
    z_step: N,
    v_step: [N; 16],
    z0: N,
    v0: [N; 16],
) -> bool {
    exists|lc: N, d: N, off: N|
        #![trigger is_minus(lc, st.x1, d), is_minus(d, span.eps, off)]
        {
            &&& is_over(st.dz, st.dx, z_step)
            &&& is_quotients(st.dv, st.dx, span.k, v_step)
            &&& is_from_index(left, lc)
            &&& is_minus(lc, st.x1, d)
            &&& is_minus(d, span.eps, off)
            &&& is_offset(st.z1, off, z_step, z0)
            &&& is_offsets(st.v1, v_step, off, span.k, v0)
        }
}

/// Candidate `j` of a row lies in column `left + j`, and its inverse depth
/// and values are those of the candidate before it (of `z0`, `v0` for the
/// first), moved on by one column.
pub open spec fn is_pixel_at<N: Scalar>(
    z0: N,
    v0: [N; 16],
    z_step: N,
    v_step: [N; 16],
    y: int,
    left: int,
    k: usize,
    cands: Seq<Candidate<N>>,
    j: int,
) -> bool {
    let c = cands[j];
    let pz = if j == 0 { z0 } else { cands[j - 1].inv_w };
    let pv = if j == 0 { v0 } else { cands[j - 1].values };
    &&& c.x == left + j
    &&& c.y == y
    &&& is_plus(pz, z_step, c.inv_w)
    &&& is_sums(pv, v_step, k, c.values)
    &&& is_depth_key(c.inv_w, c.depth)
}

/// The candidates are those of one row, column by column from `left`.
pub open spec fn is_pixels<N: Scalar>(
    z0: N,
    v0: [N; 16],
    z_step: N,
    v_step: [N; 16],
    y: int,
    left: int,
    k: usize,
    cands: Seq<Candidate<N>>,
) -> bool {
    forall|j: int|
        0 <= j < cands.len() ==> #[trigger] is_pixel_at(z0, v0, z_step, v_step, y, left, k, cands, j)
}

/// The candidates are those of row `y` with the state `st`: none where the
/// cut bounds leave no column, else one for each column between them.
pub open spec fn is_row<N: Scalar>(
    span: Span<N>,
    st: RowState<N>,
    y: int,
    cands: Seq<Candidate<N>>,
) -> bool {
    exists|t1: i32, t2: i32|
        #![trigger is_trunc(st.x1, t1), is_trunc(st.x2, t2)]
        {
            &&& is_trunc(st.x1, t1)
            &&& is_trunc(st.x2, t2)
            &&& match span_of(t1 as int, t2 as int, span.width as int) {
                None => cands.len() == 0,
                Some(columns) => is_filled_row(span, st, y, columns.0, columns.1, cands),
            }
        }
}

/// The candidates are those of the columns `left .. right` of row `y` with
/// the state `st`.
pub open spec fn is_filled_row<N: Scalar>(
    span: Span<N>,
    st: RowState<N>,
    y: int,
    left: int,
    right: int,
    cands: Seq<Candidate<N>>,
) -> bool {
    &&& 0 <= left <= usize::MAX
    &&& cands.len() == right - left
    &&& exists|z_step: N, v_step: [N; 16], z0: N, v0: [N; 16]|
        {
            &&& #[trigger] is_row_start(span, st, left as usize, z_step, v_step, z0, v0)
            &&& is_pixels(z0, v0, z_step, v_step, y, left, span.k, cands)
        }
}

/// The candidates of several rows, one row after the other.
pub open spec fn flat<N>(parts: Seq<Seq<Candidate<N>>>) -> Seq<Candidate<N>>
    decreases parts.len(),
{
    if parts.len() == 0 {
        Seq::empty()
    } else {
        flat(parts.drop_last()) + parts.last()
    }
}

/// Row `j` of the span has the state `states[j]` and the candidates
/// `parts[j]`, and the next state follows from its state.
pub open spec fn is_row_at<N: Scalar>(
    span: Span<N>,
    states: Seq<RowState<N>>,
    parts: Seq<Seq<Candidate<N>>>,
    j: int,
) -> bool {
    &&& is_row(span, states[j], span.y_begin + j, parts[j])
    &&& is_next_row(span, states[j], states[j + 1])
}

/// `parts` holds the candidates of the first rows of the span, row by row,
/// and `states` the states of those rows and of the row after them.
pub open spec fn is_rows<N: Scalar>(
    span: Span<N>,
    states: Seq<RowState<N>>,
    parts: Seq<Seq<Candidate<N>>>,
) -> bool {
    &&& states.len() == parts.len() + 1
    &&& is_first_row(span, states[0])
    &&& forall|j: int| 0 <= j < parts.len() ==> #[trigger] is_row_at(span, states, parts, j)
}

/// The candidates are those of the rows `rows.0 .. rows.1` between the
/// edges `left` and `right` that start at `base`.
pub open spec fn is_span<N: Scalar>(
    base: ScreenPoint<N>,
    values: [N; 16],
    left: Slope<N>,
    right: Slope<N>,
    rows: (int, int),
    k: usize,
    width: usize,
    cands: Seq<Candidate<N>>,
) -> bool {
    if rows.0 >= rows.1 {
        cands.len() == 0
    } else {
        exists|span: Span<N>, states: Seq<RowState<N>>, parts: Seq<Seq<Candidate<N>>>|
            {
                &&& span.base == base
                &&& span.values == values
                &&& span.left == left
                &&& span.right == right
                &&& span.y_begin == rows.0
                &&& span.k == k
                &&& span.width == width
                &&& is_ratio(1, 10000, span.eps)
                &&& is_ratio(1, 2, span.half)
                &&& is_minus(left.x, right.x, span.delta.x)
                &&& is_minus(left.inv_w, right.inv_w, span.delta.inv_w)
                &&& is_differences(left.varyings, right.varyings, k, span.delta.varyings)
                &&& #[trigger] is_rows(span, states, parts)
                &&& parts.len() == rows.1 - rows.0
                &&& cands == flat(parts)
            }
    }
}

/// One of two slopes: `yes` where `flag` holds, else `no`.
pub open spec fn pick<N>(flag: bool, yes: Slope<N>, no: Slope<N>) -> Slope<N> {
    if flag {
        yes
    } else {
        no
    }
}

/// The rows of the lower part of a triangle, or of its upper part, from the
/// row numbers of its lowest, middle and highest vertex.
pub open spec fn part_rows(low: i32, mid: i32, high: i32, height: usize, upper: bool) -> (int, int) {
    let rows = rows_of(low as int, mid as int, high as int, height as int);
    if upper {
        (rows.1, rows.2)
    } else {
        (rows.0, rows.1)
    }
}

/// The candidates are those of the triangle with the vertices `a`, `b`, `c`
/// from the highest down: those of the rows from `c` to `b` between the
/// edges `bc` and `ac`, then those of the rows from `b` to `a` between the
/// edges `ab` and `ac`. In the lower part the edge with the smaller slope is
/// the left one, in the upper part the edge with the greater slope.
pub open spec fn is_fill<N: Scalar>(
    a: ScreenPoint<N>,
    b: ScreenPoint<N>,
    c: ScreenPoint<N>,
    va: [N; 16],
    vb: [N; 16],
    vc: [N; 16],
    half: N,
    k: usize,
    width: usize,
    height: usize,
    cands: Seq<Candidate<N>>,
) -> bool {
    exists|
        ab: Slope<N>,
        ac: Slope<N>,
        bc: Slope<N>,
        rc: i32,
        rb: i32,
        ra: i32,
        low: bool,
        up: bool,
        lower: Seq<Candidate<N>>,
        upper: Seq<Candidate<N>>,
    |
        #![trigger is_edge_slope(a, b, va, vb, k, ab), is_edge_slope(a, c, va, vc, k, ac), is_edge_slope(b, c, vb, vc, k, bc), is_row_number(c.y, half, rc), is_row_number(b.y, half, rb), is_row_number(a.y, half, ra), is_less(ac.x, bc.x, low), is_less(ac.x, ab.x, up), is_span(c, vc, pick(low, ac, bc), pick(low, bc, ac), part_rows(rc, rb, ra, height, false), k, width, lower), is_span(a, va, pick(up, ab, ac), pick(up, ac, ab), part_rows(rc, rb, ra, height, true), k, width, upper)]
        {
            &&& is_edge_slope(a, b, va, vb, k, ab)
            &&& is_edge_slope(a, c, va, vc, k, ac)
            &&& is_edge_slope(b, c, vb, vc, k, bc)
            &&& is_row_number(c.y, half, rc)
            &&& is_row_number(b.y, half, rb)
            &&& is_row_number(a.y, half, ra)
            &&& is_less(ac.x, bc.x, low)
            &&& is_less(ac.x, ab.x, up)
            &&& is_span(
                c,
                vc,
                pick(low, ac, bc),
                pick(low, bc, ac),
                part_rows(rc, rb, ra, height, false),
                k,
                width,
                lower,
            )
            &&& is_span(
                a,
                va,
                pick(up, ab, ac),
                pick(up, ac, ab),
                part_rows(rc, rb, ra, height, true),
                k,
                width,
                upper,
            )
            &&& cands == lower + upper
        }
}

/// The candidates are the pixels that the triangle visits on a frame of
/// `width` by `height` pixels, in the order in which it visits them: none
/// where the bounding test skips the triangle, else every pixel of every row
/// between its edges, cut to the frame. Each carries the interpolated
/// inverse depth with its depth key and the `k` interpolated values.
///
/// The candidates depend on the triangle and the size of the frame alone,
/// not on what the frame holds.
pub open spec fn is_cover<N: Scalar>(
    points: [ScreenPoint<N>; 3],
    varyings: [[N; 16]; 3],
    k: usize,
    width: usize,
    height: usize,
    cands: Seq<Candidate<N>>,
) -> bool {
    exists|order: (usize, usize, usize), half: N, rejected: bool|
        #![trigger is_order(points, order), is_rejected(points@[order.0 as int], points@[order.1 as int], points@[order.2 as int], half, width, height, rejected)]
        {
            &&& order.0 < 3 && order.1 < 3 && order.2 < 3
            &&& is_order(points, order)
            &&& is_ratio(1, 2, half)
            &&& is_rejected(
                points@[order.0 as int],
                points@[order.1 as int],
                points@[order.2 as int],
                half,
                width,
                height,
                rejected,
            )
            &&& if rejected {
                cands.len() == 0
            } else {
                is_fill(
                    points@[order.0 as int],
                    points@[order.1 as int],
                    points@[order.2 as int],
                    varyings@[order.0 as int],
                    varyings@[order.1 as int],
                    varyings@[order.2 as int],
                    half,
                    k,
                    width,
                    height,
                    cands,
                )
            }
        }
}

/// `color` is the packed colour that the pixel stage gives for a candidate:
/// for its first `k` values, each divided by its inverse depth.
pub open spec fn is_shaded<N: Scalar, S: PixelStage<N>>(
    shader: &S,
    cand: Candidate<N>,
    k: usize,
    color: u32,
) -> bool {
    exists|inputs: [N; 16], rgb: [N; 3]|
        #![trigger is_quotients(cand.values, cand.inv_w, k, inputs), is_packed_color(rgb, color)]
        {
            &&& is_quotients(cand.values, cand.inv_w, k, inputs)
            &&& call_ensures(S::pixel, (shader, &inputs), rgb)
            &&& is_packed_color(rgb, color)
        }
}

/// Fragment `i` lies where candidate `i` lies, at its depth, and where the
/// depth test lets it through when its turn comes, its colour is what the
/// pixel stage gives for the candidate. The pixel stage is not asked for a
/// fragment that the test rejects, and the colour of such a fragment is not
/// used.
pub open spec fn is_painted_at<N: Scalar, S: PixelStage<N>>(
    v: FrameView,
    cands: Seq<Candidate<N>>,
    frags: Seq<Fragment>,
    shader: &S,
    k: usize,
    i: int,
) -> bool {
    &&& frags[i].x == cands[i].x
    &&& frags[i].y == cands[i].y
    &&& frags[i].depth == cands[i].depth
    &&& v.draw(frags.take(i)).accepts(frags[i]) ==> is_shaded(shader, cands[i], k, frags[i].color)
}

/// The fragments are the candidates, each with the colour of the pixel
/// stage where it passes the depth test on the frame `v` after the
/// fragments before it.
pub open spec fn is_painted<N: Scalar, S: PixelStage<N>>(
    v: FrameView,
    cands: Seq<Candidate<N>>,
    frags: Seq<Fragment>,
    shader: &S,
    k: usize,
) -> bool {
    &&& frags.len() == cands.len()
    &&& forall|i: int| 0 <= i < frags.len() ==> #[trigger] is_painted_at(v, cands, frags, shader, k, i)
}

/// `after` is the frame `before` with the triangle drawn on it: the
/// triangle's candidates on a frame of this size, each as a fragment with
/// the colour of the pixel stage, put through the depth test in the order
/// of the candidates. The fragments come in scan order and lie inside the
/// frame.
pub open spec fn is_rasterized<N: Scalar, S: PixelStage<N>>(
    points: [ScreenPoint<N>; 3],
    varyings: [[N; 16]; 3],
    k: usize,
    shader: &S,
    width: usize,
    height: usize,
    before: FrameView,
    after: FrameView,
) -> bool {
    exists|cands: Seq<Candidate<N>>, frags: Seq<Fragment>|
        #![trigger is_painted(before, cands, frags, shader, k)]
        {
            &&& is_cover(points, varyings, k, width, height, cands)
            &&& is_painted(before, cands, frags, shader, k)
            &&& scan_ordered(frags)
            &&& all_inside(frags, width as nat, height as nat)
            &&& after == before.draw(frags)
        }
}

/// Fragments painted on a frame, followed by fragments painted on what they
/// leave, are painted on the frame.
proof fn lemma_painted_concat<N: Scalar, S: PixelStage<N>>(
    v: FrameView,
    c1: Seq<Candidate<N>>,
    f1: Seq<Fragment>,
    c2: Seq<Candidate<N>>,
    f2: Seq<Fragment>,
    shader: &S,
    k: usize,
)
    requires
        is_painted(v, c1, f1, shader, k),
        is_painted(v.draw(f1), c2, f2, shader, k),
    ensures
        is_painted(v, c1 + c2, f1 + f2, shader, k),
{
    assert forall|i: int| 0 <= i < (f1 + f2).len() implies #[trigger] is_painted_at(
        v,
        c1 + c2,
        f1 + f2,
        shader,
        k,
        i,
    ) by {
        if i < f1.len() {
            assert((f1 + f2).take(i) =~= f1.take(i));
            assert(is_painted_at(v, c1, f1, shader, k, i));
        } else {
            let j = i - f1.len();
            assert((f1 + f2).take(i) =~= f1 + f2.take(j));
            lemma_draw_concat(v, f1, f2.take(j));
            assert(is_painted_at(v.draw(f1), c2, f2, shader, k, j));
        }
    }
}

/// The fragments of a triangle whose pixel stage gives one colour paint
/// that colour.
pub proof fn lemma_painted_in_one_color<N: Scalar, S: PixelStage<N>>(
    v: FrameView,
    cands: Seq<Candidate<N>>,
    frags: Seq<Fragment>,
    shader: &S,
    k: usize,
    color: u32,
)
    requires
        is_painted(v, cands, frags, shader, k),
        forall|cand: Candidate<N>, c: u32| #[trigger] is_shaded(shader, cand, k, c) ==> c == color,
    ensures
        paints(v, frags, color),
{
    assert forall|i: int|
        0 <= i < frags.len() && v.draw(frags.take(i)).accepts(
            #[trigger] frags[i],
        ) implies frags[i].color == color by {
        assert(is_painted_at(v, cands, frags, shader, k, i));
    }
}

/// The fragments lie in row `y`, in columns `x_begin..x_end`.
spec fn in_row(frags: Seq<Fragment>, y: int, x_begin: int, x_end: int) -> bool {
    forall|i: int|
        0 <= i < frags.len() ==> (#[trigger] frags[i]).y == y && x_begin <= frags[i].x < x_end
}

/// The fragments lie in rows `y_begin..y_end`.
spec fn in_rows(frags: Seq<Fragment>, y_begin: int, y_end: int) -> bool {
    forall|i: int| 0 <= i < frags.len() ==> y_begin <= (#[trigger] frags[i]).y < y_end
}

/// Fragments in scan order, followed by fragments in scan order that all lie
/// in later rows, are in scan order.
proof fn lemma_scan_ordered_concat(a: Seq<Fragment>, b: Seq<Fragment>, split: int)
    requires
        scan_ordered(a),
        scan_ordered(b),
        forall|i: int| 0 <= i < a.len() ==> (#[trigger] a[i]).y < split,
        forall|i: int| 0 <= i < b.len() ==> split <= (#[trigger] b[i]).y,
    ensures
        scan_ordered(a + b),
{
    assert forall|i: int, j: int| 0 <= i < j < (a + b).len() implies {
        let f = #[trigger] (a + b)[i];
        let g = #[trigger] (a + b)[j];
        f.y < g.y || (f.y == g.y && f.x < g.x)
    } by {
        if j < a.len() {
            assert((a + b)[i] == a[i] && (a + b)[j] == a[j]);
        } else if i >= a.len() {
            assert((a + b)[i] == b[i - a.len()] && (a + b)[j] == b[j - a.len()]);
        } else {
            assert((a + b)[i] == a[i] && (a + b)[j] == b[j - a.len()]);
        }
    }
}

/// Walks one row from left to right. Each pixel whose interpolated depth is
/// strictly nearer than the stored one gets the colour of the pixel stage.
fn fill_row<N: Scalar, S: PixelStage<N>>(
    fb: &mut FrameBuffer,
    y: usize,
    x_begin: usize,
    x_end: usize,
    z_start: N,
    z_step: N,
    v_start: &[N; 16],
    v_step: &[N; 16],
    k: usize,
    shader: &S,
) -> (out: (Ghost<Seq<Candidate<N>>>, Ghost<Seq<Fragment>>))
    requires
        old(fb).wf(),
        y < old(fb)@.height,
        x_begin <= x_end <= old(fb)@.width,
        k <= 16,
    ensures
        final(fb).wf(),
        final(fb)@.width == old(fb)@.width,
        final(fb)@.height == old(fb)@.height,
        final(fb)@ == old(fb)@.draw(out.1@),
        scan_ordered(out.1@),
        in_row(out.1@, y as int, x_begin as int, x_end as int),
        out.0@.len() == x_end - x_begin,
        is_pixels(z_start, *v_start, z_step, *v_step, y as int, x_begin as int, k, out.0@),
        is_painted(old(fb)@, out.0@, out.1@, shader, k),
{
    let ghost mut cands: Seq<Candidate<N>> = Seq::empty();
    let ghost mut frags: Seq<Fragment> = Seq::empty();
    let mut z: N = z_start;
    let mut v: [N; 16] = *v_start;
    let mut x: usize = x_begin;
    while x < x_end
        invariant
            x_begin <= x <= x_end <= old(fb)@.width,
            y < old(fb)@.height,
            k <= 16,
            fb.wf(),
            fb@.width == old(fb)@.width,
            fb@.height == old(fb)@.height,
            fb@ == old(fb)@.draw(frags),
            scan_ordered(frags),
            in_row(frags, y as int, x_begin as int, x as int),
            cands.len() == x - x_begin,
            is_pixels(z_start, *v_start, z_step, *v_step, y as int, x_begin as int, k, cands),
            is_painted(old(fb)@, cands, frags, shader, k),
            cands.len() > 0 ==> cands.last().inv_w == z && cands.last().values == v,
            cands.len() == 0 ==> z == z_start && v == *v_start,
        decreases x_end - x,
    {
        let ghost before = fb@;
        let ghost pz = z;
        let ghost pv = v;
        z = z.plus(z_step);
        v = sum(&v, v_step, k);
        let depth: u32 = z.depth_key();
        let ghost cand = Candidate { x, y, depth, inv_w: z, values: v };
        let mut color: u32 = 0;
        if fb.is_nearer(x, y, depth) {
            let inputs: [N; 16] = quotient(&v, z, k);
            let rgb: [N; 3] = shader.pixel(&inputs);
            color = vector3_to_u32(&rgb);
            fb.store(Fragment { x, y, depth, color });
            proof {
                assert(is_quotients(cand.values, cand.inv_w, k, inputs) && is_packed_color(
                    rgb,
                    color,
                ));
                assert(is_shaded(shader, cand, k, color));
            }
        }
        let ghost f = Fragment { x, y, depth, color };
        proof {
            let one_cand = seq![cand];
            let one_frag = seq![f];
            assert(one_frag.take(0) =~= Seq::<Fragment>::empty());
            assert(is_painted_at(before, one_cand, one_frag, shader, k, 0));
            assert(is_painted(before, one_cand, one_frag, shader, k));
            lemma_painted_concat(old(fb)@, cands, frags, one_cand, one_frag, shader, k);
            lemma_draw_push(old(fb)@, frags, f);
            let new_cands = cands.push(cand);
            assert(new_cands =~= cands + one_cand);
            assert(frags.push(f) =~= frags + one_frag);
            assert forall|j: int| 0 <= j < new_cands.len() implies #[trigger] is_pixel_at(
                z_start,
                *v_start,
                z_step,
                *v_step,
                y as int,
                x_begin as int,
                k,
                new_cands,
                j,
            ) by {
                if j < cands.len() {
                    assert(is_pixel_at(
                        z_start,
                        *v_start,
                        z_step,
                        *v_step,
                        y as int,
                        x_begin as int,
                        k,
                        cands,
                        j,
                    ));
                }
            }
            cands = new_cands;
            frags = frags.push(f);
        }
        x += 1;
    }
    (Ghost(cands), Ghost(frags))
}

/// Walks the rows `y_begin..y_end` between two edges that start at `base`.
/// The bounds of each row are cut to the frame; a row whose right bound is
/// not beyond its left bound draws nothing.
fn fill_span<N: Scalar, S: PixelStage<N>>(
    fb: &mut FrameBuffer,
    base: &ScreenPoint<N>,
    base_values: &[N; 16],
    left: &Slope<N>,
    right: &Slope<N>,
    y_begin: usize,
    y_end: usize,
    k: usize,
    shader: &S,
) -> (out: (Ghost<Seq<Candidate<N>>>, Ghost<Seq<Fragment>>))
    requires
        old(fb).wf(),
        old(fb)@.width > 0,
        y_end <= old(fb)@.height,
        k <= 16,
    ensures
        final(fb).wf(),
        final(fb)@.width == old(fb)@.width,
        final(fb)@.height == old(fb)@.height,
        final(fb)@ == old(fb)@.draw(out.1@),
        scan_ordered(out.1@),
        all_inside(out.1@, old(fb)@.width, old(fb)@.height),
        in_rows(out.1@, y_begin as int, y_end as int),
        is_span(
            *base,
            *base_values,
            *left,
            *right,
            (y_begin as int, y_end as int),
            k,
            #[verifier::truncate]
            (old(fb)@.width as usize),
            out.0@,
        ),
        is_painted(old(fb)@, out.0@, out.1@, shader, k),
{
    let ghost mut cands: Seq<Candidate<N>> = Seq::empty();
    let ghost mut frags: Seq<Fragment> = Seq::empty();
    if y_begin >= y_end {
        return (Ghost(cands), Ghost(frags));
    }
    let width: usize = fb.width();
    let eps: N = epsilon();
    let h: N = half();
    let yb: N = N::from_index(y_begin);
    let yc: N = yb.plus(h);
    let y_step: N = yc.minus(base.y);
    let x1_rise: N = y_step.times(left.x);
    let x1_edge: N = base.x.plus(x1_rise);
    let x1_mid: N = x1_edge.plus(h);
    let mut x1: N = x1_mid.minus(eps);
    let z1_rise: N = y_step.times(left.inv_w);
    let mut z1: N = base.inv_w.plus(z1_rise);
    let mut v1: [N; 16] = offset_values(base_values, &left.varyings, y_step, k);
    let x2_rise: N = y_step.times(right.x);
    let x2_edge: N = base.x.plus(x2_rise);
    let x2_mid: N = x2_edge.plus(h);
    let mut x2: N = x2_mid.minus(eps);
    let dx_step: N = left.x.minus(right.x);
    let dz_step: N = left.inv_w.minus(right.inv_w);
    let dv_step: [N; 16] = difference(&left.varyings, &right.varyings, k);
    let mut dx: N = y_step.times(dx_step);
    let mut dz: N = y_step.times(dz_step);
    let mut dv: [N; 16] = scaled(&dv_step, y_step, k);
    let ghost span = Span {
        base: *base,
        values: *base_values,
        left: *left,
        right: *right,
        delta: Slope { x: dx_step, inv_w: dz_step, varyings: dv_step },
        eps,
        half: h,
        y_begin: y_begin as int,
        k,
        width,
    };
    proof {
        assert(is_plus(yb, h, yc) && is_minus(yc, base.y, y_step));
        assert(is_times(y_step, left.x, x1_rise) && is_plus(base.x, x1_rise, x1_edge));
        assert(is_offset(base.x, left.x, y_step, x1_edge));
        assert(is_plus(x1_edge, h, x1_mid) && is_minus(x1_mid, eps, x1));
        assert(is_edge_start(base.x, left.x, y_step, h, eps, x1));
        assert(is_times(y_step, right.x, x2_rise) && is_plus(base.x, x2_rise, x2_edge));
        assert(is_offset(base.x, right.x, y_step, x2_edge));
        assert(is_plus(x2_edge, h, x2_mid) && is_minus(x2_mid, eps, x2));
        assert(is_edge_start(base.x, right.x, y_step, h, eps, x2));
        assert(is_times(y_step, left.inv_w, z1_rise) && is_plus(base.inv_w, z1_rise, z1));
        assert(is_offset(base.inv_w, left.inv_w, y_step, z1));
        let st0 = RowState { x1, x2, dx, z1, dz, v1, dv };
        assert(is_from_index(span.y_begin as usize, yb));
        assert(is_offsets(span.values, span.left.varyings, y_step, span.k, st0.v1));
        assert(is_times(y_step, span.delta.x, st0.dx));
        assert(is_times(y_step, span.delta.inv_w, st0.dz));
        assert(is_products(y_step, span.delta.varyings, span.k, st0.dv));
        assert(is_edge_start(span.base.x, span.left.x, y_step, span.half, span.eps, st0.x1));
        assert(is_edge_start(span.base.x, span.right.x, y_step, span.half, span.eps, st0.x2));
        assert(is_offset(span.base.inv_w, span.left.inv_w, y_step, st0.z1));
        assert(is_plus(yb, span.half, yc) && is_minus(yc, span.base.y, y_step));
        assert(is_first_row(span, st0));
    }
    let ghost mut states: Seq<RowState<N>> = seq![RowState { x1, x2, dx, z1, dz, v1, dv }];
    let ghost mut parts: Seq<Seq<Candidate<N>>> = Seq::empty();
    let mut y: usize = y_begin;
    while y < y_end
        invariant
            y_begin <= y <= y_end <= old(fb)@.height,
            y_begin < y_end,
            width == old(fb)@.width,
            width > 0,
            k <= 16,
            fb.wf(),
            fb@.width == old(fb)@.width,
            fb@.height == old(fb)@.height,
            fb@ == old(fb)@.draw(frags),
            scan_ordered(frags),
            all_inside(frags, old(fb)@.width, old(fb)@.height),
            in_rows(frags, y_begin as int, y as int),
            span.base == *base,
            span.values == *base_values,
            span.left == *left,
            span.right == *right,
            span.delta == (Slope { x: dx_step, inv_w: dz_step, varyings: dv_step }),
            span.eps == eps,
            span.half == h,
            span.y_begin == y_begin,
            span.k == k,
            span.width == width,
            is_rows(span, states, parts),
            parts.len() == y - y_begin,
            states.last() == (RowState { x1, x2, dx, z1, dz, v1, dv }),
            cands == flat(parts),
            is_painted(old(fb)@, cands, frags, shader, k),
        decreases y_end - y,
    {
        let ghost st = RowState { x1, x2, dx, z1, dz, v1, dv };
        let ghost mut row_cands: Seq<Candidate<N>> = Seq::empty();
        let ghost mut row_frags: Seq<Fragment> = Seq::empty();
        let ghost before = fb@;
        let t1: i32 = x1.trunc();
        let t2: i32 = x2.trunc();
        if let Some((x1_int, x2_int)) = clamp_span(t1, t2, width) {
            let z_step: N = dz.over(dx);
            let v_step: [N; 16] = quotient(&dv, dx, k);
            let lc: N = N::from_index(x1_int);
            let d: N = lc.minus(x1);
            let off: N = d.minus(eps);
            let z_rise: N = z_step.times(off);
            let z: N = z1.plus(z_rise);
            let v: [N; 16] = offset_values(&v1, &v_step, off, k);
            let row = fill_row(fb, y, x1_int, x2_int, z, z_step, &v, &v_step, k, shader);
            proof {
                row_cands = row.0@;
                row_frags = row.1@;
                assert(is_times(z_step, off, z_rise) && is_plus(st.z1, z_rise, z));
                assert(is_offset(st.z1, off, z_step, z));
                assert(is_minus(lc, st.x1, d) && is_minus(d, span.eps, off));
                assert(is_over(st.dz, st.dx, z_step));
                assert(is_quotients(st.dv, st.dx, span.k, v_step));
                assert(is_from_index(x1_int, lc));
                assert(is_offsets(st.v1, v_step, off, span.k, v));
                let left = x1_int as int;
                assert(is_row_start(span, st, left as usize, z_step, v_step, z, v));
                assert(is_pixels(z, v, z_step, v_step, y as int, left, span.k, row_cands));
                assert(span_of(t1 as int, t2 as int, span.width as int) == Some(
                    (left, x2_int as int),
                ));
                assert(is_filled_row(span, st, y as int, left, x2_int as int, row_cands));
                assert(is_trunc(st.x1, t1) && is_trunc(st.x2, t2));
                assert(is_row(span, st, y as int, row_cands));
            }
        } else {
            proof {
                assert(row_frags.take(0) =~= row_frags);
                assert(span_of(t1 as int, t2 as int, span.width as int) is None);
                assert(is_trunc(st.x1, t1) && is_trunc(st.x2, t2));
                assert(is_row(span, st, y as int, row_cands));
            }
        }
        proof {
            assert(fb@ == before.draw(row_frags));
            assert(is_painted(before, row_cands, row_frags, shader, k));
            lemma_painted_concat(old(fb)@, cands, frags, row_cands, row_frags, shader, k);
            lemma_draw_concat(old(fb)@, frags, row_frags);
            lemma_scan_ordered_concat(frags, row_frags, y as int);
        }
        x1 = x1.plus(left.x);
        x2 = x2.plus(right.x);
        dx = dx.plus(dx_step);
        z1 = z1.plus(left.inv_w);
        dz = dz.plus(dz_step);
        v1 = sum(&v1, &left.varyings, k);
        dv = sum(&dv, &dv_step, k);
        proof {
            let next = RowState { x1, x2, dx, z1, dz, v1, dv };
            assert(is_next_row(span, st, next));
            let new_states = states.push(next);
            let new_parts = parts.push(row_cands);
            assert forall|j: int| 0 <= j < new_parts.len() implies #[trigger] is_row_at(
                span,
                new_states,
                new_parts,
                j,
            ) by {
                if j < parts.len() {
                    assert(is_row_at(span, states, parts, j));
                }
            }
            assert(new_parts.drop_last() =~= parts);
            states = new_states;
            parts = new_parts;
            cands = cands + row_cands;
            frags = frags + row_frags;
        }
        y += 1;
    }
    proof {
        assert(is_rows(span, states, parts) && parts.len() == y_end - y_begin && cands == flat(
            parts,
        ));
    }
    (Ghost(cands), Ghost(frags))
}

/// Whether the bounding test skips a triangle with the highest vertex `a`
/// and the lowest vertex `c`.
fn bounding_test<N: Scalar>(
    a: &ScreenPoint<N>,
    b: &ScreenPoint<N>,
    c: &ScreenPoint<N>,
    h: N,
    width: usize,
    height: usize,
) -> (rejected: bool)
    ensures
        is_rejected(*a, *b, *c, h, width, height, rejected),
{
    let hn: N = N::from_index(height);
    let max_y: N = hn.minus(h);
    let wn: N = N::from_index(width);
    let max_x: N = wn.minus(h);
    let below: bool = a.y.less(h);
    let above: bool = max_y.less(c.y);
    let la: bool = a.x.less(h);
    let lb: bool = b.x.less(h);
    let lc: bool = c.x.less(h);
    let ra: bool = max_x.less(a.x);
    let rb: bool = max_x.less(b.x);
    let rc: bool = max_x.less(c.x);
    let left: bool = la && lb && lc;
    let right: bool = ra && rb && rc;
    proof {
        assert(is_from_index(height, hn) && is_minus(hn, h, max_y));
        assert(is_limit(height, h, max_y));
        assert(is_from_index(width, wn) && is_minus(wn, h, max_x));
        assert(is_limit(width, h, max_x));
        assert(is_less(a.x, h, la) && is_less(b.x, h, lb) && is_less(c.x, h, lc));
        assert(is_left_of(*a, *b, *c, h, left));
        assert(is_less(max_x, a.x, ra) && is_less(max_x, b.x, rb) && is_less(max_x, c.x, rc));
        assert(is_right_of(*a, *b, *c, max_x, right));
        assert(is_less(a.y, h, below) && is_less(max_y, c.y, above));
    }
    below || above || left || right
}

/// The first row whose centre does not lie below `y`.
fn row_number<N: Scalar>(y: N, h: N) -> (row: i32)
    ensures
        is_row_number(y, h, row),
{
    let s: N = y.plus(h);
    let row: i32 = s.trunc();
    assert(is_plus(y, h, s) && is_trunc(s, row));
    row
}

/// Draws one triangle.
///
/// The vertices are ordered from the highest row down. A triangle whose
/// highest vertex lies below the frame, whose lowest vertex lies above it, or
/// whose vertices all lie to one side of it is skipped. Otherwise the rows
/// from the lowest vertex to the middle one and from the middle one to the
/// highest are walked between the two edges that bound them, and each covered
/// pixel goes through the depth test with its interpolated inverse depth.
/// `varyings` holds, for each vertex, the `k` values of its vertex stage,
/// already divided by the vertex's depth; each pixel that passes the test
/// hands them to the pixel stage interpolated and divided back.
///
/// The pixels that the triangle visits are its candidates, `is_cover`; the
/// frame is what the depth-tested writes of one fragment per candidate
/// leave, in the order of the candidates.
pub fn triangle<N: Scalar, S: PixelStage<N>>(
    fb: &mut FrameBuffer,
    points: &[ScreenPoint<N>; 3],
    varyings: &[[N; 16]; 3],
    k: usize,
    shader: &S,
)
    requires
        old(fb).wf(),
        old(fb)@.width > 0,
        old(fb)@.height > 0,
        k <= MAX_OUT_VALUES,
    ensures
        final(fb).wf(),
        is_rasterized(
            *points,
            *varyings,
            k,
            shader,
            #[verifier::truncate]
            (old(fb)@.width as usize),
            #[verifier::truncate]
            (old(fb)@.height as usize),
            old(fb)@,
            final(fb)@,
        ),
{
    let width: usize = fb.width();
    let height: usize = fb.height();
    let order = order_by_height(points);
    let a: &ScreenPoint<N> = &points[order.0];
    let b: &ScreenPoint<N> = &points[order.1];
    let c: &ScreenPoint<N> = &points[order.2];
    let va: &[N; 16] = &varyings[order.0];
    let vb: &[N; 16] = &varyings[order.1];
    let vc: &[N; 16] = &varyings[order.2];
    let h: N = half();

    let rejected: bool = bounding_test(a, b, c, h, width, height);
    if rejected {
        proof {
            let none = Seq::<Fragment>::empty();
            let no_cands = Seq::<Candidate<N>>::empty();
            assert(is_order(*points, order) && is_rejected(
                points@[order.0 as int],
                points@[order.1 as int],
                points@[order.2 as int],
                h,
                width,
                height,
                rejected,
            ));
            assert(is_cover(*points, *varyings, k, width, height, no_cands));
            assert(is_painted(old(fb)@, no_cands, none, shader, k) && scan_ordered(none)
                && all_inside(none, width as nat, height as nat) && fb@ == old(fb)@.draw(none));
        }
        return ;
    }
    let step_ab: Slope<N> = edge_slope(a, b, va, vb, k);
    let step_ac: Slope<N> = edge_slope(a, c, va, vc, k);
    let step_bc: Slope<N> = edge_slope(b, c, vb, vc, k);

    let rc: i32 = row_number(c.y, h);
    let rb: i32 = row_number(b.y, h);
    let ra: i32 = row_number(a.y, h);
    let (y0, y1, y2) = clamp_rows(rc, rb, ra, height);

    let low: bool = step_ac.x.less(step_bc.x);
    let lower = if low {
        fill_span(fb, c, vc, &step_ac, &step_bc, y0, y1, k, shader)
    } else {
        fill_span(fb, c, vc, &step_bc, &step_ac, y0, y1, k, shader)
    };
    let ghost middle = fb@;
    let up: bool = step_ac.x.less(step_ab.x);
    let upper = if up {
        fill_span(fb, a, va, &step_ab, &step_ac, y1, y2, k, shader)
    } else {
        fill_span(fb, a, va, &step_ac, &step_ab, y1, y2, k, shader)
    };
    proof {
        let cands = lower.0@ + upper.0@;
        let frags = lower.1@ + upper.1@;
        lemma_draw_concat(old(fb)@, lower.1@, upper.1@);
        lemma_scan_ordered_concat(lower.1@, upper.1@, y1 as int);
        lemma_painted_concat(old(fb)@, lower.0@, lower.1@, upper.0@, upper.1@, shader, k);
        assert(part_rows(rc, rb, ra, height, false) == (y0 as int, y1 as int));
        assert(part_rows(rc, rb, ra, height, true) == (y1 as int, y2 as int));
        assert(is_edge_slope(*a, *b, *va, *vb, k, step_ab) && is_edge_slope(
            *a,
            *c,
            *va,
            *vc,
            k,
            step_ac,
        ) && is_edge_slope(*b, *c, *vb, *vc, k, step_bc) && is_row_number(c.y, h, rc)
            && is_row_number(b.y, h, rb) && is_row_number(a.y, h, ra) && is_less(
            step_ac.x,
            step_bc.x,
            low,
        ) && is_less(step_ac.x, step_ab.x, up) && is_span(
            *c,
            *vc,
            pick(low, step_ac, step_bc),
            pick(low, step_bc, step_ac),
            part_rows(rc, rb, ra, height, false),
            k,
            width,
            lower.0@,
        ) && is_span(
            *a,
            *va,
            pick(up, step_ab, step_ac),
            pick(up, step_ac, step_ab),
            part_rows(rc, rb, ra, height, true),
            k,
            width,
            upper.0@,
        ));
        assert(is_fill(*a, *b, *c, *va, *vb, *vc, h, k, width, height, cands));
        assert(is_order(*points, order) && is_rejected(
            points@[order.0 as int],
            points@[order.1 as int],
            points@[order.2 as int],
            h,
            width,
            height,
            rejected,
        ));
        assert(is_cover(*points, *varyings, k, width, height, cands));
        assert(is_painted(old(fb)@, cands, frags, shader, k) && scan_ordered(frags) && all_inside(
            frags,
            width as nat,
            height as nat,
        ) && fb@ == old(fb)@.draw(frags));
    }
}

} // verus!
