//! Where the scalar's operations are functions of their operands, a
//! triangle visits the same pixels at the same depths whenever it is drawn.

use vstd::prelude::*;
use crate::framebuffer::{
    all_inside, covers_once, lemma_draw_monotone, lemma_index_in_range,
    lemma_nearer_fragment_wins, lemma_redraw_changes_nothing, lemma_scan_ordered_covers_once,
    lemma_single_cover, lemma_surfaces_in_either_order, lemma_untouched_pixel, same_geometry,
    same_pixel, scan_ordered, Fragment, FrameView,
};
use crate::raster::{
    flat, is_cover, is_edge_slope, is_edge_start, is_fill, is_filled_row, is_first_row,
    is_inverse_delta, is_left_of, is_limit, is_next_row, is_offset, is_order, is_painted,
    is_painted_at, is_pixel_at, is_pixels, is_rasterized, is_rejected, is_right_of, is_row,
    is_row_at, is_row_number, is_row_start, is_rows, is_shaded, is_span, is_step,
    lemma_painted_in_one_color, part_rows, pick, span_of, Candidate, PixelStage, RowState,
    ScreenPoint, Slope, Span,
};
use crate::scalar::{
    is_abs, is_depth_key, is_from_index, is_functional, is_less, is_minus, is_over, is_plus,
    is_ratio, is_times, is_trunc, Scalar,
};

verus! {

/// Two lists of candidates lie at the same pixels with the same inverse
/// depths and depth keys; their interpolated values may differ.
pub open spec fn same_cover<N>(a: Seq<Candidate<N>>, b: Seq<Candidate<N>>) -> bool {
    &&& a.len() == b.len()
    &&& forall|i: int|
        0 <= i < a.len() ==> (#[trigger] a[i]).x == b[i].x && a[i].y == b[i].y && a[i].depth
            == b[i].depth && a[i].inv_w == b[i].inv_w
}

/// Two slopes agree in position and inverse depth.
pub open spec fn same_slope<N>(a: Slope<N>, b: Slope<N>) -> bool {
    a.x == b.x && a.inv_w == b.inv_w
}

/// Two row states agree in the bounds and the inverse depth.
pub open spec fn same_state<N>(a: RowState<N>, b: RowState<N>) -> bool {
    a.x1 == b.x1 && a.x2 == b.x2 && a.dx == b.dx && a.z1 == b.z1 && a.dz == b.dz
}

/// Two spans agree in where they start and in the slopes of position and
/// inverse depth.
pub open spec fn same_span<N>(a: Span<N>, b: Span<N>) -> bool {
    &&& a.base.x == b.base.x && a.base.y == b.base.y && a.base.inv_w == b.base.inv_w
    &&& same_slope(a.left, b.left) && same_slope(a.right, b.right) && same_slope(a.delta, b.delta)
    &&& a.eps == b.eps && a.half == b.half && a.y_begin == b.y_begin && a.k == b.k && a.width
        == b.width
}

proof fn lemma_ratio_unique<N: Scalar>(n: usize, d: usize, r: N, s: N)
    requires
        is_functional::<N>(),
        is_ratio(n, d, r),
        is_ratio(n, d, s),
    ensures
        r == s,
{
}

proof fn lemma_offset_unique<N: Scalar>(base: N, step: N, t: N, r: N, s: N)
    requires
        is_functional::<N>(),
        is_offset(base, step, t, r),
        is_offset(base, step, t, s),
    ensures
        r == s,
{
}

proof fn lemma_edge_start_unique<N: Scalar>(x: N, step: N, y_step: N, half: N, eps: N, r: N, s: N)
    requires
        is_functional::<N>(),
        is_edge_start(x, step, y_step, half, eps, r),
        is_edge_start(x, step, y_step, half, eps, s),
    ensures
        r == s,
{
    let (o1, m1) = choose|o: N, p: N|
        is_offset(x, step, y_step, o) && #[trigger] is_plus(o, half, p) && is_minus(p, eps, r);
    let (o2, m2) = choose|o: N, p: N|
        is_offset(x, step, y_step, o) && #[trigger] is_plus(o, half, p) && is_minus(p, eps, s);
    lemma_offset_unique(x, step, y_step, o1, o2);
}

proof fn lemma_inverse_delta_unique<N: Scalar>(dy: N, r: N, s: N)
    requires
        is_functional::<N>(),
        is_inverse_delta(dy, r),
        is_inverse_delta(dy, s),
    ensures
        r == s,
{
    let (e1, m1, u1) = choose|eps: N, size: N, unit: N|
        #![trigger is_ratio(1, 10000, eps), is_abs(dy, size), is_from_index(1, unit)]
        {
            &&& is_ratio(1, 10000, eps)
            &&& is_abs(dy, size)
            &&& is_from_index(1, unit)
            &&& {
                ||| is_less(size, eps, true) && is_over(unit, eps, r)
                ||| is_less(size, eps, false) && is_over(unit, dy, r)
            }
        };
    let (e2, m2, u2) = choose|eps: N, size: N, unit: N|
        #![trigger is_ratio(1, 10000, eps), is_abs(dy, size), is_from_index(1, unit)]
        {
            &&& is_ratio(1, 10000, eps)
            &&& is_abs(dy, size)
            &&& is_from_index(1, unit)
            &&& {
                ||| is_less(size, eps, true) && is_over(unit, eps, s)
                ||| is_less(size, eps, false) && is_over(unit, dy, s)
            }
        };
    lemma_ratio_unique(1, 10000, e1, e2);
}

proof fn lemma_step_unique<N: Scalar>(p: N, q: N, inv: N, r: N, s: N)
    requires
        is_functional::<N>(),
        is_step(p, q, inv, r),
        is_step(p, q, inv, s),
    ensures
        r == s,
{
}

proof fn lemma_edge_slope_unique<N: Scalar>(
    p: ScreenPoint<N>,
    q: ScreenPoint<N>,
    vp: [N; 16],
    vq: [N; 16],
    k: usize,
    a: Slope<N>,
    b: Slope<N>,
)
    requires
        is_functional::<N>(),
        is_edge_slope(p, q, vp, vq, k, a),
        is_edge_slope(p, q, vp, vq, k, b),
    ensures
        same_slope(a, b),
{
    let (dy1, inv1) = choose|dy: N, inv: N|
        {
            &&& is_minus(p.y, q.y, dy)
            &&& #[trigger] is_inverse_delta(dy, inv)
            &&& is_step(p.x, q.x, inv, a.x)
            &&& is_step(p.inv_w, q.inv_w, inv, a.inv_w)
        };
    let (dy2, inv2) = choose|dy: N, inv: N|
        {
            &&& is_minus(p.y, q.y, dy)
            &&& #[trigger] is_inverse_delta(dy, inv)
            &&& is_step(p.x, q.x, inv, b.x)
            &&& is_step(p.inv_w, q.inv_w, inv, b.inv_w)
        };
    lemma_inverse_delta_unique(dy1, inv1, inv2);
    lemma_step_unique(p.x, q.x, inv1, a.x, b.x);
    lemma_step_unique(p.inv_w, q.inv_w, inv1, a.inv_w, b.inv_w);
}

proof fn lemma_order_unique<N: Scalar>(
    points: [ScreenPoint<N>; 3],
    a: (usize, usize, usize),
    b: (usize, usize, usize),
)
    requires
        is_functional::<N>(),
        is_order(points, a),
        is_order(points, b),
    ensures
        a == b,
{
}

proof fn lemma_limit_unique<N: Scalar>(size: usize, half: N, r: N, s: N)
    requires
        is_functional::<N>(),
        is_limit(size, half, r),
        is_limit(size, half, s),
    ensures
        r == s,
{
}

proof fn lemma_rejected_unique<N: Scalar>(
    a: ScreenPoint<N>,
    b: ScreenPoint<N>,
    c: ScreenPoint<N>,
    half: N,
    width: usize,
    height: usize,
    r: bool,
    s: bool,
)
    requires
        is_functional::<N>(),
        is_rejected(a, b, c, half, width, height, r),
        is_rejected(a, b, c, half, width, height, s),
    ensures
        r == s,
{
    let (y1, x1, below1, above1, left1, right1) = choose|
        max_y: N,
        max_x: N,
        below: bool,
        above: bool,
        left: bool,
        right: bool,
    |
        #![trigger is_limit(height, half, max_y), is_limit(width, half, max_x), is_less(a.y, half, below), is_less(max_y, c.y, above), is_left_of(a, b, c, half, left), is_right_of(a, b, c, max_x, right)]
        {
            &&& is_limit(height, half, max_y)
            &&& is_limit(width, half, max_x)
            &&& is_less(a.y, half, below)
            &&& is_less(max_y, c.y, above)
            &&& is_left_of(a, b, c, half, left)
            &&& is_right_of(a, b, c, max_x, right)
            &&& r == (below || above || left || right)
        };
    let (y2, x2, below2, above2, left2, right2) = choose|
        max_y: N,
        max_x: N,
        below: bool,
        above: bool,
        left: bool,
        right: bool,
    |
        #![trigger is_limit(height, half, max_y), is_limit(width, half, max_x), is_less(a.y, half, below), is_less(max_y, c.y, above), is_left_of(a, b, c, half, left), is_right_of(a, b, c, max_x, right)]
        {
            &&& is_limit(height, half, max_y)
            &&& is_limit(width, half, max_x)
            &&& is_less(a.y, half, below)
            &&& is_less(max_y, c.y, above)
            &&& is_left_of(a, b, c, half, left)
            &&& is_right_of(a, b, c, max_x, right)
            &&& s == (below || above || left || right)
        };
    lemma_limit_unique(height, half, y1, y2);
    lemma_limit_unique(width, half, x1, x2);
}

proof fn lemma_row_number_unique<N: Scalar>(y: N, half: N, r: i32, s: i32)
    requires
        is_functional::<N>(),
        is_row_number(y, half, r),
        is_row_number(y, half, s),
    ensures
        r == s,
{
}

proof fn lemma_first_row_unique<N: Scalar>(a: Span<N>, b: Span<N>, s: RowState<N>, t: RowState<N>)
    requires
        is_functional::<N>(),
        same_span(a, b),
        is_first_row(a, s),
        is_first_row(b, t),
    ensures
        same_state(s, t),
{
    let (yb1, c1, y1) = choose|yb: N, c: N, y_step: N|
        #![trigger is_plus(yb, a.half, c), is_minus(c, a.base.y, y_step)]
        {
            &&& is_from_index(a.y_begin as usize, yb)
            &&& is_plus(yb, a.half, c)
            &&& is_minus(c, a.base.y, y_step)
            &&& is_edge_start(a.base.x, a.left.x, y_step, a.half, a.eps, s.x1)
            &&& is_offset(a.base.inv_w, a.left.inv_w, y_step, s.z1)
            &&& is_edge_start(a.base.x, a.right.x, y_step, a.half, a.eps, s.x2)
            &&& is_times(y_step, a.delta.x, s.dx)
            &&& is_times(y_step, a.delta.inv_w, s.dz)
        };
    let (yb2, c2, y2) = choose|yb: N, c: N, y_step: N|
        #![trigger is_plus(yb, b.half, c), is_minus(c, b.base.y, y_step)]
        {
            &&& is_from_index(b.y_begin as usize, yb)
            &&& is_plus(yb, b.half, c)
            &&& is_minus(c, b.base.y, y_step)
            &&& is_edge_start(b.base.x, b.left.x, y_step, b.half, b.eps, t.x1)
            &&& is_offset(b.base.inv_w, b.left.inv_w, y_step, t.z1)
            &&& is_edge_start(b.base.x, b.right.x, y_step, b.half, b.eps, t.x2)
            &&& is_times(y_step, b.delta.x, t.dx)
            &&& is_times(y_step, b.delta.inv_w, t.dz)
        };
    assert(yb1 == yb2);
    assert(c1 == c2);
    assert(y1 == y2);
    lemma_edge_start_unique(a.base.x, a.left.x, y1, a.half, a.eps, s.x1, t.x1);
    lemma_edge_start_unique(a.base.x, a.right.x, y1, a.half, a.eps, s.x2, t.x2);
    lemma_offset_unique(a.base.inv_w, a.left.inv_w, y1, s.z1, t.z1);
}

proof fn lemma_next_row_unique<N: Scalar>(
    a: Span<N>,
    b: Span<N>,
    p: RowState<N>,
    q: RowState<N>,
    s: RowState<N>,
    t: RowState<N>,
)
    requires
        is_functional::<N>(),
        same_span(a, b),
        same_state(p, q),
        is_next_row(a, p, s),
        is_next_row(b, q, t),
    ensures
        same_state(s, t),
{
}

/// Candidate `j` of two rows that start from the same inverse depth with
/// the same change per column is the same pixel at the same depth.
proof fn lemma_pixel_unique<N: Scalar>(
    z0: N,
    va: [N; 16],
    vb: [N; 16],
    z_step: N,
    sa: [N; 16],
    sb: [N; 16],
    y: int,
    left: int,
    k: usize,
    c1: Seq<Candidate<N>>,
    c2: Seq<Candidate<N>>,
    j: int,
)
    requires
        is_functional::<N>(),
        is_pixels(z0, va, z_step, sa, y, left, k, c1),
        is_pixels(z0, vb, z_step, sb, y, left, k, c2),
        c1.len() == c2.len(),
        0 <= j < c1.len(),
    ensures
        c1[j].x == c2[j].x,
        c1[j].y == c2[j].y,
        c1[j].inv_w == c2[j].inv_w,
        c1[j].depth == c2[j].depth,
    decreases j,
{
    assert(is_pixel_at(z0, va, z_step, sa, y, left, k, c1, j));
    assert(is_pixel_at(z0, vb, z_step, sb, y, left, k, c2, j));
    if j > 0 {
        lemma_pixel_unique(z0, va, vb, z_step, sa, sb, y, left, k, c1, c2, j - 1);
    }
}

proof fn lemma_filled_row_unique<N: Scalar>(
    a: Span<N>,
    b: Span<N>,
    s: RowState<N>,
    t: RowState<N>,
    y: int,
    left: int,
    right: int,
    c1: Seq<Candidate<N>>,
    c2: Seq<Candidate<N>>,
)
    requires
        is_functional::<N>(),
        same_span(a, b),
        same_state(s, t),
        is_filled_row(a, s, y, left, right, c1),
        is_filled_row(b, t, y, left, right, c2),
    ensures
        same_cover(c1, c2),
{
    let (zs1, vs1, z1, v1) = choose|z_step: N, v_step: [N; 16], z0: N, v0: [N; 16]|
        {
            &&& #[trigger] is_row_start(a, s, left as usize, z_step, v_step, z0, v0)
            &&& is_pixels(z0, v0, z_step, v_step, y, left, a.k, c1)
        };
    let (zs2, vs2, z2, v2) = choose|z_step: N, v_step: [N; 16], z0: N, v0: [N; 16]|
        {
            &&& #[trigger] is_row_start(b, t, left as usize, z_step, v_step, z0, v0)
            &&& is_pixels(z0, v0, z_step, v_step, y, left, b.k, c2)
        };
    let (lc1, d1, o1) = choose|lc: N, d: N, off: N|
        #![trigger is_minus(lc, s.x1, d), is_minus(d, a.eps, off)]
        {
            &&& is_over(s.dz, s.dx, zs1)
            &&& is_from_index(left as usize, lc)
            &&& is_minus(lc, s.x1, d)
            &&& is_minus(d, a.eps, off)
            &&& is_offset(s.z1, off, zs1, z1)
        };
    let (lc2, d2, o2) = choose|lc: N, d: N, off: N|
        #![trigger is_minus(lc, t.x1, d), is_minus(d, b.eps, off)]
        {
            &&& is_over(t.dz, t.dx, zs2)
            &&& is_from_index(left as usize, lc)
            &&& is_minus(lc, t.x1, d)
            &&& is_minus(d, b.eps, off)
            &&& is_offset(t.z1, off, zs2, z2)
        };
    assert(zs1 == zs2);
    assert(lc1 == lc2);
    assert(d1 == d2);
    assert(o1 == o2);
    lemma_offset_unique(s.z1, o1, zs1, z1, z2);
    assert forall|j: int| 0 <= j < c1.len() implies (#[trigger] c1[j]).x == c2[j].x && c1[j].y
        == c2[j].y && c1[j].depth == c2[j].depth && c1[j].inv_w == c2[j].inv_w by {
        lemma_pixel_unique(z1, v1, v2, zs1, vs1, vs2, y, left, a.k, c1, c2, j);
    }
}

proof fn lemma_row_unique<N: Scalar>(
    a: Span<N>,
    b: Span<N>,
    s: RowState<N>,
    t: RowState<N>,
    y: int,
    c1: Seq<Candidate<N>>,
    c2: Seq<Candidate<N>>,
)
    requires
        is_functional::<N>(),
        same_span(a, b),
        same_state(s, t),
        is_row(a, s, y, c1),
        is_row(b, t, y, c2),
    ensures
        same_cover(c1, c2),
{
    let (lo1, hi1) = choose|t1: i32, t2: i32|
        #![trigger is_trunc(s.x1, t1), is_trunc(s.x2, t2)]
        {
            &&& is_trunc(s.x1, t1)
            &&& is_trunc(s.x2, t2)
            &&& match span_of(t1 as int, t2 as int, a.width as int) {
                None => c1.len() == 0,
                Some(columns) => is_filled_row(a, s, y, columns.0, columns.1, c1),
            }
        };
    let (lo2, hi2) = choose|t1: i32, t2: i32|
        #![trigger is_trunc(t.x1, t1), is_trunc(t.x2, t2)]
        {
            &&& is_trunc(t.x1, t1)
            &&& is_trunc(t.x2, t2)
            &&& match span_of(t1 as int, t2 as int, b.width as int) {
                None => c2.len() == 0,
                Some(columns) => is_filled_row(b, t, y, columns.0, columns.1, c2),
            }
        };
    assert(lo1 == lo2 && hi1 == hi2);
    match span_of(lo1 as int, hi1 as int, a.width as int) {
        None => {},
        Some(columns) => {
            lemma_filled_row_unique(a, b, s, t, y, columns.0, columns.1, c1, c2);
        },
    }
}

/// Row `j` of two walks of the same span has the same state, and so has
/// the row after it, and the same candidates.
proof fn lemma_rows_unique<N: Scalar>(
    a: Span<N>,
    b: Span<N>,
    s: Seq<RowState<N>>,
    t: Seq<RowState<N>>,
    p: Seq<Seq<Candidate<N>>>,
    q: Seq<Seq<Candidate<N>>>,
    j: int,
)
    requires
        is_functional::<N>(),
        same_span(a, b),
        is_rows(a, s, p),
        is_rows(b, t, q),
        p.len() == q.len(),
        0 <= j < p.len(),
    ensures
        same_state(s[j], t[j]),
        same_state(s[j + 1], t[j + 1]),
        same_cover(p[j], q[j]),
    decreases j,
{
    if j == 0 {
        lemma_first_row_unique(a, b, s[0], t[0]);
    } else {
        lemma_rows_unique(a, b, s, t, p, q, j - 1);
    }
    assert(is_row_at(a, s, p, j));
    assert(is_row_at(b, t, q, j));
    lemma_row_unique(a, b, s[j], t[j], a.y_begin + j, p[j], q[j]);
    lemma_next_row_unique(a, b, s[j], t[j], s[j + 1], t[j + 1]);
}

proof fn lemma_same_cover_concat<N>(
    a: Seq<Candidate<N>>,
    b: Seq<Candidate<N>>,
    c: Seq<Candidate<N>>,
    d: Seq<Candidate<N>>,
)
    requires
        same_cover(a, b),
        same_cover(c, d),
    ensures
        same_cover(a + c, b + d),
{
    assert forall|i: int| 0 <= i < (a + c).len() implies (#[trigger] (a + c)[i]).x == (b + d)[i].x
        && (a + c)[i].y == (b + d)[i].y && (a + c)[i].depth == (b + d)[i].depth && (a + c)[i].inv_w
        == (b + d)[i].inv_w by {
        if i < a.len() {
            assert(a[i].x == b[i].x);
        } else {
            assert(c[i - a.len()].x == d[i - a.len()].x);
        }
    }
}

proof fn lemma_flat_unique<N>(p: Seq<Seq<Candidate<N>>>, q: Seq<Seq<Candidate<N>>>)
    requires
        p.len() == q.len(),
        forall|j: int| 0 <= j < p.len() ==> same_cover(#[trigger] p[j], q[j]),
    ensures
        same_cover(flat(p), flat(q)),
    decreases p.len(),
{
    if p.len() > 0 {
        let ph = p.drop_last();
        let qh = q.drop_last();
        assert forall|j: int| 0 <= j < ph.len() implies same_cover(#[trigger] ph[j], qh[j]) by {
            assert(same_cover(p[j], q[j]));
        }
        lemma_flat_unique(ph, qh);
        assert(same_cover(p[p.len() - 1], q[p.len() - 1]));
        lemma_same_cover_concat(flat(ph), flat(qh), p.last(), q.last());
    }
}

proof fn lemma_span_unique<N: Scalar>(
    base: ScreenPoint<N>,
    va: [N; 16],
    vb: [N; 16],
    la: Slope<N>,
    lb: Slope<N>,
    ra: Slope<N>,
    rb: Slope<N>,
    rows: (int, int),
    k: usize,
    width: usize,
    c1: Seq<Candidate<N>>,
    c2: Seq<Candidate<N>>,
)
    requires
        is_functional::<N>(),
        same_slope(la, lb),
        same_slope(ra, rb),
        is_span(base, va, la, ra, rows, k, width, c1),
        is_span(base, vb, lb, rb, rows, k, width, c2),
    ensures
        same_cover(c1, c2),
{
    if rows.0 < rows.1 {
        let (a, s, p) = choose|span: Span<N>, states: Seq<RowState<N>>, parts: Seq<Seq<Candidate<N>>>|
            {
                &&& span.base == base
                &&& span.left == la
                &&& span.right == ra
                &&& span.y_begin == rows.0
                &&& span.k == k
                &&& span.width == width
                &&& is_ratio(1, 10000, span.eps)
                &&& is_ratio(1, 2, span.half)
                &&& is_minus(la.x, ra.x, span.delta.x)
                &&& is_minus(la.inv_w, ra.inv_w, span.delta.inv_w)
                &&& #[trigger] is_rows(span, states, parts)
                &&& parts.len() == rows.1 - rows.0
                &&& c1 == flat(parts)
            };
        let (b, t, q) = choose|span: Span<N>, states: Seq<RowState<N>>, parts: Seq<Seq<Candidate<N>>>|
            {
                &&& span.base == base
                &&& span.left == lb
                &&& span.right == rb
                &&& span.y_begin == rows.0
                &&& span.k == k
                &&& span.width == width
                &&& is_ratio(1, 10000, span.eps)
                &&& is_ratio(1, 2, span.half)
                &&& is_minus(lb.x, rb.x, span.delta.x)
                &&& is_minus(lb.inv_w, rb.inv_w, span.delta.inv_w)
                &&& #[trigger] is_rows(span, states, parts)
                &&& parts.len() == rows.1 - rows.0
                &&& c2 == flat(parts)
            };
        lemma_ratio_unique(1, 10000, a.eps, b.eps);
        lemma_ratio_unique(1, 2, a.half, b.half);
        assert(same_span(a, b));
        assert forall|j: int| 0 <= j < p.len() implies same_cover(#[trigger] p[j], q[j]) by {
            lemma_rows_unique(a, b, s, t, p, q, j);
        }
        lemma_flat_unique(p, q);
    }
}

proof fn lemma_fill_unique<N: Scalar>(
    a: ScreenPoint<N>,
    b: ScreenPoint<N>,
    c: ScreenPoint<N>,
    va: [N; 16],
    vb: [N; 16],
    vc: [N; 16],
    half: N,
    k: usize,
    width: usize,
    height: usize,
    c1: Seq<Candidate<N>>,
    c2: Seq<Candidate<N>>,
)
    requires
        is_functional::<N>(),
        is_fill(a, b, c, va, vb, vc, half, k, width, height, c1),
        is_fill(a, b, c, va, vb, vc, half, k, width, height, c2),
    ensures
        same_cover(c1, c2),
{
    let (ab1, ac1, bc1, rc1, rb1, ra1, low1, up1, lower1, upper1) = choose|
        ab: Slope<N>,
        ac: Slope<N>,
        bc: Slope<N>,
        rc: i32,
        rb: i32,
        ra: i32,
        low: bool,
        up: bool,
        lower: Seq<Candidate<N>>,
        upper: Seq<Candidate<N>>,
    |
        #![trigger is_edge_slope(a, b, va, vb, k, ab), is_edge_slope(a, c, va, vc, k, ac), is_edge_slope(b, c, vb, vc, k, bc), is_row_number(c.y, half, rc), is_row_number(b.y, half, rb), is_row_number(a.y, half, ra), is_less(ac.x, bc.x, low), is_less(ac.x, ab.x, up), is_span(c, vc, pick(low, ac, bc), pick(low, bc, ac), part_rows(rc, rb, ra, height, false), k, width, lower), is_span(a, va, pick(up, ab, ac), pick(up, ac, ab), part_rows(rc, rb, ra, height, true), k, width, upper)]
        {
            &&& is_edge_slope(a, b, va, vb, k, ab)
            &&& is_edge_slope(a, c, va, vc, k, ac)
            &&& is_edge_slope(b, c, vb, vc, k, bc)
            &&& is_row_number(c.y, half, rc)
            &&& is_row_number(b.y, half, rb)
            &&& is_row_number(a.y, half, ra)
            &&& is_less(ac.x, bc.x, low)
            &&& is_less(ac.x, ab.x, up)
            &&& is_span(
                c,
                vc,
                pick(low, ac, bc),
                pick(low, bc, ac),
                part_rows(rc, rb, ra, height, false),
                k,
                width,
                lower,
            )
            &&& is_span(
                a,
                va,
                pick(up, ab, ac),
                pick(up, ac, ab),
                part_rows(rc, rb, ra, height, true),
                k,
                width,
                upper,
            )
            &&& c1 == lower + upper
        };
    let (ab2, ac2, bc2, rc2, rb2, ra2, low2, up2, lower2, upper2) = choose|
        ab: Slope<N>,
        ac: Slope<N>,
        bc: Slope<N>,
        rc: i32,
        rb: i32,
        ra: i32,
        low: bool,
        up: bool,
        lower: Seq<Candidate<N>>,
        upper: Seq<Candidate<N>>,
    |
        #![trigger is_edge_slope(a, b, va, vb, k, ab), is_edge_slope(a, c, va, vc, k, ac), is_edge_slope(b, c, vb, vc, k, bc), is_row_number(c.y, half, rc), is_row_number(b.y, half, rb), is_row_number(a.y, half, ra), is_less(ac.x, bc.x, low), is_less(ac.x, ab.x, up), is_span(c, vc, pick(low, ac, bc), pick(low, bc, ac), part_rows(rc, rb, ra, height, false), k, width, lower), is_span(a, va, pick(up, ab, ac), pick(up, ac, ab), part_rows(rc, rb, ra, height, true), k, width, upper)]
        {
            &&& is_edge_slope(a, b, va, vb, k, ab)
            &&& is_edge_slope(a, c, va, vc, k, ac)
            &&& is_edge_slope(b, c, vb, vc, k, bc)
            &&& is_row_number(c.y, half, rc)
            &&& is_row_number(b.y, half, rb)
            &&& is_row_number(a.y, half, ra)
            &&& is_less(ac.x, bc.x, low)
            &&& is_less(ac.x, ab.x, up)
            &&& is_span(
                c,
                vc,
                pick(low, ac, bc),
                pick(low, bc, ac),
                part_rows(rc, rb, ra, height, false),
                k,
                width,
                lower,
            )
            &&& is_span(
                a,
                va,
                pick(up, ab, ac),
                pick(up, ac, ab),
                part_rows(rc, rb, ra, height, true),
                k,
                width,
                upper,
            )
            &&& c2 == lower + upper
        };
    lemma_edge_slope_unique(a, b, va, vb, k, ab1, ab2);
    lemma_edge_slope_unique(a, c, va, vc, k, ac1, ac2);
    lemma_edge_slope_unique(b, c, vb, vc, k, bc1, bc2);
    lemma_row_number_unique(c.y, half, rc1, rc2);
    lemma_row_number_unique(b.y, half, rb1, rb2);
    lemma_row_number_unique(a.y, half, ra1, ra2);
    assert(low1 == low2);
    assert(up1 == up2);
    lemma_span_unique(
        c,
        vc,
        vc,
        pick(low1, ac1, bc1),
        pick(low2, ac2, bc2),
        pick(low1, bc1, ac1),
        pick(low2, bc2, ac2),
        part_rows(rc1, rb1, ra1, height, false),
        k,
        width,
        lower1,
        lower2,
    );
    lemma_span_unique(
        a,
        va,
        va,
        pick(up1, ab1, ac1),
        pick(up2, ab2, ac2),
        pick(up1, ac1, ab1),
        pick(up2, ac2, ab2),
        part_rows(rc1, rb1, ra1, height, true),
        k,
        width,
        upper1,
        upper2,
    );
    lemma_same_cover_concat(lower1, lower2, upper1, upper2);
}

/// Where the scalar's operations are functions of their operands, a
/// triangle has one cover: whenever it is drawn on a frame of the same
/// size, it visits the same pixels in the same order, with the same inverse
/// depths and depth keys.
pub proof fn lemma_cover_unique<N: Scalar>(
    points: [ScreenPoint<N>; 3],
    varyings: [[N; 16]; 3],
    k: usize,
    width: usize,
    height: usize,
    c1: Seq<Candidate<N>>,
    c2: Seq<Candidate<N>>,
)
    requires
        is_functional::<N>(),
        is_cover(points, varyings, k, width, height, c1),
        is_cover(points, varyings, k, width, height, c2),
    ensures
        same_cover(c1, c2),
{
    let (o1, h1, r1) = choose|order: (usize, usize, usize), half: N, rejected: bool|
        #![trigger is_order(points, order), is_rejected(points@[order.0 as int], points@[order.1 as int], points@[order.2 as int], half, width, height, rejected)]
        {
            &&& is_order(points, order)
            &&& is_ratio(1, 2, half)
            &&& is_rejected(
                points@[order.0 as int],
                points@[order.1 as int],
                points@[order.2 as int],
                half,
                width,
                height,
                rejected,
            )
            &&& if rejected {
                c1.len() == 0
            } else {
                is_fill(
                    points@[order.0 as int],
                    points@[order.1 as int],
                    points@[order.2 as int],
                    varyings@[order.0 as int],
                    varyings@[order.1 as int],
                    varyings@[order.2 as int],
                    half,
                    k,
                    width,
                    height,
                    c1,
                )
            }
        };
    let (o2, h2, r2) = choose|order: (usize, usize, usize), half: N, rejected: bool|
        #![trigger is_order(points, order), is_rejected(points@[order.0 as int], points@[order.1 as int], points@[order.2 as int], half, width, height, rejected)]
        {
            &&& is_order(points, order)
            &&& is_ratio(1, 2, half)
            &&& is_rejected(
                points@[order.0 as int],
                points@[order.1 as int],
                points@[order.2 as int],
                half,
                width,
                height,
                rejected,
            )
            &&& if rejected {
                c2.len() == 0
            } else {
                is_fill(
                    points@[order.0 as int],
                    points@[order.1 as int],
                    points@[order.2 as int],
                    varyings@[order.0 as int],
                    varyings@[order.1 as int],
                    varyings@[order.2 as int],
                    half,
                    k,
                    width,
                    height,
                    c2,
                )
            }
        };
    lemma_order_unique(points, o1, o2);
    lemma_ratio_unique(1, 2, h1, h2);
    lemma_rejected_unique(
        points@[o1.0 as int],
        points@[o1.1 as int],
        points@[o1.2 as int],
        h1,
        width,
        height,
        r1,
        r2,
    );
    if !r1 {
        lemma_fill_unique(
            points@[o1.0 as int],
            points@[o1.1 as int],
            points@[o1.2 as int],
            varyings@[o1.0 as int],
            varyings@[o1.1 as int],
            varyings@[o1.2 as int],
            h1,
            k,
            width,
            height,
            c1,
            c2,
        );
    }
}

/// Fragments painted from covers at the same pixels and depths lie at the
/// same pixels with the same depths.
proof fn lemma_painted_same_geometry<N: Scalar, S: PixelStage<N>, T: PixelStage<N>>(
    v: FrameView,
    w: FrameView,
    c1: Seq<Candidate<N>>,
    f1: Seq<Fragment>,
    c2: Seq<Candidate<N>>,
    f2: Seq<Fragment>,
    shader: &S,
    other: &T,
    k: usize,
)
    requires
        same_cover(c1, c2),
        is_painted(v, c1, f1, shader, k),
        is_painted(w, c2, f2, other, k),
    ensures
        same_geometry(f1, f2),
{
    assert forall|i: int| 0 <= i < f1.len() implies (#[trigger] f1[i]).x == f2[i].x && f1[i].y
        == f2[i].y && f1[i].depth == f2[i].depth by {
        assert(is_painted_at(v, c1, f1, shader, k, i));
        assert(is_painted_at(w, c2, f2, other, k, i));
        assert(c1[i].x == c2[i].x);
    }
}

/// Drawing the same triangle twice changes nothing the second time,
/// whatever colours the pixel stages give: where the scalar's operations
/// are functions of their operands, the second drawing visits the pixels of
/// the first at the same depths, and the depth test, which is strict,
/// rejects them all.
pub proof fn lemma_triangle_twice<N: Scalar, S: PixelStage<N>, T: PixelStage<N>>(
    points: [ScreenPoint<N>; 3],
    varyings: [[N; 16]; 3],
    k: usize,
    shader: &S,
    other: &T,
    width: usize,
    height: usize,
    before: FrameView,
    once: FrameView,
    twice: FrameView,
)
    requires
        is_functional::<N>(),
        before.wf(),
        is_rasterized(points, varyings, k, shader, width, height, before, once),
        is_rasterized(points, varyings, k, other, width, height, once, twice),
    ensures
        twice == once,
{
    let (c1, f1) = choose|cands: Seq<Candidate<N>>, frags: Seq<Fragment>|
        #![trigger is_painted(before, cands, frags, shader, k)]
        {
            &&& is_cover(points, varyings, k, width, height, cands)
            &&& is_painted(before, cands, frags, shader, k)
            &&& once == before.draw(frags)
        };
    let (c2, f2) = choose|cands: Seq<Candidate<N>>, frags: Seq<Fragment>|
        #![trigger is_painted(once, cands, frags, other, k)]
        {
            &&& is_cover(points, varyings, k, width, height, cands)
            &&& is_painted(once, cands, frags, other, k)
            &&& twice == once.draw(frags)
        };
    lemma_cover_unique(points, varyings, k, width, height, c1, c2);
    lemma_painted_same_geometry(before, once, c1, f1, c2, f2, shader, other, k);
    lemma_redraw_changes_nothing(before, f1, f2);
}

/// Two triangles leave the same frame in either drawing order, where the
/// scalar's operations are functions of their operands, each triangle has a
/// pixel stage that gives one colour, and their depths differ wherever both
/// visit a pixel. `first_a`, `both_ab` are the frames where triangle `a` is
/// drawn first, `first_b`, `both_ba` those where triangle `b` is.
pub proof fn lemma_triangles_in_either_order<N: Scalar, S: PixelStage<N>, T: PixelStage<N>>(
    points_a: [ScreenPoint<N>; 3],
    varyings_a: [[N; 16]; 3],
    k_a: usize,
    shader_a: &S,
    color_a: u32,
    points_b: [ScreenPoint<N>; 3],
    varyings_b: [[N; 16]; 3],
    k_b: usize,
    shader_b: &T,
    color_b: u32,
    width: usize,
    height: usize,
    before: FrameView,
    first_a: FrameView,
    both_ab: FrameView,
    first_b: FrameView,
    both_ba: FrameView,
)
    requires
        is_functional::<N>(),
        before.wf(),
        is_rasterized(points_a, varyings_a, k_a, shader_a, width, height, before, first_a),
        is_rasterized(points_b, varyings_b, k_b, shader_b, width, height, first_a, both_ab),
        is_rasterized(points_b, varyings_b, k_b, shader_b, width, height, before, first_b),
        is_rasterized(points_a, varyings_a, k_a, shader_a, width, height, first_b, both_ba),
        forall|cand: Candidate<N>, c: u32|
            #[trigger] is_shaded(shader_a, cand, k_a, c) ==> c == color_a,
        forall|cand: Candidate<N>, c: u32|
            #[trigger] is_shaded(shader_b, cand, k_b, c) ==> c == color_b,
        forall|ca: Seq<Candidate<N>>, cb: Seq<Candidate<N>>, i: int, j: int|
            #![trigger is_cover(points_a, varyings_a, k_a, width, height, ca), is_cover(points_b, varyings_b, k_b, width, height, cb), ca[i], cb[j]]
            is_cover(points_a, varyings_a, k_a, width, height, ca) && is_cover(
                points_b,
                varyings_b,
                k_b,
                width,
                height,
                cb,
            ) && 0 <= i < ca.len() && 0 <= j < cb.len() && ca[i].x == cb[j].x && ca[i].y == cb[j].y
                ==> ca[i].depth != cb[j].depth,
    ensures
        both_ab == both_ba,
{
    let (ca1, a1) = choose|cands: Seq<Candidate<N>>, frags: Seq<Fragment>|
        #![trigger is_painted(before, cands, frags, shader_a, k_a)]
        {
            &&& is_cover(points_a, varyings_a, k_a, width, height, cands)
            &&& is_painted(before, cands, frags, shader_a, k_a)
            &&& first_a == before.draw(frags)
        };
    let (cb1, b1) = choose|cands: Seq<Candidate<N>>, frags: Seq<Fragment>|
        #![trigger is_painted(first_a, cands, frags, shader_b, k_b)]
        {
            &&& is_cover(points_b, varyings_b, k_b, width, height, cands)
            &&& is_painted(first_a, cands, frags, shader_b, k_b)
            &&& both_ab == first_a.draw(frags)
        };
    let (cb2, b2) = choose|cands: Seq<Candidate<N>>, frags: Seq<Fragment>|
        #![trigger is_painted(before, cands, frags, shader_b, k_b)]
        {
            &&& is_cover(points_b, varyings_b, k_b, width, height, cands)
            &&& is_painted(before, cands, frags, shader_b, k_b)
            &&& first_b == before.draw(frags)
        };
    let (ca2, a2) = choose|cands: Seq<Candidate<N>>, frags: Seq<Fragment>|
        #![trigger is_painted(first_b, cands, frags, shader_a, k_a)]
        {
            &&& is_cover(points_a, varyings_a, k_a, width, height, cands)
            &&& is_painted(first_b, cands, frags, shader_a, k_a)
            &&& both_ba == first_b.draw(frags)
        };
    lemma_cover_unique(points_a, varyings_a, k_a, width, height, ca1, ca2);
    lemma_cover_unique(points_b, varyings_b, k_b, width, height, cb1, cb2);
    lemma_painted_same_geometry(before, first_b, ca1, a1, ca2, a2, shader_a, shader_a, k_a);
    lemma_painted_same_geometry(first_a, before, cb1, b1, cb2, b2, shader_b, shader_b, k_b);
    lemma_painted_in_one_color(before, ca1, a1, shader_a, k_a, color_a);
    lemma_painted_in_one_color(first_a, cb1, b1, shader_b, k_b, color_b);
    lemma_painted_in_one_color(before, cb2, b2, shader_b, k_b, color_b);
    lemma_painted_in_one_color(first_b, ca2, a2, shader_a, k_a, color_a);
    assert forall|i: int, j: int|
        0 <= i < a1.len() && 0 <= j < b1.len() && same_pixel(
            #[trigger] a1[i],
            #[trigger] b1[j],
        ) implies a1[i].depth != b1[j].depth by {
        assert(is_painted_at(before, ca1, a1, shader_a, k_a, i));
        assert(is_painted_at(first_a, cb1, b1, shader_b, k_b, j));
        assert(ca1[i].x == cb1[j].x && ca1[i].y == cb1[j].y);
    }
    lemma_surfaces_in_either_order(before, a1, b1, b2, a2, color_a, color_b);
}

/// In a list that visits no pixel twice, a fragment meets its pixel as the
/// frame held it before the list.
proof fn lemma_turn<N>(v: FrameView, frags: Seq<Fragment>, i: int)
    requires
        v.wf(),
        covers_once(frags),
        0 <= i < frags.len(),
        v.contains(frags[i].x as int, frags[i].y as int),
    ensures
        v.draw(frags.take(i)).accepts(frags[i]) == v.accepts(frags[i]),
{
    let head = frags.take(i);
    let x = frags[i].x as int;
    let y = frags[i].y as int;
    assert forall|j: int| 0 <= j < head.len() implies !((#[trigger] head[j]).x == x && head[j].y
        == y) by {
        assert(head[j] == frags[j]);
        assert(!same_pixel(frags[j], frags[i]));
    }
    lemma_untouched_pixel(v, head, x, y);
    lemma_draw_monotone(v, head);
}

/// Where two triangles visit a pixel, the one that is nearer there shows,
/// whichever is drawn first, if it is nearer than what the pixel held
/// before and its pixel stage gives one colour: the pixel ends with that
/// colour and the depth of the nearer triangle. `ca` and `cb` are covers of
/// the triangles, `i` and `j` where they visit the pixel.
pub proof fn lemma_nearer_triangle_shows<N: Scalar, S: PixelStage<N>, T: PixelStage<N>>(
    points_a: [ScreenPoint<N>; 3],
    varyings_a: [[N; 16]; 3],
    k_a: usize,
    shader_a: &S,
    color_a: u32,
    points_b: [ScreenPoint<N>; 3],
    varyings_b: [[N; 16]; 3],
    k_b: usize,
    shader_b: &T,
    width: usize,
    height: usize,
    before: FrameView,
    first_a: FrameView,
    both_ab: FrameView,
    first_b: FrameView,
    both_ba: FrameView,
    ca: Seq<Candidate<N>>,
    cb: Seq<Candidate<N>>,
    i: int,
    j: int,
)
    requires
        is_functional::<N>(),
        before.wf(),
        before.width == width,
        before.height == height,
        is_rasterized(points_a, varyings_a, k_a, shader_a, width, height, before, first_a),
        is_rasterized(points_b, varyings_b, k_b, shader_b, width, height, first_a, both_ab),
        is_rasterized(points_b, varyings_b, k_b, shader_b, width, height, before, first_b),
        is_rasterized(points_a, varyings_a, k_a, shader_a, width, height, first_b, both_ba),
        forall|cand: Candidate<N>, c: u32|
            #[trigger] is_shaded(shader_a, cand, k_a, c) ==> c == color_a,
        is_cover(points_a, varyings_a, k_a, width, height, ca),
        is_cover(points_b, varyings_b, k_b, width, height, cb),
        0 <= i < ca.len(),
        0 <= j < cb.len(),
        ca[i].x == cb[j].x,
        ca[i].y == cb[j].y,
        ca[i].x < width,
        ca[i].y < height,
        ca[i].depth > cb[j].depth,
        ca[i].depth > before.depth[before.index(ca[i].x as int, ca[i].y as int)],
    ensures
        both_ab.color[before.index(ca[i].x as int, ca[i].y as int)] == color_a,
        both_ba.color[before.index(ca[i].x as int, ca[i].y as int)] == color_a,
{
    let (ca1, a1) = choose|cands: Seq<Candidate<N>>, frags: Seq<Fragment>|
        #![trigger is_painted(before, cands, frags, shader_a, k_a)]
        {
            &&& is_cover(points_a, varyings_a, k_a, width, height, cands)
            &&& is_painted(before, cands, frags, shader_a, k_a)
            &&& scan_ordered(frags)
            &&& first_a == before.draw(frags)
        };
    let (cb1, b1) = choose|cands: Seq<Candidate<N>>, frags: Seq<Fragment>|
        #![trigger is_painted(first_a, cands, frags, shader_b, k_b)]
        {
            &&& is_cover(points_b, varyings_b, k_b, width, height, cands)
            &&& is_painted(first_a, cands, frags, shader_b, k_b)
            &&& scan_ordered(frags)
            &&& both_ab == first_a.draw(frags)
        };
    let (cb2, b2) = choose|cands: Seq<Candidate<N>>, frags: Seq<Fragment>|
        #![trigger is_painted(before, cands, frags, shader_b, k_b)]
        {
            &&& is_cover(points_b, varyings_b, k_b, width, height, cands)
            &&& is_painted(before, cands, frags, shader_b, k_b)
            &&& scan_ordered(frags)
            &&& first_b == before.draw(frags)
        };
    let (ca2, a2) = choose|cands: Seq<Candidate<N>>, frags: Seq<Fragment>|
        #![trigger is_painted(first_b, cands, frags, shader_a, k_a)]
        {
            &&& is_cover(points_a, varyings_a, k_a, width, height, cands)
            &&& is_painted(first_b, cands, frags, shader_a, k_a)
            &&& scan_ordered(frags)
            &&& both_ba == first_b.draw(frags)
        };
    lemma_cover_unique(points_a, varyings_a, k_a, width, height, ca, ca1);
    lemma_cover_unique(points_a, varyings_a, k_a, width, height, ca, ca2);
    lemma_cover_unique(points_b, varyings_b, k_b, width, height, cb, cb1);
    lemma_cover_unique(points_b, varyings_b, k_b, width, height, cb, cb2);
    lemma_scan_ordered_covers_once(a1);
    lemma_scan_ordered_covers_once(b1);
    lemma_scan_ordered_covers_once(a2);
    lemma_scan_ordered_covers_once(b2);
    let x = ca[i].x as int;
    let y = ca[i].y as int;
    let at = before.index(x, y);
    lemma_index_in_range(before.width, before.height, x, y);
    assert(is_painted_at(before, ca1, a1, shader_a, k_a, i));
    assert(is_painted_at(first_a, cb1, b1, shader_b, k_b, j));
    assert(is_painted_at(before, cb2, b2, shader_b, k_b, j));
    assert(is_painted_at(first_b, ca2, a2, shader_a, k_a, i));
    assert(ca[i].x == ca1[i].x && ca[i].x == ca2[i].x && cb[j].x == cb1[j].x && cb[j].x
        == cb2[j].x);
    // Triangle `a` first: its fragment passes on the frame as it was.
    lemma_turn::<N>(before, a1, i);
    assert(a1[i].color == color_a);
    lemma_nearer_fragment_wins(before, a1, b1, i, j);
    // Triangle `b` first: the fragment of `a` passes on what `b` left.
    lemma_draw_monotone(before, b2);
    lemma_single_cover(before, b2, j);
    lemma_turn::<N>(first_b, a2, i);
    assert(first_b.depth[at] == before.plot(b2[j]).depth[at]);
    assert(first_b.accepts(a2[i]));
    assert(a2[i].color == color_a);
    lemma_nearer_fragment_wins(before, a2, b2, i, j);
}

} // verus!
