//! The colour and depth buffers of one frame, and the depth-tested write that
//! every drawn pixel goes through.
//!
//! Depths are stored as unsigned keys: a larger key is nearer to the camera
//! and `0` is the "infinitely far" value every frame starts from.

use vstd::prelude::*;
use crate::color::{blue_of, green_of, red_of, unpack_rgb};

verus! {

/// The depth every pixel holds after a clear: farther than any drawn surface.
pub const DEPTH_FAR: u32 = 0;

/// One candidate pixel write: a position, its depth key and its packed colour.
#[derive(Clone, Copy, Debug, PartialEq, Eq, Structural)]
pub struct Fragment {
    pub x: usize,
    pub y: usize,
    pub depth: u32,
    pub color: u32,
}

/// The mathematical content of a frame: its size and, row by row from row 0,
/// the colour and depth of each pixel.
pub struct FrameView {
    pub width: nat,
    pub height: nat,
    pub color: Seq<u32>,
    pub depth: Seq<u32>,
}

impl FrameView {
    /// Both buffers hold exactly `width * height` entries.
    pub open spec fn wf(self) -> bool {
        &&& self.color.len() == self.width * self.height
        &&& self.depth.len() == self.width * self.height
    }

    /// Whether `(x, y)` names a pixel of the frame.
    pub open spec fn contains(self, x: int, y: int) -> bool {
        0 <= x < self.width && 0 <= y < self.height
    }

    /// The position of pixel `(x, y)` in both buffers.
    pub open spec fn index(self, x: int, y: int) -> int {
        y * self.width + x
    }

    /// Whether the depth test lets `f` through: it lies inside the frame and is
    /// strictly nearer than what the pixel holds.
    pub open spec fn accepts(self, f: Fragment) -> bool {
        &&& self.contains(f.x as int, f.y as int)
        &&& self.depth[self.index(f.x as int, f.y as int)] < f.depth
    }

    /// The frame after `f` went through the depth test.
    pub open spec fn plot(self, f: Fragment) -> FrameView {
        if self.accepts(f) {
            FrameView {
                color: self.color.update(self.index(f.x as int, f.y as int), f.color),
                depth: self.depth.update(self.index(f.x as int, f.y as int), f.depth),
                ..self
            }
        } else {
            self
        }
    }

    /// The frame after the fragments went through the depth test in order.
    pub open spec fn draw(self, frags: Seq<Fragment>) -> FrameView
        decreases frags.len(),
    {
        if frags.len() == 0 {
            self
        } else {
            self.draw(frags.drop_last()).plot(frags.last())
        }
    }

    /// A frame of the given size with every pixel `color` and infinitely far.
    pub open spec fn cleared(width: nat, height: nat, color: u32) -> FrameView {
        FrameView {
            width,
            height,
            color: Seq::new(width * height, |i: int| color),
            depth: Seq::new(width * height, |i: int| DEPTH_FAR),
        }
    }
}

/// A pixel inside a frame has its buffer position inside the buffers.
pub proof fn lemma_index_in_range(width: nat, height: nat, x: int, y: int)
    requires
        0 <= x < width,
        0 <= y < height,
    ensures
        0 <= y * width + x < width * height,
{
    assert(y * width + x < width * height) by (nonlinear_arith)
        requires
            0 <= x < width,
            0 <= y < height,
    ;
    assert(0 <= y * width) by (nonlinear_arith)
        requires
            0 <= y,
            0 <= width,
    ;
}

/// Two pixels inside a frame share a buffer position only if they are the
/// same pixel.
pub proof fn lemma_index_injective(width: nat, x1: int, y1: int, x2: int, y2: int)
    requires
        0 <= x1 < width,
        0 <= x2 < width,
        0 <= y1,
        0 <= y2,
        y1 * width + x1 == y2 * width + x2,
    ensures
        x1 == x2,
        y1 == y2,
{
    assert(y1 == y2) by (nonlinear_arith)
        requires
            0 <= x1 < width,
            0 <= x2 < width,
            0 <= y1,
            0 <= y2,
            y1 * width + x1 == y2 * width + x2,
    ;
}

/// Whether two fragments address the same pixel.
pub open spec fn same_pixel(f: Fragment, g: Fragment) -> bool {
    f.x == g.x && f.y == g.y
}

/// No two fragments of the sequence address the same pixel.
pub open spec fn covers_once(frags: Seq<Fragment>) -> bool {
    forall|i: int, j: int|
        0 <= i < frags.len() && 0 <= j < frags.len() && i != j ==> !same_pixel(
            #[trigger] frags[i],
            #[trigger] frags[j],
        )
}

/// The fragments come row by row in ascending rows, and within a row in
/// ascending columns.
pub open spec fn scan_ordered(frags: Seq<Fragment>) -> bool {
    forall|i: int, j: int|
        0 <= i < j < frags.len() ==> {
            let f = #[trigger] frags[i];
            let g = #[trigger] frags[j];
            f.y < g.y || (f.y == g.y && f.x < g.x)
        }
}

/// Every fragment lies inside a frame of the given size.
pub open spec fn all_inside(frags: Seq<Fragment>, width: nat, height: nat) -> bool {
    forall|i: int| 0 <= i < frags.len() ==> (#[trigger] frags[i]).x < width && frags[i].y < height
}

/// Fragments in scan order never address a pixel twice.
pub proof fn lemma_scan_ordered_covers_once(frags: Seq<Fragment>)
    requires
        scan_ordered(frags),
    ensures
        covers_once(frags),
{
    assert forall|i: int, j: int|
        0 <= i < frags.len() && 0 <= j < frags.len() && i != j implies !same_pixel(
        #[trigger] frags[i],
        #[trigger] frags[j],
    ) by {
        if i < j {
            let f = frags[i];
            let g = frags[j];
            assert(f.y < g.y || (f.y == g.y && f.x < g.x));
        } else {
            let f = frags[j];
            let g = frags[i];
            assert(f.y < g.y || (f.y == g.y && f.x < g.x));
        }
    }
}

/// A depth-tested write keeps the frame's size and never lowers a depth; a
/// pixel whose depth stays keeps its colour.
pub proof fn lemma_plot_monotone(v: FrameView, f: Fragment)
    requires
        v.wf(),
    ensures
        v.plot(f).wf(),
        v.plot(f).width == v.width,
        v.plot(f).height == v.height,
        forall|i: int| 0 <= i < v.depth.len() ==> v.depth[i] <= #[trigger] v.plot(f).depth[i],
        forall|i: int|
            0 <= i < v.depth.len() && v.depth[i] == #[trigger] v.plot(f).depth[i]
                ==> v.plot(f).color[i] == v.color[i],
{
    if v.accepts(f) {
        lemma_index_in_range(v.width, v.height, f.x as int, f.y as int);
    }
}

/// Drawing keeps the frame's size and never lowers a depth; a pixel whose
/// depth stays keeps its colour.
pub proof fn lemma_draw_monotone(v: FrameView, frags: Seq<Fragment>)
    requires
        v.wf(),
    ensures
        v.draw(frags).wf(),
        v.draw(frags).width == v.width,
        v.draw(frags).height == v.height,
        forall|i: int| 0 <= i < v.depth.len() ==> v.depth[i] <= #[trigger] v.draw(frags).depth[i],
        forall|i: int|
            0 <= i < v.depth.len() && v.depth[i] == #[trigger] v.draw(frags).depth[i]
                ==> v.draw(frags).color[i] == v.color[i],
    decreases frags.len(),
{
    if frags.len() > 0 {
        let mid = v.draw(frags.drop_last());
        lemma_draw_monotone(v, frags.drop_last());
        lemma_plot_monotone(mid, frags.last());
        assert forall|i: int| 0 <= i < v.depth.len() implies v.depth[i] <= #[trigger] v.draw(
            frags,
        ).depth[i] by {
            assert(v.depth[i] <= mid.depth[i]);
            assert(mid.depth[i] <= mid.plot(frags.last()).depth[i]);
        }
        assert forall|i: int|
            0 <= i < v.depth.len() && v.depth[i] == #[trigger] v.draw(frags).depth[i] implies v.draw(
            frags,
        ).color[i] == v.color[i] by {
            assert(v.depth[i] <= mid.depth[i]);
            assert(mid.depth[i] <= mid.plot(frags.last()).depth[i]);
        }
    }
}

/// Drawing one more fragment after a sequence is plotting it on the result.
pub proof fn lemma_draw_push(v: FrameView, frags: Seq<Fragment>, f: Fragment)
    ensures
        v.draw(frags.push(f)) == v.draw(frags).plot(f),
{
    assert(frags.push(f).drop_last() =~= frags);
}

/// Drawing two sequences one after the other is drawing their concatenation.
pub proof fn lemma_draw_concat(v: FrameView, a: Seq<Fragment>, b: Seq<Fragment>)
    ensures
        v.draw(a + b) == v.draw(a).draw(b),
    decreases b.len(),
{
    if b.len() == 0 {
        assert(a + b =~= a);
    } else {
        lemma_draw_concat(v, a, b.drop_last());
        assert((a + b).drop_last() =~= a + b.drop_last());
        assert((a + b).last() == b.last());
    }
}

/// Drawing fragments that all fail the depth test leaves the frame as it is.
pub proof fn lemma_rejected_draw_is_noop(v: FrameView, frags: Seq<Fragment>)
    requires
        forall|i: int| 0 <= i < frags.len() ==> !v.accepts(#[trigger] frags[i]),
    ensures
        v.draw(frags) == v,
    decreases frags.len(),
{
    if frags.len() > 0 {
        let head = frags.drop_last();
        assert forall|i: int| 0 <= i < head.len() implies !v.accepts(#[trigger] head[i]) by {
            assert(head[i] == frags[i]);
        }
        lemma_rejected_draw_is_noop(v, head);
        assert(!v.accepts(frags[frags.len() - 1]));
    }
}

/// Fragments that all lie outside the frame leave it completely unchanged.
pub proof fn lemma_offscreen_draw_is_noop(v: FrameView, frags: Seq<Fragment>)
    requires
        forall|i: int|
            0 <= i < frags.len() ==> !v.contains(
                (#[trigger] frags[i]).x as int,
                frags[i].y as int,
            ),
    ensures
        v.draw(frags) == v,
{
    lemma_rejected_draw_is_noop(v, frags);
}

/// After a fragment was plotted, plotting it again changes nothing: the test
/// is strict, so an equal depth is rejected.
pub proof fn lemma_plot_idempotent(v: FrameView, f: Fragment)
    requires
        v.wf(),
    ensures
        !v.plot(f).accepts(f),
        v.plot(f).plot(f) == v.plot(f),
{
    if v.accepts(f) {
        lemma_index_in_range(v.width, v.height, f.x as int, f.y as int);
    }
}

/// After a sequence was drawn, none of its fragments passes the depth test.
pub proof fn lemma_drawn_fragments_rejected(v: FrameView, frags: Seq<Fragment>)
    requires
        v.wf(),
    ensures
        forall|i: int| 0 <= i < frags.len() ==> !v.draw(frags).accepts(#[trigger] frags[i]),
    decreases frags.len(),
{
    if frags.len() > 0 {
        let head = frags.drop_last();
        let last = frags.last();
        let mid = v.draw(head);
        lemma_drawn_fragments_rejected(v, head);
        lemma_draw_monotone(v, head);
        lemma_plot_monotone(mid, last);
        lemma_plot_idempotent(mid, last);
        assert forall|i: int| 0 <= i < frags.len() implies !v.draw(frags).accepts(
            #[trigger] frags[i],
        ) by {
            if i < head.len() {
                let f = frags[i];
                assert(head[i] == f);
                assert(!mid.accepts(f));
                if mid.contains(f.x as int, f.y as int) {
                    lemma_index_in_range(mid.width, mid.height, f.x as int, f.y as int);
                    let k = mid.index(f.x as int, f.y as int);
                    assert(mid.depth[k] <= mid.plot(last).depth[k]);
                }
            }
        }
    }
}

/// Drawing the same fragments a second time does not change the frame.
pub proof fn lemma_draw_idempotent(v: FrameView, frags: Seq<Fragment>)
    requires
        v.wf(),
    ensures
        v.draw(frags).draw(frags) == v.draw(frags),
{
    lemma_drawn_fragments_rejected(v, frags);
    lemma_rejected_draw_is_noop(v.draw(frags), frags);
}

/// Two fragments at different pixels, or at one pixel with different depths,
/// can be plotted in either order.
pub proof fn lemma_plot_commutes(v: FrameView, f: Fragment, g: Fragment)
    requires
        v.wf(),
        same_pixel(f, g) ==> f.depth != g.depth,
    ensures
        v.plot(f).plot(g) == v.plot(g).plot(f),
{
    lemma_plot_monotone(v, f);
    lemma_plot_monotone(v, g);
    if v.contains(f.x as int, f.y as int) && v.contains(g.x as int, g.y as int) {
        lemma_index_in_range(v.width, v.height, f.x as int, f.y as int);
        lemma_index_in_range(v.width, v.height, g.x as int, g.y as int);
        if v.index(f.x as int, f.y as int) == v.index(g.x as int, g.y as int) {
            lemma_index_injective(v.width, f.x as int, f.y as int, g.x as int, g.y as int);
        }
        assert(v.plot(f).plot(g).color =~= v.plot(g).plot(f).color);
        assert(v.plot(f).plot(g).depth =~= v.plot(g).plot(f).depth);
    }
}

/// A fragment that commutes with every fragment of a sequence can be plotted
/// before the sequence or after it.
proof fn lemma_plot_moves_across(v: FrameView, a: Seq<Fragment>, g: Fragment)
    requires
        v.wf(),
        forall|i: int| 0 <= i < a.len() && same_pixel(#[trigger] a[i], g) ==> a[i].depth != g.depth,
    ensures
        v.plot(g).draw(a) == v.draw(a).plot(g),
    decreases a.len(),
{
    if a.len() > 0 {
        let head = a.drop_last();
        let last = a.last();
        assert forall|i: int| 0 <= i < head.len() && same_pixel(#[trigger] head[i], g) implies head[i].depth
            != g.depth by {
            assert(head[i] == a[i]);
        }
        lemma_plot_moves_across(v, head, g);
        lemma_draw_monotone(v, head);
        assert(same_pixel(a[a.len() - 1], g) ==> last.depth != g.depth);
        lemma_plot_commutes(v.draw(head), g, last);
    }
}

/// Two fragment sequences whose depths differ wherever both cover a pixel
/// give the same frame in either drawing order.
pub proof fn lemma_draw_order_independent(v: FrameView, a: Seq<Fragment>, b: Seq<Fragment>)
    requires
        v.wf(),
        forall|i: int, j: int|
            0 <= i < a.len() && 0 <= j < b.len() && same_pixel(#[trigger] a[i], #[trigger] b[j])
                ==> a[i].depth != b[j].depth,
    ensures
        v.draw(a).draw(b) == v.draw(b).draw(a),
    decreases b.len(),
{
    if b.len() > 0 {
        let head = b.drop_last();
        let g = b.last();
        assert forall|i: int, j: int|
            0 <= i < a.len() && 0 <= j < head.len() && same_pixel(
                #[trigger] a[i],
                #[trigger] head[j],
            ) implies a[i].depth != head[j].depth by {
            assert(head[j] == b[j]);
        }
        lemma_draw_order_independent(v, a, head);
        lemma_draw_monotone(v, head);
        assert forall|i: int| 0 <= i < a.len() && same_pixel(#[trigger] a[i], g) implies a[i].depth
            != g.depth by {
            assert(g == b[b.len() - 1]);
        }
        lemma_plot_moves_across(v.draw(head), a, g);
    }
}

/// Fragments that do not address a pixel leave it as it was.
pub proof fn lemma_untouched_pixel(v: FrameView, frags: Seq<Fragment>, x: int, y: int)
    requires
        v.wf(),
        v.contains(x, y),
        forall|i: int| 0 <= i < frags.len() ==> !((#[trigger] frags[i]).x == x && frags[i].y == y),
    ensures
        v.draw(frags).depth[v.index(x, y)] == v.depth[v.index(x, y)],
        v.draw(frags).color[v.index(x, y)] == v.color[v.index(x, y)],
    decreases frags.len(),
{
    if frags.len() > 0 {
        let head = frags.drop_last();
        let last = frags.last();
        assert forall|i: int| 0 <= i < head.len() implies !((#[trigger] head[i]).x == x
            && head[i].y == y) by {
            assert(head[i] == frags[i]);
        }
        lemma_untouched_pixel(v, head, x, y);
        lemma_draw_monotone(v, head);
        let mid = v.draw(head);
        assert(last == frags[frags.len() - 1]);
        lemma_index_in_range(v.width, v.height, x, y);
        if mid.accepts(last) {
            lemma_index_in_range(v.width, v.height, last.x as int, last.y as int);
            if mid.index(last.x as int, last.y as int) == mid.index(x, y) {
                lemma_index_injective(v.width, last.x as int, last.y as int, x, y);
            }
        }
    }
}

/// Where a sequence addresses a pixel exactly once, the pixel ends as if only
/// that fragment had been plotted.
pub proof fn lemma_single_cover(v: FrameView, frags: Seq<Fragment>, k: int)
    requires
        v.wf(),
        covers_once(frags),
        0 <= k < frags.len(),
        v.contains(frags[k].x as int, frags[k].y as int),
    ensures
        ({
            let at = v.index(frags[k].x as int, frags[k].y as int);
            &&& v.draw(frags).depth[at] == v.plot(frags[k]).depth[at]
            &&& v.draw(frags).color[at] == v.plot(frags[k]).color[at]
        }),
    decreases frags.len(),
{
    let f = frags[k];
    let x = f.x as int;
    let y = f.y as int;
    let at = v.index(x, y);
    let head = frags.drop_last();
    let last = frags.last();
    let mid = v.draw(head);
    lemma_draw_monotone(v, head);
    lemma_index_in_range(v.width, v.height, x, y);
    assert(last == frags[frags.len() - 1]);
    if k == frags.len() - 1 {
        assert forall|i: int| 0 <= i < head.len() implies !((#[trigger] head[i]).x == x
            && head[i].y == y) by {
            assert(head[i] == frags[i]);
            assert(!same_pixel(frags[i], frags[k]));
        }
        lemma_untouched_pixel(v, head, x, y);
    } else {
        assert forall|i: int, j: int|
            0 <= i < head.len() && 0 <= j < head.len() && i != j implies !same_pixel(
            #[trigger] head[i],
            #[trigger] head[j],
        ) by {
            assert(head[i] == frags[i]);
            assert(head[j] == frags[j]);
        }
        assert(head[k] == f);
        lemma_single_cover(v, head, k);
        assert(!same_pixel(frags[frags.len() - 1], frags[k]));
        if mid.accepts(last) {
            lemma_index_in_range(v.width, v.height, last.x as int, last.y as int);
            if mid.index(last.x as int, last.y as int) == at {
                lemma_index_injective(v.width, last.x as int, last.y as int, x, y);
            }
        }
    }
}

/// Where two sequences each cover a pixel once, at different depths, the
/// pixel ends with the colour of the nearer fragment in either drawing order,
/// provided that fragment is nearer than what the pixel held before.
pub proof fn lemma_nearer_fragment_wins(
    v: FrameView,
    a: Seq<Fragment>,
    b: Seq<Fragment>,
    i: int,
    j: int,
)
    requires
        v.wf(),
        covers_once(a),
        covers_once(b),
        0 <= i < a.len(),
        0 <= j < b.len(),
        same_pixel(a[i], b[j]),
        v.contains(a[i].x as int, a[i].y as int),
        a[i].depth > b[j].depth,
        a[i].depth > v.depth[v.index(a[i].x as int, a[i].y as int)],
    ensures
        v.draw(a).draw(b).color[v.index(a[i].x as int, a[i].y as int)] == a[i].color,
        v.draw(b).draw(a).color[v.index(a[i].x as int, a[i].y as int)] == a[i].color,
{
    let x = a[i].x as int;
    let y = a[i].y as int;
    let at = v.index(x, y);
    lemma_index_in_range(v.width, v.height, x, y);
    lemma_draw_monotone(v, a);
    lemma_draw_monotone(v, b);
    lemma_single_cover(v, a, i);
    lemma_single_cover(v.draw(a), b, j);
    lemma_single_cover(v, b, j);
    lemma_single_cover(v.draw(b), a, i);
}

/// What byte `i` of a display's pixel memory holds after a frame was
/// presented with rows `pitch` bytes apart, where it held `before`.
pub open spec fn presented_byte(v: FrameView, pitch: int, before: Seq<u8>, i: int) -> u8 {
    if pitch <= 0 {
        before[i]
    } else {
        let y = i / pitch;
        let x = (i % pitch) / 4;
        if y < v.height && x < v.width {
            pixel_byte(v.color[v.index(x, v.height - 1 - y)], i % pitch % 4)
        } else {
            before[i]
        }
    }
}

/// Whether two sequences hold fragments at the same pixels with the same
/// depths, in the same order; their colours may differ.
pub open spec fn same_geometry(a: Seq<Fragment>, b: Seq<Fragment>) -> bool {
    &&& a.len() == b.len()
    &&& forall|i: int|
        0 <= i < a.len() ==> (#[trigger] a[i]).x == b[i].x && a[i].y == b[i].y && a[i].depth
            == b[i].depth
}

/// Every fragment that passes the depth test when its turn comes, on the
/// frame `v` after the fragments before it, has the colour `color`.
pub open spec fn paints(v: FrameView, frags: Seq<Fragment>, color: u32) -> bool {
    forall|i: int|
        0 <= i < frags.len() && v.draw(frags.take(i)).accepts(#[trigger] frags[i])
            ==> frags[i].color == color
}

/// The fragments, each with the colour `color`.
pub open spec fn recolored(frags: Seq<Fragment>, color: u32) -> Seq<Fragment> {
    Seq::new(frags.len(), |i: int| Fragment { color, ..frags[i] })
}

/// After fragments were drawn, drawing fragments at the same pixels with the
/// same depths changes nothing, whatever their colours: the test is strict,
/// so an equal depth is rejected.
pub proof fn lemma_redraw_changes_nothing(v: FrameView, a: Seq<Fragment>, b: Seq<Fragment>)
    requires
        v.wf(),
        same_geometry(a, b),
    ensures
        v.draw(a).draw(b) == v.draw(a),
{
    lemma_drawn_fragments_rejected(v, a);
    assert forall|i: int| 0 <= i < b.len() implies !v.draw(a).accepts(#[trigger] b[i]) by {
        assert(!v.draw(a).accepts(a[i]));
    }
    lemma_rejected_draw_is_noop(v.draw(a), b);
}

/// The colours of fragments that the depth test rejects do not matter: where
/// every fragment that passes has one colour, the frame is that of the
/// fragments all in that colour.
pub proof fn lemma_recolor(v: FrameView, frags: Seq<Fragment>, color: u32)
    requires
        paints(v, frags, color),
    ensures
        v.draw(frags) == v.draw(recolored(frags, color)),
    decreases frags.len(),
{
    let painted = recolored(frags, color);
    if frags.len() > 0 {
        let head = frags.drop_last();
        let last = frags.last();
        assert forall|i: int| 0 <= i < head.len() && v.draw(head.take(i)).accepts(
            #[trigger] head[i],
        ) implies head[i].color == color by {
            assert(head.take(i) =~= frags.take(i));
            assert(head[i] == frags[i]);
        }
        lemma_recolor(v, head, color);
        assert(painted.drop_last() =~= recolored(head, color));
        assert(frags.take(frags.len() - 1) =~= head);
        assert(last == frags[frags.len() - 1]);
        assert(painted.last() == (Fragment { color, ..last }));
    } else {
        assert(painted =~= frags);
    }
}

/// Two surfaces whose depths differ wherever both cover a pixel, each in one
/// colour, give the same frame in either drawing order. `a1`, `b1` are the
/// fragments of the surfaces where the first is drawn first, `b2`, `a2`
/// those where the second is drawn first; in both orders each surface covers
/// the same pixels at the same depths.
pub proof fn lemma_surfaces_in_either_order(
    v: FrameView,
    a1: Seq<Fragment>,
    b1: Seq<Fragment>,
    b2: Seq<Fragment>,
    a2: Seq<Fragment>,
    color_a: u32,
    color_b: u32,
)
    requires
        v.wf(),
        same_geometry(a1, a2),
        same_geometry(b1, b2),
        paints(v, a1, color_a),
        paints(v.draw(a1), b1, color_b),
        paints(v, b2, color_b),
        paints(v.draw(b2), a2, color_a),
        forall|i: int, j: int|
            0 <= i < a1.len() && 0 <= j < b1.len() && same_pixel(#[trigger] a1[i], #[trigger] b1[j])
                ==> a1[i].depth != b1[j].depth,
    ensures
        v.draw(a1).draw(b1) == v.draw(b2).draw(a2),
{
    let ra = recolored(a1, color_a);
    let rb = recolored(b1, color_b);
    lemma_recolor(v, a1, color_a);
    lemma_recolor(v.draw(a1), b1, color_b);
    lemma_recolor(v, b2, color_b);
    lemma_recolor(v.draw(b2), a2, color_a);
    assert(recolored(b2, color_b) =~= rb) by {
        assert forall|i: int| 0 <= i < b1.len() implies recolored(b2, color_b)[i] == rb[i] by {
            assert(b1[i].x == b2[i].x);
        }
    }
    assert(recolored(a2, color_a) =~= ra) by {
        assert forall|i: int| 0 <= i < a1.len() implies recolored(a2, color_a)[i] == ra[i] by {
            assert(a1[i].x == a2[i].x);
        }
    }
    assert forall|i: int, j: int|
        0 <= i < ra.len() && 0 <= j < rb.len() && same_pixel(
            #[trigger] ra[i],
            #[trigger] rb[j],
        ) implies ra[i].depth != rb[j].depth by {
        assert(same_pixel(a1[i], b1[j]));
    }
    lemma_draw_order_independent(v, ra, rb);
}

/// The byte that a pixel of colour `c` holds at position `k` of its four.
pub open spec fn pixel_byte(c: u32, k: int) -> u8 {
    if k == 0 {
        0u8
    } else if k == 1 {
        blue_of(c) as u8
    } else if k == 2 {
        green_of(c) as u8
    } else {
        red_of(c) as u8
    }
}

/// Byte `k` of display pixel `(x, y)` lies at `y * pitch + 4 * x + k` and
/// shows the frame's pixel `(x, height - 1 - y)`.
proof fn lemma_presented_pixel(v: FrameView, pitch: int, before: Seq<u8>, x: int, y: int, k: int)
    requires
        v.wf(),
        0 <= x < v.width,
        0 <= y < v.height,
        0 <= k < 4,
        4 * v.width <= pitch,
    ensures
        0 <= y * pitch,
        y * pitch + 4 * x + k < v.height * pitch,
        0 <= (v.height - 1 - y) * v.width + x < v.width * v.height,
        presented_byte(v, pitch, before, y * pitch + 4 * x + k) == pixel_byte(
            v.color[(v.height - 1 - y) * v.width + x],
            k,
        ),
{
    lemma_index_in_range(v.width, v.height, x, v.height - 1 - y);
    assert(0 <= y * pitch && y * pitch + pitch <= v.height * pitch) by (nonlinear_arith)
        requires
            0 <= y < v.height,
            0 <= pitch,
    ;
    let i = y * pitch + 4 * x + k;
    vstd::arithmetic::div_mod::lemma_fundamental_div_mod_converse(i, pitch, y, 4 * x + k);
    vstd::arithmetic::div_mod::lemma_fundamental_div_mod_converse(4 * x + k, 4, x, k);
}

/// The bytes of a display row behind its last pixel are not written.
proof fn lemma_presented_gap(v: FrameView, pitch: int, before: Seq<u8>, y: int, i: int)
    requires
        0 <= y,
        y * pitch + 4 * v.width <= i < y * pitch + pitch,
    ensures
        presented_byte(v, pitch, before, i) == before[i],
{
    vstd::arithmetic::div_mod::lemma_fundamental_div_mod_converse(i, pitch, y, i - y * pitch);
    let off = i - y * pitch;
    assert(off / 4 >= v.width) by {
        vstd::arithmetic::div_mod::lemma_div_is_ordered(4 * v.width as int, off, 4);
        vstd::arithmetic::div_mod::lemma_div_multiples_vanish(v.width as int, 4);
    }
}

/// The bytes behind the display's last row are not written.
proof fn lemma_presented_tail(v: FrameView, pitch: int, before: Seq<u8>, i: int)
    requires
        0 < pitch,
        v.height * pitch <= i,
    ensures
        presented_byte(v, pitch, before, i) == before[i],
{
    vstd::arithmetic::div_mod::lemma_div_is_ordered(v.height * pitch, i, pitch);
    vstd::arithmetic::div_mod::lemma_div_multiples_vanish(v.height as int, pitch);
    assert(v.height * pitch == pitch * v.height) by (nonlinear_arith);
}

/// The colour and depth buffers of one frame.
pub struct FrameBuffer {
    width: usize,
    height: usize,
    color: Vec<u32>,
    depth: Vec<u32>,
}

impl View for FrameBuffer {
    type V = FrameView;

    closed spec fn view(&self) -> FrameView {
        FrameView {
            width: self.width as nat,
            height: self.height as nat,
            color: self.color@,
            depth: self.depth@,
        }
    }
}

impl FrameBuffer {
    /// The buffers match the frame's size.
    pub open spec fn wf(&self) -> bool {
        self@.wf()
    }

    /// A black, infinitely far frame of `width` by `height` pixels.
    pub fn new(width: usize, height: usize) -> (fb: FrameBuffer)
        requires
            width * height <= usize::MAX,
        ensures
            fb.wf(),
            fb@ == FrameView::cleared(width as nat, height as nat, 0),
    {
        let n: usize = width * height;
        let mut color: Vec<u32> = Vec::new();
        let mut depth: Vec<u32> = Vec::new();
        let mut i: usize = 0;
        while i < n
            invariant
                i <= n,
                color@ == Seq::new(i as nat, |j: int| 0u32),
                depth@ == Seq::new(i as nat, |j: int| DEPTH_FAR),
            decreases n - i,
        {
            color.push(0);
            depth.push(DEPTH_FAR);
            i += 1;
            assert(color@ =~= Seq::new(i as nat, |j: int| 0u32));
            assert(depth@ =~= Seq::new(i as nat, |j: int| DEPTH_FAR));
        }
        FrameBuffer { width, height, color, depth }
    }

    /// The number of pixels in a row.
    pub fn width(&self) -> (w: usize)
        ensures
            w == self@.width,
    {
        self.width
    }

    /// The number of rows.
    pub fn height(&self) -> (h: usize)
        ensures
            h == self@.height,
    {
        self.height
    }

    /// The colour buffer, row by row from row 0.
    pub fn colors(&self) -> (colors: &Vec<u32>)
        ensures
            colors@ == self@.color,
    {
        &self.color
    }

    /// The depth buffer, row by row from row 0.
    pub fn depths(&self) -> (depths: &Vec<u32>)
        ensures
            depths@ == self@.depth,
    {
        &self.depth
    }

    /// Starts a new frame: every pixel gets `color` and becomes infinitely far.
    pub fn clear(&mut self, color: u32)
        requires
            old(self).wf(),
        ensures
            final(self).wf(),
            final(self)@ == FrameView::cleared(old(self)@.width, old(self)@.height, color),
    {
        let n: usize = self.color.len();
        let mut i: usize = 0;
        while i < n
            invariant
                i <= n,
                self.width == old(self).width,
                self.height == old(self).height,
                self.color.len() == n,
                self.depth.len() == n,
                n == self.width * self.height,
                forall|j: int| 0 <= j < i ==> self.color@[j] == color,
                forall|j: int| 0 <= j < i ==> self.depth@[j] == DEPTH_FAR,
            decreases n - i,
        {
            self.color[i] = color;
            self.depth[i] = DEPTH_FAR;
            i += 1;
        }
        assert(self.color@ =~= Seq::new(self@.width * self@.height, |j: int| color));
        assert(self.depth@ =~= Seq::new(self@.width * self@.height, |j: int| DEPTH_FAR));
    }

    /// Writes the frame into the pixel memory of a display whose rows are
    /// `pitch` bytes apart and run from the top down: row 0 of the frame goes
    /// to the last row of the display. Each pixel takes four bytes: a zero,
    /// then the blue, green and red channel of its colour. Bytes between the
    /// end of a row's pixels and the next row stay as they are.
    pub fn present(&self, buffer: &mut [u8], pitch: usize)
        requires
            self.wf(),
            4 * self@.width <= pitch,
            old(buffer)@.len() >= self@.height * pitch,
        ensures
            final(buffer)@.len() == old(buffer)@.len(),
            forall|i: int|
                0 <= i < old(buffer)@.len() ==> #[trigger] final(buffer)@[i] == presented_byte(
                    self@,
                    pitch as int,
                    old(buffer)@,
                    i,
                ),
    {
        let y_size: usize = self.height;
        let x_size: usize = self.width;
        let size: usize = buffer.len();
        let ghost before = buffer@;
        let mut y: usize = 0;
        proof {
            assert(0 * (pitch as int) == 0);
        }
        while y < y_size
            invariant
                y <= y_size,
                y_size == self.height,
                x_size == self.width,
                self.wf(),
                4 * x_size <= pitch,
                before == old(buffer)@,
                buffer@.len() == size,
                before.len() == size,
                size >= y_size * pitch,
                0 <= y * pitch <= size,
                forall|i: int|
                    0 <= i < y * pitch ==> #[trigger] buffer@[i] == presented_byte(
                        self@,
                        pitch as int,
                        before,
                        i,
                    ),
                forall|i: int| y * pitch <= i < size ==> #[trigger] buffer@[i] == before[i],
            decreases y_size - y,
        {
            let mut x: usize = 0;
            proof {
                assert(y * pitch + pitch <= y_size * pitch) by (nonlinear_arith)
                    requires
                        y < y_size,
                        0 <= pitch,
                ;
            }
            while x < x_size
                invariant
                    x <= x_size,
                    y < y_size,
                    y_size == self.height,
                    x_size == self.width,
                    self.wf(),
                    4 * x_size <= pitch,
                    buffer@.len() == size,
                    before.len() == size,
                    size >= y_size * pitch,
                    0 <= y * pitch,
                    y * pitch + pitch <= y_size * pitch,
                    forall|i: int|
                        0 <= i < y * pitch + 4 * x ==> #[trigger] buffer@[i] == presented_byte(
                            self@,
                            pitch as int,
                            before,
                            i,
                        ),
                    forall|i: int|
                        y * pitch + 4 * x <= i < size ==> #[trigger] buffer@[i] == before[i],
                decreases x_size - x,
            {
                proof {
                    lemma_presented_pixel(self@, pitch as int, before, x as int, y as int, 0);
                    lemma_presented_pixel(self@, pitch as int, before, x as int, y as int, 1);
                    lemma_presented_pixel(self@, pitch as int, before, x as int, y as int, 2);
                    lemma_presented_pixel(self@, pitch as int, before, x as int, y as int, 3);
                    vstd::std_specs::vec::axiom_spec_len(&self.color);
                }
                let offset: usize = y * pitch + x * 4;
                let c: u32 = self.color[(y_size - y - 1) * x_size + x];
                let (r, g, b) = unpack_rgb(c);
                buffer[offset] = 0;
                buffer[offset + 1] = b;
                buffer[offset + 2] = g;
                buffer[offset + 3] = r;
                x += 1;
            }
            proof {
                assert forall|i: int| 0 <= i < y * pitch + pitch implies #[trigger] buffer@[i]
                    == presented_byte(self@, pitch as int, before, i) by {
                    if i >= y * pitch + 4 * x_size {
                        lemma_presented_gap(self@, pitch as int, before, y as int, i);
                    }
                }
                assert((y + 1) * pitch == y * pitch + pitch) by (nonlinear_arith);
            }
            y += 1;
        }
        proof {
            assert forall|i: int| 0 <= i < size implies #[trigger] buffer@[i] == presented_byte(
                self@,
                pitch as int,
                before,
                i,
            ) by {
                if i >= y_size * pitch && pitch > 0 {
                    lemma_presented_tail(self@, pitch as int, before, i);
                }
            }
        }
    }

    /// Whether a fragment at `(x, y)` with this depth would pass the depth
    /// test. Positions outside the frame never pass.
    pub fn is_nearer(&self, x: usize, y: usize, depth: u32) -> (pass: bool)
        requires
            self.wf(),
        ensures
            pass == self@.accepts(Fragment { x, y, depth, color: 0 }),
    {
        if x < self.width && y < self.height {
            proof {
                lemma_index_in_range(self.width as nat, self.height as nat, x as int, y as int);
                vstd::std_specs::vec::axiom_spec_len(&self.depth);
            }
            self.depth[y * self.width + x] < depth
        } else {
            false
        }
    }

    /// Stores the colour and depth of a fragment that passes the depth test.
    pub fn store(&mut self, f: Fragment)
        requires
            old(self).wf(),
            old(self)@.accepts(f),
        ensures
            final(self).wf(),
            final(self)@ == old(self)@.plot(f),
    {
        proof {
            lemma_index_in_range(self.width as nat, self.height as nat, f.x as int, f.y as int);
            vstd::std_specs::vec::axiom_spec_len(&self.depth);
        }
        let i: usize = f.y * self.width + f.x;
        self.color[i] = f.color;
        self.depth[i] = f.depth;
    }

    /// Puts a fragment through the depth test and, if it is strictly nearer
    /// than what its pixel holds, stores its colour and depth. Says whether
    /// the pixel was written.
    pub fn plot(&mut self, f: Fragment) -> (written: bool)
        requires
            old(self).wf(),
        ensures
            final(self).wf(),
            written == old(self)@.accepts(f),
            final(self)@ == old(self)@.plot(f),
    {
        if f.x < self.width && f.y < self.height {
            proof {
                lemma_index_in_range(
                    self.width as nat,
                    self.height as nat,
                    f.x as int,
                    f.y as int,
                );
                vstd::std_specs::vec::axiom_spec_len(&self.depth);
            }
            let i: usize = f.y * self.width + f.x;
            if self.depth[i] < f.depth {
                self.color[i] = f.color;
                self.depth[i] = f.depth;
                true
            } else {
                false
            }
        } else {
            false
        }
    }
}

} // verus!
