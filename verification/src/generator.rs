//! Index lists of generated meshes.

use vstd::prelude::*;
use vstd::arithmetic::div_mod::lemma_fundamental_div_mod_converse;

verus! {

/// The number of vertices of a sphere with `n` points in each circle: one
/// row of `n + 1` points for each of `n / 2 + 1` latitudes.
pub open spec fn sphere_vertex_count(n: int) -> int {
    (n / 2 + 1) * (n + 1)
}

/// The number of indices of a sphere with `n` points in each circle: two
/// triangles for each of the `n` quads between neighbouring latitudes.
pub open spec fn sphere_index_count(n: int) -> int {
    6 * ((n / 2) * n)
}

/// Index `t` of a sphere with `n` points in each circle. Quad `t / 6` lies
/// between latitude `ix` and the next, at longitude `iy`; its two triangles
/// are lower left, upper left, lower right and upper right, lower right,
/// upper left.
pub open spec fn sphere_index(n: int, t: int) -> int {
    let quad = t / 6;
    let corner = t % 6;
    let ix = quad / n;
    let iy = quad % n;
    let z1 = ix * (n + 1);
    let z2 = z1 + (n + 1);
    if corner == 0 {
        z1 + iy
    } else if corner == 1 || corner == 5 {
        z2 + iy
    } else if corner == 2 || corner == 4 {
        z1 + iy + 1
    } else {
        z2 + iy + 1
    }
}

/// Where the six indices of the quad at latitude `ix`, longitude `iy` stand,
/// what they are, and that each names a vertex of the sphere.
proof fn lemma_quad(n: int, ix: int, iy: int, corner: int)
    requires
        0 <= ix < n / 2,
        0 <= iy < n,
        0 <= corner < 6,
    ensures
        ({
            let t = 6 * (ix * n + iy) + corner;
            let z1 = ix * (n + 1);
            let z2 = z1 + (n + 1);
            &&& 0 <= z1
            &&& z2 + iy + 1 < sphere_vertex_count(n)
            &&& 0 <= t < sphere_index_count(n)
            &&& sphere_index(n, t) == if corner == 0 {
                z1 + iy
            } else if corner == 1 || corner == 5 {
                z2 + iy
            } else if corner == 2 || corner == 4 {
                z1 + iy + 1
            } else {
                z2 + iy + 1
            }
        }),
{
    let quad = ix * n + iy;
    let t = 6 * quad + corner;
    assert(0 <= ix * n && 0 <= ix * (n + 1) && ix * (n + 1) + (n + 1) + iy + 1 < (n / 2 + 1) * (n
        + 1) && ix * n + iy < (n / 2) * n) by (nonlinear_arith)
        requires
            0 <= ix < n / 2,
            0 <= iy < n,
    ;
    lemma_fundamental_div_mod_converse(t, 6, quad, corner);
    lemma_fundamental_div_mod_converse(quad, n, ix, iy);
}

/// The triangles of a sphere whose vertices are stored latitude by latitude,
/// `points_in_circle + 1` to each: three indices for each triangle.
pub fn sphere_indices(points_in_circle: u32) -> (indices: Vec<u32>)
    requires
        sphere_vertex_count(points_in_circle as int) <= u32::MAX,
        sphere_index_count(points_in_circle as int) <= usize::MAX,
    ensures
        indices@.len() == sphere_index_count(points_in_circle as int),
        forall|t: int|
            0 <= t < indices@.len() ==> #[trigger] indices@[t] == sphere_index(
                points_in_circle as int,
                t,
            ),
        forall|t: int|
            0 <= t < indices@.len() ==> (#[trigger] indices@[t]) < sphere_vertex_count(
                points_in_circle as int,
            ),
{
    let ghost n = points_in_circle as int;
    let mut indices: Vec<u32> = Vec::new();
    let rows: u32 = points_in_circle / 2;
    let mut ix: u32 = 0;
    proof {
        assert(n + 1 <= (n / 2 + 1) * (n + 1)) by (nonlinear_arith)
            requires
                0 <= n,
        ;
        assert(0 * n == 0);
    }
    while ix < rows
        invariant
            ix <= rows,
            rows == n / 2,
            n == points_in_circle,
            n + 1 <= u32::MAX,
            sphere_vertex_count(n) <= u32::MAX,
            indices@.len() == 6 * (ix * n),
            forall|t: int| 0 <= t < indices@.len() ==> #[trigger] indices@[t] == sphere_index(n, t),
            forall|t: int|
                0 <= t < indices@.len() ==> (#[trigger] indices@[t]) < sphere_vertex_count(n),
        decreases rows - ix,
    {
        proof {
            if n > 0 {
                lemma_quad(n, ix as int, 0, 0);
            }
            assert(0 <= ix * (n + 1) && ix * (n + 1) + (n + 1) <= (n / 2 + 1) * (n + 1))
                by (nonlinear_arith)
                requires
                    0 <= ix < n / 2,
            ;
        }
        let z1: u32 = ix * (points_in_circle + 1);
        let z2: u32 = z1 + (points_in_circle + 1);
        let mut iy: u32 = 0;
        while iy < points_in_circle
            invariant
                iy <= points_in_circle,
                ix < rows,
                rows == n / 2,
                n == points_in_circle,
                z1 == ix * (n + 1),
                z2 == z1 + (n + 1),
                sphere_vertex_count(n) <= u32::MAX,
                indices@.len() == 6 * (ix * n + iy),
                forall|t: int|
                    0 <= t < indices@.len() ==> #[trigger] indices@[t] == sphere_index(n, t),
                forall|t: int|
                    0 <= t < indices@.len() ==> (#[trigger] indices@[t]) < sphere_vertex_count(n),
            decreases points_in_circle - iy,
        {
            proof {
                lemma_quad(n, ix as int, iy as int, 0);
                lemma_quad(n, ix as int, iy as int, 1);
                lemma_quad(n, ix as int, iy as int, 2);
                lemma_quad(n, ix as int, iy as int, 3);
                lemma_quad(n, ix as int, iy as int, 4);
                lemma_quad(n, ix as int, iy as int, 5);
            }
            indices.push(z1 + iy);
            indices.push(z2 + iy);
            indices.push(z1 + iy + 1);

            indices.push(z2 + iy + 1);
            indices.push(z1 + iy + 1);
            indices.push(z2 + iy);
            iy += 1;
        }
        ix += 1;
        proof {
            assert(ix * n == (ix - 1) * n + n) by (nonlinear_arith);
        }
    }
    indices
}

/// The two triangles of a quad with corners 0 to 3: `0 1 2` and `0 2 3`.
pub fn plane_indices() -> (indices: Vec<u32>)
    ensures
        indices@ == seq![0u32, 1, 2, 0, 2, 3],
{
    let mut indices: Vec<u32> = Vec::new();
    indices.push(0);
    indices.push(1);
    indices.push(2);
    indices.push(0);
    indices.push(2);
    indices.push(3);
    assert(indices@ =~= seq![0u32, 1, 2, 0, 2, 3]);
    indices
}

} // verus!
