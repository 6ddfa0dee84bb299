use soft_render::fps::Fps;
use soft_render::generator::{plane_indices, sphere_indices};
use soft_render::importobj::{IndexTuple, ModelObj, ObjError};
use soft_render::material::Material;

#[test]
fn plane_is_two_triangles() {
    assert_eq!(plane_indices(), vec![0, 1, 2, 0, 2, 3]);
}

#[test]
fn sphere_of_two_points() {
    // One band of two quads over two latitudes of three vertices each.
    assert_eq!(sphere_indices(2), vec![0, 3, 1, 4, 1, 3, 1, 4, 2, 5, 2, 4]);
}

#[test]
fn sphere_of_four_points() {
    let indices = sphere_indices(4);
    assert_eq!(indices.len(), 6 * 2 * 4);
    assert_eq!(&indices[..6], &[0, 5, 1, 6, 1, 5]);
    assert_eq!(&indices[18..24], &[3, 8, 4, 9, 4, 8]);
    // The second band starts at the second latitude.
    assert_eq!(&indices[24..30], &[5, 10, 6, 11, 6, 10]);
    assert_eq!(&indices[42..], &[8, 13, 9, 14, 9, 13]);
    assert_eq!(*indices.iter().max().unwrap(), 14);
}

#[test]
fn small_spheres_have_no_triangles() {
    assert!(sphere_indices(0).is_empty());
    assert!(sphere_indices(1).is_empty());
}

#[test]
fn sphere_indices_name_vertices() {
    for n in [3u32, 5, 8, 60] {
        let indices = sphere_indices(n);
        let vertices = (n / 2 + 1) * (n + 1);
        assert_eq!(indices.len() as u32, 6 * (n / 2) * n);
        assert!(indices.iter().all(|i| *i < vertices));
        assert_eq!(*indices.iter().max().unwrap(), vertices - 1);
    }
}

#[test]
fn fps_reports_after_each_batch() {
    let mut fps = Fps::new(3);
    assert_eq!(fps.counter_max(), 3);
    fps.start(1_000_000_000);
    assert_eq!(fps.time_start(), 1_000_000_000);
    assert!(!fps.update(1_010_000_000));
    assert!(!fps.update(1_020_000_000));
    assert_eq!(fps.batch_ms(), 0);
    assert!(fps.update(1_030_999_999));
    assert_eq!(fps.batch_ms(), 30);
    assert_eq!(fps.time_start(), 1_030_999_999);
    assert!(!fps.update(1_040_000_000));
    assert!(!fps.update(1_050_000_000));
    assert!(fps.update(2_030_999_999));
    assert_eq!(fps.batch_ms(), 1000);
}

#[test]
fn fps_with_batches_of_one() {
    let mut fps = Fps::new(1);
    assert!(fps.update(5_000_000));
    assert_eq!(fps.batch_ms(), 5);
    assert!(fps.update(5_000_000));
    assert_eq!(fps.batch_ms(), 0);
}

#[test]
fn fps_start_forgets_the_batch() {
    let mut fps = Fps::new(2);
    assert!(!fps.update(7));
    fps.start(100);
    assert!(!fps.update(200));
    assert!(fps.update(3_000_100));
    assert_eq!(fps.batch_ms(), 3);
    fps.start(0);
    assert_eq!(fps.batch_ms(), 0);
}

type Builder = ModelObj<i32>;

/// A file with four positions, two normals and three texture coordinates.
fn builder() -> Builder {
    ModelObj::new(
        vec![[0, 0, 0], [1, 0, 0], [1, 1, 0], [0, 1, 0]],
        vec![[0, 0, 1], [0, 0, -1]],
        vec![[10, 10], [20, 20], [30, 30]],
        [0, 0, 0],
        [1, 1, 0],
        Material::new(7),
        0,
    )
}

fn corner(p: usize, t: Option<usize>, n: Option<usize>) -> IndexTuple {
    IndexTuple(p, t, n)
}

#[test]
fn each_distinct_corner_becomes_one_vertex() {
    let mut b = builder();
    assert_eq!(b.get_index(corner(2, Some(1), Some(0))), Ok(0));
    assert_eq!(b.get_index(corner(0, None, None)), Ok(1));
    assert_eq!(b.get_index(corner(2, Some(1), Some(0))), Ok(0));
    assert_eq!(b.get_index(corner(2, Some(1), Some(1))), Ok(2));
    assert_eq!(b.get_index(corner(2, Some(1), None)), Ok(3));
    assert_eq!(b.get_index(corner(2, None, Some(0))), Ok(4));
    assert_eq!(b.get_index(corner(0, None, None)), Ok(1));
    assert_eq!(b.get_index(corner(2, Some(1), Some(1))), Ok(2));
    assert_eq!(b.vertex_count(), 5);

    let model = b.finish();
    assert_eq!(model.vertex_buffer.len(), 5);
    let v = &model.vertex_buffer[0];
    assert_eq!((v.position, v.tex, v.normal), ([1, 1, 0], [20, 20], [0, 0, 1]));
    let v = &model.vertex_buffer[1];
    assert_eq!((v.position, v.tex, v.normal), ([0, 0, 0], [0, 0], [0, 0, 0]));
    let v = &model.vertex_buffer[2];
    assert_eq!((v.position, v.tex, v.normal), ([1, 1, 0], [20, 20], [0, 0, -1]));
    let v = &model.vertex_buffer[3];
    assert_eq!((v.position, v.tex, v.normal), ([1, 1, 0], [20, 20], [0, 0, 0]));
    let v = &model.vertex_buffer[4];
    assert_eq!((v.position, v.tex, v.normal), ([1, 1, 0], [0, 0], [0, 0, 1]));
}

#[test]
fn corners_that_the_file_lacks_are_refused() {
    let mut b = builder();
    assert_eq!(b.get_index(corner(4, None, None)), Err(ObjError::BadIndex));
    assert_eq!(b.get_index(corner(0, Some(3), None)), Err(ObjError::BadIndex));
    assert_eq!(b.get_index(corner(0, None, Some(2))), Err(ObjError::BadIndex));
    assert_eq!(b.get_index(corner(usize::MAX, None, None)), Err(ObjError::BadIndex));
    assert_eq!(b.vertex_count(), 0);
    assert_eq!(b.get_index(corner(3, Some(2), Some(1))), Ok(0));
}

#[test]
fn a_triangle_adds_three_indices_and_a_quad_six() {
    let mut b = builder();
    let c = |p: usize| corner(p, None, None);
    assert_eq!(b.add_polygon(&vec![c(0), c(1), c(2)]), Ok(()));
    assert_eq!(b.add_polygon(&vec![c(0), c(2), c(3), c(1)]), Ok(()));
    b.end_group(None);
    let model = b.finish();
    assert_eq!(model.mesh_list.len(), 1);
    assert_eq!(model.mesh_list[0].index_buffer, vec![0, 1, 2, 0, 2, 3, 0, 3, 1]);
    assert_eq!(model.mesh_list[0].material_id, 0);
    assert_eq!(model.vertex_buffer.len(), 4);
    assert_eq!(model.vertex_buffer[3].position, [0, 1, 0]);
    assert!(model.check());
}

#[test]
fn polygons_of_other_sizes_are_refused() {
    let mut b = builder();
    let c = |p: usize| corner(p, None, None);
    assert_eq!(b.add_polygon(&vec![]), Err(ObjError::BadPolygon));
    assert_eq!(b.add_polygon(&vec![c(0), c(1)]), Err(ObjError::BadPolygon));
    assert_eq!(b.add_polygon(&vec![c(0), c(1), c(2), c(3), c(0)]), Err(ObjError::BadPolygon));
    assert_eq!(b.vertex_count(), 0);
    b.end_group(None);
    let model = b.finish();
    assert!(model.mesh_list[0].index_buffer.is_empty());
}

#[test]
fn a_polygon_with_a_bad_corner_leaves_the_mesh_as_it_is() {
    let mut b = builder();
    let c = |p: usize| corner(p, None, None);
    assert_eq!(b.add_polygon(&vec![c(0), c(1), c(2)]), Ok(()));
    assert_eq!(b.add_polygon(&vec![c(3), c(9), c(2)]), Err(ObjError::BadIndex));
    // The corner before the bad one has become a vertex.
    assert_eq!(b.vertex_count(), 4);
    b.end_group(None);
    let model = b.finish();
    assert_eq!(model.mesh_list[0].index_buffer, vec![0, 1, 2]);
    assert!(model.check());
}

#[test]
fn each_group_becomes_a_mesh_with_its_material() {
    let mut b = builder();
    let c = |p: usize| corner(p, Some(0), None);
    assert_eq!(b.add_polygon(&vec![c(0), c(1), c(2)]), Ok(()));
    b.end_group(None);
    assert_eq!(b.add_polygon(&vec![c(2), c(1), c(3)]), Ok(()));
    b.end_group(Some(Material::new(40)));
    b.end_group(Some(Material::new(50)));
    assert_eq!(b.add_polygon(&vec![c(3), c(2), c(1), c(0)]), Ok(()));
    b.end_group(None);

    let model = b.finish();
    assert_eq!(model.bounds(), Some(([0, 0, 0], [1, 1, 0])));
    assert_eq!(model.material_list.len(), 3);
    assert_eq!(model.material_list[0].ambient_intensity, 7);
    assert_eq!(model.material_list[1].ambient_intensity, 40);
    assert_eq!(model.material_list[2].ambient_intensity, 50);
    let meshes: Vec<(Vec<u32>, usize)> =
        model.mesh_list.iter().map(|m| (m.index_buffer.clone(), m.material_id)).collect();
    assert_eq!(
        meshes,
        vec![
            (vec![0, 1, 2], 0),
            (vec![2, 1, 3], 1),
            (vec![], 2),
            (vec![3, 2, 1, 3, 1, 0], 0),
        ]
    );
    assert!(model.check());
}

#[test]
fn an_open_mesh_is_left_out() {
    let mut b = builder();
    let c = |p: usize| corner(p, None, None);
    assert_eq!(b.add_polygon(&vec![c(0), c(1), c(2)]), Ok(()));
    let model = b.finish();
    assert!(model.mesh_list.is_empty());
    assert_eq!(model.vertex_buffer.len(), 3);
}
