//! Builds a model from the parts of a Wavefront OBJ file: every distinct
//! combination of position, texture coordinate and normal becomes one vertex,
//! and every polygon becomes one or two triangles over those vertices.

use vstd::prelude::*;
use crate::material::Material;
use crate::mesh::{lemma_triangles_monotone, triangles_in, Mesh, Model, Vertex};

verus! {

/// The corner of a polygon: the index of its position and, where it has
/// them, of its texture coordinate and its normal.
#[derive(Clone, Copy, Debug, PartialEq, Eq, Hash)]
pub struct IndexTuple(pub usize, pub Option<usize>, pub Option<usize>);

/// Why a polygon could not be added.
#[derive(Clone, Copy, Debug, PartialEq, Eq, Structural)]
pub enum ObjError {
    /// A corner names a position, texture coordinate or normal that the file
    /// does not have.
    BadIndex,
    /// The polygon has neither three nor four corners.
    BadPolygon,
    /// The model would have more vertices or triangles than 32 bits count.
    TooLarge,
}

/// Whether two optional indices are the same.
fn same_option(a: Option<usize>, b: Option<usize>) -> (r: bool)
    ensures
        r == (a == b),
{
    match a {
        Some(x) => match b {
            Some(y) => x == y,
            None => false,
        },
        None => match b {
            Some(_) => false,
            None => true,
        },
    }
}

/// Whether two corners are the same.
fn same_corner(a: IndexTuple, b: IndexTuple) -> (r: bool)
    ensures
        r == (a == b),
{
    a.0 == b.0 && same_option(a.1, b.1) && same_option(a.2, b.2)
}

/// Whether `(key, id)` is an entry of the bucket.
pub open spec fn listed(bucket: Seq<(IndexTuple, u32)>, key: IndexTuple, id: int) -> bool {
    exists|j: int| 0 <= j < bucket.len() && #[trigger] bucket[j] == (key, id as u32)
}

/// A model under construction.
pub struct ModelObj<N> {
    model: Model<N>,
    current: Mesh,
    keys: Vec<IndexTuple>,
    buckets: Vec<Vec<(IndexTuple, u32)>>,
    position_buffer: Vec<[N; 3]>,
    normal_buffer: Vec<[N; 3]>,
    tex_buffer: Vec<[N; 2]>,
    zero: N,
    triangles: u32,
}

impl<N> ModelObj<N> {
    /// Whether the file has what the corner names.
    pub closed spec fn in_range(&self, key: IndexTuple) -> bool {
        &&& key.0 < self.position_buffer@.len()
        &&& key.1 matches Some(t) ==> t < self.tex_buffer@.len()
        &&& key.2 matches Some(n) ==> n < self.normal_buffer@.len()
    }

    /// The vertex that a corner stands for: its position, and its texture
    /// coordinate and normal where it has them, else zeros.
    pub closed spec fn vertex_of(&self, key: IndexTuple) -> Vertex<N> {
        Vertex {
            position: self.position_buffer@[key.0 as int],
            tex: match key.1 {
                Some(t) => self.tex_buffer@[t as int],
                None => [self.zero, self.zero],
            },
            normal: match key.2 {
                Some(n) => self.normal_buffer@[n as int],
                None => [self.zero, self.zero, self.zero],
            },
        }
    }

    /// The distinct corners seen so far, in the order of their first use:
    /// corner `i` made vertex `i`.
    pub closed spec fn corners(&self) -> Seq<IndexTuple> {
        self.keys@
    }

    /// The model built so far, without the mesh under construction.
    pub closed spec fn model(&self) -> Model<N> {
        self.model
    }

    /// The indices of the mesh under construction.
    pub closed spec fn open_indices(&self) -> Seq<u32> {
        self.current.index_buffer@
    }

    /// Whether `self` continues `before`: the file's data, the materials and
    /// the finished meshes are the same, and the vertices made before are
    /// still the first vertices.
    pub closed spec fn extends(&self, before: &ModelObj<N>) -> bool {
        &&& self.position_buffer@ == before.position_buffer@
        &&& self.normal_buffer@ == before.normal_buffer@
        &&& self.tex_buffer@ == before.tex_buffer@
        &&& self.zero == before.zero
        &&& self.model.material_list@ == before.model.material_list@
        &&& self.model.mesh_list@ == before.model.mesh_list@
        &&& self.model.bounding_box() == before.model.bounding_box()
        &&& before.keys@.len() <= self.keys@.len()
        &&& self.keys@.subrange(0, before.keys@.len() as int) =~= before.keys@
    }

    /// A later state knows every corner that an earlier one knew, under the
    /// same number, and has the same data to make vertices from.
    pub proof fn lemma_extends(&self, before: &ModelObj<N>, key: IndexTuple)
        requires
            self.extends(before),
        ensures
            self.in_range(key) == before.in_range(key),
            self.vertex_of(key) == before.vertex_of(key),
            before.corners().len() <= self.corners().len(),
            forall|i: int|
                0 <= i < before.corners().len() ==> self.corners()[i] == before.corners()[i],
            self.model().material_list@ == before.model().material_list@,
            self.model().mesh_list@ == before.model().mesh_list@,
    {
        assert forall|i: int| 0 <= i < before.corners().len() implies self.corners()[i]
            == before.corners()[i] by {
            assert(self.keys@.subrange(0, before.keys@.len() as int)[i] == before.keys@[i]);
        }
    }

    /// Continuing is transitive.
    pub proof fn lemma_extends_twice(&self, middle: &ModelObj<N>, before: &ModelObj<N>)
        requires
            self.extends(middle),
            middle.extends(before),
        ensures
            self.extends(before),
    {
        assert forall|i: int| 0 <= i < before.keys@.len() implies self.keys@[i]
            == before.keys@[i] by {
            assert(self.keys@.subrange(0, middle.keys@.len() as int)[i] == middle.keys@[i]);
            assert(middle.keys@.subrange(0, before.keys@.len() as int)[i] == before.keys@[i]);
        }
    }

    /// Every corner seen so far has its vertex, and every index of every
    /// mesh names a vertex.
    pub closed spec fn wf(&self) -> bool {
        &&& self.buckets@.len() == self.position_buffer@.len()
        &&& self.keys@.len() == self.model.vertex_buffer@.len()
        &&& self.keys@.len() <= u32::MAX
        &&& forall|p: int, j: int|
            0 <= p < self.buckets@.len() && 0 <= j < self.buckets@[p]@.len() ==> {
                let e = #[trigger] self.buckets@[p]@[j];
                e.0.0 == p && e.1 < self.keys@.len() && self.keys@[e.1 as int] == e.0
            }
        &&& forall|id: int|
            0 <= id < self.keys@.len() ==> {
                let key = #[trigger] self.keys@[id];
                &&& self.in_range(key)
                &&& listed(self.buckets@[key.0 as int]@, key, id)
                &&& self.model.vertex_buffer@[id] == self.vertex_of(key)
            }
        &&& self.model.material_list@.len() >= 1
        &&& forall|i: int|
            0 <= i < self.model.mesh_list@.len() ==> {
                &&& (#[trigger] self.model.mesh_list@[i]).fits(self.keys@.len())
                &&& self.model.mesh_list@[i].material_id < self.model.material_list@.len()
            }
        &&& self.current.index_buffer@.len() % 3 == 0
        &&& forall|i: int|
            0 <= i < self.current.index_buffer@.len() ==> (#[trigger] self.current.index_buffer@[i])
                < self.keys@.len()
        &&& triangles_in(self.model.mesh_list@, self.model.mesh_list@.len() as int)
            + self.current.index_buffer@.len() / 3 == self.triangles
    }
}

impl<N: Copy> ModelObj<N> {
    /// Starts a model from the positions, normals and texture coordinates of
    /// a file. The model gets the corners `min` and `max` of its bounding box
    /// and `default_material` as material 0, which meshes without a material
    /// of their own use. `zero` stands in for a texture coordinate or normal
    /// that a corner lacks.
    pub fn new(
        position_buffer: Vec<[N; 3]>,
        normal_buffer: Vec<[N; 3]>,
        tex_buffer: Vec<[N; 2]>,
        min: [N; 3],
        max: [N; 3],
        default_material: Material<N>,
        zero: N,
    ) -> (this: ModelObj<N>)
        ensures
            this.wf(),
            this.corners() == Seq::<IndexTuple>::empty(),
            this.open_indices() == Seq::<u32>::empty(),
            this.model().vertex_buffer@.len() == 0,
            this.model().mesh_list@.len() == 0,
            this.model().material_list@ == seq![default_material],
            this.model().bounding_box() == Some((min, max)),
            forall|key: IndexTuple|
                this.in_range(key) <==> {
                    &&& key.0 < position_buffer@.len()
                    &&& key.1 matches Some(t) ==> t < tex_buffer@.len()
                    &&& key.2 matches Some(n) ==> n < normal_buffer@.len()
                },
    {
        let mut model = Model::with_normalize(min, max);
        model.material_list.push(default_material);
        let n: usize = position_buffer.len();
        let mut buckets: Vec<Vec<(IndexTuple, u32)>> = Vec::new();
        let mut i: usize = 0;
        while i < n
            invariant
                i <= n,
                buckets@.len() == i,
                forall|p: int| 0 <= p < i ==> (#[trigger] buckets@[p])@.len() == 0,
            decreases n - i,
        {
            buckets.push(Vec::new());
            i += 1;
        }
        assert(model.material_list@ =~= seq![default_material]);
        ModelObj {
            model,
            current: Mesh::new(),
            keys: Vec::new(),
            buckets,
            position_buffer,
            normal_buffer,
            tex_buffer,
            zero,
            triangles: 0,
        }
    }

    /// Whether the file has what the corner names.
    fn check_range(&self, key: IndexTuple) -> (ok: bool)
        ensures
            ok == self.in_range(key),
    {
        if key.0 >= self.position_buffer.len() {
            return false;
        }
        match key.1 {
            Some(t) => {
                if t >= self.tex_buffer.len() {
                    return false;
                }
            },
            None => {},
        }
        match key.2 {
            Some(n) => {
                if n >= self.normal_buffer.len() {
                    return false;
                }
            },
            None => {},
        }
        true
    }

    /// The number of the vertex that a corner was given, if it was seen
    /// before.
    fn find(&self, key: IndexTuple) -> (found: Option<u32>)
        requires
            self.wf(),
            self.in_range(key),
        ensures
            found matches Some(id) ==> id < self.corners().len() && self.corners()[id as int] == key,
            found is None ==> !self.corners().contains(key),
    {
        let bucket = &self.buckets[key.0];
        assert forall|k: int| 0 <= k < bucket@.len() implies {
            let e = #[trigger] bucket@[k];
            e.1 < self.keys@.len() && self.keys@[e.1 as int] == e.0
        } by {
            let e = self.buckets@[key.0 as int]@[k];
        }
        let mut j: usize = 0;
        while j < bucket.len()
            invariant
                j <= bucket@.len(),
                forall|k: int| 0 <= k < j ==> (#[trigger] bucket@[k]).0 != key,
                forall|k: int|
                    0 <= k < bucket@.len() ==> {
                        let e = #[trigger] bucket@[k];
                        e.1 < self.keys@.len() && self.keys@[e.1 as int] == e.0
                    },
            decreases bucket@.len() - j,
        {
            if same_corner(bucket[j].0, key) {
                return Some(bucket[j].1);
            }
            j += 1;
        }
        proof {
            if self.keys@.contains(key) {
                let id = choose|id: int| 0 <= id < self.keys@.len() && self.keys@[id] == key;
                assert(listed(self.buckets@[key.0 as int]@, self.keys@[id], id));
                let k = choose|k: int|
                    0 <= k < bucket@.len() && #[trigger] bucket@[k] == (key, id as u32);
                assert(bucket@[k].0 == key);
            }
        }
        None
    }
}

impl<N: Copy> ModelObj<N> {
    /// The number of the vertex that stands for a corner. A corner that was
    /// not seen before gets a new vertex, the next in the model's vertex
    /// buffer; a corner that was seen before gets the vertex it got then.
    pub fn get_index(&mut self, key: IndexTuple) -> (r: Result<u32, ObjError>)
        requires
            old(self).wf(),
        ensures
            final(self).wf(),
            final(self).extends(old(self)),
            forall|k: IndexTuple| final(self).in_range(k) == old(self).in_range(k),
            final(self).open_indices() == old(self).open_indices(),
            final(self).triangle_count() == old(self).triangle_count(),
            !old(self).in_range(key) ==> r == Err::<u32, ObjError>(ObjError::BadIndex),
            r == Err::<u32, ObjError>(ObjError::BadIndex) ==> !old(self).in_range(key),
            r is Err ==> final(self).corners() == old(self).corners(),
            old(self).in_range(key) && old(self).corners().contains(key) ==> {
                &&& r matches Ok(id)
                &&& final(self).corners() == old(self).corners()
                &&& id < final(self).corners().len()
                &&& final(self).corners()[id as int] == key
            },
            old(self).in_range(key) && !old(self).corners().contains(key) ==> {
                if old(self).corners().len() < u32::MAX {
                    &&& r == Ok::<u32, ObjError>(old(self).corners().len() as u32)
                    &&& final(self).corners() == old(self).corners().push(key)
                } else {
                    r == Err::<u32, ObjError>(ObjError::TooLarge)
                }
            },
    {
        if !self.check_range(key) {
            return Err(ObjError::BadIndex);
        }
        match self.find(key) {
            Some(id) => {
                return Ok(id);
            },
            None => {},
        }
        let len: usize = self.keys.len();
        if len >= 0xFFFF_FFFF {
            return Err(ObjError::TooLarge);
        }
        let id: u32 = len as u32;
        let zero2: [N; 2] = [self.zero, self.zero];
        let zero3: [N; 3] = [self.zero, self.zero, self.zero];
        let tex: [N; 2] = match key.1 {
            Some(t) => self.tex_buffer[t],
            None => zero2,
        };
        let normal: [N; 3] = match key.2 {
            Some(n) => self.normal_buffer[n],
            None => zero3,
        };
        let vertex = Vertex::new(&self.position_buffer[key.0], &tex, &normal);
        assert(vertex == self.vertex_of(key));
        self.model.vertex_buffer.push(vertex);
        self.keys.push(key);
        self.buckets[key.0].push((key, id));
        proof {
            let new_bucket = self.buckets@[key.0 as int]@;
            let old_bucket = old(self).buckets@[key.0 as int]@;
            assert(new_bucket == old_bucket.push((key, id)));
            assert forall|p: int, j: int|
                0 <= p < self.buckets@.len() && 0 <= j < self.buckets@[p]@.len() implies {
                let e = #[trigger] self.buckets@[p]@[j];
                e.0.0 == p && e.1 < self.keys@.len() && self.keys@[e.1 as int] == e.0
            } by {
                if p == key.0 && j == old_bucket.len() {
                } else {
                    let e = old(self).buckets@[p]@[j];
                    assert(self.buckets@[p]@[j] == e);
                }
            }
            assert forall|i: int| 0 <= i < self.keys@.len() implies {
                let k = #[trigger] self.keys@[i];
                &&& self.in_range(k)
                &&& listed(self.buckets@[k.0 as int]@, k, i)
                &&& self.model.vertex_buffer@[i] == self.vertex_of(k)
            } by {
                let k = self.keys@[i];
                if i < len {
                    assert(k == old(self).keys@[i]);
                    let j = choose|j: int|
                        0 <= j < old(self).buckets@[k.0 as int]@.len() && #[trigger] old(
                            self,
                        ).buckets@[k.0 as int]@[j] == (k, i as u32);
                    assert(self.buckets@[k.0 as int]@[j] == (k, i as u32));
                } else {
                    assert(new_bucket[old_bucket.len() as int] == (key, id));
                }
            }
            assert forall|i: int| 0 <= i < self.model.mesh_list@.len() implies {
                &&& (#[trigger] self.model.mesh_list@[i]).fits(self.keys@.len())
                &&& self.model.mesh_list@[i].material_id < self.model.material_list@.len()
            } by {
                assert(old(self).model.mesh_list@[i].fits(old(self).keys@.len()));
            }
        }
        Ok(id)
    }
}

/// The indices that a polygon adds to a mesh, from the vertex numbers of its
/// corners: a triangle as it is, a quad as the triangles `0 1 2` and `0 2 3`.
pub open spec fn polygon_indices(ids: Seq<u32>) -> Seq<u32> {
    if ids.len() == 3 {
        ids
    } else {
        seq![ids[0], ids[1], ids[2], ids[0], ids[2], ids[3]]
    }
}

impl<N: Copy> ModelObj<N> {
    /// Adds a polygon of three or four corners to the mesh under
    /// construction. Its corners get their vertices in order; if one of them
    /// fails, the mesh stays as it is, though earlier corners of the polygon
    /// may have become vertices.
    pub fn add_polygon(&mut self, polygon: &Vec<IndexTuple>) -> (r: Result<(), ObjError>)
        requires
            old(self).wf(),
        ensures
            final(self).wf(),
            final(self).extends(old(self)),
            forall|k: IndexTuple| final(self).in_range(k) == old(self).in_range(k),
            polygon@.len() != 3 && polygon@.len() != 4 ==> {
                &&& r == Err::<(), ObjError>(ObjError::BadPolygon)
                &&& final(self).corners() == old(self).corners()
            },
            r == Err::<(), ObjError>(ObjError::BadPolygon) ==> polygon@.len() != 3 && polygon@.len()
                != 4,
            r == Err::<(), ObjError>(ObjError::BadIndex) ==> exists|k: int|
                0 <= k < polygon@.len() && !old(self).in_range(#[trigger] polygon@[k]),
            (exists|k: int| 0 <= k < polygon@.len() && !old(self).in_range(#[trigger] polygon@[k]))
                ==> r is Err,
            r is Err ==> final(self).open_indices() == old(self).open_indices(),
            r is Ok ==> exists|ids: Seq<u32>|
                {
                    &&& ids.len() == polygon@.len()
                    &&& forall|k: int|
                        0 <= k < ids.len() ==> (#[trigger] ids[k]) < final(self).corners().len()
                            && final(self).corners()[ids[k] as int] == polygon@[k]
                    &&& final(self).open_indices() == old(self).open_indices() + polygon_indices(
                        ids,
                    )
                },
            ({
                &&& polygon@.len() == 3 || polygon@.len() == 4
                &&& forall|k: int| 0 <= k < polygon@.len() ==> old(self).in_range(polygon@[k])
                &&& old(self).corners().len() + 4 <= u32::MAX
                &&& old(self).triangle_count() + 2 <= u32::MAX
            }) ==> r is Ok,
    {
        let n: usize = polygon.len();
        if n != 3 && n != 4 {
            return Err(ObjError::BadPolygon);
        }
        let mut ids: Vec<u32> = Vec::new();
        let mut k: usize = 0;
        while k < n
            invariant
                k <= n,
                n == polygon@.len(),
                n == 3 || n == 4,
                self.wf(),
                self.extends(old(self)),
                self.open_indices() == old(self).open_indices(),
                self.triangle_count() == old(self).triangle_count(),
                self.corners().len() <= old(self).corners().len() + k,
                ids@.len() == k,
                forall|j: int| 0 <= j < k ==> old(self).in_range(#[trigger] polygon@[j]),
                forall|j: int|
                    0 <= j < k ==> (#[trigger] ids@[j]) < self.corners().len() && self.corners()[ids@[j] as int]
                        == polygon@[j],
            decreases n - k,
        {
            let ghost before = *self;
            proof {
                self.lemma_extends(old(self), polygon@[k as int]);
            }
            match self.get_index(polygon[k]) {
                Ok(id) => {
                    proof {
                        self.lemma_extends(&before, polygon@[k as int]);
                        self.lemma_extends_twice(&before, old(self));
                        assert(self.corners()[id as int] == polygon@[k as int]);
                    }
                    ids.push(id);
                },
                Err(e) => {
                    proof {
                        self.lemma_extends_twice(&before, old(self));
                        if e == ObjError::BadIndex {
                        }
                    }
                    return Err(e);
                },
            }
            k += 1;
        }
        let add: u32 = if n == 3 { 1 } else { 2 };
        if self.triangles > 0xFFFF_FFFF - add {
            return Err(ObjError::TooLarge);
        }
        let ghost open = self.current.index_buffer@;
        proof {
            assert(forall|j: int| 0 <= j < ids@.len() ==> (#[trigger] ids@[j]) < self.keys@.len());
        }
        self.current.index_buffer.push(ids[0]);
        self.current.index_buffer.push(ids[1]);
        self.current.index_buffer.push(ids[2]);
        if n == 4 {
            self.current.index_buffer.push(ids[0]);
            self.current.index_buffer.push(ids[2]);
            self.current.index_buffer.push(ids[3]);
        }
        self.triangles = self.triangles + add;
        proof {
            assert(self.current.index_buffer@ =~= open + polygon_indices(ids@));
            assert(self.extends(old(self)));
        }
        Ok(())
    }

    /// Closes the mesh under construction and adds it to the model. With a
    /// material the mesh uses that one, which joins the model's materials;
    /// without, it uses material 0. The next polygons start a new mesh.
    pub fn end_group(&mut self, material: Option<Material<N>>)
        requires
            old(self).wf(),
        ensures
            final(self).wf(),
            final(self).corners() == old(self).corners(),
            final(self).open_indices() == Seq::<u32>::empty(),
            final(self).triangle_count() == old(self).triangle_count(),
            final(self).model().vertex_buffer@ == old(self).model().vertex_buffer@,
            final(self).model().bounding_box() == old(self).model().bounding_box(),
            final(self).model().mesh_list@.len() == old(self).model().mesh_list@.len() + 1,
            final(self).model().mesh_list@.subrange(0, old(self).model().mesh_list@.len() as int)
                == old(self).model().mesh_list@,
            final(self).model().mesh_list@.last().index_buffer@ == old(self).open_indices(),
            match material {
                Some(m) => {
                    &&& final(self).model().material_list@ == old(self).model().material_list@.push(
                        m,
                    )
                    &&& final(self).model().mesh_list@.last().material_id == old(
                        self,
                    ).model().material_list@.len()
                },
                None => {
                    &&& final(self).model().material_list@ == old(self).model().material_list@
                    &&& final(self).model().mesh_list@.last().material_id == 0
                },
            },
            forall|key: IndexTuple| final(self).in_range(key) == old(self).in_range(key),
            forall|key: IndexTuple| final(self).vertex_of(key) == old(self).vertex_of(key),
    {
        let mut mesh = Mesh::new();
        mesh.index_buffer = take_indices(&mut self.current);
        match material {
            Some(m) => {
                mesh.material_id = self.model.material_list.len();
                self.model.material_list.push(m);
            },
            None => {
                mesh.material_id = 0;
            },
        }
        self.model.mesh_list.push(mesh);
        proof {
            let meshes = self.model.mesh_list@;
            let before = old(self).model.mesh_list@;
            assert(meshes.subrange(0, before.len() as int) =~= before);
            lemma_triangles_prefix(meshes, before, before.len() as int);
            lemma_triangles_monotone(before, 0, before.len() as int);
            assert forall|i: int| 0 <= i < meshes.len() implies {
                &&& (#[trigger] meshes[i]).fits(self.keys@.len())
                &&& meshes[i].material_id < self.model.material_list@.len()
            } by {
                if i < before.len() {
                    assert(meshes[i] == before[i]);
                    assert(before[i].fits(old(self).keys@.len()));
                } else {
                    assert(meshes[i].index_buffer@ == old(self).current.index_buffer@);
                }
            }
        }
    }

    /// The model, without the mesh under construction: every index of every
    /// mesh names one of its vertices, every mesh one of its materials, and
    /// vertex `i` is the one that corner `i` stands for.
    pub fn finish(self) -> (model: Model<N>)
        requires
            self.wf(),
        ensures
            model.wf(),
            model == self.model(),
            model.vertex_buffer@.len() == self.corners().len(),
            forall|i: int|
                0 <= i < self.corners().len() ==> #[trigger] model.vertex_buffer@[i]
                    == self.vertex_of(self.corners()[i]),
    {
        proof {
            lemma_triangles_monotone(self.model.mesh_list@, 0, self.model.mesh_list@.len() as int);
        }
        self.model
    }

    /// How many distinct corners have become vertices.
    pub fn vertex_count(&self) -> (n: usize)
        ensures
            n == self.corners().len(),
    {
        self.keys.len()
    }
}

impl<N> ModelObj<N> {
    /// The number of triangles in the finished meshes and the mesh under
    /// construction.
    pub closed spec fn triangle_count(&self) -> int {
        self.triangles as int
    }
}

/// Takes the indices out of a mesh and leaves it empty.
fn take_indices(mesh: &mut Mesh) -> (indices: Vec<u32>)
    ensures
        indices@ == old(mesh).index_buffer@,
        final(mesh).index_buffer@ == Seq::<u32>::empty(),
        final(mesh).material_id == old(mesh).material_id,
{
    let mut indices: Vec<u32> = Vec::new();
    core::mem::swap(&mut indices, &mut mesh.index_buffer);
    indices
}

/// The triangle count of the first `n` meshes depends on those meshes only.
proof fn lemma_triangles_prefix(a: Seq<Mesh>, b: Seq<Mesh>, n: int)
    requires
        0 <= n <= a.len(),
        n <= b.len(),
        forall|i: int| 0 <= i < n ==> a[i] == b[i],
    ensures
        triangles_in(a, n) == triangles_in(b, n),
    decreases n,
{
    if n > 0 {
        lemma_triangles_prefix(a, b, n - 1);
    }
}

} // verus!
