//! Triangle meshes: from the coordinates and the indices of a model to
//! the triangles that the player collides with.
use vstd::prelude::*;
use crate::fixed::{abs_int, COORD_MAX, SCALE};
use crate::geom::{edge_normal, Matrix4, Triangle};
use crate::math::{lemma_rounded_within, rounded_to_hundredths, slice_excess};
use crate::vector::{Int3, Vec3};

verus! {

/// The triangles of one model.
pub struct Mesh {
    pub triangles: Vec<Triangle>,
}

/// The `i`-th vertex of a model whose coordinates are `positions`, three
/// for each vertex: each coordinate rounded to hundredths.
pub open spec fn mesh_vertex(positions: Seq<i64>, i: int) -> Int3 {
    Int3 {
        x: rounded_to_hundredths(positions[3 * i] as int),
        y: rounded_to_hundredths(positions[3 * i + 1] as int),
        z: rounded_to_hundredths(positions[3 * i + 2] as int),
    }
}

/// `t` is the triangle on the vertices `p0`, `p1` and `p2`, with the
/// normal and the area that belong to them.
pub open spec fn is_triangle_on(t: Triangle, p0: Int3, p1: Int3, p2: Int3) -> bool {
    &&& t.p0@ == p0
    &&& t.p1@ == p1
    &&& t.p2@ == p2
    &&& t.normal@ == edge_normal(p0, p1, p2).normalized()
    &&& t.area == edge_normal(p0, p1, p2).length() / (2 * SCALE)
}

/// The coordinates and indices describe a mesh: three coordinates for
/// each vertex, all in the world, and three indices for each triangle,
/// each of them the number of a vertex.
pub open spec fn describes_mesh(positions: Seq<i64>, indices: Seq<u32>) -> bool {
    &&& positions.len() % 3 == 0
    &&& indices.len() % 3 == 0
    &&& forall|i: int| 0 <= i < positions.len() ==> abs_int(#[trigger] positions[i] as int) <= COORD_MAX
    &&& forall|i: int| 0 <= i < indices.len() ==> 3 * (#[trigger] indices[i]) < positions.len()
}

/// The first `k` triangles of `tris` as `m` places them in the world,
/// without those that have no image or no well formed one.
pub open spec fn placed_of(tris: Seq<Triangle>, m: Matrix4, k: nat) -> Seq<Triangle>
    decreases k,
{
    if k == 0 {
        Seq::empty()
    } else {
        let before = placed_of(tris, m, (k - 1) as nat);
        let t = tris[k - 1];
        if t.has_image(m) && t.transformed(m).wf() {
            before.push(t.transformed(m))
        } else {
            before
        }
    }
}

/// Which corner of its rectangle the `j`-th index of a rectangle drawn as
/// two triangles names: the corners `0 1 2` and `0 2 3`.
pub open spec fn quad_corner(j: int) -> int {
    if j == 0 || j == 3 {
        0
    } else if j == 1 {
        1
    } else if j == 2 || j == 4 {
        2
    } else {
        3
    }
}

/// The indices that draw `count` rectangles of four vertices each as two
/// triangles each: six indices for every rectangle.
pub fn quad_indices(count: u32) -> (indices: Vec<u32>)
    requires
        4 * count <= u32::MAX,
    ensures
        indices.len() == 6 * count,
        forall|i: int|
            0 <= i < indices.len() ==> #[trigger] indices[i] == 4 * (i / 6) + quad_corner(i % 6),
{
    let mut indices: Vec<u32> = Vec::new();
    let mut k: u32 = 0;
    while k < count
        invariant
            k <= count,
            4 * count <= u32::MAX,
            indices.len() == 6 * k,
            forall|i: int|
                0 <= i < indices.len() ==> #[trigger] indices[i] == 4 * (i / 6) + quad_corner(i % 6),
        decreases count - k,
    {
        let base: u32 = 4 * k;
        indices.push(base);
        indices.push(base + 1);
        indices.push(base + 2);
        indices.push(base);
        indices.push(base + 2);
        indices.push(base + 3);
        k += 1;
    }
    indices
}

/// The `i`-th vertex of the model.
fn vertex_of(positions: &Vec<i64>, i: usize) -> (v: Vec3)
    requires
        3 * i + 2 < positions.len(),
        forall|j: int| 0 <= j < positions.len() ==> abs_int(#[trigger] positions[j] as int) <= COORD_MAX,
    ensures
        v@ == mesh_vertex(positions@, i as int),
        v@.within(COORD_MAX as int),
{
    proof {
        lemma_rounded_within(positions[3 * i as int] as int, 50_000);
        lemma_rounded_within(positions[3 * i + 1] as int, 50_000);
        lemma_rounded_within(positions[3 * i + 2] as int, 50_000);
    }
    Vec3 {
        x: slice_excess(positions[3 * i]),
        y: slice_excess(positions[3 * i + 1]),
        z: slice_excess(positions[3 * i + 2]),
    }
}

/// Whether the coordinates and indices describe a mesh.
pub fn is_mesh_description(positions: &Vec<i64>, indices: &Vec<u32>) -> (b: bool)
    ensures
        b == describes_mesh(positions@, indices@),
{
    if positions.len() % 3 != 0 || indices.len() % 3 != 0 {
        return false;
    }
    let mut i: usize = 0;
    while i < positions.len()
        invariant
            i <= positions.len(),
            forall|j: int| 0 <= j < i ==> abs_int(#[trigger] positions[j] as int) <= COORD_MAX,
        decreases positions.len() - i,
    {
        if positions[i] < -COORD_MAX || positions[i] > COORD_MAX {
            return false;
        }
        i += 1;
    }
    let mut k: usize = 0;
    while k < indices.len()
        invariant
            k <= indices.len(),
            forall|j: int| 0 <= j < k ==> 3 * (#[trigger] indices[j]) < positions.len(),
        decreases indices.len() - k,
    {
        if (indices[k] as usize) >= positions.len() / 3 {
            return false;
        }
        k += 1;
    }
    true
}

impl Mesh {
    /// The mesh of a model: one triangle for every three indices, on the
    /// vertices that the indices name.
    pub fn new(positions: &Vec<i64>, indices: &Vec<u32>) -> (mesh: Mesh)
        requires
            describes_mesh(positions@, indices@),
        ensures
            mesh.triangles.len() == indices.len() / 3,
            forall|k: int|
                0 <= k < mesh.triangles.len() ==> is_triangle_on(
                    #[trigger] mesh.triangles[k],
                    mesh_vertex(positions@, indices[3 * k] as int),
                    mesh_vertex(positions@, indices[3 * k + 1] as int),
                    mesh_vertex(positions@, indices[3 * k + 2] as int),
                ),
    {
        let mut triangles: Vec<Triangle> = Vec::new();
        let mut k: usize = 0;
        while 3 * k < indices.len()
            invariant
                describes_mesh(positions@, indices@),
                3 * k <= indices.len(),
                triangles.len() == k,
                forall|j: int|
                    0 <= j < k ==> is_triangle_on(
                        #[trigger] triangles[j],
                        mesh_vertex(positions@, indices[3 * j] as int),
                        mesh_vertex(positions@, indices[3 * j + 1] as int),
                        mesh_vertex(positions@, indices[3 * j + 2] as int),
                    ),
            decreases indices.len() - 3 * k,
        {
            let i0: usize = indices[3 * k] as usize;
            let i1: usize = indices[3 * k + 1] as usize;
            let i2: usize = indices[3 * k + 2] as usize;
            let p0: Vec3 = vertex_of(positions, i0);
            let p1: Vec3 = vertex_of(positions, i1);
            let p2: Vec3 = vertex_of(positions, i2);
            triangles.push(Triangle::new(p0, p1, p2));
            k += 1;
        }
        Mesh { triangles }
    }

    /// The triangles of the mesh as `m` places them in the world. A
    /// triangle without an image, one that `m` takes out of the world, and
    /// one whose normal is not a unit vector are left out: nothing
    /// collides with them.
    pub fn placed(&self, m: Matrix4) -> (placed: Vec<Triangle>)
        requires
            m.wf(),
        ensures
            placed@ == placed_of(self.triangles@, m, self.triangles.len() as nat),
            forall|k: int| 0 <= k < placed.len() ==> (#[trigger] placed[k]).wf(),
    {
        let mut placed: Vec<Triangle> = Vec::new();
        let mut k: usize = 0;
        while k < self.triangles.len()
            invariant
                m.wf(),
                k <= self.triangles.len(),
                placed@ == placed_of(self.triangles@, m, k as nat),
                forall|j: int| 0 <= j < placed.len() ==> (#[trigger] placed[j]).wf(),
            decreases self.triangles.len() - k,
        {
            let tri: Triangle = self.triangles[k];
            if tri.p0.is_within(COORD_MAX) && tri.p1.is_within(COORD_MAX) && tri.p2.is_within(
                COORD_MAX,
            ) && m.weight_of(tri.p0) != 0 && m.weight_of(tri.p1) != 0 && m.weight_of(tri.p2) != 0 {
                let moved: Triangle = tri.transformed_by(m);
                if moved.is_well_formed() {
                    placed.push(moved);
                }
            }
            k += 1;
        }
        placed
    }
}

} // verus!
