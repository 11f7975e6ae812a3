//! The mesh aggregate and the canonical cube builder.
//!
//! A mesh is one self-consistent topology: the geometry store (positions and
//! faces), per-vertex color and luminous-intensity attributes, and the
//! vertex-adjacency list. It is built once by a builder and read-only during
//! rasterization. The cube builder populates it with a known topology for
//! testing and demonstration.

use vstd::prelude::*;
use crate::adjacency::AdjacencyList;
use crate::color::Color;
use crate::store::{Pos, Face, RasterBuffer, RasterError, contains_pos};

verus! {

/// Per-vertex attribute arrays, the face list and the adjacency mapping of
/// one mesh, indexed by vertex identifier throughout.
pub struct Mesh {
    /// Vertex positions and faces.
    pub store: RasterBuffer,
    /// Fill color of each vertex.
    pub colors: Vec<Color>,
    /// Luminous intensity of each vertex, 0 to 255.
    pub intensities: Vec<u8>,
    /// Neighboring vertices of each vertex.
    pub adjacency: AdjacencyList,
}

impl Mesh {
    /// Well-formedness: the store is well-formed and every per-vertex array
    /// runs parallel to its vertex population.
    pub open spec fn wf(self) -> bool {
        &&& self.store.wf()
        &&& self.colors@.len() == self.store.verts().len()
        &&& self.intensities@.len() == self.store.verts().len()
        &&& self.adjacency.wf()
        &&& self.adjacency.row_count() == self.store.verts().len()
    }
}

/// The eight corners of the cube around `origin`: every combination of
/// `origin ± scale` on each axis, in builder order.
pub open spec fn cube_corners(origin: Pos, scale: i32) -> Seq<Pos> {
    seq![
        (((origin.0 + scale) as i32), ((origin.1 + scale) as i32), ((origin.2 + scale) as i32)),
        (((origin.0 - scale) as i32), ((origin.1 + scale) as i32), ((origin.2 + scale) as i32)),
        (((origin.0 + scale) as i32), ((origin.1 - scale) as i32), ((origin.2 + scale) as i32)),
        (((origin.0 + scale) as i32), ((origin.1 + scale) as i32), ((origin.2 - scale) as i32)),
        (((origin.0 - scale) as i32), ((origin.1 - scale) as i32), ((origin.2 + scale) as i32)),
        (((origin.0 - scale) as i32), ((origin.1 + scale) as i32), ((origin.2 - scale) as i32)),
        (((origin.0 + scale) as i32), ((origin.1 - scale) as i32), ((origin.2 - scale) as i32)),
        (((origin.0 - scale) as i32), ((origin.1 - scale) as i32), ((origin.2 - scale) as i32)),
    ]
}

/// The twelve triangular faces that cover the cube's six square sides with
/// consistent outward winding, over the corner identifiers of `cube_corners`.
pub open spec fn cube_faces() -> Seq<Face> {
    seq![
        (0usize, 1usize, 2usize),
        (1usize, 4usize, 2usize),
        (0usize, 2usize, 6usize),
        (0usize, 6usize, 3usize),
        (3usize, 6usize, 7usize),
        (3usize, 7usize, 5usize),
        (5usize, 7usize, 4usize),
        (5usize, 4usize, 1usize),
        (0usize, 5usize, 1usize),
        (0usize, 3usize, 5usize),
        (2usize, 7usize, 6usize),
        (2usize, 4usize, 7usize),
    ]
}

/// Builds the canonical cube mesh: exactly eight vertices at the corners
/// `origin ± scale` on each axis, exactly twelve triangular faces covering
/// all six sides, every vertex carrying `color` and full intensity, and the
/// adjacency rows of the face edges. The bounds keep every corner coordinate
/// representable; a positive scale keeps the corners distinct.
pub fn build_cube(origin: Pos, scale: i32, color: Color) -> (r: Result<Mesh, RasterError>)
    requires
        0 < scale,
        origin.0 + scale <= i32::MAX,
        origin.1 + scale <= i32::MAX,
        origin.2 + scale <= i32::MAX,
        i32::MIN <= origin.0 - scale,
        i32::MIN <= origin.1 - scale,
        i32::MIN <= origin.2 - scale,
    ensures
        r matches Ok(mesh) && {
            &&& mesh.wf()
            &&& mesh.store.verts() == cube_corners(origin, scale)
            &&& mesh.store.faces() == cube_faces()
            &&& mesh.store.verts().len() == 8
            &&& mesh.store.faces().len() == 12
            &&& forall|i: int| 0 <= i < 8 ==> (#[trigger] mesh.colors@[i]) == color
            &&& forall|i: int| 0 <= i < 8 ==> (#[trigger] mesh.intensities@[i]) == 255u8
        },
{
    let xp: i32 = origin.0 + scale;
    let xm: i32 = origin.0 - scale;
    let yp: i32 = origin.1 + scale;
    let ym: i32 = origin.1 - scale;
    let zp: i32 = origin.2 + scale;
    let zm: i32 = origin.2 - scale;

    let p0: Pos = (xp, yp, zp);
    let p1: Pos = (xm, yp, zp);
    let p2: Pos = (xp, ym, zp);
    let p3: Pos = (xp, yp, zm);
    let p4: Pos = (xm, ym, zp);
    let p5: Pos = (xm, yp, zm);
    let p6: Pos = (xp, ym, zm);
    let p7: Pos = (xm, ym, zm);

    let mut store = RasterBuffer::new();

    let i0 = store.push_vertex(p0)?;
    proof {
        assert(store.verts() =~= seq![p0]);
        if contains_pos(store.verts(), p1) {
            let i = choose|i: int| 0 <= i < store.verts().len() && store.verts()[i] == p1;
            assert(i == 0);
            assert(false);
        }
    }
    let i1 = store.push_vertex(p1)?;
    proof {
        assert(store.verts() =~= seq![p0, p1]);
        if contains_pos(store.verts(), p2) {
            let i = choose|i: int| 0 <= i < store.verts().len() && store.verts()[i] == p2;
            assert(i == 0 || i == 1);
            assert(false);
        }
    }
    let i2 = store.push_vertex(p2)?;
    proof {
        assert(store.verts() =~= seq![p0, p1, p2]);
        if contains_pos(store.verts(), p3) {
            let i = choose|i: int| 0 <= i < store.verts().len() && store.verts()[i] == p3;
            assert(i == 0 || i == 1 || i == 2);
            assert(false);
        }
    }
    let i3 = store.push_vertex(p3)?;
    proof {
        assert(store.verts() =~= seq![p0, p1, p2, p3]);
        if contains_pos(store.verts(), p4) {
            let i = choose|i: int| 0 <= i < store.verts().len() && store.verts()[i] == p4;
            assert(i == 0 || i == 1 || i == 2 || i == 3);
            assert(false);
        }
    }
    let i4 = store.push_vertex(p4)?;
    proof {
        assert(store.verts() =~= seq![p0, p1, p2, p3, p4]);
        if contains_pos(store.verts(), p5) {
            let i = choose|i: int| 0 <= i < store.verts().len() && store.verts()[i] == p5;
            assert(i == 0 || i == 1 || i == 2 || i == 3 || i == 4);
            assert(false);
        }
    }
    let i5 = store.push_vertex(p5)?;
    proof {
        assert(store.verts() =~= seq![p0, p1, p2, p3, p4, p5]);
        if contains_pos(store.verts(), p6) {
            let i = choose|i: int| 0 <= i < store.verts().len() && store.verts()[i] == p6;
            assert(i == 0 || i == 1 || i == 2 || i == 3 || i == 4 || i == 5);
            assert(false);
        }
    }
    let i6 = store.push_vertex(p6)?;
    proof {
        assert(store.verts() =~= seq![p0, p1, p2, p3, p4, p5, p6]);
        if contains_pos(store.verts(), p7) {
            let i = choose|i: int| 0 <= i < store.verts().len() && store.verts()[i] == p7;
            assert(i == 0 || i == 1 || i == 2 || i == 3 || i == 4 || i == 5 || i == 6);
            assert(false);
        }
    }
    let i7 = store.push_vertex(p7)?;
    proof {
        assert(store.verts() =~= cube_corners(origin, scale));
    }

    store.push_face((i0, i1, i2))?;
    store.push_face((i1, i4, i2))?;
    store.push_face((i0, i2, i6))?;
    store.push_face((i0, i6, i3))?;
    store.push_face((i3, i6, i7))?;
    store.push_face((i3, i7, i5))?;
    store.push_face((i5, i7, i4))?;
    store.push_face((i5, i4, i1))?;
    store.push_face((i0, i5, i1))?;
    store.push_face((i0, i3, i5))?;
    store.push_face((i2, i7, i6))?;
    store.push_face((i2, i4, i7))?;
    proof {
        assert(store.faces() =~= cube_faces());
    }

    let mut colors: Vec<Color> = Vec::new();
    let mut intensities: Vec<u8> = Vec::new();
    let mut adjacency = AdjacencyList::new();
    let mut j: usize = 0;
    while j < 8
        invariant
            j <= 8,
            colors@.len() == j,
            intensities@.len() == j,
            adjacency.wf(),
            adjacency.row_count() == j,
            forall|i: int| 0 <= i < j ==> (#[trigger] colors@[i]) == color,
            forall|i: int| 0 <= i < j ==> (#[trigger] intensities@[i]) == 255u8,
        decreases 8 - j,
    {
        colors.push(color);
        intensities.push(255);
        adjacency.push_row();
        j += 1;
    }

    adjacency.add_edge(i0, i1);
    adjacency.add_edge(i1, i2);
    adjacency.add_edge(i0, i2);
    adjacency.add_edge(i1, i4);
    adjacency.add_edge(i4, i2);
    adjacency.add_edge(i2, i6);
    adjacency.add_edge(i0, i6);
    adjacency.add_edge(i6, i3);
    adjacency.add_edge(i0, i3);
    adjacency.add_edge(i3, i6);
    adjacency.add_edge(i6, i7);
    adjacency.add_edge(i3, i7);
    adjacency.add_edge(i7, i5);
    adjacency.add_edge(i3, i5);
    adjacency.add_edge(i5, i7);
    adjacency.add_edge(i7, i4);
    adjacency.add_edge(i5, i4);
    adjacency.add_edge(i4, i1);
    adjacency.add_edge(i5, i1);
    adjacency.add_edge(i0, i5);
    adjacency.add_edge(i2, i7);
    adjacency.add_edge(i7, i6);
    adjacency.add_edge(i2, i4);
    adjacency.add_edge(i4, i7);

    Ok(Mesh { store, colors, intensities, adjacency })
}

} // verus!
