//! The fixed-capacity geometry store.
//!
//! The store holds vertex positions, deduplicated by exact value, and faces:
//! ordered triples of vertex identifiers. A vertex identifier is a dense
//! index into the current vertex population and stays valid until the store
//! is flushed. Capacity violations are explicit errors, never silent
//! truncation.

use vstd::prelude::*;
use crate::raster::{Mat3, face_matrix_of};

verus! {

/// A vertex position: three exact integer coordinates.
pub type Pos = (i32, i32, i32);

/// A stable, dense handle into the store's current vertex population.
pub type VertexID = usize;

/// An ordered triple of vertex identifiers naming a triangle's corners.
/// Winding order is significant for the inside test.
pub type Face = (VertexID, VertexID, VertexID);

/// Maximum number of vertices a store can hold.
pub const MAX_VERTS: usize = 128;

/// Maximum number of faces a store can hold.
pub const MAX_FACES: usize = 128;

/// Every way an operation on the store or the rasterizer can fail.
#[derive(Clone, Copy, Debug, PartialEq, Eq, Structural)]
pub enum RasterError {
    /// The vertex or face array is full.
    CapacityExceeded,
    /// A triangle references a position that is not registered.
    VertexNotFound,
    /// A face query lies beyond the current face count.
    IndexOutOfRange,
    /// A face's coordinate matrix is not invertible.
    DegenerateGeometry,
}

/// Whether `p` occurs in `verts`.
pub open spec fn contains_pos(verts: Seq<Pos>, p: Pos) -> bool {
    exists|i: int| 0 <= i < verts.len() && verts[i] == p
}

/// Whether the positions in `verts` are unique by value.
pub open spec fn verts_unique(verts: Seq<Pos>) -> bool {
    forall|i: int, j: int| 0 <= i < j < verts.len() ==> verts[i] != verts[j]
}

/// The identifier of the vertex holding `p`; meaningful only when
/// `contains_pos(verts, p)` holds (unique when `verts_unique` holds).
pub open spec fn vertex_id_of(verts: Seq<Pos>, p: Pos) -> int {
    choose|i: int| 0 <= i < verts.len() && verts[i] == p
}

/// The vertex population after `push_vertex(p)`: unchanged when `p` is
/// already present or the store is full, extended by `p` otherwise.
pub open spec fn spec_push_verts(verts: Seq<Pos>, p: Pos) -> Seq<Pos> {
    if contains_pos(verts, p) {
        verts
    } else if verts.len() >= MAX_VERTS {
        verts
    } else {
        verts.push(p)
    }
}

/// Whether `push_vertex(p)` returns an identifier rather than
/// `CapacityExceeded`.
pub open spec fn spec_push_ok(verts: Seq<Pos>, p: Pos) -> bool {
    contains_pos(verts, p) || verts.len() < MAX_VERTS
}

/// The identifier `push_vertex(p)` returns when it succeeds: the existing
/// one when `p` is present, the next dense index otherwise.
pub open spec fn spec_push_id(verts: Seq<Pos>, p: Pos) -> int {
    if contains_pos(verts, p) {
        vertex_id_of(verts, p)
    } else {
        verts.len() as int
    }
}

/// Whether a face is valid against a population of `n` vertices: all three
/// identifiers distinct and in range.
pub open spec fn face_ok(f: Face, n: int) -> bool {
    &&& f.0 < n
    &&& f.1 < n
    &&& f.2 < n
    &&& f.0 != f.1
    &&& f.1 != f.2
    &&& f.0 != f.2
}

/// A fixed-capacity buffer of deduplicated vertex positions and faces.
pub struct RasterBuffer {
    vert_buf: Vec<Pos>,
    face_buf: Vec<Face>,
}

impl RasterBuffer {
    /// The current vertex population, by identifier.
    pub closed spec fn verts(self) -> Seq<Pos> {
        self.vert_buf@
    }

    /// The current faces, in push order.
    pub closed spec fn faces(self) -> Seq<Face> {
        self.face_buf@
    }

    /// Well-formedness: positions unique by value, both arrays within
    /// capacity, and every face valid against the vertex population.
    pub open spec fn wf(self) -> bool {
        &&& verts_unique(self.verts())
        &&& self.verts().len() <= MAX_VERTS
        &&& self.faces().len() <= MAX_FACES
        &&& forall|k: int|
            0 <= k < self.faces().len() ==> face_ok(#[trigger] self.faces()[k], self.verts().len() as int)
    }

    /// Creates an empty store.
    pub fn new() -> (s: RasterBuffer)
        ensures
            s.wf(),
            s.verts().len() == 0,
            s.faces().len() == 0,
    {
        RasterBuffer { vert_buf: Vec::new(), face_buf: Vec::new() }
    }

    /// Resets the store to the empty state; identifiers handed out before
    /// the flush are no longer valid. Idempotent.
    pub fn flush(&mut self)
        ensures
            final(self).wf(),
            final(self).verts().len() == 0,
            final(self).faces().len() == 0,
    {
        self.vert_buf.clear();
        self.face_buf.clear();
    }

    /// The number of vertices currently held.
    pub fn vert_count(&self) -> (n: usize)
        ensures
            n == self.verts().len(),
    {
        self.vert_buf.len()
    }

    /// The number of faces currently held.
    pub fn face_count(&self) -> (n: usize)
        ensures
            n == self.faces().len(),
    {
        self.face_buf.len()
    }

    /// Linear scan for an exact value match; `VertexNotFound` if absent.
    pub fn find_vertex(&self, p: Pos) -> (r: Result<VertexID, RasterError>)
        requires
            self.wf(),
        ensures
            contains_pos(self.verts(), p) ==> r == Ok::<VertexID, RasterError>(
                vertex_id_of(self.verts(), p) as usize,
            ),
            !contains_pos(self.verts(), p) ==> r == Err::<VertexID, RasterError>(
                RasterError::VertexNotFound,
            ),
    {
        let n = self.vert_buf.len();
        let mut idx: usize = 0;
        while idx < n
            invariant
                n == self.verts().len(),
                idx <= n,
                self.wf(),
                forall|j: int| 0 <= j < idx ==> self.verts()[j] != p,
            decreases n - idx,
        {
            let v = self.vert_buf[idx];
            if v.0 == p.0 && v.1 == p.1 && v.2 == p.2 {
                proof {
                    assert(self.verts()[idx as int] == p);
                    assert(contains_pos(self.verts(), p));
                    let w = vertex_id_of(self.verts(), p);
                    assert(self.verts()[w] == p);
                    assert(w == idx as int);
                }
                return Ok(idx);
            }
            idx += 1;
        }
        proof {
            assert(!contains_pos(self.verts(), p));
        }
        Err(RasterError::VertexNotFound)
    }

    /// Returns the existing identifier when `p` is already registered;
    /// otherwise appends `p` and returns its new identifier, or
    /// `CapacityExceeded` when the store already holds `MAX_VERTS` new
    /// positions. The face list is never touched.
    pub fn push_vertex(&mut self, p: Pos) -> (r: Result<VertexID, RasterError>)
        requires
            old(self).wf(),
        ensures
            final(self).wf(),
            final(self).verts() == spec_push_verts(old(self).verts(), p),
            final(self).faces() == old(self).faces(),
            spec_push_ok(old(self).verts(), p) ==> r == Ok::<VertexID, RasterError>(
                spec_push_id(old(self).verts(), p) as usize,
            ),
            !spec_push_ok(old(self).verts(), p) ==> r == Err::<VertexID, RasterError>(
                RasterError::CapacityExceeded,
            ),
    {
        match self.find_vertex(p) {
            Ok(id) => Ok(id),
            Err(_) => {
                if self.vert_buf.len() >= MAX_VERTS {
                    Err(RasterError::CapacityExceeded)
                } else {
                    let id = self.vert_buf.len();
                    self.vert_buf.push(p);
                    proof {
                        lemma_unique_push(old(self).verts(), p);
                        assert forall|k: int| 0 <= k < self.faces().len() implies face_ok(
                            #[trigger] self.faces()[k],
                            self.verts().len() as int,
                        ) by {
                            assert(face_ok(old(self).faces()[k], old(self).verts().len() as int));
                        }
                    }
                    Ok(id)
                }
            },
        }
    }

    /// Appends a face directly, without position lookup. Fails with
    /// `CapacityExceeded`, and changes nothing, when the face array is full.
    pub fn push_face(&mut self, face: Face) -> (r: Result<(), RasterError>)
        requires
            old(self).wf(),
            face_ok(face, old(self).verts().len() as int),
        ensures
            final(self).wf(),
            final(self).verts() == old(self).verts(),
            old(self).faces().len() < MAX_FACES ==> final(self).faces() == old(self).faces().push(
                face,
            ) && r == Ok::<(), RasterError>(()),
            old(self).faces().len() >= MAX_FACES ==> final(self).faces() == old(self).faces() && r
                == Err::<(), RasterError>(RasterError::CapacityExceeded),
    {
        if self.face_buf.len() >= MAX_FACES {
            return Err(RasterError::CapacityExceeded);
        }
        self.face_buf.push(face);
        Ok(())
    }

    /// Resolves three registered positions and appends the face they name.
    /// Fails with `CapacityExceeded`, before any lookup, when the face array
    /// is full, and with `VertexNotFound` when any position is unregistered;
    /// either failure changes nothing.
    pub fn push_triangle(&mut self, a: Pos, b: Pos, c: Pos) -> (r: Result<(), RasterError>)
        requires
            old(self).wf(),
            a != b,
            b != c,
            a != c,
        ensures
            final(self).wf(),
            final(self).verts() == old(self).verts(),
            old(self).faces().len() >= MAX_FACES ==> final(self).faces() == old(self).faces() && r
                == Err::<(), RasterError>(RasterError::CapacityExceeded),
            old(self).faces().len() < MAX_FACES && !(contains_pos(old(self).verts(), a)
                && contains_pos(old(self).verts(), b) && contains_pos(old(self).verts(), c))
                ==> final(self).faces() == old(self).faces() && r == Err::<(), RasterError>(
                RasterError::VertexNotFound,
            ),
            old(self).faces().len() < MAX_FACES && contains_pos(old(self).verts(), a)
                && contains_pos(old(self).verts(), b) && contains_pos(old(self).verts(), c)
                ==> final(self).faces() == old(self).faces().push(
                (
                    vertex_id_of(old(self).verts(), a) as usize,
                    vertex_id_of(old(self).verts(), b) as usize,
                    vertex_id_of(old(self).verts(), c) as usize,
                ),
            ) && r == Ok::<(), RasterError>(()),
    {
        if self.face_buf.len() >= MAX_FACES {
            return Err(RasterError::CapacityExceeded);
        }
        let ia = match self.find_vertex(a) {
            Ok(id) => id,
            Err(e) => {
                return Err(e);
            },
        };
        let ib = match self.find_vertex(b) {
            Ok(id) => id,
            Err(e) => {
                return Err(e);
            },
        };
        let ic = match self.find_vertex(c) {
            Ok(id) => id,
            Err(e) => {
                return Err(e);
            },
        };
        proof {
            let va = vertex_id_of(self.verts(), a);
            let vb = vertex_id_of(self.verts(), b);
            let vc = vertex_id_of(self.verts(), c);
            assert(self.verts()[va] == a && self.verts()[vb] == b && self.verts()[vc] == c);
            assert(face_ok((ia, ib, ic), self.verts().len() as int));
        }
        self.push_face((ia, ib, ic))
    }

    /// The homogeneous coordinate matrix of the face at `face_idx`: column
    /// `j` holds the (x, y, 1) coordinates of the face's `j`-th vertex, in
    /// whatever coordinate space the caller placed them. Fails with
    /// `IndexOutOfRange` when `face_idx` lies beyond the current face count.
    pub fn face_to_matrix(&self, face_idx: usize) -> (r: Result<Mat3, RasterError>)
        requires
            self.wf(),
        ensures
            face_idx >= self.faces().len() ==> r == Err::<Mat3, RasterError>(
                RasterError::IndexOutOfRange,
            ),
            face_idx < self.faces().len() ==> r == Ok::<Mat3, RasterError>(
                face_matrix_of(self.verts(), self.faces()[face_idx as int]),
            ),
    {
        if face_idx >= self.face_buf.len() {
            return Err(RasterError::IndexOutOfRange);
        }
        let f = self.face_buf[face_idx];
        proof {
            assert(face_ok(self.faces()[face_idx as int], self.verts().len() as int));
        }
        let v0 = self.vert_buf[f.0];
        let v1 = self.vert_buf[f.1];
        let v2 = self.vert_buf[f.2];
        Ok(Mat3 { c0: (v0.0, v0.1, 1), c1: (v1.0, v1.1, 1), c2: (v2.0, v2.1, 1) })
    }
}

/// A unique population stays unique when a fresh position is appended.
proof fn lemma_unique_push(verts: Seq<Pos>, p: Pos)
    requires
        verts_unique(verts),
        !contains_pos(verts, p),
    ensures
        verts_unique(verts.push(p)),
{
    let pushed = verts.push(p);
    assert forall|i: int, j: int| 0 <= i < j < pushed.len() implies pushed[i] != pushed[j] by {
        if j == verts.len() {
            assert(pushed[i] == verts[i]);
            assert(verts[i] != p);
        } else {
            assert(pushed[i] == verts[i] && pushed[j] == verts[j]);
        }
    }
}

/// Dedup law: pushing the same position twice hands out the same vertex
/// identifier both times, and the second push leaves the population alone.
pub proof fn lemma_push_vertex_dedup(verts: Seq<Pos>, p: Pos)
    requires
        verts_unique(verts),
        spec_push_ok(verts, p),
    ensures
        spec_push_ok(spec_push_verts(verts, p), p),
        spec_push_id(spec_push_verts(verts, p), p) == spec_push_id(verts, p),
        spec_push_verts(spec_push_verts(verts, p), p) == spec_push_verts(verts, p),
{
    if contains_pos(verts, p) {
        assert(spec_push_verts(verts, p) == verts);
    } else {
        let pushed = verts.push(p);
        assert(pushed[verts.len() as int] == p);
        assert(contains_pos(pushed, p));
        lemma_unique_push(verts, p);
        let w = vertex_id_of(pushed, p);
        assert(pushed[w] == p);
        if w < verts.len() {
            assert(pushed[w] == verts[w]);
            assert(contains_pos(verts, p));
        }
        assert(w == verts.len() as int);
        assert(spec_push_verts(pushed, p) == pushed);
    }
}

/// Capacity law for vertices: pushing a fresh position into a full store
/// reports `CapacityExceeded` and leaves the population unchanged.
pub proof fn lemma_push_vertex_full(verts: Seq<Pos>, p: Pos)
    requires
        verts.len() >= MAX_VERTS,
        !contains_pos(verts, p),
    ensures
        !spec_push_ok(verts, p),
        spec_push_verts(verts, p) == verts,
{
}

} // verus!
