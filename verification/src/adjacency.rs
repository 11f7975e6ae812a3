//! Vertex-adjacency topology.
//!
//! An adjacency list maps each vertex identifier to the ordered set of its
//! neighboring vertex identifiers. The backing storage is one flat array
//! partitioned into one chunk per vertex; a row that grows is relocated to
//! the end of the backing array, so each row grows independently of the
//! others and no edge is ever silently dropped. The intended consumer is a
//! per-vertex normal-computation pass, which averages the normals of the
//! faces around each vertex; the list keeps that contract reachable.

use vstd::prelude::*;
use crate::store::VertexID;

verus! {

/// A chunked adjacency list over one flat backing array.
pub struct AdjacencyList {
    data: Vec<VertexID>,
    starts: Vec<usize>,
    lens: Vec<usize>,
}

impl AdjacencyList {
    /// The number of rows: one per vertex.
    pub closed spec fn row_count(self) -> int {
        self.starts@.len() as int
    }

    /// Row `r`: the neighbors of vertex `r`, in insertion order.
    pub closed spec fn row(self, r: int) -> Seq<VertexID> {
        self.data@.subrange(self.starts@[r] as int, self.starts@[r] + self.lens@[r])
    }

    /// Well-formedness: the bookkeeping arrays are parallel, every chunk
    /// lies inside the backing array, and every stored neighbor is a valid
    /// vertex identifier.
    pub closed spec fn wf(self) -> bool {
        &&& self.lens@.len() == self.starts@.len()
        &&& forall|r: int|
            0 <= r < self.row_count() ==> (#[trigger] self.starts@[r]) + self.lens@[r]
                <= self.data@.len()
        &&& forall|r: int, j: int|
            0 <= r < self.row_count() && 0 <= j < self.row(r).len() ==> (#[trigger] self.row(r)[j])
                < self.row_count()
    }

    /// Creates an adjacency list with no rows.
    pub fn new() -> (a: AdjacencyList)
        ensures
            a.wf(),
            a.row_count() == 0,
    {
        AdjacencyList { data: Vec::new(), starts: Vec::new(), lens: Vec::new() }
    }

    /// The number of rows, i.e. of vertices the list knows.
    pub fn vertex_count(&self) -> (n: usize)
        ensures
            n == self.row_count(),
    {
        self.starts.len()
    }

    /// Adds one vertex: a new empty row at the next identifier.
    pub fn push_row(&mut self)
        requires
            old(self).wf(),
        ensures
            final(self).wf(),
            final(self).row_count() == old(self).row_count() + 1,
            final(self).row(old(self).row_count()) == Seq::<VertexID>::empty(),
            forall|r: int|
                0 <= r < old(self).row_count() ==> #[trigger] final(self).row(r) == old(self).row(
                    r,
                ),
    {
        let start = self.data.len();
        self.starts.push(start);
        self.lens.push(0);
        proof {
            assert(self.row(old(self).row_count()) =~= Seq::<VertexID>::empty());
            assert forall|r: int| 0 <= r < old(self).row_count() implies #[trigger] self.row(r)
                == old(self).row(r) by {
                assert(self.row(r) =~= old(self).row(r));
            };
            assert forall|r: int, j: int|
                0 <= r < self.row_count() && 0 <= j < self.row(r).len() implies (
            #[trigger] self.row(r)[j]) < self.row_count() by {
                if r < old(self).row_count() {
                    assert(old(self).row(r)[j] < old(self).row_count());
                }
            };
        }
    }

    /// Whether `v` already stands in row `r`.
    fn row_contains(&self, r: usize, v: VertexID) -> (found: bool)
        requires
            self.wf(),
            r < self.row_count(),
        ensures
            found == self.row(r as int).contains(v),
    {
        let start = self.starts[r];
        let len = self.lens[r];
        let total = self.data.len();
        let mut j: usize = 0;
        while j < len
            invariant
                self.wf(),
                r < self.row_count(),
                start == self.starts@[r as int],
                len == self.lens@[r as int],
                total == self.data@.len(),
                j <= len,
                forall|i: int| 0 <= i < j ==> self.row(r as int)[i] != v,
            decreases len - j,
        {
            if self.data[start + j] == v {
                proof {
                    assert(self.row(r as int)[j as int] == v);
                }
                return true;
            }
            proof {
                assert(self.row(r as int)[j as int] == self.data@[start + j]);
            }
            j += 1;
        }
        proof {
            if self.row(r as int).contains(v) {
                let i = choose|i: int| 0 <= i < self.row(r as int).len() && self.row(r as int)[i] == v;
                assert(self.row(r as int)[i] != v);
            }
        }
        false
    }

    /// Appends `v` to row `r` by relocating the row's chunk to the end of
    /// the backing array; every other row keeps its chunk and its contents.
    fn append_to_row(&mut self, r: usize, v: VertexID)
        requires
            old(self).wf(),
            r < old(self).row_count(),
            v < old(self).row_count(),
        ensures
            final(self).wf(),
            final(self).row_count() == old(self).row_count(),
            final(self).row(r as int) == old(self).row(r as int).push(v),
            forall|r2: int|
                0 <= r2 < old(self).row_count() && r2 != r ==> #[trigger] final(self).row(r2)
                    == old(self).row(r2),
    {
        let start = self.starts[r];
        let len = self.lens[r];
        let new_start = self.data.len();
        let mut j: usize = 0;
        while j < len
            invariant
                self.starts == old(self).starts,
                self.lens == old(self).lens,
                old(self).wf(),
                r < old(self).row_count(),
                start == self.starts@[r as int],
                len == self.lens@[r as int],
                new_start == old(self).data@.len(),
                j <= len,
                self.data@ == old(self).data@ + old(self).row(r as int).subrange(0, j as int),
            decreases len - j,
        {
            let e = self.data[start + j];
            proof {
                assert(old(self).data@[start + j] == old(self).row(r as int)[j as int]);
            }
            self.data.push(e);
            proof {
                assert(self.data@ =~= old(self).data@ + old(self).row(r as int).subrange(
                    0,
                    j + 1,
                ));
            }
            j += 1;
        }
        proof {
            assert(old(self).row(r as int).subrange(0, len as int) =~= old(self).row(r as int));
        }
        self.data.push(v);
        let new_total = self.data.len();
        self.starts.set(r, new_start);
        self.lens.set(r, new_total - new_start);
        proof {
            assert(new_total - new_start == len + 1);
        }
        proof {
            assert(self.row(r as int) =~= old(self).row(r as int).push(v));
            assert forall|r2: int| 0 <= r2 < old(self).row_count() && r2 != r implies #[trigger] self
                .row(r2) == old(self).row(r2) by {
                assert(self.row(r2) =~= old(self).row(r2));
            };
            assert forall|r2: int, j2: int|
                0 <= r2 < self.row_count() && 0 <= j2 < self.row(r2).len() implies (
            #[trigger] self.row(r2)[j2]) < self.row_count() by {
                if r2 == r {
                    if j2 < len {
                        assert(old(self).row(r2)[j2] < old(self).row_count());
                    }
                } else {
                    assert(old(self).row(r2)[j2] < old(self).row_count());
                }
            };
        }
    }

    /// Records the undirected edge between `a` and `b`: inserts `b` into
    /// `a`'s row and `a` into `b`'s row, each only when not already present,
    /// so each row stays an insertion-ordered set.
    pub fn add_edge(&mut self, a: VertexID, b: VertexID)
        requires
            old(self).wf(),
            a < old(self).row_count(),
            b < old(self).row_count(),
            a != b,
        ensures
            final(self).wf(),
            final(self).row_count() == old(self).row_count(),
            final(self).row(a as int) == (if old(self).row(a as int).contains(b) {
                old(self).row(a as int)
            } else {
                old(self).row(a as int).push(b)
            }),
            final(self).row(b as int) == (if old(self).row(b as int).contains(a) {
                old(self).row(b as int)
            } else {
                old(self).row(b as int).push(a)
            }),
            forall|r: int|
                0 <= r < old(self).row_count() && r != a && r != b ==> #[trigger] final(self).row(r)
                    == old(self).row(r),
    {
        if !self.row_contains(a, b) {
            self.append_to_row(a, b);
        }
        if !self.row_contains(b, a) {
            self.append_to_row(b, a);
        }
    }

    /// The neighbors of `v`, as a fresh vector: a finite, restartable
    /// sequence of vertex identifiers.
    pub fn neighbors(&self, v: VertexID) -> (out: Vec<VertexID>)
        requires
            self.wf(),
            v < self.row_count(),
        ensures
            out@ == self.row(v as int),
    {
        let start = self.starts[v];
        let len = self.lens[v];
        let total = self.data.len();
        let mut out: Vec<VertexID> = Vec::new();
        let mut j: usize = 0;
        while j < len
            invariant
                self.wf(),
                v < self.row_count(),
                start == self.starts@[v as int],
                len == self.lens@[v as int],
                total == self.data@.len(),
                j <= len,
                out@ == self.row(v as int).subrange(0, j as int),
            decreases len - j,
        {
            let e = self.data[start + j];
            proof {
                assert(self.data@[start + j] == self.row(v as int)[j as int]);
            }
            out.push(e);
            proof {
                assert(out@ =~= self.row(v as int).subrange(0, j + 1));
            }
            j += 1;
        }
        proof {
            assert(out@ =~= self.row(v as int));
        }
        out
    }
}

} // verus!
