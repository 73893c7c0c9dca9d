use vstd::prelude::*;

verus! {

/// A triangle-list mesh buffer, reduced to its combinatorial content: how
/// many vertices exist and which triples of them form triangles. Vertex
/// positions are kept by the caller in a parallel array; a vertex has no
/// identity here beyond its index.
pub struct Mesh {
    /// Number of vertices in the parallel position array.
    pub vertex_count: usize,
    /// Triangle list: each consecutive triple of entries is one triangle,
    /// wound counter-clockwise as seen from outside.
    pub indices: Vec<usize>,
}

impl Mesh {
    /// The mesh buffer invariant: the index list is a whole number of
    /// triangles and every index refers to an existing vertex.
    pub open spec fn wf(self) -> bool {
        &&& self.indices@.len() % 3 == 0
        &&& forall|i: int|
            0 <= i < self.indices@.len() ==> self.indices@[i] < self.vertex_count
    }

    /// Number of triangles in the index list.
    pub open spec fn tri_count(self) -> int {
        self.indices@.len() as int / 3
    }

    /// Read one index; exposed so that callers outside the library can walk
    /// the triangle list.
    pub fn index_at(&self, i: usize) -> (r: usize)
        requires
            i < self.indices@.len(),
        ensures
            r == self.indices@[i as int],
    {
        self.indices[i]
    }

    /// Number of entries in the index list.
    pub fn index_count(&self) -> (r: usize)
        ensures
            r == self.indices@.len(),
    {
        self.indices.len()
    }
}

/// An unordered pair of vertex indices, normalized so that `a <= b`. Used
/// as the key of the per-stage deduplication cache and as the entry of the
/// creation logs that the Subdivider returns.
#[derive(Clone, Copy, Debug, PartialEq, Eq, Structural)]
pub struct Edge {
    pub a: usize,
    pub b: usize,
}

/// Normalize an index pair to an unordered `Edge` key.
pub open spec fn edge_key(x: usize, y: usize) -> Edge {
    if x <= y {
        Edge { a: x, b: y }
    } else {
        Edge { a: y, b: x }
    }
}

/// Executable normalization, equal to `edge_key`.
pub fn make_edge_key(x: usize, y: usize) -> (r: Edge)
    ensures
        r == edge_key(x, y),
{
    if x <= y {
        Edge { a: x, b: y }
    } else {
        Edge { a: y, b: x }
    }
}

} // verus!
