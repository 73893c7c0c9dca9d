use vstd::prelude::*;
use crate::mesh::Mesh;

verus! {

/// One corner of the regular icosahedron, written symbolically: every
/// coordinate of the canonical unit-edge solid is 0, +-1 or +-phi (the
/// golden ratio), so a coordinate is stored as a small integer code where
/// `1` stands for 1, `2` stands for phi, and the sign carries over. A
/// numeric driver decodes a code `c` to `c as f32` when `|c| <= 1` and to
/// `+-phi` when `c == +-2`.
#[derive(Clone, Copy, Debug, PartialEq, Eq, Structural)]
pub struct IcoVertex {
    pub x: i8,
    pub y: i8,
    pub z: i8,
}

/// The 20 triangles of the icosahedron, wound so that every face's normal
/// points away from the solid's center: a top pyramid around vertex 5, a
/// pentagonal biprism, and a bottom pyramid around vertex 6.
pub open spec fn icosahedron_index_list() -> Seq<usize> {
    seq![
        5usize, 4, 2,
        5, 2, 11,
        5, 11, 10,
        5, 10, 0,
        5, 0, 4,
        8, 4, 0,
        8, 9, 4,
        9, 2, 4,
        9, 3, 2,
        3, 11, 2,
        3, 7, 11,
        7, 10, 11,
        7, 1, 10,
        1, 0, 10,
        1, 8, 0,
        6, 7, 3,
        6, 3, 9,
        6, 9, 8,
        6, 8, 1,
        6, 1, 7,
    ]
}

/// The 12 corners: all cyclic permutations of (0, +-1, +-phi), with phi
/// written as the code 2.
pub open spec fn icosahedron_coord_list() -> Seq<IcoVertex> {
    seq![
        IcoVertex { x: -2i8, y: 1, z: 0 },
        IcoVertex { x: -2i8, y: -1i8, z: 0 },
        IcoVertex { x: 2, y: 1, z: 0 },
        IcoVertex { x: 2, y: -1i8, z: 0 },
        IcoVertex { x: 0, y: 2, z: 1 },
        IcoVertex { x: 0, y: 2, z: -1i8 },
        IcoVertex { x: 0, y: -2i8, z: 1 },
        IcoVertex { x: 0, y: -2i8, z: -1i8 },
        IcoVertex { x: -1i8, y: 0, z: 2 },
        IcoVertex { x: 1, y: 0, z: 2 },
        IcoVertex { x: -1i8, y: 0, z: -2i8 },
        IcoVertex { x: 1, y: 0, z: -2i8 },
    ]
}

/// Icosahedron Builder: the fixed 12-vertex, 20-triangle base solid. The
/// topology comes back as a `Mesh`; the corner positions come back as
/// symbolic coordinates for the caller to decode.
pub fn generate_regular_icosahedron() -> (r: (Mesh, Vec<IcoVertex>))
    ensures
        r.0.wf(),
        r.0.vertex_count == 12,
        r.0.indices@ == icosahedron_index_list(),
        r.0.indices@.len() == 60,
        r.1@ == icosahedron_coord_list(),
{
    let indices: Vec<usize> = vec![
        5, 4, 2,
        5, 2, 11,
        5, 11, 10,
        5, 10, 0,
        5, 0, 4,
        8, 4, 0,
        8, 9, 4,
        9, 2, 4,
        9, 3, 2,
        3, 11, 2,
        3, 7, 11,
        7, 10, 11,
        7, 1, 10,
        1, 0, 10,
        1, 8, 0,
        6, 7, 3,
        6, 3, 9,
        6, 9, 8,
        6, 8, 1,
        6, 1, 7,
    ];
    let coords: Vec<IcoVertex> = vec![
        IcoVertex { x: -2, y: 1, z: 0 },
        IcoVertex { x: -2, y: -1, z: 0 },
        IcoVertex { x: 2, y: 1, z: 0 },
        IcoVertex { x: 2, y: -1, z: 0 },
        IcoVertex { x: 0, y: 2, z: 1 },
        IcoVertex { x: 0, y: 2, z: -1 },
        IcoVertex { x: 0, y: -2, z: 1 },
        IcoVertex { x: 0, y: -2, z: -1 },
        IcoVertex { x: -1, y: 0, z: 2 },
        IcoVertex { x: 1, y: 0, z: 2 },
        IcoVertex { x: -1, y: 0, z: -2 },
        IcoVertex { x: 1, y: 0, z: -2 },
    ];
    proof {
        assert(indices@ =~= icosahedron_index_list());
        assert(coords@ =~= icosahedron_coord_list());
        assert(forall|i: int|
            0 <= i < 60 ==> icosahedron_index_list()[i] < 12);
    }
    (Mesh { vertex_count: 12, indices }, coords)
}

} // verus!
