use vstd::prelude::*;
use crate::mesh::Mesh;
use crate::clip::{Crossing, clip_model, intersect_mesh_with_plane};
use crate::cap::{RingVertex, cap_order, fill_circle, ring_entries, sort_pairs, fan_seq};
use crate::prune::{survivors, kept_count, prune_tris, remove_if};

verus! {

/// A signed coordinate axis, as integer components (each -1, 0 or 1, with
/// exactly one non-zero): the numeric driver scales it by the threshold to
/// obtain plane points, reference directions and clockwise axes.
#[derive(Clone, Copy, Debug, PartialEq, Eq, Structural)]
pub struct Axis3 {
    pub x: i8,
    pub y: i8,
    pub z: i8,
}

/// Two axes point opposite ways.
pub open spec fn opposite(a: Axis3, b: Axis3) -> bool {
    a.x + b.x == 0 && a.y + b.y == 0 && a.z + b.z == 0
}

/// One die face: its number, the outward normal of its cutting plane, the
/// reference direction for the angular UV unwrap, and the clockwise axis
/// that splits the boundary ring into halves.
#[derive(Clone, Copy, Debug, PartialEq, Eq, Structural)]
pub struct DieFace {
    pub number: u8,
    pub normal: Axis3,
    pub reference: Axis3,
    pub clockwise: Axis3,
}

/// The six faces in cutting order: left, right, up, down, front, back,
/// numbered as on a standard die.
pub open spec fn die_face_table() -> Seq<DieFace> {
    seq![
        DieFace {
            number: 2,
            normal: Axis3 { x: -1i8, y: 0, z: 0 },
            reference: Axis3 { x: 0, y: 0, z: 1 },
            clockwise: Axis3 { x: 0, y: -1i8, z: 0 },
        },
        DieFace {
            number: 5,
            normal: Axis3 { x: 1, y: 0, z: 0 },
            reference: Axis3 { x: 0, y: 0, z: 1 },
            clockwise: Axis3 { x: 0, y: 1, z: 0 },
        },
        DieFace {
            number: 6,
            normal: Axis3 { x: 0, y: 1, z: 0 },
            reference: Axis3 { x: 0, y: 0, z: -1i8 },
            clockwise: Axis3 { x: 1, y: 0, z: 0 },
        },
        DieFace {
            number: 1,
            normal: Axis3 { x: 0, y: -1i8, z: 0 },
            reference: Axis3 { x: 0, y: 0, z: 1 },
            clockwise: Axis3 { x: 1, y: 0, z: 0 },
        },
        DieFace {
            number: 4,
            normal: Axis3 { x: 0, y: 0, z: 1 },
            reference: Axis3 { x: 0, y: 1, z: 0 },
            clockwise: Axis3 { x: 1, y: 0, z: 0 },
        },
        DieFace {
            number: 3,
            normal: Axis3 { x: 0, y: 0, z: -1i8 },
            reference: Axis3 { x: 0, y: 1, z: 0 },
            clockwise: Axis3 { x: -1i8, y: 0, z: 0 },
        },
    ]
}

/// The face table, as a value.
pub fn die_faces() -> (r: Vec<DieFace>)
    ensures
        r@ == die_face_table(),
{
    let faces: Vec<DieFace> = vec![
        DieFace {
            number: 2,
            normal: Axis3 { x: -1, y: 0, z: 0 },
            reference: Axis3 { x: 0, y: 0, z: 1 },
            clockwise: Axis3 { x: 0, y: -1, z: 0 },
        },
        DieFace {
            number: 5,
            normal: Axis3 { x: 1, y: 0, z: 0 },
            reference: Axis3 { x: 0, y: 0, z: 1 },
            clockwise: Axis3 { x: 0, y: 1, z: 0 },
        },
        DieFace {
            number: 6,
            normal: Axis3 { x: 0, y: 1, z: 0 },
            reference: Axis3 { x: 0, y: 0, z: -1 },
            clockwise: Axis3 { x: 1, y: 0, z: 0 },
        },
        DieFace {
            number: 1,
            normal: Axis3 { x: 0, y: -1, z: 0 },
            reference: Axis3 { x: 0, y: 0, z: 1 },
            clockwise: Axis3 { x: 1, y: 0, z: 0 },
        },
        DieFace {
            number: 4,
            normal: Axis3 { x: 0, y: 0, z: 1 },
            reference: Axis3 { x: 0, y: 1, z: 0 },
            clockwise: Axis3 { x: 1, y: 0, z: 0 },
        },
        DieFace {
            number: 3,
            normal: Axis3 { x: 0, y: 0, z: -1 },
            reference: Axis3 { x: 0, y: 1, z: 0 },
            clockwise: Axis3 { x: -1, y: 0, z: 0 },
        },
    ];
    proof {
        assert(faces@ =~= die_face_table());
    }
    faces
}

/// Opposing faces sum to seven, as on a standard die: whenever two table
/// entries carry opposite plane normals, their face numbers add up to 7.
pub proof fn lemma_opposite_faces_sum_to_seven(i: int, j: int)
    requires
        0 <= i < 6,
        0 <= j < 6,
        opposite(die_face_table()[i].normal, die_face_table()[j].normal),
    ensures
        die_face_table()[i].number + die_face_table()[j].number == 7,
{
}

/// Die Assembler: the fixed order of the pipeline that carves a die out of
/// an icosphere. Six faces are processed in table order, each as one clip
/// pass followed by one cap fill over the ring of vertices that the clip
/// created; then the vertices outside the rounded cube are pruned. The
/// numeric work per step - cut flags, ring angles, the removal predicate,
/// UV values and the final rescale - is the driving caller's; this state
/// machine holds the topology and enforces the sequencing.
pub struct DieBuilder {
    pub mesh: Mesh,
    pub faces_done: usize,
    pub awaiting_cap: bool,
    pub ring_start: usize,
    pub pruned: bool,
}

impl DieBuilder {
    /// The builder invariant.
    pub open spec fn wf(self) -> bool {
        &&& self.mesh.wf()
        &&& self.faces_done <= 6
        &&& (self.awaiting_cap ==> self.faces_done < 6 && self.ring_start
            <= self.mesh.vertex_count)
        &&& (self.pruned ==> self.faces_done == 6 && !self.awaiting_cap)
    }

    /// Start from a freshly built icosphere.
    pub fn new(icosphere: Mesh) -> (r: Self)
        requires
            icosphere.wf(),
        ensures
            r.wf(),
            r.mesh == icosphere,
            r.faces_done == 0,
            !r.awaiting_cap,
            !r.pruned,
    {
        DieBuilder { mesh: icosphere, faces_done: 0, awaiting_cap: false, ring_start: 0, pruned: false }
    }

    /// Which face's plane is to be cut next, if a clip pass is what the
    /// fixed order asks for now.
    pub fn next_face(&self) -> (r: Option<DieFace>)
        requires
            self.wf(),
        ensures
            r == if self.faces_done < 6 && !self.awaiting_cap && !self.pruned {
                Some(die_face_table()[self.faces_done as int])
            } else {
                None::<DieFace>
            },
    {
        if self.faces_done < 6 && !self.awaiting_cap && !self.pruned {
            let faces = die_faces();
            Some(faces[self.faces_done])
        } else {
            None
        }
    }

    /// One clip pass against the current face's plane: the caller hands in
    /// the per-edge cut flags it computed from the plane, and receives the
    /// crossing log from which it extends the position and UV arrays. The
    /// new vertices form the boundary ring `[ring_start, vertex_count)`.
    pub fn apply_clip(&mut self, cuts: &Vec<bool>) -> (r: Vec<Crossing>)
        requires
            old(self).wf(),
            !old(self).awaiting_cap,
            !old(self).pruned,
            old(self).faces_done < 6,
            cuts@.len() == old(self).mesh.indices@.len(),
            old(self).mesh.vertex_count + old(self).mesh.indices@.len() <= u32::MAX,
            3 * old(self).mesh.indices@.len() <= usize::MAX,
        ensures
            ({
                let m = clip_model(old(self).mesh.vertex_count, old(self).mesh.indices@, cuts@);
                &&& final(self).mesh.vertex_count == m.vc
                &&& final(self).mesh.indices@ == m.out
                &&& r@ == m.log
            }),
            final(self).wf(),
            final(self).awaiting_cap,
            !final(self).pruned,
            final(self).faces_done == old(self).faces_done,
            final(self).ring_start == old(self).mesh.vertex_count,
            final(self).mesh.vertex_count == old(self).mesh.vertex_count + r@.len(),
    {
        let (clipped, log) = intersect_mesh_with_plane(&self.mesh, cuts);
        self.ring_start = self.mesh.vertex_count;
        self.mesh = clipped;
        self.awaiting_cap = true;
        log
    }

    /// One cap fill over the ring the last clip pass created: the caller
    /// hands in each ring vertex's angular half and sort key, and receives
    /// the ordered traversal and its counter-clockwise prefix length, from
    /// which it assigns the cap's UVs. This finishes the current face.
    pub fn apply_cap(&mut self, ring: &Vec<RingVertex>) -> (r: (Vec<usize>, usize))
        requires
            old(self).wf(),
            old(self).awaiting_cap,
            ring@.len() == old(self).mesh.vertex_count - old(self).ring_start,
            old(self).mesh.vertex_count + ring@.len() + 1 <= usize::MAX,
            old(self).mesh.indices@.len() + 3 * ring@.len() <= usize::MAX,
        ensures
            ({
                let n = ring@.len() as int;
                let vc = old(self).mesh.vertex_count as int;
                let order = cap_order(ring@, vc);
                &&& final(self).mesh.vertex_count == old(self).mesh.vertex_count + n + 1
                &&& r.0@ == order
                &&& r.0@.len() == n
                &&& r.1 == sort_pairs(ring_entries(ring@, vc, false), true).len()
                &&& final(self).mesh.indices@.len() == old(self).mesh.indices@.len() + 3 * n
                &&& final(self).mesh.indices@ == old(self).mesh.indices@ + fan_seq(
                    order,
                    (vc + n) as usize,
                )
            }),
            final(self).wf(),
            !final(self).awaiting_cap,
            !final(self).pruned,
            final(self).faces_done == old(self).faces_done + 1,
    {
        let (filled, order, counter_len) = fill_circle(&self.mesh, self.ring_start, ring);
        self.mesh = filled;
        self.awaiting_cap = false;
        self.faces_done = self.faces_done + 1;
        (order, counter_len)
    }

    /// The terminal prune: remove the spherical remnants outside the
    /// rounded cube, as marked by the caller's predicate, and compact. The
    /// returned survivor list maps each new vertex to its old one, so the
    /// caller compacts positions and UVs in parallel and then rescales.
    pub fn apply_prune(&mut self, remove: &Vec<bool>) -> (r: Vec<usize>)
        requires
            old(self).wf(),
            !old(self).awaiting_cap,
            !old(self).pruned,
            old(self).faces_done == 6,
            remove@.len() == old(self).mesh.vertex_count,
        ensures
            r@ == survivors(remove@, old(self).mesh.vertex_count as int),
            final(self).mesh.vertex_count == r@.len(),
            final(self).mesh.vertex_count == kept_count(
                remove@,
                old(self).mesh.vertex_count as int,
            ),
            final(self).mesh.indices@ == prune_tris(
                old(self).mesh.indices@,
                remove@,
                old(self).mesh.indices@.len() as int / 3,
            ),
            final(self).wf(),
            final(self).pruned,
            final(self).faces_done == 6,
    {
        let (pruned_mesh, kept) = remove_if(&self.mesh, remove);
        self.mesh = pruned_mesh;
        self.pruned = true;
        kept
    }

    /// Hand the finished topology out.
    pub fn into_mesh(self) -> (r: Mesh)
        requires
            self.wf(),
            self.pruned,
        ensures
            r == self.mesh,
            r.wf(),
    {
        self.mesh
    }
}

} // verus!
