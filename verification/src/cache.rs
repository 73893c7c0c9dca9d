use vstd::prelude::*;
use std::collections::HashMap;
use crate::mesh::Edge;

verus! {

broadcast use vstd::std_specs::hash::group_hash_axioms;

/// Vertex indices that may serve as cache keys must fit in 32 bits, so
/// that a normalized pair packs losslessly into one `u64` hash key.
pub const EDGE_INDEX_LIMIT: u64 = 0x1_0000_0000;

/// An `Edge` whose ends both fit the packed key.
pub open spec fn packable(e: Edge) -> bool {
    e.a < EDGE_INDEX_LIMIT && e.b < EDGE_INDEX_LIMIT
}

/// Pack a normalized index pair into one 64-bit key.
pub open spec fn spec_pack(e: Edge) -> u64 {
    ((e.a as u64) << 32u64) | (e.b as u64)
}

/// Packing is injective on pairs whose ends fit in 32 bits.
proof fn lemma_pack_injective(e1: Edge, e2: Edge)
    requires
        packable(e1),
        packable(e2),
        spec_pack(e1) == spec_pack(e2),
    ensures
        e1 == e2,
{
    let a1 = e1.a as u64;
    let b1 = e1.b as u64;
    let a2 = e2.a as u64;
    let b2 = e2.b as u64;
    assert((a1 << 32u64 | b1) == (a2 << 32u64 | b2) && a1 < 0x1_0000_0000 && b1 < 0x1_0000_0000
        && a2 < 0x1_0000_0000 && b2 < 0x1_0000_0000 ==> a1 == a2 && b1 == b2) by (bit_vector);
}

/// The Index Cache: a mapping from an unordered vertex-index pair to the
/// index of the vertex created for that pair. One cache lives for exactly
/// one subdivision round or one clip pass. Keys are packed pairs; the view
/// is the mathematical map from `Edge` to created index.
pub struct EdgeCache {
    map: HashMap<u64, usize>,
}

impl View for EdgeCache {
    type V = Map<Edge, usize>;

    closed spec fn view(&self) -> Map<Edge, usize> {
        Map::new(
            |e: Edge| packable(e) && self.map@.contains_key(spec_pack(e)),
            |e: Edge| self.map@[spec_pack(e)],
        )
    }
}

impl EdgeCache {
    /// A fresh, empty cache.
    pub fn new() -> (r: Self)
        ensures
            r@ == Map::<Edge, usize>::empty(),
    {
        let r = EdgeCache { map: HashMap::new() };
        proof {
            assert(r@ =~= Map::<Edge, usize>::empty());
        }
        r
    }

    /// Look a pair up.
    pub fn get(&self, e: Edge) -> (r: Option<usize>)
        requires
            packable(e),
        ensures
            match r {
                Some(v) => self@.contains_key(e) && self@[e] == v,
                None => !self@.contains_key(e),
            },
    {
        let key: u64 = ((e.a as u64) << 32u64) | (e.b as u64);
        match self.map.get(&key) {
            Some(v) => Some(*v),
            None => None,
        }
    }

    /// Record the vertex created for a pair.
    pub fn put(&mut self, e: Edge, v: usize)
        requires
            packable(e),
        ensures
            final(self)@ == old(self)@.insert(e, v),
    {
        let key: u64 = ((e.a as u64) << 32u64) | (e.b as u64);
        self.map.insert(key, v);
        proof {
            assert forall|e2: Edge| #[trigger] final(self)@.contains_key(e2)
                <==> old(self)@.insert(e, v).contains_key(e2) by {
                if e2 != e && packable(e2) && spec_pack(e2) == spec_pack(e) {
                    lemma_pack_injective(e2, e);
                }
            }
            assert forall|e2: Edge| final(self)@.contains_key(e2)
                implies #[trigger] final(self)@[e2] == old(self)@.insert(e, v)[e2] by {
                if e2 != e && packable(e2) && spec_pack(e2) == spec_pack(e) {
                    lemma_pack_injective(e2, e);
                }
            }
            assert(final(self)@ =~= old(self)@.insert(e, v));
        }
    }
}

} // verus!
