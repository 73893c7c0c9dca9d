//! Procedural polyhedral mesh generation: an icosahedron refined into an
//! icosphere, carved into a rounded die by six plane cuts, each cut capped
//! with a triangle fan, and finally pruned and compacted.
//!
//! The library verifies the combinatorial side of the pipeline: index
//! buffers, edge-keyed deduplication caches, retriangulation of cut
//! triangles, boundary-ring ordering, fan construction and vertex
//! compaction. Positions themselves are floating-point data; every stage
//! therefore reports, alongside the new topology, a creation log that says
//! from which existing vertices each new vertex is derived, so that a
//! numeric driver can compute the coordinates.

pub mod mesh;
pub mod icosahedron;
pub mod cache;
pub mod subdivide;
pub mod clip;
pub mod prune;
pub mod cap;
pub mod die;
