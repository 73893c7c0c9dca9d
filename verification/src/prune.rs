use vstd::prelude::*;
use crate::mesh::Mesh;

verus! {

/// How many of the first `n` vertices survive the predicate.
pub open spec fn kept_count(remove: Seq<bool>, n: int) -> int
    decreases n,
{
    if n <= 0 {
        0
    } else {
        kept_count(remove, n - 1) + if remove[n - 1] {
            0int
        } else {
            1int
        }
    }
}

/// The surviving original vertex indices, in ascending order: the compacted
/// buffer's vertex `k` is the old vertex `survivors[k]`.
pub open spec fn survivors(remove: Seq<bool>, n: int) -> Seq<usize>
    decreases n,
{
    if n <= 0 {
        Seq::empty()
    } else {
        let p = survivors(remove, n - 1);
        if remove[n - 1] {
            p
        } else {
            p.push((n - 1) as usize)
        }
    }
}

/// The compacted index list after the first `j` triangles: a triangle is
/// kept iff none of its corners is removed, and each kept corner shifts
/// down to its rank among the survivors, so winding order is untouched.
pub open spec fn prune_tris(idx: Seq<usize>, remove: Seq<bool>, j: int) -> Seq<usize>
    decreases j,
{
    if j <= 0 {
        Seq::empty()
    } else {
        let p = prune_tris(idx, remove, j - 1);
        let a = idx[3 * (j - 1)];
        let b = idx[3 * (j - 1) + 1];
        let c = idx[3 * (j - 1) + 2];
        if !remove[a as int] && !remove[b as int] && !remove[c as int] {
            p + seq![
                kept_count(remove, a as int) as usize,
                kept_count(remove, b as int) as usize,
                kept_count(remove, c as int) as usize,
            ]
        } else {
            p
        }
    }
}

/// Survivor counts are monotone and grow by at most one per vertex.
pub proof fn lemma_kept_mono(remove: Seq<bool>, i: int, j: int)
    requires
        0 <= i <= j,
    ensures
        kept_count(remove, i) <= kept_count(remove, j) <= kept_count(remove, i) + (j - i),
    decreases j - i,
{
    if i < j {
        lemma_kept_mono(remove, i, j - 1);
    }
}

/// The survivor list pairs each rank with its original vertex: it has one
/// entry per kept vertex, ascending, and a kept vertex `v`'s rank is
/// `kept_count(v)`.
pub proof fn lemma_survivors_ok(remove: Seq<bool>, n: int)
    requires
        0 <= n <= remove.len(),
        remove.len() <= usize::MAX,
    ensures
        survivors(remove, n).len() == kept_count(remove, n),
        forall|k: int|
            0 <= k < survivors(remove, n).len() ==> (#[trigger] survivors(remove, n)[k]) < n
                && !remove[survivors(remove, n)[k] as int]
                && kept_count(remove, survivors(remove, n)[k] as int) == k,
    decreases n,
{
    if n > 0 {
        lemma_survivors_ok(remove, n - 1);
        let p = survivors(remove, n - 1);
        let s = survivors(remove, n);
        if !remove[n - 1] {
            assert forall|k: int| 0 <= k < s.len() implies (#[trigger] s[k]) < n
                && !remove[s[k] as int] && kept_count(remove, s[k] as int) == k by {
                if k < p.len() {
                    assert(s[k] == p[k]);
                } else {
                    assert(s[k] == (n - 1) as usize);
                }
            }
        }
    }
}

/// Vertex Pruner: remove every vertex the caller's predicate marked, drop
/// every triangle that references a removed vertex, and compact the rest.
/// The first result is the compacted topology; the second lists, per new
/// vertex, the original vertex it came from, so the caller can compact the
/// position and UV arrays in parallel (their lengths stay equal to the new
/// vertex count). Winding order of surviving triangles is unchanged.
pub fn remove_if(mesh: &Mesh, remove: &Vec<bool>) -> (r: (Mesh, Vec<usize>))
    requires
        mesh.wf(),
        remove@.len() == mesh.vertex_count,
    ensures
        r.1@ == survivors(remove@, mesh.vertex_count as int),
        r.0.vertex_count == r.1@.len(),
        r.0.vertex_count == kept_count(remove@, mesh.vertex_count as int),
        r.0.indices@ == prune_tris(mesh.indices@, remove@, mesh.indices@.len() as int / 3),
        r.0.wf(),
        r.0.indices@.len() <= mesh.indices@.len(),
        forall|k: int|
            0 <= k < r.1@.len() ==> (#[trigger] r.1@[k]) < mesh.vertex_count
                && !remove@[r.1@[k] as int],
{
    let vc = mesh.vertex_count;
    let ghost rem = remove@;
    let mut offsets: Vec<usize> = Vec::new();
    let mut kept: Vec<usize> = Vec::new();
    let mut count: usize = 0;
    for v in 0..vc
        invariant
            vc == mesh.vertex_count,
            rem == remove@,
            remove@.len() == vc,
            offsets@.len() == v,
            count == kept_count(rem, v as int),
            kept@ == survivors(rem, v as int),
            forall|u: int| 0 <= u < v ==> #[trigger] offsets@[u] == kept_count(rem, u),
    {
        proof {
            lemma_kept_mono(rem, 0, v as int);
        }
        offsets.push(count);
        if !remove[v] {
            kept.push(v);
            count = count + 1;
        }
    }
    let mut out: Vec<usize> = Vec::new();
    let len = mesh.indices.len();
    let n = len / 3;
    proof {
        assert(Seq::<usize>::empty() =~= prune_tris(mesh.indices@, rem, 0));
        lemma_survivors_ok(rem, vc as int);
    }
    for j in 0..n
        invariant
            vc == mesh.vertex_count,
            rem == remove@,
            remove@.len() == vc,
            mesh.wf(),
            len == mesh.indices@.len(),
            n == len / 3,
            offsets@.len() == vc,
            count == kept_count(rem, vc as int),
            forall|u: int| 0 <= u < vc ==> #[trigger] offsets@[u] == kept_count(rem, u),
            out@ == prune_tris(mesh.indices@, rem, j as int),
            out@.len() <= 3 * j,
            out@.len() % 3 == 0,
            forall|i: int| 0 <= i < out@.len() ==> #[trigger] out@[i] < count,
    {
        proof {
            assert(3 * (j as int) + 3 <= mesh.indices@.len());
        }
        let a = mesh.indices[3 * j];
        let b = mesh.indices[3 * j + 1];
        let c = mesh.indices[3 * j + 2];
        if !remove[a] && !remove[b] && !remove[c] {
            proof {
                lemma_kept_mono(rem, a as int + 1, vc as int);
                lemma_kept_mono(rem, b as int + 1, vc as int);
                lemma_kept_mono(rem, c as int + 1, vc as int);
            }
            out.push(offsets[a]);
            out.push(offsets[b]);
            out.push(offsets[c]);
        }
        proof {
            assert(out@ =~= prune_tris(mesh.indices@, rem, j as int + 1));
        }
    }
    proof {
        assert(n as int == mesh.indices@.len() as int / 3);
        lemma_survivors_ok(rem, vc as int);
    }
    (Mesh { vertex_count: count, indices: out }, kept)
}

/// Vertex Pruner identity: with a predicate that removes nothing, every
/// vertex survives in place and the index list is returned unchanged.
pub proof fn lemma_prune_identity(idx: Seq<usize>, remove: Seq<bool>)
    requires
        idx.len() % 3 == 0,
        forall|i: int| 0 <= i < idx.len() ==> idx[i] < remove.len(),
        forall|v: int| 0 <= v < remove.len() ==> !remove[v],
    ensures
        kept_count(remove, remove.len() as int) == remove.len(),
        survivors(remove, remove.len() as int) == Seq::new(remove.len(), |v: int| v as usize),
        prune_tris(idx, remove, idx.len() as int / 3) == idx,
{
    lemma_kept_identity(remove, remove.len() as int);
    lemma_survivors_identity(remove, remove.len() as int);
    lemma_prune_tris_identity(idx, remove, idx.len() as int / 3);
    assert(prune_tris(idx, remove, idx.len() as int / 3) =~= idx);
}

proof fn lemma_kept_identity(remove: Seq<bool>, n: int)
    requires
        0 <= n <= remove.len(),
        forall|v: int| 0 <= v < remove.len() ==> !remove[v],
    ensures
        kept_count(remove, n) == n,
    decreases n,
{
    if n > 0 {
        lemma_kept_identity(remove, n - 1);
    }
}

proof fn lemma_survivors_identity(remove: Seq<bool>, n: int)
    requires
        0 <= n <= remove.len(),
        forall|v: int| 0 <= v < remove.len() ==> !remove[v],
    ensures
        survivors(remove, n) =~= Seq::new(n as nat, |v: int| v as usize),
    decreases n,
{
    if n > 0 {
        lemma_survivors_identity(remove, n - 1);
    }
}

proof fn lemma_prune_tris_identity(idx: Seq<usize>, remove: Seq<bool>, j: int)
    requires
        0 <= 3 * j <= idx.len(),
        forall|i: int| 0 <= i < idx.len() ==> idx[i] < remove.len(),
        forall|v: int| 0 <= v < remove.len() ==> !remove[v],
    ensures
        prune_tris(idx, remove, j) =~= idx.subrange(0, 3 * j),
    decreases j,
{
    if j > 0 {
        lemma_prune_tris_identity(idx, remove, j - 1);
        let a = idx[3 * (j - 1)];
        let b = idx[3 * (j - 1) + 1];
        let c = idx[3 * (j - 1) + 2];
        lemma_kept_identity(remove, a as int);
        lemma_kept_identity(remove, b as int);
        lemma_kept_identity(remove, c as int);
    }
}

} // verus!
