use vstd::prelude::*;
use crate::mesh::{Mesh, Edge, edge_key, make_edge_key};
use crate::cache::EdgeCache;
use crate::icosahedron::{IcoVertex, generate_regular_icosahedron, icosahedron_index_list,
    icosahedron_coord_list};

verus! {

/// The evolving state of one subdivision round: how many vertices exist so
/// far, the Index Cache mapping each normalized edge to its midpoint
/// vertex, the creation log (one entry per new midpoint, in creation
/// order), and the new index list emitted so far.
pub ghost struct RoundState {
    pub vc: usize,
    pub cache: Map<Edge, usize>,
    pub log: Seq<Edge>,
    pub out: Seq<usize>,
}

/// Midpoint lookup/creation: return the cached midpoint for the normalized
/// pair if present; otherwise the next fresh vertex index, recorded in the
/// cache and the log. The new midpoint vertex's position is the average of
/// the two endpoint positions projected onto the unit sphere, which the
/// caller computes from the log.
pub open spec fn lookup_model(st: RoundState, x: usize, y: usize) -> (RoundState, usize) {
    let k = edge_key(x, y);
    if st.cache.contains_key(k) {
        (st, st.cache[k])
    } else {
        (
            RoundState {
                vc: (st.vc + 1) as usize,
                cache: st.cache.insert(k, st.vc),
                log: st.log.push(k),
                out: st.out,
            },
            st.vc,
        )
    }
}

/// One triangle's step of a subdivision round: create or look up the three
/// edge midpoints, then emit the standard 1-to-4 refinement, which
/// preserves winding.
pub open spec fn round_tri_model(st: RoundState, p1: usize, p2: usize, p3: usize) -> RoundState {
    let r1 = lookup_model(st, p1, p2);
    let m1 = r1.1;
    let r2 = lookup_model(r1.0, p2, p3);
    let m2 = r2.1;
    let r3 = lookup_model(r2.0, p3, p1);
    let m3 = r3.1;
    RoundState {
        vc: r3.0.vc,
        cache: r3.0.cache,
        log: r3.0.log,
        out: r3.0.out + seq![p1, m1, m3, p2, m2, m1, p3, m3, m2, m1, m2, m3],
    }
}

/// The round state after the first `j` triangles have been processed.
pub open spec fn round_model_upto(vc0: usize, idx: Seq<usize>, j: int) -> RoundState
    decreases j,
{
    if j <= 0 {
        RoundState { vc: vc0, cache: Map::empty(), log: Seq::empty(), out: Seq::empty() }
    } else {
        round_tri_model(
            round_model_upto(vc0, idx, j - 1),
            idx[3 * (j - 1)],
            idx[3 * (j - 1) + 1],
            idx[3 * (j - 1) + 2],
        )
    }
}

/// The complete round over an index list.
pub open spec fn round_model(vc0: usize, idx: Seq<usize>) -> RoundState {
    round_model_upto(vc0, idx, idx.len() as int / 3)
}

/// What always holds of the cache and log: vertex numbering is dense (the
/// `k`-th log entry created vertex `vc0 + k`), log entries are normalized
/// pairs of original vertices, the cache maps exactly the logged pairs, and
/// it maps the `k`-th of them to `vc0 + k`.
pub open spec fn cache_inv(vc0: usize, vcv: usize, cachev: Map<Edge, usize>, logv: Seq<Edge>) -> bool {
    &&& vcv == vc0 + logv.len()
    &&& forall|k: int|
        0 <= k < logv.len() ==> (#[trigger] logv[k]).a <= logv[k].b && logv[k].b < vc0
    &&& forall|k: int|
        0 <= k < logv.len() ==> cachev.contains_key(#[trigger] logv[k])
            && cachev[logv[k]] == vc0 + k
    &&& forall|e: Edge|
        #[trigger] cachev.contains_key(e) ==> exists|k: int|
            0 <= k < logv.len() && logv[k] == e
}

/// `cache_inv`, read off a round state.
pub open spec fn cache_ok(vc0: usize, st: RoundState) -> bool {
    cache_inv(vc0, st.vc, st.cache, st.log)
}

/// The round invariant after `j` triangles: `cache_ok`, plus the growth
/// bounds and the well-formedness of the emitted indices.
pub open spec fn round_state_ok(vc0: usize, idx: Seq<usize>, j: int, st: RoundState) -> bool {
    &&& cache_ok(vc0, st)
    &&& st.log.len() <= 3 * j
    &&& st.out.len() == 12 * j
    &&& forall|i: int| 0 <= i < st.out.len() ==> #[trigger] st.out[i] < st.vc
}

/// One lookup step preserves `cache_ok` and grows the state by at most one
/// vertex; the midpoint it returns is a valid vertex index.
proof fn lemma_lookup_ok(vc0: usize, st: RoundState, x: usize, y: usize)
    requires
        cache_ok(vc0, st),
        x < vc0,
        y < vc0,
        st.vc < usize::MAX,
    ensures
        ({
            let r = lookup_model(st, x, y);
            &&& cache_ok(vc0, r.0)
            &&& st.log.len() <= r.0.log.len() <= st.log.len() + 1
            &&& st.vc <= r.0.vc == vc0 + r.0.log.len()
            &&& r.1 < r.0.vc
            &&& r.0.out == st.out
            &&& forall|e: Edge|
                st.cache.contains_key(e) ==> r.0.cache.contains_key(e)
                    && r.0.cache[e] == st.cache[e]
            &&& forall|k: int| 0 <= k < st.log.len() ==> r.0.log[k] == st.log[k]
        }),
{
    let k = edge_key(x, y);
    let r = lookup_model(st, x, y);
    if st.cache.contains_key(k) {
        let ghost i = choose|i: int| 0 <= i < st.log.len() && st.log[i] == k;
        assert(st.cache[k] == vc0 + i);
    } else {
        let st2 = r.0;
        assert forall|e: Edge| #[trigger] st2.cache.contains_key(e) implies exists|i: int|
            0 <= i < st2.log.len() && st2.log[i] == e by {
            if e == k {
                assert(st2.log[st.log.len() as int] == e);
            } else {
                let i = choose|i: int| 0 <= i < st.log.len() && st.log[i] == e;
                assert(st2.log[i] == e);
            }
        }
    }
}

/// The round invariant holds after any number of triangles.
pub proof fn lemma_round_ok(vc0: usize, idx: Seq<usize>, j: int)
    requires
        forall|i: int| 0 <= i < idx.len() ==> idx[i] < vc0,
        0 <= 3 * j <= idx.len(),
        vc0 + idx.len() <= usize::MAX,
    ensures
        round_state_ok(vc0, idx, j, round_model_upto(vc0, idx, j)),
    decreases j,
{
    if j <= 0 {
    } else {
        lemma_round_ok(vc0, idx, j - 1);
        let st = round_model_upto(vc0, idx, j - 1);
        let p1 = idx[3 * (j - 1)];
        let p2 = idx[3 * (j - 1) + 1];
        let p3 = idx[3 * (j - 1) + 2];
        lemma_lookup_ok(vc0, st, p1, p2);
        let r1 = lookup_model(st, p1, p2);
        lemma_lookup_ok(vc0, r1.0, p2, p3);
        let r2 = lookup_model(r1.0, p2, p3);
        lemma_lookup_ok(vc0, r2.0, p3, p1);
        let r3 = lookup_model(r2.0, p3, p1);
        let fin = round_model_upto(vc0, idx, j);
        assert(fin.vc == r3.0.vc && fin.cache == r3.0.cache && fin.log == r3.0.log);
        assert(cache_ok(vc0, fin));
        assert(fin.log.len() <= 3 * j);
        assert(fin.out.len() == st.out.len() + 12);
        assert(fin.out.len() == 12 * j);
        assert forall|i: int| 0 <= i < fin.out.len() implies #[trigger] fin.out[i] < fin.vc by {
            if i < st.out.len() {
                assert(st.out[i] < st.vc);
            } else {
                let s = seq![p1, r1.1, r3.1, p2, r2.1, r1.1, p3, r3.1, r2.1, r1.1, r2.1, r3.1];
                assert(fin.out[i] == s[i - st.out.len()]);
                assert(p1 < vc0 && p2 < vc0 && p3 < vc0);
                assert(vc0 <= fin.vc);
                assert(r1.1 < r1.0.vc && r2.1 < r2.0.vc && r3.1 < r3.0.vc);
            }
        }
    }
}

/// Executable midpoint lookup/creation against the Index Cache.
fn lookup_or_create(
    cache: &mut EdgeCache,
    vc: &mut usize,
    log: &mut Vec<Edge>,
    x: usize,
    y: usize,
    Ghost(vc0): Ghost<usize>,
) -> (m: usize)
    requires
        cache_inv(vc0, *old(vc), old(cache)@, old(log)@),
        x < vc0,
        y < vc0,
        vc0 <= 0x1_0000_0000,
        *old(vc) < usize::MAX,
    ensures
        ({
            let k = edge_key(x, y);
            if old(cache)@.contains_key(k) {
                &&& final(cache)@ == old(cache)@
                &&& *final(vc) == *old(vc)
                &&& final(log)@ == old(log)@
                &&& m == old(cache)@[k]
            } else {
                &&& final(cache)@ == old(cache)@.insert(k, *old(vc))
                &&& *final(vc) == *old(vc) + 1
                &&& final(log)@ == old(log)@.push(k)
                &&& m == *old(vc)
            }
        }),
{
    let e = make_edge_key(x, y);
    match cache.get(e) {
        Some(v) => v,
        None => {
            let m = *vc;
            cache.put(e, m);
            *vc = *vc + 1;
            log.push(e);
            m
        },
    }
}

/// One triangle of a subdivision round, executed: after the call the cache,
/// counter, log and emitted index list stand exactly where `round_tri_model`
/// puts them.
fn subdivide_tri(
    cache: &mut EdgeCache,
    vc: &mut usize,
    log: &mut Vec<Edge>,
    out: &mut Vec<usize>,
    p1: usize,
    p2: usize,
    p3: usize,
    Ghost(vc0): Ghost<usize>,
)
    requires
        cache_inv(vc0, *old(vc), old(cache)@, old(log)@),
        p1 < vc0,
        p2 < vc0,
        p3 < vc0,
        vc0 <= 0x1_0000_0000,
        *old(vc) + 3 <= usize::MAX,
        old(out)@.len() + 12 <= usize::MAX,
    ensures
        ({
            let st = RoundState {
                vc: *old(vc),
                cache: old(cache)@,
                log: old(log)@,
                out: old(out)@,
            };
            let stn = round_tri_model(st, p1, p2, p3);
            &&& final(cache)@ == stn.cache
            &&& *final(vc) == stn.vc
            &&& final(log)@ == stn.log
            &&& final(out)@ == stn.out
        }),
{
    let ghost st = RoundState { vc: *vc, cache: cache@, log: log@, out: out@ };
    proof {
        lemma_lookup_ok(vc0, st, p1, p2);
    }
    let m1 = lookup_or_create(cache, vc, log, p1, p2, Ghost(vc0));
    let ghost r1 = lookup_model(st, p1, p2);
    proof {
        assert(cache@ == r1.0.cache && *vc == r1.0.vc && log@ == r1.0.log && m1 == r1.1);
        lemma_lookup_ok(vc0, r1.0, p2, p3);
    }
    let m2 = lookup_or_create(cache, vc, log, p2, p3, Ghost(vc0));
    let ghost r2 = lookup_model(r1.0, p2, p3);
    proof {
        assert(cache@ == r2.0.cache && *vc == r2.0.vc && log@ == r2.0.log && m2 == r2.1);
        lemma_lookup_ok(vc0, r2.0, p3, p1);
    }
    let m3 = lookup_or_create(cache, vc, log, p3, p1, Ghost(vc0));
    let ghost r3 = lookup_model(r2.0, p3, p1);
    proof {
        assert(cache@ == r3.0.cache && *vc == r3.0.vc && log@ == r3.0.log && m3 == r3.1);
    }
    out.push(p1);
    out.push(m1);
    out.push(m3);
    out.push(p2);
    out.push(m2);
    out.push(m1);
    out.push(p3);
    out.push(m3);
    out.push(m2);
    out.push(m1);
    out.push(m2);
    out.push(m3);
    proof {
        let stn = round_tri_model(st, p1, p2, p3);
        assert(out@ =~= stn.out);
    }
}

/// Subdivider, one round: replace every triangle by its 1-to-4 refinement,
/// deduplicating edge midpoints through a fresh Index Cache. The result is
/// exactly `round_model` of the input; the second component is the
/// creation log, whose `k`-th entry is the normalized endpoint pair of the
/// edge whose midpoint became vertex `mesh.vertex_count + k`.
pub fn subdivide_round(mesh: &Mesh) -> (r: (Mesh, Vec<Edge>))
    requires
        mesh.wf(),
        mesh.vertex_count + mesh.indices@.len() <= u32::MAX,
        4 * mesh.indices@.len() <= usize::MAX,
    ensures
        ({
            let m = round_model(mesh.vertex_count, mesh.indices@);
            &&& r.0.vertex_count == m.vc
            &&& r.0.indices@ == m.out
            &&& r.1@ == m.log
        }),
        r.0.wf(),
        r.0.indices@.len() == 4 * mesh.indices@.len(),
        r.0.vertex_count == mesh.vertex_count + r.1@.len(),
        r.1@.len() <= mesh.indices@.len(),
        forall|k: int|
            0 <= k < r.1@.len() ==> (#[trigger] r.1@[k]).a <= r.1@[k].b
                && r.1@[k].b < mesh.vertex_count,
{
    let vc0 = mesh.vertex_count;
    let ghost idx = mesh.indices@;
    let mut cache = EdgeCache::new();
    let mut vc: usize = vc0;
    let mut log: Vec<Edge> = Vec::new();
    let mut out: Vec<usize> = Vec::new();
    let n = mesh.indices.len() / 3;
    proof {
        assert(Map::<Edge, usize>::empty() =~= round_model_upto(vc0, idx, 0).cache);
        assert(Seq::<Edge>::empty() =~= round_model_upto(vc0, idx, 0).log);
        assert(Seq::<usize>::empty() =~= round_model_upto(vc0, idx, 0).out);
    }
    for j in 0..n
        invariant
            ({
                let st = round_model_upto(vc0, idx, j as int);
                &&& cache@ == st.cache
                &&& vc == st.vc
                &&& log@ == st.log
                &&& out@ == st.out
            }),
            idx == mesh.indices@,
            mesh.wf(),
            vc0 == mesh.vertex_count,
            vc0 + idx.len() <= u32::MAX,
            4 * idx.len() <= usize::MAX,
            n == idx.len() / 3,
    {
        let ghost st0 = round_model_upto(vc0, idx, j as int);
        proof {
            lemma_round_ok(vc0, idx, j as int);
            assert(3 * (j as int) + 3 <= idx.len());
            assert(st0.vc + 3 <= usize::MAX);
            assert(st0.out.len() + 12 <= usize::MAX);
        }
        let p1 = mesh.indices[3 * j];
        let p2 = mesh.indices[3 * j + 1];
        let p3 = mesh.indices[3 * j + 2];
        subdivide_tri(&mut cache, &mut vc, &mut log, &mut out, p1, p2, p3, Ghost(vc0));
        proof {
            let stn = round_model_upto(vc0, idx, j as int + 1);
            assert(stn == round_tri_model(st0, p1, p2, p3));
        }
    }
    proof {
        lemma_round_ok(vc0, idx, n as int);
        assert(n as int == idx.len() as int / 3);
        let m = round_model(vc0, idx);
        assert(m.out.len() == 12 * (idx.len() as int / 3));
        assert(12 * (idx.len() as int / 3) == 4 * idx.len()) by {
            assert(idx.len() % 3 == 0);
        }
        assert(m.out.len() % 3 == 0);
    }
    (Mesh { vertex_count: vc, indices: out }, log)
}

/// The normalized pair that edge `i` of input triangle `j` joins (the
/// triangle's directed edges lead first to second, second to third, third
/// back to first corner).
pub open spec fn tri_edge(idx: Seq<usize>, j: int, i: int) -> Edge {
    edge_key(idx[3 * j + i], idx[3 * j + (if i == 2 { 0int } else { i + 1 })])
}

/// Where the midpoint of edge `i` of input triangle `j` stands in the
/// round's output index list, relative to `12 * j`.
pub open spec fn midpoint_slot(i: int) -> int {
    if i == 0 {
        1
    } else if i == 1 {
        4
    } else {
        7
    }
}

/// The cache only grows across triangles, and entries never change.
proof fn lemma_cache_stable(vc0: usize, idx: Seq<usize>, j1: int, j2: int)
    requires
        forall|i: int| 0 <= i < idx.len() ==> idx[i] < vc0,
        0 <= j1 <= j2,
        3 * j2 <= idx.len(),
        vc0 + idx.len() <= usize::MAX,
    ensures
        forall|e: Edge|
            #[trigger] round_model_upto(vc0, idx, j1).cache.contains_key(e)
                ==> round_model_upto(vc0, idx, j2).cache.contains_key(e)
                && round_model_upto(vc0, idx, j2).cache[e]
                    == round_model_upto(vc0, idx, j1).cache[e],
    decreases j2 - j1,
{
    if j1 < j2 {
        lemma_cache_stable(vc0, idx, j1, j2 - 1);
        lemma_round_ok(vc0, idx, j2 - 1);
        let st = round_model_upto(vc0, idx, j2 - 1);
        let p1 = idx[3 * (j2 - 1)];
        let p2 = idx[3 * (j2 - 1) + 1];
        let p3 = idx[3 * (j2 - 1) + 2];
        lemma_lookup_ok(vc0, st, p1, p2);
        let r1 = lookup_model(st, p1, p2);
        lemma_lookup_ok(vc0, r1.0, p2, p3);
        let r2 = lookup_model(r1.0, p2, p3);
        lemma_lookup_ok(vc0, r2.0, p3, p1);
        let r3 = lookup_model(r2.0, p3, p1);
        let prev = round_model_upto(vc0, idx, j1);
        let mid = round_model_upto(vc0, idx, j2 - 1);
        let fin = round_model_upto(vc0, idx, j2);
        assert(fin.cache == r3.0.cache);
        assert forall|e: Edge|
            #[trigger] round_model_upto(vc0, idx, j1).cache.contains_key(e)
                implies round_model_upto(vc0, idx, j2).cache.contains_key(e)
                && round_model_upto(vc0, idx, j2).cache[e]
                    == round_model_upto(vc0, idx, j1).cache[e] by {
            assert(mid.cache.contains_key(e) && mid.cache[e] == prev.cache[e]);
            assert(r1.0.cache.contains_key(e) && r1.0.cache[e] == mid.cache[e]);
            assert(r2.0.cache.contains_key(e) && r2.0.cache[e] == r1.0.cache[e]);
            assert(r3.0.cache.contains_key(e) && r3.0.cache[e] == r2.0.cache[e]);
        }
    }
}

/// The output index list only grows across triangles; emitted entries
/// never change.
proof fn lemma_out_prefix(vc0: usize, idx: Seq<usize>, j1: int, j2: int)
    requires
        forall|i: int| 0 <= i < idx.len() ==> idx[i] < vc0,
        0 <= j1 <= j2,
        3 * j2 <= idx.len(),
        vc0 + idx.len() <= usize::MAX,
    ensures
        round_model_upto(vc0, idx, j1).out.len() <= round_model_upto(vc0, idx, j2).out.len(),
        forall|i: int|
            0 <= i < round_model_upto(vc0, idx, j1).out.len()
                ==> round_model_upto(vc0, idx, j2).out[i] == round_model_upto(vc0, idx, j1).out[i],
    decreases j2 - j1,
{
    if j1 < j2 {
        lemma_out_prefix(vc0, idx, j1, j2 - 1);
        lemma_round_ok(vc0, idx, j2 - 1);
        let st = round_model_upto(vc0, idx, j2 - 1);
        let p1 = idx[3 * (j2 - 1)];
        let p2 = idx[3 * (j2 - 1) + 1];
        let p3 = idx[3 * (j2 - 1) + 2];
        lemma_lookup_ok(vc0, st, p1, p2);
        let r1 = lookup_model(st, p1, p2);
        lemma_lookup_ok(vc0, r1.0, p2, p3);
        let r2 = lookup_model(r1.0, p2, p3);
        lemma_lookup_ok(vc0, r2.0, p3, p1);
    }
}

/// The midpoint a round emits for edge `i` of triangle `j` is exactly the
/// final cache entry for that edge's normalized pair.
proof fn lemma_emitted_midpoint(vc0: usize, idx: Seq<usize>, j: int, i: int)
    requires
        forall|k: int| 0 <= k < idx.len() ==> idx[k] < vc0,
        idx.len() % 3 == 0,
        0 <= j,
        3 * j + 3 <= idx.len(),
        0 <= i < 3,
        vc0 + idx.len() <= usize::MAX,
    ensures
        ({
            let fin = round_model(vc0, idx);
            &&& fin.cache.contains_key(tri_edge(idx, j, i))
            &&& 12 * j + midpoint_slot(i) < fin.out.len()
            &&& fin.out[12 * j + midpoint_slot(i)] == fin.cache[tri_edge(idx, j, i)]
        }),
{
    let t = idx.len() as int / 3;
    lemma_round_ok(vc0, idx, j);
    let st = round_model_upto(vc0, idx, j);
    let p1 = idx[3 * j];
    let p2 = idx[3 * j + 1];
    let p3 = idx[3 * j + 2];
    lemma_lookup_ok(vc0, st, p1, p2);
    let r1 = lookup_model(st, p1, p2);
    lemma_lookup_ok(vc0, r1.0, p2, p3);
    let r2 = lookup_model(r1.0, p2, p3);
    lemma_lookup_ok(vc0, r2.0, p3, p1);
    let r3 = lookup_model(r2.0, p3, p1);
    let nxt = round_model_upto(vc0, idx, j + 1);
    let k1 = edge_key(p1, p2);
    let k2 = edge_key(p2, p3);
    let k3 = edge_key(p3, p1);
    assert(r1.0.cache.contains_key(k1) && r1.0.cache[k1] == r1.1);
    assert(r3.0.cache.contains_key(k1) && r3.0.cache[k1] == r1.1);
    assert(r2.0.cache.contains_key(k2) && r2.0.cache[k2] == r2.1);
    assert(r3.0.cache.contains_key(k2) && r3.0.cache[k2] == r2.1);
    assert(r3.0.cache.contains_key(k3) && r3.0.cache[k3] == r3.1);
    assert(nxt.cache == r3.0.cache);
    assert(st.out.len() == 12 * j);
    assert(nxt.out[12 * j + 1] == r1.1);
    assert(nxt.out[12 * j + 4] == r2.1);
    assert(nxt.out[12 * j + 7] == r3.1);
    lemma_cache_stable(vc0, idx, j + 1, t);
    lemma_out_prefix(vc0, idx, j + 1, t);
    lemma_round_ok(vc0, idx, t);
    let fin = round_model(vc0, idx);
    assert(fin == round_model_upto(vc0, idx, t));
    let e = tri_edge(idx, j, i);
    assert(nxt.out.len() == 12 * j + 12);
    assert(fin.out.len() == 12 * t);
    assert(12 * j + midpoint_slot(i) < nxt.out.len());
    assert(fin.out[12 * j + midpoint_slot(i)] == nxt.out[12 * j + midpoint_slot(i)]);
    if i == 0 {
        assert(e == k1);
        assert(nxt.cache.contains_key(k1) && nxt.cache[k1] == r1.1);
        assert(fin.cache.contains_key(k1) && fin.cache[k1] == r1.1);
        assert(nxt.out[12 * j + midpoint_slot(i)] == r1.1);
    } else if i == 1 {
        assert(e == k2);
        assert(nxt.cache.contains_key(k2) && nxt.cache[k2] == r2.1);
        assert(fin.cache.contains_key(k2) && fin.cache[k2] == r2.1);
        assert(nxt.out[12 * j + midpoint_slot(i)] == r2.1);
    } else {
        assert(e == k3);
        assert(nxt.cache.contains_key(k3) && nxt.cache[k3] == r3.1);
        assert(fin.cache.contains_key(k3) && fin.cache[k3] == r3.1);
        assert(nxt.out[12 * j + midpoint_slot(i)] == r3.1);
    }
}

/// Index Cache dedup within one subdivision round: whenever two triangles
/// (or two edges of one triangle) run along the same unordered pair of
/// vertices, the round emits the same midpoint vertex for both; no shared
/// edge ever yields two distinct midpoints.
pub proof fn lemma_midpoint_dedup(
    vc0: usize,
    idx: Seq<usize>,
    j1: int,
    i1: int,
    j2: int,
    i2: int,
)
    requires
        forall|k: int| 0 <= k < idx.len() ==> idx[k] < vc0,
        idx.len() % 3 == 0,
        0 <= j1,
        0 <= j2,
        3 * j1 + 3 <= idx.len(),
        3 * j2 + 3 <= idx.len(),
        0 <= i1 < 3,
        0 <= i2 < 3,
        vc0 + idx.len() <= usize::MAX,
        tri_edge(idx, j1, i1) == tri_edge(idx, j2, i2),
    ensures
        round_model(vc0, idx).out[12 * j1 + midpoint_slot(i1)]
            == round_model(vc0, idx).out[12 * j2 + midpoint_slot(i2)],
{
    lemma_emitted_midpoint(vc0, idx, j1, i1);
    lemma_emitted_midpoint(vc0, idx, j2, i2);
}

/// No unordered pair is logged twice in one round: each edge creates at
/// most one midpoint vertex.
pub proof fn lemma_log_distinct(vc0: usize, idx: Seq<usize>, k1: int, k2: int)
    requires
        forall|i: int| 0 <= i < idx.len() ==> idx[i] < vc0,
        idx.len() % 3 == 0,
        vc0 + idx.len() <= usize::MAX,
        0 <= k1 < k2 < round_model(vc0, idx).log.len(),
    ensures
        round_model(vc0, idx).log[k1] != round_model(vc0, idx).log[k2],
{
    lemma_round_ok(vc0, idx, idx.len() as int / 3);
}

/// Powers of four: how the triangle count grows per round.
pub open spec fn pow4(n: nat) -> nat
    decreases n,
{
    if n == 0 {
        1
    } else {
        4 * pow4((n - 1) as nat)
    }
}

/// `1 + 4 + 16 + ... + 4^n`: an upper bound, per index-list entry, on the
/// room `n` rounds need for vertices and indices together.
pub open spec fn subdiv_budget(n: nat) -> nat
    decreases n,
{
    if n == 0 {
        1
    } else {
        1 + 4 * subdiv_budget((n - 1) as nat)
    }
}

proof fn lemma_budget_mono(n: nat, m: nat)
    requires
        n <= m,
    ensures
        subdiv_budget(n) <= subdiv_budget(m),
    decreases m,
{
    if n < m && m > 0 {
        lemma_budget_mono(n, (m - 1) as nat);
    }
}

proof fn lemma_pow4_le_budget(n: nat)
    ensures
        pow4(n) <= subdiv_budget(n),
    decreases n,
{
    if n > 0 {
        lemma_pow4_le_budget((n - 1) as nat);
    }
}

proof fn lemma_budget_pow4(n: nat)
    ensures
        3 * subdiv_budget(n) + 1 == 4 * pow4(n),
    decreases n,
{
    if n > 0 {
        lemma_budget_pow4((n - 1) as nat);
    }
}

/// The state of the whole Subdivider after some number of rounds: the
/// vertex count, the index list, and the concatenated creation logs of all
/// rounds so far.
pub ghost struct SubdivisionModel {
    pub vc: usize,
    pub idx: Seq<usize>,
    pub log: Seq<Edge>,
}

/// The Subdivider, mathematically: iterate `round_model`, keeping every
/// created vertex and replacing the index list each round.
pub open spec fn subdivide_model(vc0: usize, idx0: Seq<usize>, rounds: nat) -> SubdivisionModel
    decreases rounds,
{
    if rounds == 0 {
        SubdivisionModel { vc: vc0, idx: idx0, log: Seq::empty() }
    } else {
        let prev = subdivide_model(vc0, idx0, (rounds - 1) as nat);
        let st = round_model(prev.vc, prev.idx);
        SubdivisionModel { vc: st.vc, idx: st.out, log: prev.log + st.log }
    }
}

/// Shape of the Subdivider's state after `n` rounds: the index list has
/// grown by exactly `4^n`, stays well-formed, vertices and indices together
/// stay within the budget, and every log entry joins vertices older than
/// the one it creates.
pub proof fn lemma_subdivide_model_ok(vc0: usize, idx0: Seq<usize>, n: nat)
    requires
        idx0.len() % 3 == 0,
        forall|i: int| 0 <= i < idx0.len() ==> idx0[i] < vc0,
        vc0 + idx0.len() * subdiv_budget(n) <= u32::MAX,
    ensures
        ({
            let m = subdivide_model(vc0, idx0, n);
            &&& m.idx.len() == idx0.len() * pow4(n)
            &&& m.idx.len() % 3 == 0
            &&& forall|i: int| 0 <= i < m.idx.len() ==> m.idx[i] < m.vc
            &&& vc0 <= m.vc
            &&& m.vc == vc0 + m.log.len()
            &&& m.vc + m.idx.len() <= vc0 + idx0.len() * subdiv_budget(n)
            &&& forall|k: int|
                0 <= k < m.log.len() ==> (#[trigger] m.log[k]).a <= m.log[k].b
                    && m.log[k].b < vc0 + k
        }),
    decreases n,
{
    let len0 = idx0.len() as int;
    if n == 0 {
        assert(idx0.len() * pow4(0) == idx0.len()) by (nonlinear_arith);
        assert(idx0.len() * subdiv_budget(0) == idx0.len()) by (nonlinear_arith);
    } else {
        let n1 = (n - 1) as nat;
        assert(subdiv_budget(n1) <= subdiv_budget(n)) by {
            lemma_budget_mono(n1, n);
        }
        assert(idx0.len() * subdiv_budget(n1) <= idx0.len() * subdiv_budget(n))
            by (nonlinear_arith)
            requires
                subdiv_budget(n1) <= subdiv_budget(n),
        ;
        lemma_subdivide_model_ok(vc0, idx0, n1);
        let prev = subdivide_model(vc0, idx0, n1);
        let plen = prev.idx.len() as int;
        let t = plen / 3;
        lemma_round_ok(prev.vc, prev.idx, t);
        let st = round_model(prev.vc, prev.idx);
        let m = subdivide_model(vc0, idx0, n);
        assert(3 * t == plen);
        assert(st.out.len() == 12 * t == 4 * plen);
        // index-list growth: 4 * (len0 * 4^(n-1)) == len0 * 4^n
        assert(4 * (idx0.len() * pow4(n1)) == idx0.len() * (4 * pow4(n1))) by (nonlinear_arith);
        assert(m.idx.len() == idx0.len() * pow4(n));
        assert(m.idx.len() % 3 == 0);
        // budget: prev.vc + plen <= vc0 + len0 * budget(n1), log grows by at
        // most plen, and 1 + 3 * budget(n1) == 4 * pow4(n1)
        lemma_budget_pow4(n1);
        lemma_pow4_le_budget(n1);
        assert(st.log.len() <= plen);
        assert(m.vc + m.idx.len() <= prev.vc + plen + 4 * plen);
        assert(idx0.len() * subdiv_budget(n) == idx0.len() + 4 * (idx0.len() * subdiv_budget(n1)))
            by (nonlinear_arith)
            requires
                subdiv_budget(n) == 1 + 4 * subdiv_budget(n1),
        ;
        assert(4 * plen == idx0.len() + 3 * (idx0.len() * subdiv_budget(n1))) by (nonlinear_arith)
            requires
                plen == idx0.len() * pow4(n1),
                4 * pow4(n1) == 1 + 3 * subdiv_budget(n1),
        ;
        assert(m.vc + m.idx.len() <= vc0 + idx0.len() * subdiv_budget(n));
        // log validity
        let pl = prev.log.len() as int;
        assert forall|k: int|
            0 <= k < m.log.len() implies (#[trigger] m.log[k]).a <= m.log[k].b
                && m.log[k].b < vc0 + k by {
            if k < pl {
                assert(m.log[k] == prev.log[k]);
            } else {
                assert(m.log[k] == st.log[k - pl]);
                assert(st.log[k - pl].b < prev.vc);
            }
        }
        // well-formedness of the new index list
        assert forall|i: int| 0 <= i < m.idx.len() implies m.idx[i] < m.vc by {
            assert(st.out[i] < st.vc);
        }
    }
}

/// Subdivider: `iterations` rounds of 1-to-4 refinement with midpoint
/// deduplication. The result is exactly `subdivide_model` of the input;
/// the log concatenates the rounds' creation logs, so the `k`-th entry
/// names the endpoints (both older than it) whose averaged, sphere-
/// projected midpoint is vertex `mesh.vertex_count + k`.
pub fn subdivide(mesh: Mesh, iterations: u8) -> (r: (Mesh, Vec<Edge>))
    requires
        mesh.wf(),
        iterations <= 8,
        mesh.vertex_count + mesh.indices@.len() * subdiv_budget(iterations as nat) <= u32::MAX,
    ensures
        ({
            let m = subdivide_model(mesh.vertex_count, mesh.indices@, iterations as nat);
            &&& r.0.vertex_count == m.vc
            &&& r.0.indices@ == m.idx
            &&& r.1@ == m.log
        }),
        r.0.wf(),
        r.0.indices@.len() == mesh.indices@.len() * pow4(iterations as nat),
        r.0.vertex_count == mesh.vertex_count + r.1@.len(),
        forall|k: int|
            0 <= k < r.1@.len() ==> (#[trigger] r.1@[k]).a <= r.1@[k].b
                && r.1@[k].b < mesh.vertex_count + k,
{
    let ghost vc0 = mesh.vertex_count;
    let ghost idx0 = mesh.indices@;
    let mut cur = mesh;
    let mut log: Vec<Edge> = Vec::new();
    proof {
        assert(log@ =~= subdivide_model(vc0, idx0, 0).log);
    }
    for round in 0..iterations
        invariant
            ({
                let m = subdivide_model(vc0, idx0, round as nat);
                &&& cur.vertex_count == m.vc
                &&& cur.indices@ == m.idx
                &&& log@ == m.log
            }),
            vc0 == mesh.vertex_count,
            idx0 == mesh.indices@,
            mesh.wf(),
            iterations <= 8,
            vc0 + idx0.len() * subdiv_budget(iterations as nat) <= u32::MAX,
    {
        proof {
            let rn = round as nat;
            let itn = iterations as nat;
            lemma_budget_mono(rn, itn);
            assert(idx0.len() * subdiv_budget(rn) <= idx0.len() * subdiv_budget(itn))
                by (nonlinear_arith)
                requires
                    subdiv_budget(rn) <= subdiv_budget(itn),
            ;
            lemma_subdivide_model_ok(vc0, idx0, rn);
            let m = subdivide_model(vc0, idx0, rn);
            assert(m.vc + m.idx.len() <= u32::MAX);
            // the next round's index list also fits: 4 * len <= usize::MAX
            lemma_budget_mono((rn + 1) as nat, itn);
            lemma_pow4_le_budget((rn + 1) as nat);
            assert(4 * m.idx.len() == idx0.len() * pow4((rn + 1) as nat)) by (nonlinear_arith)
                requires
                    m.idx.len() == idx0.len() * pow4(rn),
                    pow4((rn + 1) as nat) == 4 * pow4(rn),
            ;
            assert(idx0.len() * pow4((rn + 1) as nat) <= idx0.len() * subdiv_budget(itn))
                by (nonlinear_arith)
                requires
                    pow4((rn + 1) as nat) <= subdiv_budget((rn + 1) as nat),
                    subdiv_budget((rn + 1) as nat) <= subdiv_budget(itn),
            ;
            assert(u32::MAX <= usize::MAX);
        }
        let (next, mut round_log) = subdivide_round(&cur);
        log.append(&mut round_log);
        cur = next;
        proof {
            let mn = subdivide_model(vc0, idx0, round as nat + 1);
            assert(log@ == mn.log);
        }
    }
    proof {
        lemma_subdivide_model_ok(vc0, idx0, iterations as nat);
    }
    (cur, log)
}

/// Build an icosphere: the regular icosahedron, refined `iterations`
/// times. The sphere-projection of positions is the numeric driver's part;
/// combinatorially the result is `subdivide_model` over the icosahedron,
/// with `20 * 4^iterations` triangles, and the iteration ceiling of 8
/// keeps the exponential growth within the index budget.
pub fn create_icosphere(iterations: u8) -> (r: (Mesh, Vec<IcoVertex>, Vec<Edge>))
    requires
        iterations <= 8,
    ensures
        ({
            let m = subdivide_model(12, icosahedron_index_list(), iterations as nat);
            &&& r.0.vertex_count == m.vc
            &&& r.0.indices@ == m.idx
            &&& r.2@ == m.log
        }),
        r.0.wf(),
        r.1@ == icosahedron_coord_list(),
        r.0.indices@.len() == 60 * pow4(iterations as nat),
        r.0.tri_count() == 20 * pow4(iterations as nat),
        r.0.vertex_count == 12 + r.2@.len(),
        forall|k: int|
            0 <= k < r.2@.len() ==> (#[trigger] r.2@[k]).a <= r.2@[k].b && r.2@[k].b < 12 + k,
{
    let (ico, coords) = generate_regular_icosahedron();
    proof {
        let itn = iterations as nat;
        lemma_budget_mono(itn, 8);
        assert(subdiv_budget(0) == 1);
        assert(subdiv_budget(1) == 5);
        assert(subdiv_budget(2) == 21);
        assert(subdiv_budget(3) == 85);
        assert(subdiv_budget(4) == 341);
        assert(subdiv_budget(5) == 1365);
        assert(subdiv_budget(6) == 5461);
        assert(subdiv_budget(7) == 21845);
        assert(subdiv_budget(8) == 87381);
        assert(60 * subdiv_budget(itn) <= 60 * 87381) by (nonlinear_arith)
            requires
                subdiv_budget(itn) <= 87381,
        ;
        assert(12 + icosahedron_index_list().len() * subdiv_budget(itn) <= u32::MAX);
    }
    let (sphere, log) = subdivide(ico, iterations);
    proof {
        let p = pow4(iterations as nat);
        assert(sphere.indices@.len() == 60 * p);
        assert((60 * p) as int / 3 == 20 * p) by (nonlinear_arith);
    }
    (sphere, coords, log)
}

} // verus!
