use vstd::prelude::*;
use crate::mesh::{Mesh, Edge, edge_key, make_edge_key};
use crate::cache::EdgeCache;

verus! {

/// One plane/edge crossing: the directed edge (as first met) on which an
/// intersection vertex was created. The caller computes the vertex's
/// position from the two endpoint positions and the plane by the
/// parametric line/plane formula.
#[derive(Clone, Copy, Debug, PartialEq, Eq, Structural)]
pub struct Crossing {
    pub start: usize,
    pub end: usize,
}

/// The unordered pair under a crossing, as the clip pass's cache keys it.
pub open spec fn crossing_key(c: Crossing) -> Edge {
    edge_key(c.start, c.end)
}

/// The evolving state of one clip pass.
pub ghost struct ClipState {
    pub vc: usize,
    pub cache: Map<Edge, usize>,
    pub log: Seq<Crossing>,
    pub out: Seq<usize>,
}

/// Spec-level truth of a slot value.
pub open spec fn slot_set(o: Option<usize>) -> bool {
    match o {
        Some(_) => true,
        None => false,
    }
}

/// Spec-level value of a slot, with a default for the never-taken case.
pub open spec fn slot_val(o: Option<usize>) -> usize {
    match o {
        Some(v) => v,
        None => 0,
    }
}

/// Build one slot for a directed edge: the cached intersection vertex for
/// the edge's unordered pair if present; else, if the edge is cut, a fresh
/// vertex recorded in the cache and the log; else nothing.
pub open spec fn slot_step(st: ClipState, i1: usize, i2: usize, cut: bool) -> (
    ClipState,
    Option<usize>,
) {
    let k = edge_key(i1, i2);
    if st.cache.contains_key(k) {
        (st, Some(st.cache[k]))
    } else if cut {
        (
            ClipState {
                vc: (st.vc + 1) as usize,
                cache: st.cache.insert(k, st.vc),
                log: st.log.push(Crossing { start: i1, end: i2 }),
                out: st.out,
            },
            Some(st.vc),
        )
    } else {
        (st, None)
    }
}

/// A triangle needs retriangulation iff more than one of its three edges
/// crosses the plane; with zero or one crossing it lies on one side or
/// only touches the plane at a vertex and passes through unchanged.
pub open spec fn needs_triangulation(c0: bool, c1: bool, c2: bool) -> bool {
    (if c0 { 1int } else { 0 }) + (if c1 { 1int } else { 0 }) + (if c2 { 1int } else { 0 }) > 1
}

/// Walk backward (a step of 2 positions modulo 3) from corner `t` until a
/// slot with a defined intersection vertex is found. Whenever any slot is
/// defined, the position returned holds a defined slot, since the walk
/// visits all three positions; retriangulation guarantees at least two.
pub open spec fn walk_back(s: Seq<Option<usize>>, t: int) -> int {
    if slot_set(s[(t + 2) % 3]) {
        (t + 2) % 3
    } else if slot_set(s[(t + 1) % 3]) {
        (t + 1) % 3
    } else {
        t
    }
}

/// The cut region's replacement triangle for corner `t`: the corner
/// itself; its slot's intersection vertex if defined, else the next
/// corner; and the first defined slot walking backward from `t`.
pub open spec fn emit_tri(corners: Seq<usize>, s: Seq<Option<usize>>, t: int) -> Seq<usize> {
    let i1 = corners[t];
    let i2 = if slot_set(s[t]) {
        slot_val(s[t])
    } else {
        corners[(t + 1) % 3]
    };
    let i3 = slot_val(s[walk_back(s, t)]);
    seq![i1, i2, i3]
}

/// One triangle of a clip pass: pass it through untouched unless more than
/// one edge crosses the plane; otherwise build the three slots against the
/// cache and emit the three replacement triangles.
pub open spec fn clip_tri_model(
    st: ClipState,
    t0: usize,
    t1: usize,
    t2: usize,
    c0: bool,
    c1: bool,
    c2: bool,
) -> ClipState {
    if !needs_triangulation(c0, c1, c2) {
        ClipState { vc: st.vc, cache: st.cache, log: st.log, out: st.out + seq![t0, t1, t2] }
    } else {
        let r0 = slot_step(st, t0, t1, c0);
        let r1 = slot_step(r0.0, t1, t2, c1);
        let r2 = slot_step(r1.0, t2, t0, c2);
        let corners = seq![t0, t1, t2];
        let s = seq![r0.1, r1.1, r2.1];
        ClipState {
            vc: r2.0.vc,
            cache: r2.0.cache,
            log: r2.0.log,
            out: r2.0.out + emit_tri(corners, s, 0) + emit_tri(corners, s, 1) + emit_tri(
                corners,
                s,
                2,
            ),
        }
    }
}

/// The clip state after the first `j` triangles.
pub open spec fn clip_model_upto(vc0: usize, idx: Seq<usize>, cuts: Seq<bool>, j: int) -> ClipState
    decreases j,
{
    if j <= 0 {
        ClipState { vc: vc0, cache: Map::empty(), log: Seq::empty(), out: Seq::empty() }
    } else {
        let st = clip_model_upto(vc0, idx, cuts, j - 1);
        clip_tri_model(
            st,
            idx[3 * (j - 1)],
            idx[3 * (j - 1) + 1],
            idx[3 * (j - 1) + 2],
            cuts[3 * (j - 1)],
            cuts[3 * (j - 1) + 1],
            cuts[3 * (j - 1) + 2],
        )
    }
}

/// The complete clip pass.
pub open spec fn clip_model(vc0: usize, idx: Seq<usize>, cuts: Seq<bool>) -> ClipState {
    clip_model_upto(vc0, idx, cuts, idx.len() as int / 3)
}

/// The directed edge starting at position `i` of the index list (edges
/// wrap within each triangle).
pub open spec fn edge_end_pos(i: int) -> int {
    3 * (i / 3) + ((i % 3) + 1) % 3
}

/// A crossing stands on one of the first `upto_edge` directed edges of the
/// index list, and that edge was in fact cut.
pub open spec fn crossing_on_cut_edge(
    idx: Seq<usize>,
    cuts: Seq<bool>,
    upto_edge: int,
    c: Crossing,
) -> bool {
    exists|i: int|
        0 <= i < upto_edge && #[trigger] cuts[i] && c.start == idx[i] && c.end == idx[
            edge_end_pos(i)
        ]
}

proof fn lemma_crossing_widen(
    idx: Seq<usize>,
    cuts: Seq<bool>,
    a: int,
    b: int,
    c: Crossing,
)
    requires
        crossing_on_cut_edge(idx, cuts, a, c),
        a <= b,
    ensures
        crossing_on_cut_edge(idx, cuts, b, c),
{
    let i = choose|i: int|
        0 <= i < a && #[trigger] cuts[i] && c.start == idx[i] && c.end == idx[edge_end_pos(i)];
    assert(0 <= i < b && cuts[i] && c.start == idx[i] && c.end == idx[edge_end_pos(i)]);
}

/// The clip cache/log invariant: dense numbering, crossings join original
/// vertices, the cache maps exactly the logged pairs, and each crossing
/// stands on an edge of the input that was in fact cut.
pub open spec fn clip_cache_ok(
    vc0: usize,
    idx: Seq<usize>,
    cuts: Seq<bool>,
    upto_edge: int,
    st: ClipState,
) -> bool {
    &&& st.vc == vc0 + st.log.len()
    &&& forall|k: int|
        0 <= k < st.log.len() ==> (#[trigger] st.log[k]).start < vc0 && st.log[k].end < vc0
    &&& forall|k: int|
        0 <= k < st.log.len() ==> st.cache.contains_key(crossing_key(#[trigger] st.log[k]))
            && st.cache[crossing_key(st.log[k])] == vc0 + k
    &&& forall|e: Edge|
        #[trigger] st.cache.contains_key(e) ==> exists|k: int|
            0 <= k < st.log.len() && crossing_key(st.log[k]) == e
    &&& forall|k: int|
        0 <= k < st.log.len() ==> crossing_on_cut_edge(idx, cuts, upto_edge, #[trigger] st.log[k])
}

/// The clip invariant after `j` triangles.
pub open spec fn clip_state_ok(
    vc0: usize,
    idx: Seq<usize>,
    cuts: Seq<bool>,
    j: int,
    st: ClipState,
) -> bool {
    &&& clip_cache_ok(vc0, idx, cuts, 3 * j, st)
    &&& st.log.len() <= 3 * j
    &&& st.out.len() % 3 == 0
    &&& st.out.len() <= 9 * j
    &&& forall|i: int| 0 <= i < st.out.len() ==> #[trigger] st.out[i] < st.vc
}

/// One slot step preserves the cache invariant; a defined slot holds a
/// valid vertex index, and a cut edge always gets a defined slot.
proof fn lemma_slot_ok(
    vc0: usize,
    idx: Seq<usize>,
    cuts: Seq<bool>,
    upto_edge: int,
    st: ClipState,
    i1: usize,
    i2: usize,
    cut: bool,
    witness: int,
)
    requires
        clip_cache_ok(vc0, idx, cuts, upto_edge, st),
        i1 < vc0,
        i2 < vc0,
        st.vc < usize::MAX,
        0 <= witness < upto_edge,
        cuts[witness] == cut,
        idx[witness] == i1,
        idx[edge_end_pos(witness)] == i2,
    ensures
        ({
            let r = slot_step(st, i1, i2, cut);
            &&& clip_cache_ok(vc0, idx, cuts, upto_edge, r.0)
            &&& st.log.len() <= r.0.log.len() <= st.log.len() + 1
            &&& st.vc <= r.0.vc == vc0 + r.0.log.len()
            &&& r.0.out == st.out
            &&& (slot_set(r.1) ==> slot_val(r.1) < r.0.vc)
            &&& (cut ==> slot_set(r.1))
            &&& forall|e: Edge|
                st.cache.contains_key(e) ==> r.0.cache.contains_key(e)
                    && r.0.cache[e] == st.cache[e]
            &&& forall|k: int| 0 <= k < st.log.len() ==> r.0.log[k] == st.log[k]
        }),
{
    let k = edge_key(i1, i2);
    let r = slot_step(st, i1, i2, cut);
    if st.cache.contains_key(k) {
        let ghost i = choose|i: int|
            0 <= i < st.log.len() && crossing_key(st.log[i]) == k;
        assert(st.cache[k] == vc0 + i);
    } else if cut {
        let st2 = r.0;
        let c = Crossing { start: i1, end: i2 };
        assert(st2.log[st.log.len() as int] == c);
        assert forall|e: Edge| #[trigger] st2.cache.contains_key(e) implies exists|i: int|
            0 <= i < st2.log.len() && crossing_key(st2.log[i]) == e by {
            if e == k {
                assert(crossing_key(st2.log[st.log.len() as int]) == e);
            } else {
                let i = choose|i: int|
                    0 <= i < st.log.len() && crossing_key(st.log[i]) == e;
                assert(crossing_key(st2.log[i]) == e);
            }
        }
        assert forall|k2: int| 0 <= k2 < st2.log.len() implies crossing_on_cut_edge(
            idx,
            cuts,
            upto_edge,
            #[trigger] st2.log[k2],
        ) by {
            if k2 < st.log.len() {
                assert(st2.log[k2] == st.log[k2]);
                assert(crossing_on_cut_edge(idx, cuts, upto_edge, st.log[k2]));
            } else {
                assert(st2.log[k2] == c);
                assert(0 <= witness < upto_edge && cuts[witness] && c.start == idx[witness]
                    && c.end == idx[edge_end_pos(witness)]);
            }
        }
    }
}

/// One triangle's step preserves the clip invariant.
proof fn lemma_clip_tri_ok(vc0: usize, idx: Seq<usize>, cuts: Seq<bool>, j: int)
    requires
        forall|i: int| 0 <= i < idx.len() ==> idx[i] < vc0,
        cuts.len() == idx.len(),
        0 <= j,
        3 * j + 3 <= idx.len(),
        vc0 + idx.len() <= usize::MAX,
        clip_state_ok(vc0, idx, cuts, j, clip_model_upto(vc0, idx, cuts, j)),
    ensures
        clip_state_ok(vc0, idx, cuts, j + 1, clip_model_upto(vc0, idx, cuts, j + 1)),
{
    let st = clip_model_upto(vc0, idx, cuts, j);
    let t0 = idx[3 * j];
    let t1 = idx[3 * j + 1];
    let t2 = idx[3 * j + 2];
    let c0 = cuts[3 * j];
    let c1 = cuts[3 * j + 1];
    let c2 = cuts[3 * j + 2];
    let fin = clip_model_upto(vc0, idx, cuts, j + 1);
    assert(fin == clip_tri_model(st, t0, t1, t2, c0, c1, c2));
    assert(clip_cache_ok(vc0, idx, cuts, 3 * j + 3, st)) by {
        assert forall|k: int| 0 <= k < st.log.len() implies crossing_on_cut_edge(
            idx,
            cuts,
            3 * j + 3,
            #[trigger] st.log[k],
        ) by {
            assert(crossing_on_cut_edge(idx, cuts, 3 * j, st.log[k]));
            lemma_crossing_widen(idx, cuts, 3 * j, 3 * j + 3, st.log[k]);
        }
    }
    if !needs_triangulation(c0, c1, c2) {
        assert forall|i: int| 0 <= i < fin.out.len() implies #[trigger] fin.out[i] < fin.vc by {
            if i < st.out.len() {
                assert(st.out[i] < st.vc);
            } else {
                assert(fin.out[i] == seq![t0, t1, t2][i - st.out.len()]);
            }
        }
    } else {
        assert(edge_end_pos(3 * j) == 3 * j + 1);
        assert(edge_end_pos(3 * j + 1) == 3 * j + 2);
        assert(edge_end_pos(3 * j + 2) == 3 * j);
        lemma_slot_ok(vc0, idx, cuts, 3 * j + 3, st, t0, t1, c0, 3 * j);
        let r0 = slot_step(st, t0, t1, c0);
        lemma_slot_ok(vc0, idx, cuts, 3 * j + 3, r0.0, t1, t2, c1, 3 * j + 1);
        let r1 = slot_step(r0.0, t1, t2, c1);
        lemma_slot_ok(vc0, idx, cuts, 3 * j + 3, r1.0, t2, t0, c2, 3 * j + 2);
        let r2 = slot_step(r1.0, t2, t0, c2);
        let corners = seq![t0, t1, t2];
        let s = seq![r0.1, r1.1, r2.1];
        assert(fin.vc == r2.0.vc && fin.cache == r2.0.cache && fin.log == r2.0.log);
        // slots of cut edges are defined, and defined slots are valid
        assert(slot_set(r0.1) ==> slot_val(r0.1) < fin.vc);
        assert(slot_set(r1.1) ==> slot_val(r1.1) < fin.vc);
        assert(slot_set(r2.1) ==> slot_val(r2.1) < fin.vc);
        assert(c0 ==> slot_set(s[0]));
        assert(c1 ==> slot_set(s[1]));
        assert(c2 ==> slot_set(s[2]));
        assert(slot_set(s[0]) || slot_set(s[1]) || slot_set(s[2]));
        assert(slot_set(s[walk_back(s, 0)]));
        assert(slot_set(s[walk_back(s, 1)]));
        assert(slot_set(s[walk_back(s, 2)]));
        assert(fin.out.len() == st.out.len() + 9);
        assert forall|i: int| 0 <= i < fin.out.len() implies #[trigger] fin.out[i] < fin.vc by {
            if i < st.out.len() {
                assert(st.out[i] < st.vc);
            } else {
                let rest = emit_tri(corners, s, 0) + emit_tri(corners, s, 1) + emit_tri(
                    corners,
                    s,
                    2,
                );
                assert(fin.out[i] == rest[i - st.out.len()]);
                assert(slot_val(s[walk_back(s, 0)]) < fin.vc);
                assert(slot_val(s[walk_back(s, 1)]) < fin.vc);
                assert(slot_val(s[walk_back(s, 2)]) < fin.vc);
            }
        }
    }
}

/// The clip invariant holds after any number of triangles.
pub proof fn lemma_clip_ok(vc0: usize, idx: Seq<usize>, cuts: Seq<bool>, j: int)
    requires
        forall|i: int| 0 <= i < idx.len() ==> idx[i] < vc0,
        cuts.len() == idx.len(),
        0 <= 3 * j <= idx.len(),
        vc0 + idx.len() <= usize::MAX,
    ensures
        clip_state_ok(vc0, idx, cuts, j, clip_model_upto(vc0, idx, cuts, j)),
    decreases j,
{
    if j > 0 {
        lemma_clip_ok(vc0, idx, cuts, j - 1);
        lemma_clip_tri_ok(vc0, idx, cuts, j - 1);
    }
}

/// Plane Clipper identity: a mesh none of whose edges crosses the plane
/// (in particular one entirely on one side of it) comes through a clip
/// pass unchanged, with no vertex created.
pub proof fn lemma_clip_no_cut_identity(vc0: usize, idx: Seq<usize>, cuts: Seq<bool>, j: int)
    requires
        cuts.len() == idx.len(),
        forall|i: int| 0 <= i < cuts.len() ==> !cuts[i],
        0 <= 3 * j <= idx.len(),
    ensures
        ({
            let st = clip_model_upto(vc0, idx, cuts, j);
            &&& st.vc == vc0
            &&& st.log == Seq::<Crossing>::empty()
            &&& st.out == idx.subrange(0, 3 * j)
        }),
    decreases j,
{
    if j <= 0 {
        assert(clip_model_upto(vc0, idx, cuts, j).out =~= idx.subrange(0, 3 * j));
    } else {
        lemma_clip_no_cut_identity(vc0, idx, cuts, j - 1);
        let st = clip_model_upto(vc0, idx, cuts, j - 1);
        let fin = clip_model_upto(vc0, idx, cuts, j);
        assert(!needs_triangulation(cuts[3 * (j - 1)], cuts[3 * (j - 1) + 1], cuts[3 * (j - 1) + 2]));
        assert(fin.out =~= idx.subrange(0, 3 * j));
    }
}

/// Executable slot building for one directed edge.
fn slot_step_exec(
    cache: &mut EdgeCache,
    vc: &mut usize,
    log: &mut Vec<Crossing>,
    i1: usize,
    i2: usize,
    cut: bool,
    Ghost(vc0): Ghost<usize>,
) -> (slot: Option<usize>)
    requires
        i1 < vc0,
        i2 < vc0,
        vc0 <= 0x1_0000_0000,
        *old(vc) < usize::MAX,
    ensures
        ({
            let k = edge_key(i1, i2);
            if old(cache)@.contains_key(k) {
                &&& final(cache)@ == old(cache)@
                &&& *final(vc) == *old(vc)
                &&& final(log)@ == old(log)@
                &&& slot == Some(old(cache)@[k])
            } else if cut {
                &&& final(cache)@ == old(cache)@.insert(k, *old(vc))
                &&& *final(vc) == *old(vc) + 1
                &&& final(log)@ == old(log)@.push(Crossing { start: i1, end: i2 })
                &&& slot == Some(*old(vc))
            } else {
                &&& final(cache)@ == old(cache)@
                &&& *final(vc) == *old(vc)
                &&& final(log)@ == old(log)@
                &&& slot == None::<usize>
            }
        }),
{
    let e = make_edge_key(i1, i2);
    match cache.get(e) {
        Some(v) => Some(v),
        None => {
            if cut {
                let m = *vc;
                cache.put(e, m);
                *vc = *vc + 1;
                log.push(Crossing { start: i1, end: i2 });
                Some(m)
            } else {
                None
            }
        },
    }
}

/// Read a slot's vertex, with the defined fallback for the never-taken
/// undefined case.
fn slot_get(slot: Option<usize>) -> (r: usize)
    ensures
        r == slot_val(slot),
{
    match slot {
        Some(v) => v,
        None => 0,
    }
}

/// One triangle of a clip pass, executed.
fn clip_tri(
    cache: &mut EdgeCache,
    vc: &mut usize,
    log: &mut Vec<Crossing>,
    out: &mut Vec<usize>,
    t0: usize,
    t1: usize,
    t2: usize,
    c0: bool,
    c1: bool,
    c2: bool,
    Ghost(vc0): Ghost<usize>,
)
    requires
        t0 < vc0,
        t1 < vc0,
        t2 < vc0,
        vc0 <= 0x1_0000_0000,
        *old(vc) + 3 <= usize::MAX,
        old(out)@.len() + 9 <= usize::MAX,
    ensures
        ({
            let st = ClipState {
                vc: *old(vc),
                cache: old(cache)@,
                log: old(log)@,
                out: old(out)@,
            };
            let stn = clip_tri_model(st, t0, t1, t2, c0, c1, c2);
            &&& final(cache)@ == stn.cache
            &&& *final(vc) == stn.vc
            &&& final(log)@ == stn.log
            &&& final(out)@ == stn.out
        }),
{
    let ghost st = ClipState { vc: *vc, cache: cache@, log: log@, out: out@ };
    let cut_count: usize = (if c0 {
        1
    } else {
        0
    }) + (if c1 {
        1
    } else {
        0
    }) + (if c2 {
        1
    } else {
        0
    });
    if cut_count <= 1 {
        out.push(t0);
        out.push(t1);
        out.push(t2);
        proof {
            assert(!needs_triangulation(c0, c1, c2));
            assert(out@ =~= clip_tri_model(st, t0, t1, t2, c0, c1, c2).out);
        }
    } else {
        let s0 = slot_step_exec(cache, vc, log, t0, t1, c0, Ghost(vc0));
        let ghost r0 = slot_step(st, t0, t1, c0);
        proof {
            assert(cache@ == r0.0.cache && *vc == r0.0.vc && log@ == r0.0.log && s0 == r0.1);
        }
        let s1 = slot_step_exec(cache, vc, log, t1, t2, c1, Ghost(vc0));
        let ghost r1 = slot_step(r0.0, t1, t2, c1);
        proof {
            assert(cache@ == r1.0.cache && *vc == r1.0.vc && log@ == r1.0.log && s1 == r1.1);
        }
        let s2 = slot_step_exec(cache, vc, log, t2, t0, c2, Ghost(vc0));
        let ghost r2 = slot_step(r1.0, t2, t0, c2);
        proof {
            assert(cache@ == r2.0.cache && *vc == r2.0.vc && log@ == r2.0.log && s2 == r2.1);
        }
        let ghost corners = seq![t0, t1, t2];
        let ghost s = seq![r0.1, r1.1, r2.1];
        // corner 0
        out.push(t0);
        match s0 {
            Some(v) => out.push(v),
            None => out.push(t1),
        }
        if s2.is_some() {
            out.push(slot_get(s2));
        } else if s1.is_some() {
            out.push(slot_get(s1));
        } else {
            out.push(slot_get(s0));
        }
        proof {
            assert(out@ =~= st.out + emit_tri(corners, s, 0));
        }
        // corner 1
        out.push(t1);
        match s1 {
            Some(v) => out.push(v),
            None => out.push(t2),
        }
        if s0.is_some() {
            out.push(slot_get(s0));
        } else if s2.is_some() {
            out.push(slot_get(s2));
        } else {
            out.push(slot_get(s1));
        }
        proof {
            assert(out@ =~= st.out + emit_tri(corners, s, 0) + emit_tri(corners, s, 1));
        }
        // corner 2
        out.push(t2);
        match s2 {
            Some(v) => out.push(v),
            None => out.push(t0),
        }
        if s1.is_some() {
            out.push(slot_get(s1));
        } else if s0.is_some() {
            out.push(slot_get(s0));
        } else {
            out.push(slot_get(s2));
        }
        proof {
            assert(needs_triangulation(c0, c1, c2));
            assert(out@ =~= clip_tri_model(st, t0, t1, t2, c0, c1, c2).out);
        }
    }
}

/// Plane Clipper: intersect the mesh with an infinite plane. The caller
/// reports, for each directed edge of each triangle (one flag per index
/// list position), whether the edge crosses the plane with an intersection
/// parameter inside the segment; edges the epsilon test finds parallel
/// carry `false`. Triangles with more than one crossing are retriangulated
/// into three triangles; crossing vertices are deduplicated per unordered
/// edge through a fresh Index Cache, so that two adjacent triangles
/// sharing a cut edge use one shared new vertex. The log holds one
/// directed edge per created vertex, in creation order.
pub fn intersect_mesh_with_plane(mesh: &Mesh, cuts: &Vec<bool>) -> (r: (Mesh, Vec<Crossing>))
    requires
        mesh.wf(),
        cuts@.len() == mesh.indices@.len(),
        mesh.vertex_count + mesh.indices@.len() <= u32::MAX,
        3 * mesh.indices@.len() <= usize::MAX,
    ensures
        ({
            let m = clip_model(mesh.vertex_count, mesh.indices@, cuts@);
            &&& r.0.vertex_count == m.vc
            &&& r.0.indices@ == m.out
            &&& r.1@ == m.log
        }),
        r.0.wf(),
        r.0.vertex_count == mesh.vertex_count + r.1@.len(),
        r.1@.len() <= mesh.indices@.len(),
        r.0.indices@.len() <= 3 * mesh.indices@.len(),
        forall|k: int|
            0 <= k < r.1@.len() ==> (#[trigger] r.1@[k]).start < mesh.vertex_count
                && r.1@[k].end < mesh.vertex_count,
        forall|k: int|
            0 <= k < r.1@.len() ==> crossing_on_cut_edge(
                mesh.indices@,
                cuts@,
                cuts@.len() as int,
                #[trigger] r.1@[k],
            ),
{
    let vc0 = mesh.vertex_count;
    let ghost idx = mesh.indices@;
    let mut cache = EdgeCache::new();
    let mut vc: usize = vc0;
    let mut log: Vec<Crossing> = Vec::new();
    let mut out: Vec<usize> = Vec::new();
    let n = mesh.indices.len() / 3;
    proof {
        assert(Map::<Edge, usize>::empty() =~= clip_model_upto(vc0, idx, cuts@, 0).cache);
        assert(Seq::<Crossing>::empty() =~= clip_model_upto(vc0, idx, cuts@, 0).log);
        assert(Seq::<usize>::empty() =~= clip_model_upto(vc0, idx, cuts@, 0).out);
    }
    for j in 0..n
        invariant
            ({
                let st = clip_model_upto(vc0, idx, cuts@, j as int);
                &&& cache@ == st.cache
                &&& vc == st.vc
                &&& log@ == st.log
                &&& out@ == st.out
            }),
            idx == mesh.indices@,
            mesh.wf(),
            vc0 == mesh.vertex_count,
            cuts@.len() == idx.len(),
            vc0 + idx.len() <= u32::MAX,
            3 * idx.len() <= usize::MAX,
            n == idx.len() / 3,
    {
        let ghost st0 = clip_model_upto(vc0, idx, cuts@, j as int);
        proof {
            lemma_clip_ok(vc0, idx, cuts@, j as int);
            assert(3 * (j as int) + 3 <= idx.len());
            assert(st0.vc + 3 <= usize::MAX);
            assert(st0.out.len() + 9 <= usize::MAX);
        }
        let t0 = mesh.indices[3 * j];
        let t1 = mesh.indices[3 * j + 1];
        let t2 = mesh.indices[3 * j + 2];
        let c0 = cuts[3 * j];
        let c1 = cuts[3 * j + 1];
        let c2 = cuts[3 * j + 2];
        clip_tri(&mut cache, &mut vc, &mut log, &mut out, t0, t1, t2, c0, c1, c2, Ghost(vc0));
        proof {
            let stn = clip_model_upto(vc0, idx, cuts@, j as int + 1);
            assert(stn == clip_tri_model(st0, t0, t1, t2, c0, c1, c2));
        }
    }
    proof {
        lemma_clip_ok(vc0, idx, cuts@, n as int);
        assert(n as int == idx.len() as int / 3);
        assert(3 * (n as int) == idx.len());
    }
    (Mesh { vertex_count: vc, indices: out }, log)
}

} // verus!
