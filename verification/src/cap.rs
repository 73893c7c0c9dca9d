use vstd::prelude::*;
use crate::mesh::Mesh;

verus! {

/// What the caller measured of one boundary-ring vertex: which angular
/// half it falls in (nearer the clockwise axis than its opposite), and a
/// sort key that orders the half by the angle between the reference
/// direction and the vertex (any order-preserving integer image of the
/// angle serves; the bit pattern of a non-negative float is one).
#[derive(Clone, Copy, Debug, PartialEq, Eq, Structural)]
pub struct RingVertex {
    pub clockwise: bool,
    pub angle_key: u64,
}

/// Ordering of `(sort key, vertex index)` pairs: by key, ascending or
/// descending, with ties broken by index so that equal keys keep their
/// ring order either way (a stable sort) and the order is total.
pub open spec fn pair_le(x: (u64, usize), y: (u64, usize), asc: bool) -> bool {
    if asc {
        x.0 < y.0 || (x.0 == y.0 && x.1 <= y.1)
    } else {
        x.0 > y.0 || (x.0 == y.0 && x.1 <= y.1)
    }
}

/// Every pair of entries stands in order.
pub open spec fn sorted_by(s: Seq<(u64, usize)>, asc: bool) -> bool {
    forall|i: int, j: int| 0 <= i < j < s.len() ==> pair_le(s[i], s[j], asc)
}

/// Insert one entry into a sorted run, after every entry that does not
/// exceed it.
pub open spec fn insert_sorted(x: (u64, usize), s: Seq<(u64, usize)>, asc: bool) -> Seq<
    (u64, usize),
>
    decreases s.len(),
{
    if s.len() == 0 {
        seq![x]
    } else if pair_le(s[0], x, asc) {
        seq![s[0]] + insert_sorted(x, s.drop_first(), asc)
    } else {
        seq![x] + s
    }
}

/// Insertion sort of the first `k` entries, left to right.
pub open spec fn sort_upto(s: Seq<(u64, usize)>, k: int, asc: bool) -> Seq<(u64, usize)>
    decreases k,
{
    if k <= 0 {
        Seq::empty()
    } else {
        insert_sorted(s[k - 1], sort_upto(s, k - 1, asc), asc)
    }
}

/// The whole sequence, sorted.
pub open spec fn sort_pairs(s: Seq<(u64, usize)>, asc: bool) -> Seq<(u64, usize)> {
    sort_upto(s, s.len() as int, asc)
}

/// Inserting keeps a run sorted, grows it by one, and adds no entry
/// beyond the inserted one and those already present.
proof fn lemma_insert_sorted_ok(x: (u64, usize), s: Seq<(u64, usize)>, asc: bool)
    requires
        sorted_by(s, asc),
    ensures
        sorted_by(insert_sorted(x, s, asc), asc),
        insert_sorted(x, s, asc).len() == s.len() + 1,
        forall|j: int|
            0 <= j < insert_sorted(x, s, asc).len() ==> insert_sorted(x, s, asc)[j] == x
                || exists|i: int| 0 <= i < s.len() && s[i] == #[trigger] insert_sorted(x, s, asc)[j],
    decreases s.len(),
{
    let r = insert_sorted(x, s, asc);
    if s.len() == 0 {
    } else if pair_le(s[0], x, asc) {
        let s2 = s.drop_first();
        assert(sorted_by(s2, asc)) by {
            assert forall|i: int, j: int| 0 <= i < j < s2.len() implies pair_le(
                s2[i],
                s2[j],
                asc,
            ) by {
                assert(s2[i] == s[i + 1] && s2[j] == s[j + 1]);
            }
        }
        lemma_insert_sorted_ok(x, s2, asc);
        let r2 = insert_sorted(x, s2, asc);
        assert(sorted_by(r, asc)) by {
            assert forall|i: int, j: int| 0 <= i < j < r.len() implies pair_le(r[i], r[j], asc) by {
                if i == 0 {
                    assert(r[j] == r2[j - 1]);
                    if r2[j - 1] == x {
                    } else {
                        let w = choose|w: int| 0 <= w < s2.len() && s2[w] == r2[j - 1];
                        assert(s2[w] == s[w + 1]);
                        assert(pair_le(s[0], s[w + 1], asc));
                    }
                } else {
                    assert(r[i] == r2[i - 1] && r[j] == r2[j - 1]);
                }
            }
        }
        assert forall|j: int| 0 <= j < r.len() implies r[j] == x || exists|i: int|
            0 <= i < s.len() && s[i] == #[trigger] r[j] by {
            if j == 0 {
                assert(s[0] == r[0]);
            } else {
                assert(r[j] == r2[j - 1]);
                if r2[j - 1] != x {
                    let w = choose|w: int| 0 <= w < s2.len() && s2[w] == r2[j - 1];
                    assert(s[w + 1] == r[j]);
                }
            }
        }
    } else {
        assert forall|i: int, j: int| 0 <= i < j < r.len() implies pair_le(r[i], r[j], asc) by {
            if i == 0 {
                assert(r[j] == s[j - 1]);
                if j - 1 > 0 {
                    assert(pair_le(s[0], s[j - 1], asc));
                }
            } else {
                assert(r[i] == s[i - 1] && r[j] == s[j - 1]);
            }
        }
        assert forall|j: int| 0 <= j < r.len() implies r[j] == x || exists|i: int|
            0 <= i < s.len() && s[i] == #[trigger] r[j] by {
            if j > 0 {
                assert(s[j - 1] == r[j]);
            }
        }
    }
}

/// The sort is sorted, keeps the length, and draws every entry from the
/// input.
pub proof fn lemma_sort_ok(s: Seq<(u64, usize)>, k: int, asc: bool)
    requires
        0 <= k <= s.len(),
    ensures
        sorted_by(sort_upto(s, k, asc), asc),
        sort_upto(s, k, asc).len() == k,
        forall|j: int|
            0 <= j < k ==> exists|i: int| 0 <= i < k && s[i] == #[trigger] sort_upto(s, k, asc)[j],
    decreases k,
{
    if k > 0 {
        lemma_sort_ok(s, k - 1, asc);
        let p = sort_upto(s, k - 1, asc);
        lemma_insert_sorted_ok(s[k - 1], p, asc);
        let r = sort_upto(s, k, asc);
        assert forall|j: int| 0 <= j < k implies exists|i: int|
            0 <= i < k && s[i] == #[trigger] r[j] by {
            if r[j] == s[k - 1] {
                assert(s[k - 1] == r[j]);
            } else {
                let w = choose|w: int| 0 <= w < p.len() && p[w] == r[j];
                let i = choose|i: int| 0 <= i < k - 1 && s[i] == p[w];
                assert(s[i] == r[j]);
            }
        }
    }
}

/// Inserting adds exactly the inserted entry to the run's contents.
proof fn lemma_insert_sorted_multiset(x: (u64, usize), s: Seq<(u64, usize)>, asc: bool)
    ensures
        insert_sorted(x, s, asc).to_multiset() == s.to_multiset().insert(x),
    decreases s.len(),
{
    broadcast use vstd::seq_lib::group_to_multiset_ensures;
    let r = insert_sorted(x, s, asc);
    if s.len() == 0 {
        assert(seq![x] =~= Seq::<(u64, usize)>::empty().push(x));
        assert(r.to_multiset() =~= s.to_multiset().insert(x));
    } else if pair_le(s[0], x, asc) {
        let s2 = s.drop_first();
        lemma_insert_sorted_multiset(x, s2, asc);
        let r2 = insert_sorted(x, s2, asc);
        vstd::seq_lib::lemma_multiset_commutative(seq![s[0]], r2);
        assert(s2 =~= s.remove(0));
        assert(s2.to_multiset() =~= s.to_multiset().remove(s[0]));
        assert(seq![s[0]] =~= Seq::<(u64, usize)>::empty().push(s[0]));
        assert(s.to_multiset().count(s[0]) > 0) by {
            assert(s.contains(s[0]));
        }
        assert(r.to_multiset() =~= s.to_multiset().insert(x));
    } else {
        vstd::seq_lib::lemma_multiset_commutative(seq![x], s);
        assert(seq![x] =~= Seq::<(u64, usize)>::empty().push(x));
        assert(r.to_multiset() =~= s.to_multiset().insert(x));
    }
}

/// The sort only reorders: the sorted run holds exactly the entries of the
/// input, with multiplicity.
pub proof fn lemma_sort_multiset(s: Seq<(u64, usize)>, k: int, asc: bool)
    requires
        0 <= k <= s.len(),
    ensures
        sort_upto(s, k, asc).to_multiset() == s.subrange(0, k).to_multiset(),
    decreases k,
{
    broadcast use vstd::seq_lib::group_to_multiset_ensures;
    if k == 0 {
        assert(s.subrange(0, 0) =~= Seq::<(u64, usize)>::empty());
        assert(sort_upto(s, 0, asc).to_multiset() =~= s.subrange(0, 0).to_multiset());
    } else {
        lemma_sort_multiset(s, k - 1, asc);
        lemma_insert_sorted_multiset(s[k - 1], sort_upto(s, k - 1, asc), asc);
        assert(s.subrange(0, k) =~= s.subrange(0, k - 1).push(s[k - 1]));
        assert(sort_upto(s, k, asc).to_multiset() =~= s.subrange(0, k).to_multiset());
    }
}

/// Where an entry lands: splitting a sorted run at the first entry that
/// exceeds the new one reproduces `insert_sorted`.
proof fn lemma_insert_at(x: (u64, usize), s: Seq<(u64, usize)>, pos: int, asc: bool)
    requires
        sorted_by(s, asc),
        0 <= pos <= s.len(),
        forall|i: int| 0 <= i < pos ==> pair_le(#[trigger] s[i], x, asc),
        pos < s.len() ==> !pair_le(s[pos], x, asc),
    ensures
        insert_sorted(x, s, asc) == s.subrange(0, pos) + seq![x] + s.subrange(
            pos,
            s.len() as int,
        ),
    decreases s.len(),
{
    let r = insert_sorted(x, s, asc);
    let goal = s.subrange(0, pos) + seq![x] + s.subrange(pos, s.len() as int);
    if s.len() == 0 {
        assert(r =~= goal);
    } else if pair_le(s[0], x, asc) {
        assert(pos > 0);
        let s2 = s.drop_first();
        assert(sorted_by(s2, asc)) by {
            assert forall|i: int, j: int| 0 <= i < j < s2.len() implies pair_le(
                s2[i],
                s2[j],
                asc,
            ) by {
                assert(s2[i] == s[i + 1] && s2[j] == s[j + 1]);
            }
        }
        assert forall|i: int| 0 <= i < pos - 1 implies pair_le(#[trigger] s2[i], x, asc) by {
            assert(s2[i] == s[i + 1]);
        }
        assert(pos - 1 < s2.len() ==> !pair_le(s2[pos - 1], x, asc));
        lemma_insert_at(x, s2, pos - 1, asc);
        assert(r =~= goal);
    } else {
        assert(pos == 0);
        assert(r =~= goal);
    }
}

/// Executable pair ordering.
fn pair_le_exec(x: (u64, usize), y: (u64, usize), asc: bool) -> (r: bool)
    ensures
        r == pair_le(x, y, asc),
{
    if asc {
        x.0 < y.0 || (x.0 == y.0 && x.1 <= y.1)
    } else {
        x.0 > y.0 || (x.0 == y.0 && x.1 <= y.1)
    }
}

/// Insertion sort of `(sort key, vertex index)` pairs, ascending or
/// descending by key with ring order on ties.
fn sort_pairs_exec(v: &Vec<(u64, usize)>, asc: bool) -> (r: Vec<(u64, usize)>)
    ensures
        r@ == sort_pairs(v@, asc),
        r@.len() == v@.len(),
{
    let mut out: Vec<(u64, usize)> = Vec::new();
    proof {
        assert(out@ =~= sort_upto(v@, 0, asc));
        lemma_sort_ok(v@, 0, asc);
    }
    let end = v.len();
    for k in 0..end
        invariant
            end == v@.len(),
            out@ == sort_upto(v@, k as int, asc),
            out@.len() == k,
            sorted_by(out@, asc),
    {
        let x = v[k];
        let ghost pre = out@;
        let mut pos: usize = 0;
        while pos < out.len() && pair_le_exec(out[pos], x, asc)
            invariant
                out@ == pre,
                pos <= out@.len(),
                forall|i: int| 0 <= i < pos ==> pair_le(#[trigger] out@[i], x, asc),
            decreases out@.len() - pos,
        {
            pos = pos + 1;
        }
        out.insert(pos, x);
        proof {
            lemma_insert_at(x, pre, pos as int, asc);
            assert(out@ =~= pre.subrange(0, pos as int) + seq![x] + pre.subrange(
                pos as int,
                pre.len() as int,
            ));
            assert(out@ == sort_upto(v@, k as int + 1, asc));
            lemma_sort_ok(v@, k as int + 1, asc);
        }
    }
    out
}

/// The `(sort key, duplicated index)` entries of the ring vertices that
/// fall in the chosen half, in ring order. Ring position `k` is the
/// duplicate vertex `vc + k`, whose position copies ring vertex
/// `start + k`.
pub open spec fn ring_entries_upto(
    ring: Seq<RingVertex>,
    vc: int,
    want_clockwise: bool,
    k: int,
) -> Seq<(u64, usize)>
    decreases k,
{
    if k <= 0 {
        Seq::empty()
    } else {
        let p = ring_entries_upto(ring, vc, want_clockwise, k - 1);
        if ring[k - 1].clockwise == want_clockwise {
            p.push((ring[k - 1].angle_key, (vc + k - 1) as usize))
        } else {
            p
        }
    }
}

/// All of one half's entries.
pub open spec fn ring_entries(ring: Seq<RingVertex>, vc: int, want_clockwise: bool) -> Seq<
    (u64, usize),
> {
    ring_entries_upto(ring, vc, want_clockwise, ring.len() as int)
}

/// The two halves partition the ring; every entry is a duplicate index in
/// range, carries its ring vertex's half and key, and each half lists its
/// duplicates in strictly ascending order, each exactly once.
pub proof fn lemma_ring_entries_ok(ring: Seq<RingVertex>, vc: int, k: int)
    requires
        0 <= k <= ring.len(),
        0 <= vc,
        vc + ring.len() <= usize::MAX,
    ensures
        ring_entries_upto(ring, vc, false, k).len() + ring_entries_upto(ring, vc, true, k).len()
            == k,
        forall|b: bool, j: int|
            0 <= j < ring_entries_upto(ring, vc, b, k).len()
                ==> vc <= (#[trigger] ring_entries_upto(ring, vc, b, k)[j]).1 < vc + k,
        forall|b: bool, j: int|
            0 <= j < ring_entries_upto(ring, vc, b, k).len() ==> {
                let kk = (#[trigger] ring_entries_upto(ring, vc, b, k)[j]).1 - vc;
                &&& ring[kk].clockwise == b
                &&& ring_entries_upto(ring, vc, b, k)[j] == (
                    ring[kk].angle_key,
                    (vc + kk) as usize,
                )
            },
        forall|b: bool, j1: int, j2: int|
            0 <= j1 < j2 < ring_entries_upto(ring, vc, b, k).len()
                ==> (#[trigger] ring_entries_upto(ring, vc, b, k)[j1]).1 < (
            #[trigger] ring_entries_upto(ring, vc, b, k)[j2]).1,
        forall|k2: int|
            0 <= k2 < k ==> ring_entries_upto(ring, vc, (#[trigger] ring[k2]).clockwise, k)
                .contains((ring[k2].angle_key, (vc + k2) as usize)),
    decreases k,
{
    if k > 0 {
        lemma_ring_entries_ok(ring, vc, k - 1);
        assert forall|b: bool, j: int|
            0 <= j < ring_entries_upto(ring, vc, b, k).len() implies vc <= (
        #[trigger] ring_entries_upto(ring, vc, b, k)[j]).1 < vc + k by {
            let p = ring_entries_upto(ring, vc, b, k - 1);
            if j < p.len() {
                assert(ring_entries_upto(ring, vc, b, k)[j] == p[j]);
            }
        }
        assert forall|b: bool, j: int|
            0 <= j < ring_entries_upto(ring, vc, b, k).len() implies {
                let kk = (#[trigger] ring_entries_upto(ring, vc, b, k)[j]).1 - vc;
                &&& ring[kk].clockwise == b
                &&& ring_entries_upto(ring, vc, b, k)[j] == (
                    ring[kk].angle_key,
                    (vc + kk) as usize,
                )
            } by {
            let p = ring_entries_upto(ring, vc, b, k - 1);
            if j < p.len() {
                assert(ring_entries_upto(ring, vc, b, k)[j] == p[j]);
            } else {
                assert(ring_entries_upto(ring, vc, b, k)[j] == (
                    ring[k - 1].angle_key,
                    (vc + k - 1) as usize,
                ));
            }
        }
        assert forall|b: bool, j1: int, j2: int|
            0 <= j1 < j2 < ring_entries_upto(ring, vc, b, k).len() implies (
        #[trigger] ring_entries_upto(ring, vc, b, k)[j1]).1 < (
        #[trigger] ring_entries_upto(ring, vc, b, k)[j2]).1 by {
            let p = ring_entries_upto(ring, vc, b, k - 1);
            if j2 < p.len() {
                assert(ring_entries_upto(ring, vc, b, k)[j1] == p[j1]);
                assert(ring_entries_upto(ring, vc, b, k)[j2] == p[j2]);
            } else if j2 == p.len() && ring[k - 1].clockwise == b {
                assert(ring_entries_upto(ring, vc, b, k)[j1] == p[j1]);
                assert(vc <= p[j1].1 < vc + k - 1);
            }
        }
        assert forall|k2: int|
            0 <= k2 < k implies ring_entries_upto(ring, vc, (#[trigger] ring[k2]).clockwise, k)
                .contains((ring[k2].angle_key, (vc + k2) as usize)) by {
            let b = ring[k2].clockwise;
            let p = ring_entries_upto(ring, vc, b, k - 1);
            let s = ring_entries_upto(ring, vc, b, k);
            if k2 < k - 1 {
                let w = choose|w: int|
                    0 <= w < p.len() && p[w] == (ring[k2].angle_key, (vc + k2) as usize);
                assert(s[w] == (ring[k2].angle_key, (vc + k2) as usize));
            } else {
                assert(s[s.len() - 1] == (ring[k2].angle_key, (vc + k2) as usize));
            }
        }
    }
}

/// The first `j` triangles of the cap's fan: one triangle per consecutive
/// pair of the ordered ring traversal, wrapping, each closed at the center
/// vertex.
pub open spec fn fan_fragment(order: Seq<usize>, center: usize, j: int) -> Seq<usize>
    decreases j,
{
    if j <= 0 {
        Seq::empty()
    } else {
        fan_fragment(order, center, j - 1) + seq![
            order[j - 1],
            order[j % order.len() as int],
            center,
        ]
    }
}

/// The whole fan.
pub open spec fn fan_seq(order: Seq<usize>, center: usize) -> Seq<usize> {
    fan_fragment(order, center, order.len() as int)
}

/// Every fan entry is a traversal entry or the center.
pub proof fn lemma_fan_entries(order: Seq<usize>, center: usize, j: int)
    requires
        0 <= j <= order.len(),
    ensures
        fan_fragment(order, center, j).len() == 3 * j,
        forall|i: int|
            0 <= i < fan_fragment(order, center, j).len()
                ==> #[trigger] fan_fragment(order, center, j)[i] == center || exists|w: int|
                0 <= w < order.len() && order[w] == fan_fragment(order, center, j)[i],
    decreases j,
{
    if j > 0 {
        lemma_fan_entries(order, center, j - 1);
        let p = fan_fragment(order, center, j - 1);
        let f = fan_fragment(order, center, j);
        assert forall|i: int| 0 <= i < f.len() implies #[trigger] f[i] == center || exists|w: int|
            0 <= w < order.len() && order[w] == f[i] by {
            if i < p.len() {
                assert(f[i] == p[i]);
            } else if i == p.len() {
                assert(f[i] == order[j - 1]);
            } else if i == p.len() + 1 {
                assert(f[i] == order[j % order.len() as int]);
            }
        }
    }
}

/// The angularly ordered traversal of the duplicated ring: the counter-
/// clockwise half ascending by angle, then the clockwise half descending.
pub open spec fn cap_order(ring: Seq<RingVertex>, vc: int) -> Seq<usize> {
    sort_pairs(ring_entries(ring, vc, false), true).map_values(|p: (u64, usize)| p.1)
        + sort_pairs(ring_entries(ring, vc, true), false).map_values(|p: (u64, usize)| p.1)
}

/// The ordered traversal lists each duplicated ring vertex exactly once:
/// one entry per ring vertex, no entry repeated, every duplicate present.
pub proof fn lemma_cap_order_permutation(ring: Seq<RingVertex>, vc: int)
    requires
        0 <= vc,
        vc + ring.len() <= usize::MAX,
    ensures
        cap_order(ring, vc).len() == ring.len(),
        forall|j1: int, j2: int|
            0 <= j1 < j2 < cap_order(ring, vc).len() ==> cap_order(ring, vc)[j1] != cap_order(
                ring,
                vc,
            )[j2],
        forall|k: int|
            0 <= k < ring.len() ==> cap_order(ring, vc).contains(#[trigger] ((vc + k) as usize)),
{
    broadcast use vstd::seq_lib::group_to_multiset_ensures;

    let n = ring.len() as int;
    let ef = ring_entries(ring, vc, false);
    let et = ring_entries(ring, vc, true);
    let sf = sort_pairs(ef, true);
    let st = sort_pairs(et, false);
    let order = cap_order(ring, vc);
    lemma_ring_entries_ok(ring, vc, n);
    lemma_sort_ok(ef, ef.len() as int, true);
    lemma_sort_ok(et, et.len() as int, false);
    lemma_sort_multiset(ef, ef.len() as int, true);
    lemma_sort_multiset(et, et.len() as int, false);
    assert(ef.subrange(0, ef.len() as int) =~= ef);
    assert(et.subrange(0, et.len() as int) =~= et);
    assert(ef.no_duplicates()) by {
        assert forall|j1: int, j2: int|
            0 <= j1 < j2 < ef.len() implies ef[j1] != ef[j2] by {
            assert(ef[j1].1 < ef[j2].1);
        }
    }
    assert(et.no_duplicates()) by {
        assert forall|j1: int, j2: int|
            0 <= j1 < j2 < et.len() implies et[j1] != et[j2] by {
            assert(et[j1].1 < et[j2].1);
        }
    }
    ef.lemma_multiset_has_no_duplicates();
    et.lemma_multiset_has_no_duplicates();
    sf.lemma_multiset_has_no_duplicates_conv();
    st.lemma_multiset_has_no_duplicates_conv();
    assert(order.len() == n);
    // a sorted entry is one of its half's entries, so it carries its ring
    // vertex's half and key
    assert forall|j: int| 0 <= j < sf.len() implies {
        let kk = (#[trigger] sf[j]).1 - vc;
        &&& 0 <= kk < n
        &&& ring[kk].clockwise == false
        &&& sf[j] == (ring[kk].angle_key, (vc + kk) as usize)
    } by {
        let w = choose|w: int| 0 <= w < ef.len() && ef[w] == sf[j];
        assert(vc <= ef[w].1 < vc + n);
    }
    assert forall|j: int| 0 <= j < st.len() implies {
        let kk = (#[trigger] st[j]).1 - vc;
        &&& 0 <= kk < n
        &&& ring[kk].clockwise == true
        &&& st[j] == (ring[kk].angle_key, (vc + kk) as usize)
    } by {
        let w = choose|w: int| 0 <= w < et.len() && et[w] == st[j];
        assert(vc <= et[w].1 < vc + n);
    }
    assert forall|j1: int, j2: int|
        0 <= j1 < j2 < order.len() implies order[j1] != order[j2] by {
        if order[j1] == order[j2] {
            if j1 < sf.len() && j2 < sf.len() {
                assert(sf[j1] == sf[j2]);
            } else if j1 >= sf.len() && j2 >= sf.len() {
                assert(st[j1 - sf.len()] == st[j2 - sf.len()]);
            } else {
                let e1 = sf[j1];
                let e2 = st[j2 - sf.len()];
                assert(order[j1] == e1.1 && order[j2] == e2.1);
                assert(ring[e1.1 - vc].clockwise == false);
                assert(ring[e2.1 - vc].clockwise == true);
            }
        }
    }
    assert forall|k: int| 0 <= k < n implies order.contains(#[trigger] ((vc + k) as usize)) by {
        let e = (ring[k].angle_key, (vc + k) as usize);
        let b = ring[k].clockwise;
        assert(ring_entries_upto(ring, vc, b, n).contains(e));
        if !b {
            assert(ef.to_multiset().count(e) > 0);
            assert(sf.to_multiset().count(e) > 0);
            assert(sf.contains(e));
            let w = choose|w: int| 0 <= w < sf.len() && sf[w] == e;
            assert(order[w] == (vc + k) as usize);
        } else {
            assert(et.to_multiset().count(e) > 0);
            assert(st.to_multiset().count(e) > 0);
            assert(st.contains(e));
            let w = choose|w: int| 0 <= w < st.len() && st[w] == e;
            assert(order[sf.len() + w] == (vc + k) as usize);
        }
    }
}

/// Cap Filler: fill the planar hole a clip pass left. The boundary ring
/// is the vertex range `[start, vertex_count)`; each ring vertex is first
/// duplicated (the cap's fan gets its own copies, so the flat cap can
/// carry its own normals and UVs), the duplicates are split into two
/// angular halves and sorted by angle - the counter-clockwise half
/// ascending, the clockwise half descending - and the concatenation is
/// one angularly ordered traversal. One center vertex is appended, and
/// one fan triangle `(v_i, v_(i+1), center)` is emitted per consecutive
/// ring pair, wrapping: exactly `n` triangles and one new center vertex
/// for a ring of `n`.
///
/// Returns the new topology, the ordered traversal (duplicate indices),
/// and the length of its counter-clockwise prefix, from which the caller
/// assigns each ring vertex its angular UV (vertices of the clockwise
/// half take the angle's complement to a full turn) and the center UV.
#[verifier::rlimit(100)]
pub fn fill_circle(mesh: &Mesh, start: usize, ring: &Vec<RingVertex>) -> (r: (
    Mesh,
    Vec<usize>,
    usize,
))
    requires
        mesh.wf(),
        start <= mesh.vertex_count,
        ring@.len() == mesh.vertex_count - start,
        mesh.vertex_count + ring@.len() + 1 <= usize::MAX,
        mesh.indices@.len() + 3 * ring@.len() <= usize::MAX,
    ensures
        ({
            let n = ring@.len() as int;
            let vc = mesh.vertex_count as int;
            let order = cap_order(ring@, vc);
            &&& r.0.vertex_count == mesh.vertex_count + n + 1
            &&& r.1@ == order
            &&& r.1@.len() == n
            &&& forall|j: int| 0 <= j < n ==> vc <= #[trigger] order[j] < vc + n
            &&& r.2 == sort_pairs(ring_entries(ring@, vc, false), true).len()
            &&& r.0.indices@.len() == mesh.indices@.len() + 3 * n
            &&& r.0.indices@ == mesh.indices@ + fan_seq(order, (vc + n) as usize)
            &&& r.0.wf()
        }),
{
    let vc = mesh.vertex_count;
    let n = ring.len();
    let ghost rg = ring@;
    let mut counter_entries: Vec<(u64, usize)> = Vec::new();
    let mut cw_entries: Vec<(u64, usize)> = Vec::new();
    proof {
        assert(counter_entries@ =~= ring_entries_upto(rg, vc as int, false, 0));
        assert(cw_entries@ =~= ring_entries_upto(rg, vc as int, true, 0));
    }
    for k in 0..n
        invariant
            rg == ring@,
            n == ring@.len(),
            vc + n + 1 <= usize::MAX,
            counter_entries@ == ring_entries_upto(rg, vc as int, false, k as int),
            cw_entries@ == ring_entries_upto(rg, vc as int, true, k as int),
    {
        let entry = (ring[k].angle_key, vc + k);
        if ring[k].clockwise {
            cw_entries.push(entry);
        } else {
            counter_entries.push(entry);
        }
    }
    let counter_sorted = sort_pairs_exec(&counter_entries, true);
    let cw_sorted = sort_pairs_exec(&cw_entries, false);
    let counter_len = counter_sorted.len();
    proof {
        lemma_ring_entries_ok(rg, vc as int, n as int);
        lemma_sort_ok(ring_entries(rg, vc as int, false), counter_entries@.len() as int, true);
        lemma_sort_ok(ring_entries(rg, vc as int, true), cw_entries@.len() as int, false);
    }
    let mut order: Vec<usize> = Vec::new();
    let ghost counter_s = sort_pairs(ring_entries(rg, vc as int, false), true);
    let ghost cw_s = sort_pairs(ring_entries(rg, vc as int, true), false);
    let ghost order_s = cap_order(rg, vc as int);
    for i in 0..counter_sorted.len()
        invariant
            counter_sorted@ == counter_s,
            order@.len() == i,
            forall|j: int| 0 <= j < i ==> #[trigger] order@[j] == counter_s[j].1,
    {
        let e = counter_sorted[i];
        order.push(e.1);
    }
    for i in 0..cw_sorted.len()
        invariant
            counter_sorted@ == counter_s,
            cw_sorted@ == cw_s,
            counter_len == counter_s.len(),
            order@.len() == counter_len + i,
            forall|j: int| 0 <= j < counter_len ==> #[trigger] order@[j] == counter_s[j].1,
            forall|j: int|
                counter_len <= j < counter_len + i ==> #[trigger] order@[j] == cw_s[
                    j - counter_len
                ].1,
    {
        let e = cw_sorted[i];
        order.push(e.1);
    }
    proof {
        assert(order@ =~= order_s);
        assert(order@.len() == n);
        // every traversal entry is a duplicate index in [vc, vc + n)
        assert forall|j: int| 0 <= j < order@.len() implies vc <= #[trigger] order@[j] < vc
            + n by {
            if j < counter_s.len() {
                assert(order@[j] == counter_s[j].1);
                let w = choose|w: int|
                    0 <= w < ring_entries(rg, vc as int, false).len() && ring_entries(
                        rg,
                        vc as int,
                        false,
                    )[w] == counter_s[j];
            } else {
                assert(order@[j] == cw_s[j - counter_s.len()].1);
                let w = choose|w: int|
                    0 <= w < ring_entries(rg, vc as int, true).len() && ring_entries(
                        rg,
                        vc as int,
                        true,
                    )[w] == cw_s[j - counter_s.len()];
            }
        }
    }
    let mut indices = mesh.indices.clone();
    let ghost base = mesh.indices@;
    let center = vc + n;
    proof {
        assert(indices@ =~= base + fan_fragment(order_s, center, 0));
    }
    for i in 0..n
        invariant
            order@ == order_s,
            order@.len() == n,
            center == vc + n,
            vc + n + 1 <= usize::MAX,
            base.len() + 3 * n <= usize::MAX,
            indices@ == base + fan_fragment(order_s, center, i as int),
            indices@.len() == base.len() + 3 * i,
    {
        let v1 = order[i];
        let v2 = order[(i + 1) % n];
        indices.push(v1);
        indices.push(v2);
        indices.push(center);
        proof {
            assert(v2 == order_s[(i as int + 1) % (n as int)]);
            assert(indices@ =~= base + fan_fragment(order_s, center, i as int + 1));
        }
    }
    proof {
        assert(indices@.len() % 3 == 0);
        lemma_fan_entries(order_s, center, n as int);
        assert forall|i: int| 0 <= i < indices@.len() implies #[trigger] indices@[i] < center
            + 1 by {
            if i < base.len() {
                assert(indices@[i] == base[i]);
                assert(base[i] < vc);
            } else {
                let f = fan_fragment(order_s, center, n as int);
                assert(indices@[i] == f[i - base.len()]);
                if f[i - base.len()] != center {
                    let w = choose|w: int|
                        0 <= w < order_s.len() && order_s[w] == f[i - base.len()];
                    assert(vc <= order_s[w] < vc + n);
                }
            }
        }
        assert(indices@ == base + fan_seq(order_s, center));
    }
    let new_mesh = Mesh { vertex_count: center + 1, indices };
    proof {
        assert(order@ == cap_order(rg, vc as int));
        assert(new_mesh.wf());
    }
    (new_mesh, order, counter_len)
}

} // verus!
