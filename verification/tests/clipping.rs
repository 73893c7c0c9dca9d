use die_mesh::mesh::Mesh;
use die_mesh::subdivide::create_icosphere;
use die_mesh::clip::{intersect_mesh_with_plane, Crossing};
use die_mesh::cap::{fill_circle, RingVertex};

fn decode(c: i8) -> f32 {
    let phi = (1.0 + 5.0f32.sqrt()) / 2.0;
    match c {
        -2 => -phi,
        2 => phi,
        v => v as f32,
    }
}

fn normalize(v: [f32; 3]) -> [f32; 3] {
    let len = (v[0] * v[0] + v[1] * v[1] + v[2] * v[2]).sqrt();
    [v[0] / len, v[1] / len, v[2] / len]
}

fn icosphere_positions(iterations: u8) -> (Mesh, Vec<[f32; 3]>) {
    let (mesh, coords, log) = create_icosphere(iterations);
    let mut pos: Vec<[f32; 3]> = Vec::new();
    for c in &coords {
        pos.push(normalize([decode(c.x), decode(c.y), decode(c.z)]));
    }
    for e in &log {
        let pa = pos[e.a];
        let pb = pos[e.b];
        pos.push(normalize([
            (pa[0] + pb[0]) / 2.0,
            (pa[1] + pb[1]) / 2.0,
            (pa[2] + pb[2]) / 2.0,
        ]));
    }
    (mesh, pos)
}

fn dot(a: [f32; 3], b: [f32; 3]) -> f32 {
    a[0] * b[0] + a[1] * b[1] + a[2] * b[2]
}

fn sub(a: [f32; 3], b: [f32; 3]) -> [f32; 3] {
    [a[0] - b[0], a[1] - b[1], a[2] - b[2]]
}

/// The parametric line/plane test: `None` when the edge runs
/// (within machine epsilon) parallel to the plane or the crossing falls
/// outside the segment.
fn line_plane_factor(l1: [f32; 3], l2: [f32; 3], point: [f32; 3], normal: [f32; 3]) -> Option<f32> {
    let line = sub(l2, l1);
    let d = dot(normal, line);
    if d.abs() <= f32::EPSILON {
        return None;
    }
    let factor = dot(normal, sub(l1, point)) / -d;
    if factor < 0.0 || factor > 1.0 {
        return None;
    }
    Some(factor)
}

/// One cut flag per index-list position, for the directed edge it starts.
fn edge_cuts(mesh: &Mesh, pos: &[[f32; 3]], point: [f32; 3], normal: [f32; 3]) -> Vec<bool> {
    let mut cuts = Vec::new();
    for i in 0..mesh.indices.len() {
        let tri = i / 3;
        let corner = i % 3;
        let a = mesh.indices[3 * tri + corner];
        let b = mesh.indices[3 * tri + (corner + 1) % 3];
        cuts.push(line_plane_factor(pos[a], pos[b], point, normal).is_some());
    }
    cuts
}

/// Positions of the vertices a clip pass created, replayed from its log.
fn crossing_positions(
    log: &[Crossing],
    pos: &mut Vec<[f32; 3]>,
    point: [f32; 3],
    normal: [f32; 3],
) {
    for c in log {
        let l1 = pos[c.start];
        let l2 = pos[c.end];
        let t = line_plane_factor(l1, l2, point, normal).expect("logged crossing must intersect");
        let line = sub(l2, l1);
        pos.push([l1[0] + line[0] * t, l1[1] + line[1] * t, l1[2] + line[2] * t]);
    }
}

#[test]
fn clip_with_plane_outside_mesh_is_identity() {
    let (mesh, pos) = icosphere_positions(2);
    let point = [2.0, 0.0, 0.0];
    let normal = [1.0, 0.0, 0.0];
    let cuts = edge_cuts(&mesh, &pos, point, normal);
    assert!(cuts.iter().all(|c| !c));
    let before = mesh.indices.clone();
    let vc = mesh.vertex_count;
    let (clipped, log) = intersect_mesh_with_plane(&mesh, &cuts);
    assert!(log.is_empty());
    assert_eq!(clipped.vertex_count, vc);
    assert_eq!(clipped.indices, before);
}

#[test]
fn clip_through_symmetric_mesh_puts_new_vertices_on_plane() {
    let (mesh, mut pos) = icosphere_positions(2);
    let point = [0.1, 0.0, 0.0];
    let normal = [1.0, 0.0, 0.0];
    let cuts = edge_cuts(&mesh, &pos, point, normal);
    let (clipped, log) = intersect_mesh_with_plane(&mesh, &cuts);
    assert!(!log.is_empty());
    crossing_positions(&log, &mut pos, point, normal);
    assert_eq!(pos.len(), clipped.vertex_count);
    for k in mesh.vertex_count..clipped.vertex_count {
        let v = pos[k];
        let d = dot(normal, sub(v, point));
        assert!(d.abs() < 1e-5, "new vertex {} off plane by {}", k, d);
    }
}

#[test]
fn clip_single_triangle_two_edges_cut_exact() {
    let mesh = Mesh { vertex_count: 3, indices: vec![0, 1, 2] };
    let cuts = vec![true, true, false];
    let (clipped, log) = intersect_mesh_with_plane(&mesh, &cuts);
    assert_eq!(clipped.vertex_count, 5);
    assert_eq!(clipped.indices, vec![0, 3, 4, 1, 4, 3, 2, 0, 4]);
    assert_eq!(log.len(), 2);
    assert_eq!((log[0].start, log[0].end), (0, 1));
    assert_eq!((log[1].start, log[1].end), (1, 2));
}

#[test]
fn clip_passthrough_single_cut() {
    // one crossing only: the triangle lies on one side but touches the
    // plane; it must pass through unchanged
    let mesh = Mesh { vertex_count: 3, indices: vec![0, 1, 2] };
    let cuts = vec![true, false, false];
    let (clipped, log) = intersect_mesh_with_plane(&mesh, &cuts);
    assert!(log.is_empty());
    assert_eq!(clipped.indices, vec![0, 1, 2]);
}

#[test]
fn clip_shares_crossing_vertex_between_adjacent_triangles() {
    // two triangles share the edge (1, 2); both have two cut edges; the
    // crossing on the shared edge must be created once
    let mesh = Mesh { vertex_count: 4, indices: vec![0, 1, 2, 2, 1, 3] };
    let cuts = vec![true, true, false, false, true, true];
    let (clipped, log) = intersect_mesh_with_plane(&mesh, &cuts);
    // edge (1,2) is cut in triangle 0 and appears reversed in triangle 1
    // (not flagged there - the cache hit supplies the shared vertex)
    assert_eq!(log.len(), 4);
    assert_eq!(clipped.vertex_count, 8);
    let pairs: Vec<(usize, usize)> = log
        .iter()
        .map(|c| (c.start.min(c.end), c.start.max(c.end)))
        .collect();
    let mut sorted = pairs.clone();
    sorted.sort();
    sorted.dedup();
    assert_eq!(sorted.len(), pairs.len(), "a shared edge was logged twice");
}

#[test]
fn cap_fill_round_trip_counts() {
    // clip an icosphere, then fill the ring: n ring vertices must yield
    // exactly n fan triangles and one new center vertex
    let (mesh, mut pos) = icosphere_positions(2);
    let point = [0.72, 0.0, 0.0];
    let normal = [1.0, 0.0, 0.0];
    let cuts = edge_cuts(&mesh, &pos, point, normal);
    let ring_start = mesh.vertex_count;
    let (clipped, log) = intersect_mesh_with_plane(&mesh, &cuts);
    crossing_positions(&log, &mut pos, point, normal);
    let n = clipped.vertex_count - ring_start;
    assert!(n >= 3);

    let center = point;
    let reference = [0.0, 0.0, 0.72];
    let clockwise = [0.0, -0.72, 0.0];
    let mut ring = Vec::new();
    for k in ring_start..clipped.vertex_count {
        let v = pos[k];
        let to_cw = sub(v, [center[0] + clockwise[0], center[1] + clockwise[1], center[2] + clockwise[2]]);
        let to_ccw = sub(v, [center[0] - clockwise[0], center[1] - clockwise[1], center[2] - clockwise[2]]);
        let is_cw = dot(to_cw, to_cw).sqrt() < dot(to_ccw, to_ccw).sqrt();
        let refv = [center[0] + reference[0], center[1] + reference[1], center[2] + reference[2]];
        let vv = v;
        let cosang = dot(refv, vv) / (dot(refv, refv).sqrt() * dot(vv, vv).sqrt());
        let angle = cosang.clamp(-1.0, 1.0).acos();
        ring.push(RingVertex { clockwise: is_cw, angle_key: angle.to_bits() as u64 });
    }
    let idx_before = clipped.indices.len();
    let vc_before = clipped.vertex_count;
    let (filled, order, counter_len) = fill_circle(&clipped, ring_start, &ring);
    assert_eq!(order.len(), n);
    assert!(counter_len <= n);
    assert_eq!(filled.indices.len(), idx_before + 3 * n);
    assert_eq!(filled.vertex_count, vc_before + n + 1);
    // the fan closes at the center vertex
    for i in 0..n {
        assert_eq!(filled.indices[idx_before + 3 * i + 2], vc_before + n);
    }
}

#[test]
fn cap_fill_orders_halves_by_angle() {
    // a synthetic ring of four vertices: two per half, keys out of order
    let mesh = Mesh { vertex_count: 4, indices: vec![] };
    let ring = vec![
        RingVertex { clockwise: false, angle_key: 30 },
        RingVertex { clockwise: true, angle_key: 10 },
        RingVertex { clockwise: false, angle_key: 20 },
        RingVertex { clockwise: true, angle_key: 40 },
    ];
    let (filled, order, counter_len) = fill_circle(&mesh, 0, &ring);
    // duplicates are 4..8: ring position k duplicates to vertex 4 + k
    // counter half ascending: keys 20 (pos 2 -> 6), 30 (pos 0 -> 4)
    // clockwise half descending: keys 40 (pos 3 -> 7), 10 (pos 1 -> 5)
    assert_eq!(counter_len, 2);
    assert_eq!(order, vec![6, 4, 7, 5]);
    assert_eq!(filled.vertex_count, 4 + 4 + 1);
    assert_eq!(filled.indices, vec![6, 4, 8, 4, 7, 8, 7, 5, 8, 5, 6, 8]);
}

#[test]
fn cap_fill_of_empty_ring_adds_only_the_center() {
    let mesh = Mesh { vertex_count: 3, indices: vec![0, 1, 2] };
    let (filled, order, counter_len) = fill_circle(&mesh, 3, &Vec::new());
    assert!(order.is_empty());
    assert_eq!(counter_len, 0);
    assert_eq!(filled.vertex_count, 4);
    assert_eq!(filled.indices, vec![0, 1, 2]);
}
