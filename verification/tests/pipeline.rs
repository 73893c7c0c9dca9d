use die_mesh::mesh::Mesh;
use die_mesh::mesh::Edge;
use die_mesh::subdivide::create_icosphere;
use die_mesh::subdivide::subdivide;
use die_mesh::subdivide::subdivide_round;

fn decode(c: i8) -> f32 {
    let phi = (1.0 + 5.0f32.sqrt()) / 2.0;
    match c {
        -2 => -phi,
        2 => phi,
        v => v as f32,
    }
}

fn normalize(v: [f32; 3]) -> [f32; 3] {
    let len = (v[0] * v[0] + v[1] * v[1] + v[2] * v[2]).sqrt();
    [v[0] / len, v[1] / len, v[2] / len]
}

/// Replay the Subdivider's creation log into actual positions: the base
/// corners projected onto the unit sphere, then each midpoint as the
/// projected average of its endpoints.
fn icosphere_positions(iterations: u8) -> (Mesh, Vec<[f32; 3]>) {
    let (mesh, coords, log) = create_icosphere(iterations);
    let mut pos: Vec<[f32; 3]> = Vec::new();
    for c in &coords {
        pos.push(normalize([decode(c.x), decode(c.y), decode(c.z)]));
    }
    for e in &log {
        let Edge { a, b } = *e;
        let pa = pos[a];
        let pb = pos[b];
        let mid = [
            (pa[0] + pb[0]) / 2.0,
            (pa[1] + pb[1]) / 2.0,
            (pa[2] + pb[2]) / 2.0,
        ];
        pos.push(normalize(mid));
    }
    assert_eq!(pos.len(), mesh.vertex_count);
    (mesh, pos)
}

#[test]
fn icosphere_vertices_on_unit_sphere() {
    for iterations in 0..=5u8 {
        let (_, pos) = icosphere_positions(iterations);
        for p in &pos {
            let len = (p[0] * p[0] + p[1] * p[1] + p[2] * p[2]).sqrt();
            assert!((len - 1.0).abs() < 1e-5, "length {} at depth {}", len, iterations);
        }
    }
}

#[test]
fn icosphere_vertices_on_unit_sphere_at_ceiling() {
    let (_, pos) = icosphere_positions(8);
    for p in &pos {
        let len = (p[0] * p[0] + p[1] * p[1] + p[2] * p[2]).sqrt();
        assert!((len - 1.0).abs() < 1e-5);
    }
}

#[test]
fn subdivision_counts_follow_closed_forms() {
    for iterations in 0..=5u8 {
        let (mesh, _, _) = create_icosphere(iterations);
        let pow = 4usize.pow(iterations as u32);
        assert_eq!(mesh.indices.len() / 3, 20 * pow);
        assert_eq!(mesh.vertex_count, 10 * pow + 2);
    }
}

#[test]
fn subdivision_vertex_counts_exact() {
    for (iterations, want) in [(0u8, 12usize), (1, 42), (2, 162), (3, 642), (4, 2562)] {
        let (mesh, _, _) = create_icosphere(iterations);
        assert_eq!(mesh.vertex_count, want);
        assert_eq!(mesh.indices.len() / 3, 20 * 4usize.pow(iterations as u32));
    }
}

#[test]
fn midpoints_are_deduplicated_no_duplicate_positions() {
    let (_, pos) = icosphere_positions(2);
    for i in 0..pos.len() {
        for j in (i + 1)..pos.len() {
            let d = [
                pos[i][0] - pos[j][0],
                pos[i][1] - pos[j][1],
                pos[i][2] - pos[j][2],
            ];
            let dist = (d[0] * d[0] + d[1] * d[1] + d[2] * d[2]).sqrt();
            assert!(dist > 1e-4, "vertices {} and {} coincide", i, j);
        }
    }
}

#[test]
fn subdivision_log_pairs_are_distinct() {
    let (_, _, log) = create_icosphere(3);
    let mut seen = std::collections::HashSet::new();
    for e in &log {
        assert!(e.a <= e.b);
        assert!(seen.insert((e.a, e.b)), "pair ({}, {}) logged twice", e.a, e.b);
    }
}

#[test]
fn single_triangle_subdivision_exact() {
    let mesh = Mesh { vertex_count: 3, indices: vec![0, 1, 2] };
    let (out, log) = subdivide(mesh, 1);
    assert_eq!(out.vertex_count, 6);
    assert_eq!(out.indices, vec![0, 3, 5, 1, 4, 3, 2, 5, 4, 3, 4, 5]);
    assert_eq!(log.len(), 3);
    assert_eq!((log[0].a, log[0].b), (0, 1));
    assert_eq!((log[1].a, log[1].b), (1, 2));
    assert_eq!((log[2].a, log[2].b), (0, 2));
}

#[test]
fn shared_edge_midpoints_are_shared() {
    // two triangles sharing the edge (1, 2): one round must create one
    // midpoint for it, referenced from both sides
    let mesh = Mesh { vertex_count: 4, indices: vec![0, 1, 2, 2, 1, 3] };
    let (out, log) = subdivide_round(&mesh);
    assert_eq!(log.len(), 5);
    // triangle 0 midpoint of edge (1,2) sits at out[4] (m2); triangle 1's
    // midpoint of its first edge (2,1) sits at out[13] (m1)
    assert_eq!(out.indices[4], out.indices[12 + 1]);
}

#[test]
fn mesh_accessors_walk_the_triangle_list() {
    let (mesh, _, _) = create_icosphere(0);
    assert_eq!(mesh.index_count(), 60);
    assert_eq!(mesh.index_at(0), 5);
    assert_eq!(mesh.index_at(1), 4);
    assert_eq!(mesh.index_at(2), 2);
}

#[test]
fn subdivide_zero_rounds_is_identity() {
    let mesh = Mesh { vertex_count: 4, indices: vec![0, 1, 2, 2, 1, 3] };
    let (out, log) = subdivide(mesh, 0);
    assert_eq!(out.vertex_count, 4);
    assert_eq!(out.indices, vec![0, 1, 2, 2, 1, 3]);
    assert!(log.is_empty());
}
