use die_mesh::mesh::Mesh;
use die_mesh::subdivide::create_icosphere;
use die_mesh::prune::remove_if;

fn decode(c: i8) -> f32 {
    let phi = (1.0 + 5.0f32.sqrt()) / 2.0;
    match c {
        -2 => -phi,
        2 => phi,
        v => v as f32,
    }
}

fn normalize(v: [f32; 3]) -> [f32; 3] {
    let len = (v[0] * v[0] + v[1] * v[1] + v[2] * v[2]).sqrt();
    [v[0] / len, v[1] / len, v[2] / len]
}

fn icosphere_positions(iterations: u8) -> (Mesh, Vec<[f32; 3]>) {
    let (mesh, coords, log) = create_icosphere(iterations);
    let mut pos: Vec<[f32; 3]> = Vec::new();
    for c in &coords {
        pos.push(normalize([decode(c.x), decode(c.y), decode(c.z)]));
    }
    for e in &log {
        let pa = pos[e.a];
        let pb = pos[e.b];
        pos.push(normalize([
            (pa[0] + pb[0]) / 2.0,
            (pa[1] + pb[1]) / 2.0,
            (pa[2] + pb[2]) / 2.0,
        ]));
    }
    (mesh, pos)
}

#[test]
fn prune_with_always_false_predicate_is_identity() {
    let (mesh, _) = icosphere_positions(2);
    let remove = vec![false; mesh.vertex_count];
    let before = mesh.indices.clone();
    let vc = mesh.vertex_count;
    let (pruned, kept) = remove_if(&mesh, &remove);
    assert_eq!(pruned.vertex_count, vc);
    assert_eq!(pruned.indices, before);
    let identity: Vec<usize> = (0..vc).collect();
    assert_eq!(kept, identity);
}

#[test]
fn prune_leaves_no_dangling_references_and_parallel_arrays_stay_synchronized() {
    let (mesh, pos) = icosphere_positions(2);
    let mut uvs = vec![[0.0f32, 0.0f32]; mesh.vertex_count];
    for (v, p) in pos.iter().enumerate() {
        uvs[v] = [p[0], p[1]];
    }
    let remove: Vec<bool> = pos.iter().map(|p| p[0] > 0.5).collect();
    assert!(remove.iter().any(|r| *r));
    let (pruned, kept) = remove_if(&mesh, &remove);
    // compact the parallel arrays through the survivor list
    let new_pos: Vec<[f32; 3]> = kept.iter().map(|&v| pos[v]).collect();
    let new_uvs: Vec<[f32; 2]> = kept.iter().map(|&v| uvs[v]).collect();
    assert_eq!(new_pos.len(), pruned.vertex_count);
    assert_eq!(new_uvs.len(), pruned.vertex_count);
    // no dangling references, and no surviving triangle references a
    // removed vertex
    assert_eq!(pruned.indices.len() % 3, 0);
    for &i in &pruned.indices {
        assert!(i < pruned.vertex_count);
        assert!(!remove[kept[i]]);
    }
    // surviving vertices are exactly those the predicate kept
    for &old in &kept {
        assert!(!remove[old]);
    }
    assert_eq!(kept.len(), remove.iter().filter(|r| !**r).count());
}

#[test]
fn prune_drops_triangles_touching_removed_vertices_and_keeps_winding() {
    // a small handmade mesh: vertices 0..5, two triangles; removing vertex
    // 4 must drop the second triangle and keep the first with shifted
    // indices in the same corner order
    let mesh = Mesh { vertex_count: 5, indices: vec![3, 1, 2, 1, 4, 2] };
    let remove = vec![false, false, false, false, true];
    let (pruned, kept) = remove_if(&mesh, &remove);
    assert_eq!(kept, vec![0, 1, 2, 3]);
    assert_eq!(pruned.vertex_count, 4);
    assert_eq!(pruned.indices, vec![3, 1, 2]);

    // removing vertex 0 shifts every index down while keeping order
    let mesh2 = Mesh { vertex_count: 5, indices: vec![3, 1, 2, 1, 4, 2] };
    let remove2 = vec![true, false, false, false, false];
    let (pruned2, kept2) = remove_if(&mesh2, &remove2);
    assert_eq!(kept2, vec![1, 2, 3, 4]);
    assert_eq!(pruned2.indices, vec![2, 0, 1, 0, 3, 1]);
}

#[test]
fn prune_everything_leaves_an_empty_mesh() {
    let mesh = Mesh { vertex_count: 3, indices: vec![0, 1, 2] };
    let remove = vec![true, true, true];
    let (pruned, kept) = remove_if(&mesh, &remove);
    assert_eq!(pruned.vertex_count, 0);
    assert!(pruned.indices.is_empty());
    assert!(kept.is_empty());
}
