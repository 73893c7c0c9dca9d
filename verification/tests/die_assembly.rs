use die_mesh::mesh::Mesh;
use die_mesh::subdivide::create_icosphere;
use die_mesh::cap::RingVertex;
use die_mesh::die::{DieBuilder, die_faces, Axis3};

fn decode(c: i8) -> f32 {
    let phi = (1.0 + 5.0f32.sqrt()) / 2.0;
    match c {
        -2 => -phi,
        2 => phi,
        v => v as f32,
    }
}

fn normalize(v: [f32; 3]) -> [f32; 3] {
    let len = (v[0] * v[0] + v[1] * v[1] + v[2] * v[2]).sqrt();
    [v[0] / len, v[1] / len, v[2] / len]
}

fn dot(a: [f32; 3], b: [f32; 3]) -> f32 {
    a[0] * b[0] + a[1] * b[1] + a[2] * b[2]
}

fn sub(a: [f32; 3], b: [f32; 3]) -> [f32; 3] {
    [a[0] - b[0], a[1] - b[1], a[2] - b[2]]
}

fn scale(a: [f32; 3], s: f32) -> [f32; 3] {
    [a[0] * s, a[1] * s, a[2] * s]
}

fn axis(a: Axis3) -> [f32; 3] {
    [a.x as f32, a.y as f32, a.z as f32]
}

fn angle_between(a: [f32; 3], b: [f32; 3]) -> f32 {
    let c = dot(a, b) / (dot(a, a).sqrt() * dot(b, b).sqrt());
    c.clamp(-1.0, 1.0).acos()
}

fn line_plane_factor(l1: [f32; 3], l2: [f32; 3], point: [f32; 3], normal: [f32; 3]) -> Option<f32> {
    let line = sub(l2, l1);
    let d = dot(normal, line);
    if d.abs() <= f32::EPSILON {
        return None;
    }
    let factor = dot(normal, sub(l1, point)) / -d;
    if factor < 0.0 || factor > 1.0 {
        return None;
    }
    Some(factor)
}

struct DieOutput {
    mesh: Mesh,
    positions: Vec<[f32; 3]>,
    uvs: Vec<[f32; 2]>,
    face_of: Vec<Option<u8>>,
}

/// The whole die assembly, numerics included: icosphere, six clip/cap
/// rounds, prune, rescale - driven through the library's topology.
fn create_d6(depth: u8, threshold: f32, size: f32) -> DieOutput {
    let (mesh, coords, log) = create_icosphere(depth);
    let mut pos: Vec<[f32; 3]> = Vec::new();
    for c in &coords {
        pos.push(normalize([decode(c.x), decode(c.y), decode(c.z)]));
    }
    for e in &log {
        let pa = pos[e.a];
        let pb = pos[e.b];
        pos.push(normalize([
            (pa[0] + pb[0]) / 2.0,
            (pa[1] + pb[1]) / 2.0,
            (pa[2] + pb[2]) / 2.0,
        ]));
    }
    let mut uvs: Vec<[f32; 2]> = vec![[0.0, 0.0]; pos.len()];
    let mut face_of: Vec<Option<u8>> = vec![None; pos.len()];
    let mut builder = DieBuilder::new(mesh);
    let _ = die_faces();
    while let Some(face) = builder.next_face() {
        let plane_normal = axis(face.normal);
        let center = scale(plane_normal, threshold);
        let reference = scale(axis(face.reference), threshold);
        let clockwise = scale(axis(face.clockwise), threshold);
        // cut flags, one per directed edge of the current index list
        let mut cuts: Vec<bool> = Vec::new();
        for i in 0..builder.mesh.indices.len() {
            let tri = i / 3;
            let corner = i % 3;
            let a = builder.mesh.indices[3 * tri + corner];
            let b = builder.mesh.indices[3 * tri + (corner + 1) % 3];
            cuts.push(line_plane_factor(pos[a], pos[b], center, plane_normal).is_some());
        }
        let circle_start = builder.mesh.vertex_count;
        let crossings = builder.apply_clip(&cuts);
        for c in &crossings {
            let l1 = pos[c.start];
            let l2 = pos[c.end];
            let t = line_plane_factor(l1, l2, center, plane_normal).expect("crossing");
            let line = sub(l2, l1);
            pos.push([l1[0] + line[0] * t, l1[1] + line[1] * t, l1[2] + line[2] * t]);
            uvs.push([0.0, 0.0]);
            face_of.push(None);
        }
        // ring measurements for the cap fill
        let ring_len = builder.mesh.vertex_count - circle_start;
        let refpoint = [center[0] + reference[0], center[1] + reference[1], center[2] + reference[2]];
        let mut ring: Vec<RingVertex> = Vec::new();
        for k in circle_start..builder.mesh.vertex_count {
            let v = pos[k];
            let d_cw = sub(v, [center[0] + clockwise[0], center[1] + clockwise[1], center[2] + clockwise[2]]);
            let d_ccw = sub(v, [center[0] - clockwise[0], center[1] - clockwise[1], center[2] - clockwise[2]]);
            let is_cw = dot(d_cw, d_cw).sqrt() < dot(d_ccw, d_ccw).sqrt();
            let angle = angle_between(refpoint, v);
            ring.push(RingVertex { clockwise: is_cw, angle_key: angle.to_bits() as u64 });
        }
        let (order, counter_len) = builder.apply_cap(&ring);
        // duplicated ring vertices, then UVs along the ordered traversal,
        // then the center vertex
        for k in 0..ring_len {
            pos.push(pos[circle_start + k]);
            uvs.push([0.0, 0.0]);
            face_of.push(Some(face.number));
        }
        for (i, &v1) in order.iter().enumerate() {
            let mut angle = angle_between(reference, sub(pos[v1], center));
            if i >= counter_len {
                angle = 2.0 * std::f32::consts::PI - angle;
            }
            uvs[v1] = [(-angle.sin() + 1.0) / 2.0, 1.0 - (angle.cos() + 1.0) / 2.0];
        }
        pos.push(center);
        uvs.push([0.5, 0.5]);
        face_of.push(Some(face.number));
        // pack this face's cap into its UV band
        let tail = ring_len + 1;
        let start = uvs.len() - tail;
        for uv in uvs.iter_mut().skip(start) {
            uv[0] = (face.number - 1) as f32 / 6.0 + uv[0] / 6.0;
        }
    }
    // prune everything outside the rounded cube, then rescale
    let remove: Vec<bool> = pos.iter().map(|p| p.iter().any(|c| c.abs() > threshold)).collect();
    let kept = builder.apply_prune(&remove);
    let scale_factor = size / (2.0 * threshold);
    let new_pos: Vec<[f32; 3]> = kept.iter().map(|&v| scale(pos[v], scale_factor)).collect();
    let new_uvs: Vec<[f32; 2]> = kept.iter().map(|&v| uvs[v]).collect();
    let new_face_of: Vec<Option<u8>> = kept.iter().map(|&v| face_of[v]).collect();
    let mesh = builder.into_mesh();
    assert_eq!(new_pos.len(), mesh.vertex_count);
    DieOutput { mesh, positions: new_pos, uvs: new_uvs, face_of: new_face_of }
}

#[test]
fn die_vertices_stay_inside_half_size_box() {
    let out = create_d6(3, 0.72, 1.0);
    assert!(out.mesh.vertex_count > 0);
    for p in &out.positions {
        for c in p {
            assert!(c.abs() <= 0.5 + 1e-4, "coordinate {} outside the die box", c);
        }
    }
}

#[test]
fn die_has_six_flat_face_regions() {
    let out = create_d6(3, 0.72, 1.0);
    for face in die_faces() {
        let n = axis(face.normal);
        // the cap of each face lies on the scaled plane at distance 0.5
        let mut on_plane = 0;
        for p in &out.positions {
            if (dot(*p, n) - 0.5).abs() < 1e-3 {
                on_plane += 1;
            }
        }
        assert!(on_plane >= 4, "face {} has too few cap vertices", face.number);
    }
}

#[test]
fn die_uv_u_values_fall_into_six_bands() {
    let out = create_d6(3, 0.72, 1.0);
    let mut seen = [false; 6];
    for (v, uv) in out.uvs.iter().enumerate() {
        assert!(uv[0] >= -1e-6 && uv[0] <= 1.0 + 1e-6);
        if let Some(f) = out.face_of[v] {
            let lo = (f - 1) as f32 / 6.0;
            let hi = f as f32 / 6.0;
            assert!(
                uv[0] >= lo - 1e-5 && uv[0] <= hi + 1e-5,
                "u {} outside band of face {}",
                uv[0],
                f
            );
            seen[(f - 1) as usize] = true;
        }
    }
    assert!(seen.iter().all(|s| *s), "not every face contributed cap vertices");
}

#[test]
fn die_mesh_is_well_formed() {
    let out = create_d6(3, 0.72, 1.0);
    assert_eq!(out.mesh.indices.len() % 3, 0);
    for &i in &out.mesh.indices {
        assert!(i < out.mesh.vertex_count);
    }
    assert_eq!(out.uvs.len(), out.mesh.vertex_count);
}

#[test]
fn opposite_die_faces_sum_to_seven() {
    let faces = die_faces();
    let mut pairs = 0;
    for a in &faces {
        for b in &faces {
            if a.normal.x + b.normal.x == 0 && a.normal.y + b.normal.y == 0
                && a.normal.z + b.normal.z == 0
            {
                assert_eq!(a.number + b.number, 7);
                pairs += 1;
            }
        }
    }
    assert_eq!(pairs, 6);
}

#[test]
fn die_face_numbers_are_one_through_six() {
    let faces = die_faces();
    let mut numbers: Vec<u8> = faces.iter().map(|f| f.number).collect();
    numbers.sort();
    assert_eq!(numbers, vec![1, 2, 3, 4, 5, 6]);
}
