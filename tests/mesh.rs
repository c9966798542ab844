use hexboard::mesh::{Fixed3, IndexedMesh, MeshBuilder};
use hexboard::prism::{prism_mesh, prism_triangles};

fn f(x: i64, y: i64, z: i64) -> Fixed3 {
    Fixed3 { x, y, z }
}

/// Outer points and triangle normals of a prism in which every outer point
/// is told apart and both triangles of a side face share one normal.
fn labelled_prism(n: u32) -> (Vec<Fixed3>, Vec<Fixed3>) {
    let points: Vec<Fixed3> = (0..2 * n as i64).map(|k| f(k, 0, 0)).collect();
    let mut normals = Vec::new();
    for t in 0..2 * n as i64 {
        normals.push(f(t / 2, 0, 7));
    }
    for t in 0..2 * (n as i64 - 2) {
        normals.push(if t % 2 == 0 { f(0, 1, 0) } else { f(0, -1, 0) });
    }
    (points, normals)
}

fn quantize(v: [f32; 3]) -> Fixed3 {
    let q = |x: f32| (x as f64 * 1e6).round() as i64;
    f(q(v[0]), q(v[1]), q(v[2]))
}

fn sub(a: [f32; 3], b: [f32; 3]) -> [f32; 3] {
    [a[0] - b[0], a[1] - b[1], a[2] - b[2]]
}

fn face_normal(a: [f32; 3], b: [f32; 3], c: [f32; 3]) -> [f32; 3] {
    let (u, v) = (sub(b, a), sub(c, a));
    let n = [u[1] * v[2] - u[2] * v[1], u[2] * v[0] - u[0] * v[2], u[0] * v[1] - u[1] * v[0]];
    let len = (n[0] * n[0] + n[1] * n[1] + n[2] * n[2]).sqrt();
    [n[0] / len, n[1] / len, n[2] / len]
}

fn geometric_prism(n: u32) -> IndexedMesh {
    let mut outer = Vec::new();
    for i in 0..n {
        let angle = i as f32 * 2.0 * std::f32::consts::PI / n as f32;
        outer.push([angle.cos(), 0.5, angle.sin()]);
        outer.push([angle.cos(), -0.5, angle.sin()]);
    }
    let normals: Vec<Fixed3> = prism_triangles(n)
        .iter()
        .map(|&(a, b, c)| quantize(face_normal(outer[a as usize], outer[b as usize], outer[c as usize])))
        .collect();
    let points: Vec<Fixed3> = outer.iter().map(|&p| quantize(p)).collect();
    prism_mesh(n, &points, &normals)
}

#[test]
fn triangle_prism_topology() {
    assert_eq!(
        prism_triangles(3),
        vec![
            (0, 3, 1),
            (0, 2, 3),
            (2, 5, 3),
            (2, 4, 5),
            (4, 1, 5),
            (4, 0, 1),
            (0, 4, 2),
            (1, 3, 5),
        ]
    );
}

#[test]
fn hexagonal_prism_has_twenty_triangles() {
    let tris = prism_triangles(6);
    assert_eq!(tris.len(), 20);
    assert_eq!(tris[10], (10, 1, 11));
    assert_eq!(tris[11], (10, 0, 1));
    assert_eq!(tris[18], (0, 10, 8));
    assert_eq!(tris[19], (1, 9, 11));
}

#[test]
fn prism_counts_follow_the_side_count() {
    for n in 3..12u32 {
        let (points, normals) = labelled_prism(n);
        let m = prism_mesh(n, &points, &normals);
        assert_eq!(m.indices.len() as u32, 12 * n - 12);
        assert_eq!(m.positions.len(), m.normals.len());
        assert!(m.indices.iter().all(|&i| (i as usize) < m.positions.len()));
        assert_eq!(m.positions.len() as u32, 6 * n);
    }
}

#[test]
fn hexagonal_prism_welds_to_thirty_six_vertices() {
    let (points, normals) = labelled_prism(6);
    let m = prism_mesh(6, &points, &normals);
    assert_eq!(m.indices.len(), 60);
    assert_eq!(m.positions.len(), 36);
    let up: Vec<u32> = (36..60).filter(|k| (k / 3) % 2 == 0).map(|k| m.indices[k]).collect();
    let mut distinct = up.clone();
    distinct.sort();
    distinct.dedup();
    assert_eq!(distinct.len(), 6);
}

#[test]
fn geometric_hexagonal_prism_is_welded() {
    let m = geometric_prism(6);
    assert_eq!(m.indices.len(), 60);
    assert_eq!(m.positions.len(), m.normals.len());
    assert!(m.positions.len() < 60);
    assert!(m.positions.len() >= 36);
    let top_cap: Vec<u32> = (36..60).filter(|k| (k / 3) % 2 == 0).map(|k| m.indices[k]).collect();
    let mut distinct = top_cap.clone();
    distinct.sort();
    distinct.dedup();
    assert_eq!(distinct.len(), 6);
    for &i in &top_cap {
        assert_eq!(m.normals[i as usize], f(0, 1_000_000, 0));
    }
}

#[test]
fn generating_twice_gives_the_same_mesh() {
    let a = geometric_prism(6);
    let b = geometric_prism(6);
    assert_eq!(a.positions, b.positions);
    assert_eq!(a.normals, b.normals);
    assert_eq!(a.indices, b.indices);
}

#[test]
fn equal_corners_weld_and_different_normals_stay_apart() {
    let p = f(1, 2, 3);
    let q = f(4, 5, 6);
    let up = f(0, 1_000_000, 0);
    let side = f(1_000_000, 0, 0);
    let mut b = MeshBuilder::new();
    b.add_triangle([p, q, p], up);
    b.add_triangle([p, q, q], side);
    let m = b.build();
    assert_eq!(m.positions, vec![p, q, p, q]);
    assert_eq!(m.normals, vec![up, up, side, side]);
    assert_eq!(m.indices, vec![0, 1, 0, 2, 3, 3]);
}

#[test]
fn builder_keeps_three_corners_per_triangle() {
    let mut b = MeshBuilder::new();
    b.add_triangle([f(0, 0, 0), f(1, 0, 0), f(0, 0, 1)], f(0, -1, 0));
    assert_eq!(b.corners.len(), 3);
    assert_eq!(b.corners[1].position, f(1, 0, 0));
    assert_eq!(b.corners[2].normal, f(0, -1, 0));
}

#[test]
fn empty_builder_gives_empty_mesh() {
    let m = MeshBuilder::new().build();
    assert!(m.positions.is_empty() && m.normals.is_empty() && m.indices.is_empty());
}
