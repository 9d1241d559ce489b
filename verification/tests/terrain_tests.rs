use terrain_core::mesh::{calculate_mesh_normals, Mesh};
use terrain_core::noise_field::noise_at;
use terrain_core::terrain::{generate_initial_terrain, Terrain, TerrainBundle};
use terrain_core::vector::Vec3Fx;

const SCALE: i128 = 65536;

fn v3(x: i128, y: i128, z: i128) -> Vec3Fx {
    Vec3Fx { x, y, z }
}

#[test]
fn generation_is_deterministic() {
    let a = generate_initial_terrain(42, 10 * SCALE, 8);
    let b = generate_initial_terrain(42, 10 * SCALE, 8);
    assert_eq!(a.vertices, b.vertices);
    assert_eq!(a.indices, b.indices);
    assert_eq!(a.normals, b.normals);
}

#[test]
fn different_seeds_differ() {
    let a = generate_initial_terrain(1, 10 * SCALE, 8);
    let b = generate_initial_terrain(2, 10 * SCALE, 8);
    assert_eq!(a.vertices.len(), b.vertices.len());
    assert_ne!(a.vertices, b.vertices);
}

#[test]
fn vertex_count_and_index_validity() {
    for n in [1u32, 2, 3, 7] {
        let m = generate_initial_terrain(9, 25 * SCALE, n);
        let expected = ((n + 1) * (n + 1)) as usize;
        assert_eq!(m.vertices.len(), expected);
        assert_eq!(m.indices.len(), (6 * n * n) as usize);
        for &i in m.indices.iter() {
            assert!((i as usize) < m.vertices.len());
        }
    }
}

#[test]
fn one_normal_per_vertex() {
    for n in [1u32, 4, 10] {
        let m = generate_initial_terrain(3, 5 * SCALE, n);
        assert_eq!(m.normals.len(), m.vertices.len());
    }
}

#[test]
fn single_cell_index_pattern() {
    let m = generate_initial_terrain(0, SCALE, 1);
    assert_eq!(m.vertices.len(), 4);
    assert_eq!(m.indices, vec![0, 2, 3, 0, 3, 1]);
}

#[test]
fn grid_positions_span_the_extent() {
    // A ten-unit plane with two cells per side: planar coordinates -5, 0, 5.
    let m = generate_initial_terrain(11, 10 * SCALE, 2);
    let c = 5 * SCALE;
    assert_eq!((m.vertices[0].x, m.vertices[0].z), (-c, -c));
    assert_eq!((m.vertices[4].x, m.vertices[4].z), (0, 0));
    assert_eq!((m.vertices[8].x, m.vertices[8].z), (c, c));
}

#[test]
fn heights_are_bounded_and_nontrivial() {
    let m = generate_initial_terrain(1234, 40 * SCALE, 12);
    let mut some_nonzero = false;
    for v in m.vertices.iter() {
        assert!(-SCALE <= v.y && v.y <= SCALE);
        if v.y != 0 {
            some_nonzero = true;
        }
    }
    assert!(some_nonzero);
}

#[test]
fn noise_is_deterministic_and_bounded() {
    let a = noise_at(7, 123456, -654321);
    let b = noise_at(7, 123456, -654321);
    assert_eq!(a, b);
    assert!(-SCALE <= a && a <= SCALE);
    assert_ne!(noise_at(7, 123456, -654321), noise_at(8, 123456, -654321));
}

#[test]
fn flat_right_triangle_normal_points_up() {
    let mut m = Mesh {
        vertices: vec![v3(0, 0, 0), v3(0, 0, SCALE), v3(SCALE, 0, SCALE)],
        indices: vec![0, 1, 2],
        normals: vec![v3(9, 9, 9), v3(9, 9, 9), v3(9, 9, 9)],
    };
    calculate_mesh_normals(&mut m);
    for n in m.normals.iter() {
        assert_eq!((n.x, n.y, n.z), (0, SCALE, 0));
    }
}

#[test]
fn degenerate_triangle_contributes_zero() {
    let mut m = Mesh {
        vertices: vec![v3(5, 5, 5), v3(5, 5, 5), v3(5, 5, 5)],
        indices: vec![0, 1, 2],
        normals: vec![v3(1, 1, 1), v3(1, 1, 1), v3(1, 1, 1)],
    };
    calculate_mesh_normals(&mut m);
    for n in m.normals.iter() {
        assert_eq!((n.x, n.y, n.z), (0, 0, 0));
    }
}

#[test]
fn default_terrain_parameters() {
    let t = Terrain::default();
    assert_eq!(t.size, 10 * SCALE);
    assert_eq!(t.subdivisions, 100);
}

#[test]
fn fresh_bundle_is_dirty_and_meshless() {
    let b = TerrainBundle::default();
    assert!(b.dirty);
    assert!(b.mesh.is_none());
}

#[test]
fn maintenance_converges_to_clean() {
    let mut b = TerrainBundle::default();
    assert!(b.commit_parameters(5, 3 * SCALE, 4));
    assert!(b.commit_parameters(5, 7 * SCALE, 6));
    let regenerated = b.maintain();
    assert!(regenerated);
    assert!(!b.dirty);
    let direct = generate_initial_terrain(5, 7 * SCALE, 6);
    let bound = b.mesh.as_ref().expect("mesh bound after maintenance");
    assert_eq!(bound.vertices, direct.vertices);
    assert_eq!(bound.indices, direct.indices);
    assert_eq!(bound.normals, direct.normals);
}

#[test]
fn batched_writes_regenerate_once() {
    let mut b = TerrainBundle::default();
    b.maintain();
    // size and subdivisions committed together within one tick
    assert!(b.commit_parameters(b.terrain.seed, 20 * SCALE, 50));
    assert!(b.commit_parameters(b.terrain.seed, 20 * SCALE, 60));
    assert!(b.maintain());
    assert!(!b.maintain());
    let direct = generate_initial_terrain(b.terrain.seed, 20 * SCALE, 60);
    assert_eq!(b.mesh.as_ref().unwrap().vertices, direct.vertices);
}

#[test]
fn unchanged_write_does_not_redirty() {
    let mut b = TerrainBundle::default();
    b.maintain();
    let t = b.terrain;
    assert!(b.commit_parameters(t.seed, t.size, t.subdivisions));
    assert!(!b.dirty);
    assert!(!b.maintain());
}

#[test]
fn boundary_rejects_bad_parameters() {
    let mut b = TerrainBundle::default();
    b.maintain();
    let before = b.terrain;
    assert!(!b.commit_parameters(1, 0, 10));
    assert!(!b.commit_parameters(1, -SCALE, 10));
    assert!(!b.commit_parameters(1, SCALE, 0));
    assert!(!b.commit_parameters(1, 101 * SCALE, 10));
    assert!(!b.commit_parameters(1, SCALE, 301));
    assert_eq!(b.terrain, before);
    assert!(!b.dirty);
    assert!(!b.maintain());
}
