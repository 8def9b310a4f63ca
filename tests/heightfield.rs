use terrain_chunks::coord::ChunkCoord;
use terrain_chunks::heightfield::{generate_heightfield_mesh, triangle_indices, SamplePoint};

fn height_of(p: SamplePoint) -> i64 {
    p.world_x * 1000 + p.world_z
}

#[test]
fn matrix_and_mesh_have_the_grid_shape() {
    for r in [1usize, 2, 5, 16] {
        let hf = generate_heightfield_mesh(ChunkCoord::new(3, -2), r, height_of);
        assert_eq!(hf.resolution, r);
        assert_eq!(hf.heights.len(), r + 1);
        for row in hf.heights.iter() {
            assert_eq!(row.len(), r + 1);
        }
        assert_eq!(hf.vertices.len(), (r + 1) * (r + 1));
        assert_eq!(hf.indices.len(), 6 * r * r);
        assert_eq!(hf.indices.len() / 3, 2 * r * r);
    }
}

#[test]
fn vertex_height_equals_matrix_entry() {
    let r = 7usize;
    let hf = generate_heightfield_mesh(ChunkCoord::new(-4, 9), r, height_of);
    for x in 0..=r {
        for z in 0..=r {
            let v = &hf.vertices[x * (r + 1) + z];
            assert_eq!(v.height, hf.heights[x][z]);
            assert_eq!((v.sample.grid_x, v.sample.grid_z), (x, z));
            assert_eq!(v.height, height_of(v.sample));
        }
    }
}

#[test]
fn sample_points_span_the_chunk() {
    // resolution 2: numerators over 4
    let hf = generate_heightfield_mesh(ChunkCoord::new(1, -1), 2, height_of);
    let first = hf.vertices[0].sample;
    assert_eq!((first.local_x, first.local_z), (-16, -16));
    assert_eq!((first.world_x, first.world_z), (16, -48));
    let last = hf.vertices[8].sample;
    assert_eq!((last.local_x, last.local_z), (16, 16));
    assert_eq!((last.world_x, last.world_z), (48, -16));
    let mid = hf.vertices[1].sample;
    assert_eq!((mid.grid_x, mid.grid_z, mid.local_z), (0, 1, 0));
    assert_eq!(hf.heights[2][0], 48 * 1000 - 48);
}

#[test]
fn one_cell_triangles() {
    assert_eq!(triangle_indices(1), vec![2, 0, 1, 2, 1, 3]);
}

#[test]
fn triangle_list_addresses_x_outer_z_inner() {
    let r = 3usize;
    let idx = triangle_indices(r);
    let w = (r + 1) as u32;
    for x in 0..r as u32 {
        for z in 0..r as u32 {
            let k = 6 * (x as usize * r + z as usize);
            assert_eq!(
                &idx[k..k + 6],
                &[(x + 1) * w + z, x * w + z, x * w + z + 1, (x + 1) * w + z, x * w + z + 1, (x + 1) * w + z + 1]
            );
        }
    }
    assert_eq!(*idx.iter().max().unwrap(), w * w - 1);
}

#[test]
fn each_point_is_sampled_once() {
    let count = std::cell::Cell::new(0usize);
    let hf = generate_heightfield_mesh(ChunkCoord::new(0, 0), 4, |p: SamplePoint| {
        count.set(count.get() + 1);
        p.grid_x as i64 * 10 + p.grid_z as i64
    });
    assert_eq!(count.get(), 25);
    assert_eq!(hf.heights[3][1], 31);
    assert_eq!(hf.vertices[3 * 5 + 1].height, 31);
}
