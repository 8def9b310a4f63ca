use vstd::prelude::*;

use crate::coord::{ChunkCoord, FLOOR_SIZE};

verus! {

/// Largest grid resolution: the `(R+1)^2` vertices must be addressable by
/// `u32` triangle indices.
pub const MAX_RESOLUTION: usize = 65535;

/// Flattened position of grid point `(x, z)` in a row of `w` points per
/// `x`: `x` outer, `z` inner.
pub open spec fn flat(x: int, z: int, w: int) -> int {
    x * w + z
}

/// Local coordinate of grid line `g` out of `r`, as a numerator over
/// `2 * r`: it spans `[-FLOOR_SIZE / 2, FLOOR_SIZE / 2]` across the chunk.
pub open spec fn local_num(g: int, r: int) -> int {
    FLOOR_SIZE * (2 * g - r)
}

/// World coordinate of grid line `g` of the chunk at `chunk` along one
/// axis, as a numerator over `2 * r`: the chunk's origin plus the local
/// coordinate.
pub open spec fn world_num(chunk: int, g: int, r: int) -> int {
    chunk * FLOOR_SIZE * (2 * r) + local_num(g, r)
}

/// Where grid point `(grid_x, grid_z)` of a chunk lies. `local_*` and
/// `world_*` are numerators over `2 * resolution`; `(grid_x / resolution,
/// grid_z / resolution)` is its texture coordinate.
#[derive(Clone, Copy, Debug, PartialEq, Eq, Structural)]
pub struct SamplePoint {
    pub grid_x: usize,
    pub grid_z: usize,
    pub local_x: i64,
    pub local_z: i64,
    pub world_x: i64,
    pub world_z: i64,
}

pub open spec fn sample_point(offset: ChunkCoord, x: int, z: int, r: int) -> SamplePoint {
    SamplePoint {
        grid_x: x as usize,
        grid_z: z as usize,
        local_x: local_num(x, r) as i64,
        local_z: local_num(z, r) as i64,
        world_x: world_num(offset.x as int, x, r) as i64,
        world_z: world_num(offset.z as int, z, r) as i64,
    }
}

/// One vertex of a chunk's render mesh: its grid point, and its height.
#[derive(Debug)]
pub struct MeshVertex<H> {
    pub sample: SamplePoint,
    pub height: H,
}

/// A chunk's surface: the render mesh (vertices in `x`-outer, `z`-inner
/// order, and a triangle list over them) and the height matrix that the
/// collider is built from, with `heights[x][z]` the height of vertex
/// `x * (resolution + 1) + z`.
pub struct Heightfield<H> {
    pub resolution: usize,
    pub vertices: Vec<MeshVertex<H>>,
    pub indices: Vec<u32>,
    pub heights: Vec<Vec<H>>,
}

/// Corner `k` (of six) of the two triangles of cell `(x, z)`.
pub open spec fn tri_corner(x: int, z: int, k: int, r: int) -> int {
    let w = r + 1;
    if k == 0 {
        flat(x + 1, z, w)
    } else if k == 1 {
        flat(x, z, w)
    } else if k == 2 {
        flat(x, z + 1, w)
    } else if k == 3 {
        flat(x + 1, z, w)
    } else if k == 4 {
        flat(x, z + 1, w)
    } else {
        flat(x + 1, z + 1, w)
    }
}

proof fn lemma_flat_before(x1: int, z1: int, x2: int, z2: int, w: int)
    requires
        0 <= x1,
        0 <= z1 < w,
        0 <= z2 < w,
        x1 < x2 || (x1 == x2 && z1 < z2),
    ensures
        flat(x1, z1, w) < flat(x2, z2, w),
{
    if x1 < x2 {
        assert((x1 + 1) * w <= x2 * w) by (nonlinear_arith)
            requires
                x1 + 1 <= x2,
                w > 0,
        ;
        assert((x1 + 1) * w == x1 * w + w) by (nonlinear_arith);
    }
}

proof fn lemma_flat_next_row(x: int, w: int)
    ensures
        flat(x, w, w) == flat(x + 1, 0, w),
{
    assert((x + 1) * w == x * w + w) by (nonlinear_arith);
}

proof fn lemma_flat_max(x: int, z: int, r: int)
    requires
        0 <= x <= r,
        0 <= z <= r,
        r <= MAX_RESOLUTION,
    ensures
        0 <= flat(x, z, r + 1) <= (r + 1) * (r + 1) - 1,
        (r + 1) * (r + 1) - 1 <= u32::MAX,
{
    assert(0 <= x * (r + 1) <= r * (r + 1)) by (nonlinear_arith)
        requires
            0 <= x <= r,
    ;
    assert((r + 1) * (r + 1) == r * (r + 1) + r + 1) by (nonlinear_arith);
    assert((r + 1) * (r + 1) <= 65536 * 65536) by (nonlinear_arith)
        requires
            0 <= r <= 65535,
    ;
}

fn sample_point_at(offset: ChunkCoord, x: usize, z: usize, resolution: usize) -> (p: SamplePoint)
    requires
        x <= resolution,
        z <= resolution,
        1 <= resolution <= MAX_RESOLUTION,
    ensures
        p == sample_point(offset, x as int, z as int, resolution as int),
{
    let r = resolution as i64;
    let span = FLOOR_SIZE as i64 * (2 * r);
    let lx = FLOOR_SIZE as i64 * (2 * x as i64 - r);
    let lz = FLOOR_SIZE as i64 * (2 * z as i64 - r);
    proof {
        assert(offset.x as int * span <= 0x8000_0000 * (16 * 65535)) by (nonlinear_arith)
            requires
                -0x8000_0000 <= offset.x < 0x8000_0000,
                0 <= span <= 16 * 65535,
        ;
        assert(offset.x as int * span >= -0x8000_0000 * (16 * 65535)) by (nonlinear_arith)
            requires
                -0x8000_0000 <= offset.x < 0x8000_0000,
                0 <= span <= 16 * 65535,
        ;
        assert(offset.z as int * span <= 0x8000_0000 * (16 * 65535)) by (nonlinear_arith)
            requires
                -0x8000_0000 <= offset.z < 0x8000_0000,
                0 <= span <= 16 * 65535,
        ;
        assert(offset.z as int * span >= -0x8000_0000 * (16 * 65535)) by (nonlinear_arith)
            requires
                -0x8000_0000 <= offset.z < 0x8000_0000,
                0 <= span <= 16 * 65535,
        ;
        assert(offset.x as int * FLOOR_SIZE * (2 * r) == offset.x as int * span) by (nonlinear_arith)
            requires
                span == FLOOR_SIZE * (2 * r),
        ;
        assert(offset.z as int * FLOOR_SIZE * (2 * r) == offset.z as int * span) by (nonlinear_arith)
            requires
                span == FLOOR_SIZE * (2 * r),
        ;
    }
    SamplePoint {
        grid_x: x,
        grid_z: z,
        local_x: lx,
        local_z: lz,
        world_x: offset.x as i64 * span + lx,
        world_z: offset.z as i64 * span + lz,
    }
}


/// The triangle list over a `(resolution + 1)^2` grid: for each cell
/// `(x, z)`, in `x`-outer, `z`-inner order, its two triangles as six
/// vertex indices.
pub fn triangle_indices(resolution: usize) -> (r: Vec<u32>)
    requires
        1 <= resolution <= MAX_RESOLUTION,
    ensures
        r@.len() == 6 * resolution * resolution,
        forall|x: int, z: int, k: int|
            0 <= x < resolution && 0 <= z < resolution && 0 <= k < 6 ==> r@[6 * flat(x, z, resolution as int) + k]
                == #[trigger] tri_corner(x, z, k, resolution as int),
{
    let ghost rr = resolution as int;
    let w = resolution + 1;
    let mut indices: Vec<u32> = Vec::new();
    let mut x: usize = 0;
    while x < resolution
        invariant
            1 <= resolution <= MAX_RESOLUTION,
            rr == resolution,
            w == resolution + 1,
            x <= resolution,
            indices@.len() == 6 * flat(x as int, 0, rr),
            forall|x2: int, z2: int, k: int|
                0 <= x2 < x && 0 <= z2 < resolution && 0 <= k < 6 ==> indices@[6 * flat(x2, z2, rr) + k]
                    == #[trigger] tri_corner(x2, z2, k, rr),
        decreases resolution - x,
    {
        let mut z: usize = 0;
        while z < resolution
            invariant
                1 <= resolution <= MAX_RESOLUTION,
                rr == resolution,
                w == resolution + 1,
                x < resolution,
                z <= resolution,
                indices@.len() == 6 * flat(x as int, z as int, rr),
                forall|x2: int, z2: int, k: int|
                    ((0 <= x2 < x && 0 <= z2 < resolution) || (x2 == x && 0 <= z2 < z)) && 0 <= k < 6
                        ==> indices@[6 * flat(x2, z2, rr) + k] == #[trigger] tri_corner(x2, z2, k, rr),
            decreases resolution - z,
        {
            proof {
                lemma_flat_max(x as int, z as int, rr);
                lemma_flat_max(x + 1, z + 1, rr);
                lemma_flat_before(x as int, z as int, x + 1, z + 1, w as int);
                lemma_flat_before(x as int, z as int, x as int, z + 1, w as int);
                lemma_flat_before(x as int, z + 1, x + 1, z as int, w as int);
                lemma_flat_before(x + 1, z as int, x + 1, z + 1, w as int);
            }
            let top_left = (x * w + z) as u32;
            let top_right = (x * w + z + 1) as u32;
            let bottom_left = ((x + 1) * w + z) as u32;
            let bottom_right = ((x + 1) * w + z + 1) as u32;
            let ghost before = indices@;
            indices.push(bottom_left);
            indices.push(top_left);
            indices.push(top_right);
            indices.push(bottom_left);
            indices.push(top_right);
            indices.push(bottom_right);
            proof {
                let base = 6 * flat(x as int, z as int, rr);
                assert(indices@.len() == base + 6);
                assert forall|x2: int, z2: int, k: int|
                    ((0 <= x2 < x && 0 <= z2 < resolution) || (x2 == x && 0 <= z2 < z + 1)) && 0 <= k < 6
                        implies indices@[6 * flat(x2, z2, rr) + k] == #[trigger] tri_corner(x2, z2, k, rr) by {
                    if x2 == x && z2 == z {
                    } else {
                        lemma_flat_before(x2, z2, x as int, z as int, rr);
                        assert(indices@[6 * flat(x2, z2, rr) + k] == before[6 * flat(x2, z2, rr) + k]);
                    }
                }
            }
            z = z + 1;
        }
        proof {
            lemma_flat_next_row(x as int, rr);
        }
        x = x + 1;
    }
    proof {
        lemma_flat_next_row((resolution - 1) as int, rr);
        assert(flat(rr, 0, rr) == rr * rr);
        assert(6 * (rr * rr) == 6 * rr * rr) by (nonlinear_arith);
    }
    indices
}

/// Vertex `flat(x, z, r + 1)` of `vs` is grid point `(x, z)` of the chunk
/// at `offset`, its height is `h`, and `h` is what `sample` gave for that
/// point.
pub open spec fn grid_entry<H, F: Fn(SamplePoint) -> H>(
    vs: Seq<MeshVertex<H>>,
    offset: ChunkCoord,
    x: int,
    z: int,
    r: int,
    h: H,
    sample: F,
) -> bool {
    &&& vs[flat(x, z, r + 1)].sample == sample_point(offset, x, z, r)
    &&& vs[flat(x, z, r + 1)].height == h
    &&& sample.ensures((sample_point(offset, x, z, r),), h)
}

/// Builds a chunk's surface in one pass over its `(resolution + 1)^2` grid
/// points, `x` outer and `z` inner: each point is sampled once with
/// `sample`, and that one value becomes both the vertex's height and the
/// entry `heights[x][z]` of the collider's matrix. The triangle list follows
/// the same addressing, `x * (resolution + 1) + z`.
pub fn generate_heightfield_mesh<H: Copy, F: Fn(SamplePoint) -> H>(
    offset: ChunkCoord,
    resolution: usize,
    sample: F,
) -> (r: Heightfield<H>)
    requires
        1 <= resolution <= MAX_RESOLUTION,
        forall|p: SamplePoint| sample.requires((p,)),
    ensures
        r.resolution == resolution,
        r.heights@.len() == resolution + 1,
        forall|x: int| 0 <= x <= resolution ==> (#[trigger] r.heights@[x])@.len() == resolution + 1,
        r.vertices@.len() == (resolution + 1) * (resolution + 1),
        forall|x: int, z: int|
            0 <= x <= resolution && 0 <= z <= resolution ==> grid_entry(
                r.vertices@,
                offset,
                x,
                z,
                resolution as int,
                #[trigger] r.heights@[x]@[z],
                sample,
            ),
        r.indices@.len() == 6 * resolution * resolution,
        forall|x: int, z: int, k: int|
            0 <= x < resolution && 0 <= z < resolution && 0 <= k < 6 ==> r.indices@[6 * flat(x, z, resolution as int) + k]
                == #[trigger] tri_corner(x, z, k, resolution as int),
{
    let ghost rr = resolution as int;
    let ghost w = rr + 1;
    let mut vertices: Vec<MeshVertex<H>> = Vec::new();
    let mut heights: Vec<Vec<H>> = Vec::new();
    let mut x: usize = 0;
    while x <= resolution
        invariant
            1 <= resolution <= MAX_RESOLUTION,
            rr == resolution,
            w == rr + 1,
            forall|p: SamplePoint| sample.requires((p,)),
            x <= resolution + 1,
            heights@.len() == x,
            vertices@.len() == flat(x as int, 0, w),
            forall|x2: int| 0 <= x2 < x ==> (#[trigger] heights@[x2])@.len() == w,
            forall|x2: int, z2: int|
                0 <= x2 < x && 0 <= z2 <= resolution ==> grid_entry(vertices@, offset, x2, z2, rr, #[trigger] heights@[x2]@[z2], sample),
        decreases resolution + 1 - x,
    {
        let mut column: Vec<H> = Vec::new();
        let mut z: usize = 0;
        while z <= resolution
            invariant
                1 <= resolution <= MAX_RESOLUTION,
                rr == resolution,
                w == rr + 1,
                forall|p: SamplePoint| sample.requires((p,)),
                x <= resolution,
                z <= resolution + 1,
                heights@.len() == x,
                column@.len() == z,
                vertices@.len() == flat(x as int, z as int, w),
                forall|x2: int| 0 <= x2 < x ==> (#[trigger] heights@[x2])@.len() == w,
                forall|x2: int, z2: int|
                    0 <= x2 < x && 0 <= z2 <= resolution ==> grid_entry(vertices@, offset, x2, z2, rr, #[trigger] heights@[x2]@[z2], sample),
                forall|z2: int|
                    0 <= z2 < z ==> grid_entry(vertices@, offset, x as int, z2, rr, #[trigger] column@[z2], sample),
            decreases resolution + 1 - z,
        {
            let p = sample_point_at(offset, x, z, resolution);
            let h = sample(p);
            let ghost before = vertices@;
            let ghost col0 = column@;
            column.push(h);
            vertices.push(MeshVertex { sample: p, height: h });
            proof {
                assert forall|x2: int, z2: int| 0 <= x2 < x && 0 <= z2 <= resolution implies grid_entry(vertices@, offset, x2, z2, rr, #[trigger] heights@[x2]@[z2], sample) by {
                    lemma_flat_before(x2, z2, x as int, 0, w);
                    assert(vertices@[flat(x2, z2, w)] == before[flat(x2, z2, w)]);
                }
                assert forall|z2: int| 0 <= z2 < z + 1 implies grid_entry(vertices@, offset, x as int, z2, rr, #[trigger] column@[z2], sample) by {
                    if z2 < z {
                        lemma_flat_before(x as int, z2, x as int, z as int, w);
                        assert(vertices@[flat(x as int, z2, w)] == before[flat(x as int, z2, w)]);
                        assert(column@[z2] == col0[z2]);
                    }
                }
            }
            z = z + 1;
        }
        let ghost col = column@;
        let ghost h0 = heights@;
        heights.push(column);
        proof {
            assert(heights@[x as int]@ == col);
            lemma_flat_next_row(x as int, w);
            assert forall|x2: int, z2: int| 0 <= x2 < x + 1 && 0 <= z2 <= resolution implies grid_entry(vertices@, offset, x2, z2, rr, #[trigger] heights@[x2]@[z2], sample) by {
                if x2 < x {
                    assert(heights@[x2] == h0[x2]);
                } else {
                    assert(col[z2] == heights@[x2]@[z2]);
                }
            }
            assert forall|x2: int| 0 <= x2 < x + 1 implies (#[trigger] heights@[x2])@.len() == w by {
                if x2 < x {
                    assert(heights@[x2] == h0[x2]);
                }
            }
        }
        x = x + 1;
    }
    proof {
        assert(flat(w, 0, w) == w * w);
    }
    let indices = triangle_indices(resolution);
    Heightfield { resolution, vertices, indices, heights }
}

} // verus!
