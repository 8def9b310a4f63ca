use vstd::prelude::*;

verus! {

/// Edge length of one square terrain chunk, in world units.
pub const FLOOR_SIZE: i32 = 8;

/// Floor division by a positive divisor: the largest `q` with `q * d <= a`.
/// (Verus's `/` on `int` rounds towards negative infinity for `d > 0`.)
pub open spec fn floor_div(a: int, d: int) -> int
    recommends
        d > 0,
{
    a / d
}

/// Integer coordinate of a chunk on the infinite grid.
#[derive(Clone, Copy, Debug, PartialEq, Eq, Hash, Structural)]
pub struct ChunkCoord {
    pub x: i32,
    pub z: i32,
}

/// The chunk that a world-space axis value (already floored to a whole
/// unit) falls in.
pub open spec fn chunk_of(w: int) -> int {
    floor_div(w, FLOOR_SIZE as int)
}

/// Chunk index along one axis for a floored world coordinate.
pub fn chunk_axis(w: i32) -> (r: i32)
    ensures
        r as int == chunk_of(w as int),
        r as int * FLOOR_SIZE <= w < (r as int + 1) * FLOOR_SIZE,
{
    match w.checked_div_euclid(FLOOR_SIZE) {
        Some(q) => q,
        None => {
            assert(false);
            0
        },
    }
}

impl ChunkCoord {
    pub fn new(x: i32, z: i32) -> (r: ChunkCoord)
        ensures
            r.x == x,
            r.z == z,
    {
        ChunkCoord { x, z }
    }

    /// The chunk containing the world position `(wx, wz)`, each axis already
    /// floored to a whole unit. Negative positions map to negative chunks.
    pub fn from_world(wx: i32, wz: i32) -> (r: ChunkCoord)
        ensures
            r.x as int == chunk_of(wx as int),
            r.z as int == chunk_of(wz as int),
    {
        ChunkCoord { x: chunk_axis(wx), z: chunk_axis(wz) }
    }

    /// World-space origin of this chunk's transform, per axis.
    pub fn world_origin(self) -> (r: (i64, i64))
        ensures
            r.0 == self.x as int * FLOOR_SIZE,
            r.1 == self.z as int * FLOOR_SIZE,
    {
        (self.x as i64 * FLOOR_SIZE as i64, self.z as i64 * FLOOR_SIZE as i64)
    }
}

} // verus!
