use vstd::prelude::*;

use crate::coord::ChunkCoord;
use crate::index::{ChunkHandle, ChunkIndex};

verus! {

/// How many chunks are kept around the observer, in chunk units.
/// `spawn_radius` 2 means a 5x5 square of chunks. Chunks farther than
/// `despawn_radius` on either axis are torn down; a negative
/// `despawn_radius` turns despawning off.
#[derive(Clone, Copy, Debug, PartialEq, Eq, Structural)]
pub struct ChunkRenderSettings {
    pub spawn_radius: i32,
    pub despawn_radius: i32,
}

impl Default for ChunkRenderSettings {
    /// 7x7 chunks are spawned; up to 11x11 are kept, so that an observer
    /// moving back and forth does not make chunks pop in and out.
    fn default() -> (r: ChunkRenderSettings)
        ensures
            r.spawn_radius == 3,
            r.despawn_radius == 5,
    {
        ChunkRenderSettings { spawn_radius: 3, despawn_radius: 5 }
    }
}

/// `c` lies in the square of chunks at most `r` away from `center` on each axis.
pub open spec fn within(c: ChunkCoord, center: ChunkCoord, r: int) -> bool {
    &&& -r <= c.x - center.x <= r
    &&& -r <= c.z - center.z <= r
}

/// `c` is wanted around `center` and has no chunk yet.
pub open spec fn spawn_due(m: Map<ChunkCoord, ChunkHandle>, center: ChunkCoord, r: int, c: ChunkCoord) -> bool {
    within(c, center, r) && !m.contains_key(c)
}

/// `c` has a chunk that lies beyond the despawn radius (never, when the
/// radius is negative).
pub open spec fn despawn_due(m: Map<ChunkCoord, ChunkHandle>, center: ChunkCoord, r: int, c: ChunkCoord) -> bool {
    r >= 0 && m.contains_key(c) && !within(c, center, r)
}

pub open spec fn spawn_set(m: Map<ChunkCoord, ChunkHandle>, center: ChunkCoord, r: int) -> Set<ChunkCoord> {
    Set::new(|c: ChunkCoord| spawn_due(m, center, r, c))
}

pub open spec fn despawn_set(m: Map<ChunkCoord, ChunkHandle>, center: ChunkCoord, r: int) -> Set<ChunkCoord> {
    Set::new(|c: ChunkCoord| despawn_due(m, center, r, c))
}

/// Row-major order: by `z`, then by `x`.
pub open spec fn precedes(a: ChunkCoord, b: ChunkCoord) -> bool {
    a.z < b.z || (a.z == b.z && a.x < b.x)
}

pub open spec fn row_major(s: Seq<ChunkCoord>) -> bool {
    forall|i: int, j: int| 0 <= i < j < s.len() ==> precedes(#[trigger] s[i], #[trigger] s[j])
}

/// `s` holds the entries of `m` whose key is in `keys`, once each.
pub open spec fn selects(s: Seq<(ChunkCoord, ChunkHandle)>, m: Map<ChunkCoord, ChunkHandle>, keys: Set<ChunkCoord>) -> bool {
    &&& forall|i: int| 0 <= i < s.len() ==> #[trigger] keys.contains(s[i].0) && m.contains_key(s[i].0) && m[s[i].0] == s[i].1
    &&& forall|c: ChunkCoord| #[trigger] keys.contains(c) && m.contains_key(c) ==> exists|i: int| 0 <= i < s.len() && s[i].0 == c
    &&& forall|i: int, j: int| 0 <= i < s.len() && 0 <= j < s.len() && i != j ==> s[i].0 != s[j].0
}

/// The coordinates that a list of entries names.
pub open spec fn keys_of(s: Seq<(ChunkCoord, ChunkHandle)>) -> Set<ChunkCoord> {
    Set::new(|c: ChunkCoord| exists|i: int| 0 <= i < s.len() && s[i].0 == c)
}

/// `s` is the spawn pass of one tick: every missing chunk within `r`, once
/// each, in row-major order.
pub open spec fn is_spawn_plan(s: Seq<ChunkCoord>, m: Map<ChunkCoord, ChunkHandle>, center: ChunkCoord, r: int) -> bool {
    s.to_set() == spawn_set(m, center, r) && row_major(s)
}

/// `d` is the despawn pass of one tick: every chunk beyond `r` with its
/// handle, once each.
pub open spec fn is_despawn_plan(
    d: Seq<(ChunkCoord, ChunkHandle)>,
    m: Map<ChunkCoord, ChunkHandle>,
    center: ChunkCoord,
    r: int,
) -> bool {
    selects(d, m, despawn_set(m, center, r))
}

/// `m1` is `m0` with `spawn[i]` registered as `handles[i]`, then the keys
/// of `despawn` removed.
pub open spec fn applied(
    m0: Map<ChunkCoord, ChunkHandle>,
    spawn: Seq<ChunkCoord>,
    handles: Seq<ChunkHandle>,
    despawn: Seq<(ChunkCoord, ChunkHandle)>,
    m1: Map<ChunkCoord, ChunkHandle>,
) -> bool {
    &&& forall|c: ChunkCoord| #[trigger] m1.contains_key(c) <==> (m0.contains_key(c) || spawn.contains(c)) && !keys_of(despawn).contains(c)
    &&& forall|c: ChunkCoord| #[trigger] m1.contains_key(c) && m0.contains_key(c) ==> m1[c] == m0[c]
    &&& forall|i: int| 0 <= i < spawn.len() && !keys_of(despawn).contains(spawn[i]) ==> m1[#[trigger] spawn[i]] == handles[i]
}

/// The decisions of one streaming tick: which chunks to generate, and
/// which live chunks (with their handles) to destroy.
pub struct TickPlan {
    pub spawn: Vec<ChunkCoord>,
    pub despawn: Vec<(ChunkCoord, ChunkHandle)>,
}

fn lower_bound(c: i32, r: i32) -> (lo: i64)
    requires
        r >= 0,
    ensures
        lo == (if c - r < i32::MIN { i32::MIN as int } else { c - r }),
{
    let v = c as i64 - r as i64;
    if v < i32::MIN as i64 { i32::MIN as i64 } else { v }
}

fn upper_bound(c: i32, r: i32) -> (hi: i64)
    requires
        r >= 0,
    ensures
        hi == (if c + r > i32::MAX { i32::MAX as int } else { c + r }),
{
    let v = c as i64 + r as i64;
    if v > i32::MAX as i64 { i32::MAX as i64 } else { v }
}

/// The spawn pass: walks the square around `center` row by row and keeps
/// the coordinates that the index does not hold yet.
fn spawn_candidates(index: &ChunkIndex, center: ChunkCoord, r: i32) -> (s: Vec<ChunkCoord>)
    requires
        index.wf(),
    ensures
        is_spawn_plan(s@, index@, center, r as int),
{
    let mut s: Vec<ChunkCoord> = Vec::new();
    if r < 0 {
        assert(s@.to_set() =~= spawn_set(index@, center, r as int));
        return s;
    }
    let lo_z = lower_bound(center.z, r);
    let hi_z = upper_bound(center.z, r);
    let lo_x = lower_bound(center.x, r);
    let hi_x = upper_bound(center.x, r);
    let mut z: i64 = lo_z;
    while z <= hi_z
        invariant
            index.wf(),
            r >= 0,
            lo_z <= z <= hi_z + 1,
            lo_z == (if center.z - r < i32::MIN { i32::MIN as int } else { center.z - r }),
            hi_z == (if center.z + r > i32::MAX { i32::MAX as int } else { center.z + r }),
            lo_x == (if center.x - r < i32::MIN { i32::MIN as int } else { center.x - r }),
            hi_x == (if center.x + r > i32::MAX { i32::MAX as int } else { center.x + r }),
            forall|i: int| 0 <= i < s@.len() ==> spawn_due(index@, center, r as int, #[trigger] s@[i]),
            forall|i: int| 0 <= i < s@.len() ==> (#[trigger] s@[i]).z < z,
            row_major(s@),
            forall|c: ChunkCoord| #[trigger] spawn_due(index@, center, r as int, c) && c.z < z ==> s@.contains(c),
        decreases hi_z + 1 - z,
    {
        let mut x: i64 = lo_x;
        while x <= hi_x
            invariant
                index.wf(),
                r >= 0,
                lo_z <= z <= hi_z,
                lo_x <= x <= hi_x + 1,
                lo_z == (if center.z - r < i32::MIN { i32::MIN as int } else { center.z - r }),
                hi_z == (if center.z + r > i32::MAX { i32::MAX as int } else { center.z + r }),
                lo_x == (if center.x - r < i32::MIN { i32::MIN as int } else { center.x - r }),
                hi_x == (if center.x + r > i32::MAX { i32::MAX as int } else { center.x + r }),
                forall|i: int| 0 <= i < s@.len() ==> spawn_due(index@, center, r as int, #[trigger] s@[i]),
                forall|i: int| 0 <= i < s@.len() ==> (#[trigger] s@[i]).z < z || (s@[i].z == z && s@[i].x < x),
                row_major(s@),
                forall|c: ChunkCoord| #[trigger] spawn_due(index@, center, r as int, c) && (c.z < z || (c.z == z && c.x < x)) ==> s@.contains(c),
            decreases hi_x + 1 - x,
        {
            let key = ChunkCoord { x: x as i32, z: z as i32 };
            if !index.contains(key) {
                let ghost before = s@;
                s.push(key);
                proof {
                    assert(s@[before.len() as int] == key);
                    assert forall|i: int| 0 <= i < s@.len() implies spawn_due(index@, center, r as int, #[trigger] s@[i]) by {
                        if i < before.len() {
                            assert(s@[i] == before[i]);
                        }
                    }
                    assert forall|i: int, j: int| 0 <= i < j < s@.len() implies precedes(#[trigger] s@[i], #[trigger] s@[j]) by {
                        assert(s@[i] == before[i]);
                        if j < before.len() {
                            assert(s@[j] == before[j]);
                        }
                    }
                    assert forall|c: ChunkCoord| #[trigger] spawn_due(index@, center, r as int, c) && (c.z < z || (c.z == z && c.x < x + 1)) implies s@.contains(c) by {
                        if c == key {
                            assert(s@[before.len() as int] == c);
                        } else {
                            assert(before.contains(c));
                            let k = choose|k: int| 0 <= k < before.len() && before[k] == c;
                            assert(s@[k] == c);
                        }
                    }
                }
            }
            x = x + 1;
        }
        z = z + 1;
    }
    assert(s@.to_set() =~= spawn_set(index@, center, r as int)) by {
        assert forall|c: ChunkCoord| s@.to_set().contains(c) implies spawn_due(index@, center, r as int, c) by {
            let k = choose|k: int| 0 <= k < s@.len() && s@[k] == c;
        }
    }
    s
}

/// The despawn pass: the live chunks farther than `r` from `center` on
/// either axis.
fn despawn_candidates(index: &ChunkIndex, center: ChunkCoord, r: i32) -> (d: Vec<(ChunkCoord, ChunkHandle)>)
    requires
        index.wf(),
        r >= 0,
    ensures
        is_despawn_plan(d@, index@, center, r as int),
{
    let all = index.entries();
    let mut d: Vec<(ChunkCoord, ChunkHandle)> = Vec::new();
    let ghost mut src: Seq<int> = Seq::empty();
    let mut i: usize = 0;
    while i < all.len()
        invariant
            crate::index::lists_entries(all@, index@),
            r >= 0,
            i <= all@.len(),
            src.len() == d@.len(),
            forall|j: int| 0 <= j < src.len() ==> 0 <= #[trigger] src[j] < i && d@[j] == all@[src[j]],
            forall|j: int, k: int| 0 <= j < k < src.len() ==> #[trigger] src[j] < #[trigger] src[k],
            forall|j: int| 0 <= j < d@.len() ==> despawn_due(index@, center, r as int, (#[trigger] d@[j]).0),
            forall|k: int| 0 <= k < i && despawn_due(index@, center, r as int, (#[trigger] all@[k]).0) ==> exists|j: int| 0 <= j < d@.len() && d@[j].0 == all@[k].0,
        decreases all@.len() - i,
    {
        let (key, h) = all[i];
        let dx = key.x as i64 - center.x as i64;
        let dz = key.z as i64 - center.z as i64;
        let r64 = r as i64;
        if dx > r64 || dx < -r64 || dz > r64 || dz < -r64 {
            let ghost before = d@;
            let ghost src0 = src;
            d.push((key, h));
            proof {
                src = src.push(i as int);
                assert(index@.contains_key(all@[i as int].0));
                assert forall|j: int| 0 <= j < src.len() implies 0 <= #[trigger] src[j] < i + 1 && d@[j] == all@[src[j]] by {
                    if j < src0.len() {
                        assert(src[j] == src0[j]);
                        assert(d@[j] == before[j]);
                    }
                }
                assert forall|j: int| 0 <= j < d@.len() implies despawn_due(index@, center, r as int, (#[trigger] d@[j]).0) by {
                    if j < before.len() {
                        assert(d@[j] == before[j]);
                    }
                }
                assert forall|k: int| 0 <= k < i + 1 && despawn_due(index@, center, r as int, (#[trigger] all@[k]).0) implies exists|j: int| 0 <= j < d@.len() && d@[j].0 == all@[k].0 by {
                    if k == i {
                        assert(d@[before.len() as int].0 == all@[k].0);
                    } else {
                        let j = choose|j: int| 0 <= j < before.len() && before[j].0 == all@[k].0;
                        assert(d@[j] == before[j]);
                    }
                }
            }
        } else {
            proof {
                assert(index@.contains_key(all@[i as int].0));
            }
        }
        i = i + 1;
    }
    proof {
        let m = index@;
        let ks = despawn_set(m, center, r as int);
        assert forall|j: int| 0 <= j < d@.len() implies #[trigger] ks.contains(d@[j].0) && m.contains_key(d@[j].0) && m[d@[j].0] == d@[j].1 by {
            assert(d@[j] == all@[src[j]]);
            assert(m.contains_key(all@[src[j]].0));
        }
        assert forall|c: ChunkCoord| #[trigger] ks.contains(c) && m.contains_key(c) implies exists|j: int| 0 <= j < d@.len() && d@[j].0 == c by {
            let k = choose|k: int| 0 <= k < all@.len() && all@[k].0 == c;
            assert(despawn_due(m, center, r as int, all@[k].0));
        }
        assert forall|j: int, k: int| 0 <= j < d@.len() && 0 <= k < d@.len() && j != k implies d@[j].0 != d@[k].0 by {
            assert(d@[j] == all@[src[j]] && d@[k] == all@[src[k]]);
            if j < k {
                assert(src[j] < src[k]);
            } else {
                assert(src[k] < src[j]);
            }
        }
    }
    d
}

/// One streaming tick's decisions for an observer standing in chunk
/// `observer`: the spawn pass (every missing chunk within the spawn radius,
/// row by row) and, unless despawning is off, the despawn pass (every live
/// chunk beyond the despawn radius). Both are taken from the same snapshot
/// of the index. Coordinates are `i32` pairs: near the ends of that range
/// the square is cut off, since the chunks beyond do not exist.
pub fn update_chunk_index(index: &ChunkIndex, settings: &ChunkRenderSettings, observer: ChunkCoord) -> (plan: TickPlan)
    requires
        index.wf(),
    ensures
        is_spawn_plan(plan.spawn@, index@, observer, settings.spawn_radius as int),
        is_despawn_plan(plan.despawn@, index@, observer, settings.despawn_radius as int),
{
    let spawn = spawn_candidates(index, observer, settings.spawn_radius);
    if settings.despawn_radius >= 0 {
        let despawn = despawn_candidates(index, observer, settings.despawn_radius);
        TickPlan { spawn, despawn }
    } else {
        let despawn: Vec<(ChunkCoord, ChunkHandle)> = Vec::new();
        TickPlan { spawn, despawn }
    }
}


/// Unregisters every chunk in `keys` (their terrain objects are destroyed
/// by the caller). Keys without a chunk are passed over.
pub fn remove_chunks_from_index(index: &mut ChunkIndex, keys: &Vec<ChunkCoord>)
    requires
        old(index).wf(),
    ensures
        final(index).wf(),
        final(index)@ == old(index)@.remove_keys(keys@.to_set()),
{
    let ghost m0 = index@;
    let mut i: usize = 0;
    while i < keys.len()
        invariant
            index.wf(),
            i <= keys@.len(),
            index@ == m0.remove_keys(keys@.subrange(0, i as int).to_set()),
        decreases keys@.len() - i,
    {
        let _ = index.remove(keys[i]);
        proof {
            let s0 = keys@.subrange(0, i as int);
            let s1 = keys@.subrange(0, i + 1);
            assert forall|x: ChunkCoord| s1.to_set().contains(x) <==> s0.to_set().insert(keys@[i as int]).contains(x) by {
                if s0.contains(x) {
                    let k = choose|k: int| 0 <= k < s0.len() && s0[k] == x;
                    assert(s1[k] == x);
                }
                if s1.contains(x) && x != keys@[i as int] {
                    let k = choose|k: int| 0 <= k < s1.len() && s1[k] == x;
                    assert(s0[k] == x);
                }
                if x == keys@[i as int] {
                    assert(s1[i as int] == x);
                }
            }
            assert(s1.to_set() =~= s0.to_set().insert(keys@[i as int]));
            assert(index@ =~= m0.remove_keys(keys@.subrange(0, i + 1).to_set()));
        }
        i = i + 1;
    }
    assert(keys@.subrange(0, i as int) =~= keys@);
}

/// Records the outcome of a tick: `handles[i]` is the terrain object that
/// was spawned for `plan.spawn[i]`; the chunks of `plan.despawn` (already
/// destroyed by the caller) leave the index.
pub fn apply_tick(index: &mut ChunkIndex, plan: &TickPlan, handles: &Vec<ChunkHandle>)
    requires
        old(index).wf(),
        handles@.len() == plan.spawn@.len(),
        plan.spawn@.no_duplicates(),
        forall|i: int| 0 <= i < plan.spawn@.len() ==> !old(index)@.contains_key(#[trigger] plan.spawn@[i]),
    ensures
        final(index).wf(),
        applied(old(index)@, plan.spawn@, handles@, plan.despawn@, final(index)@),
{
    let ghost m0 = index@;
    let spawn = &plan.spawn;
    let mut i: usize = 0;
    while i < spawn.len()
        invariant
            index.wf(),
            i <= spawn@.len(),
            spawn == &plan.spawn,
            handles@.len() == spawn@.len(),
            spawn@.no_duplicates(),
            forall|k: int| 0 <= k < spawn@.len() ==> !m0.contains_key(#[trigger] spawn@[k]),
            forall|c: ChunkCoord| #[trigger] index@.contains_key(c) <==> m0.contains_key(c) || spawn@.subrange(0, i as int).contains(c),
            forall|c: ChunkCoord| #[trigger] m0.contains_key(c) ==> index@[c] == m0[c],
            forall|k: int| 0 <= k < i ==> index@[#[trigger] spawn@[k]] == handles@[k],
        decreases spawn@.len() - i,
    {
        let c = spawn[i];
        proof {
            if index@.contains_key(c) {
                let s0 = spawn@.subrange(0, i as int);
                let k = choose|k: int| 0 <= k < s0.len() && s0[k] == c;
                assert(spawn@[k] == spawn@[i as int]);
            }
        }
        let _ = index.insert(c, handles[i]);
        proof {
            let s0 = spawn@.subrange(0, i as int);
            let s1 = spawn@.subrange(0, i + 1);
            assert forall|x: ChunkCoord| #[trigger] index@.contains_key(x) <==> m0.contains_key(x) || s1.contains(x) by {
                if s0.contains(x) {
                    let k = choose|k: int| 0 <= k < s0.len() && s0[k] == x;
                    assert(s1[k] == x);
                }
                if s1.contains(x) && x != c {
                    let k = choose|k: int| 0 <= k < s1.len() && s1[k] == x;
                    assert(s0[k] == x);
                }
                if x == c {
                    assert(s1[i as int] == x);
                }
            }
            assert forall|k: int| 0 <= k < i + 1 implies index@[#[trigger] spawn@[k]] == handles@[k] by {
                if k < i {
                    assert(spawn@[k] != spawn@[i as int]);
                }
            }
        }
        i = i + 1;
    }
    assert(spawn@.subrange(0, i as int) =~= spawn@);
    let ghost m_mid = index@;
    let despawn = &plan.despawn;
    let mut keys: Vec<ChunkCoord> = Vec::new();
    let mut j: usize = 0;
    while j < despawn.len()
        invariant
            j <= despawn@.len(),
            despawn == &plan.despawn,
            keys@.len() == j,
            forall|k: int| 0 <= k < j ==> #[trigger] keys@[k] == despawn@[k].0,
        decreases despawn@.len() - j,
    {
        keys.push(despawn[j].0);
        j = j + 1;
    }
    remove_chunks_from_index(index, &keys);
    proof {
        assert forall|c: ChunkCoord| keys@.to_set().contains(c) <==> keys_of(despawn@).contains(c) by {
            if keys@.to_set().contains(c) {
                let k = choose|k: int| 0 <= k < keys@.len() && keys@[k] == c;
                assert(despawn@[k].0 == c);
            }
            if keys_of(despawn@).contains(c) {
                let k = choose|k: int| 0 <= k < despawn@.len() && despawn@[k].0 == c;
                assert(keys@[k] == c);
            }
        }
        assert forall|k: int| 0 <= k < spawn@.len() && !keys_of(despawn@).contains(spawn@[k]) implies index@[#[trigger] spawn@[k]] == handles@[k] by {
            assert(m_mid.contains_key(spawn@[k])) by {
                assert(spawn@.subrange(0, spawn@.len() as int)[k] == spawn@[k]);
            }
            assert(!keys@.to_set().contains(spawn@[k]));
        }
        assert forall|c: ChunkCoord| #[trigger] index@.contains_key(c) <==> (m0.contains_key(c) || spawn@.contains(c)) && !keys_of(despawn@).contains(c) by {
            assert(keys@.to_set().contains(c) <==> keys_of(despawn@).contains(c));
        }
    }
}


/// The chunk the observer stands in, from the floored world `(x, z)`
/// positions of every entity marked as observer. A tick does work only for
/// exactly one observer; with none or several it does nothing.
pub fn observer_chunk(observers: &Vec<(i32, i32)>) -> (r: Option<ChunkCoord>)
    ensures
        observers@.len() != 1 ==> r is None,
        observers@.len() == 1 ==> r == Some(ChunkCoord {
            x: crate::coord::chunk_of(observers@[0].0 as int) as i32,
            z: crate::coord::chunk_of(observers@[0].1 as int) as i32,
        }),
{
    if observers.len() == 1 {
        let (wx, wz) = observers[0];
        Some(ChunkCoord::from_world(wx, wz))
    } else {
        None
    }
}

} // verus!
