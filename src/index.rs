use vstd::prelude::*;

use bevy::platform::collections::HashMap;

use crate::coord::ChunkCoord;

verus! {

/// Opaque identifier of the terrain object (render instance and physics
/// body) that was spawned for one chunk.
pub type ChunkHandle = u64;

#[verifier::external_type_specification]
#[verifier::external_body]
#[verifier::reject_recursive_types(K)]
#[verifier::reject_recursive_types(V)]
#[verifier::reject_recursive_types(S)]
pub struct ExHashMap<K, V, S>(HashMap<K, V, S>);

#[verifier::external_type_specification]
#[verifier::external_body]
pub struct ExFixedHasher(bevy::platform::hash::FixedHasher);

/// Chunk handles keyed by `(x, z)` chunk coordinate.
pub type CellMap = HashMap<(i32, i32), u64>;

/// What a chunk map holds: handle by `(x, z)` chunk coordinate.
pub uninterp spec fn cell_map(m: HashMap<(i32, i32), u64>) -> Map<(i32, i32), u64>;

/// `s` lists every entry of `m` exactly once.
pub open spec fn lists_pairs(s: Seq<((i32, i32), u64)>, m: Map<(i32, i32), u64>) -> bool {
    &&& s.len() == m.len()
    &&& forall|i: int| 0 <= i < s.len() ==> #[trigger] m.contains_key(s[i].0) && m[s[i].0] == s[i].1
    &&& forall|k: (i32, i32)| #[trigger] m.contains_key(k) ==> exists|i: int| 0 <= i < s.len() && s[i].0 == k
    &&& forall|i: int, j: int| 0 <= i < s.len() && 0 <= j < s.len() && i != j ==> s[i].0 != s[j].0
}

/// Relies on bevy_platform's `HashMap::default`: a map with no entries.
#[verifier::external_body]
fn map_new() -> (r: CellMap)
    ensures
        cell_map(r).dom().is_empty(),
{
    HashMap::default()
}

/// Relies on bevy_platform's `HashMap::get`: the value stored under `k`,
/// if any.
#[verifier::external_body]
fn map_get(m: &CellMap, k: (i32, i32)) -> (r: Option<u64>)
    ensures
        r == (if cell_map(*m).contains_key(k) { Some(cell_map(*m)[k]) } else { None::<u64> }),
{
    m.get(&k).copied()
}

/// Relies on bevy_platform's `HashMap::insert`: `k` maps to `v` afterwards,
/// every other entry is kept, and the value it replaced is handed back.
#[verifier::external_body]
fn map_insert(m: &mut CellMap, k: (i32, i32), v: u64) -> (r: Option<u64>)
    ensures
        cell_map(*final(m)) == cell_map(*old(m)).insert(k, v),
        r == (if cell_map(*old(m)).contains_key(k) { Some(cell_map(*old(m))[k]) } else { None::<u64> }),
{
    m.insert(k, v)
}

/// Relies on bevy_platform's `HashMap::remove`: `k` has no entry
/// afterwards, every other entry is kept, and the removed value is handed
/// back.
#[verifier::external_body]
fn map_remove(m: &mut CellMap, k: (i32, i32)) -> (r: Option<u64>)
    ensures
        cell_map(*final(m)) == cell_map(*old(m)).remove(k),
        r == (if cell_map(*old(m)).contains_key(k) { Some(cell_map(*old(m))[k]) } else { None::<u64> }),
{
    m.remove(&k)
}

/// Relies on bevy_platform's `HashMap::len`: the number of entries.
#[verifier::external_body]
fn map_len(m: &CellMap) -> (r: usize)
    ensures
        r == cell_map(*m).len(),
{
    m.len()
}

/// Relies on bevy_platform's `HashMap::iter`: every entry once, in an
/// order that the map chooses.
#[verifier::external_body]
fn map_entries(m: &CellMap) -> (r: Vec<((i32, i32), u64)>)
    ensures
        lists_pairs(r@, cell_map(*m)),
{
    m.iter().map(|(k, v)| (*k, *v)).collect()
}

/// The map key of a chunk coordinate.
pub open spec fn coord_key(c: ChunkCoord) -> (i32, i32) {
    (c.x, c.z)
}

/// The chunk coordinate of a map key.
pub open spec fn key_coord(k: (i32, i32)) -> ChunkCoord {
    ChunkCoord { x: k.0, z: k.1 }
}

/// Why `ChunkIndex::insert` refused a registration.
#[derive(Clone, Copy, Debug, PartialEq, Eq, Structural)]
pub enum ChunkIndexError {
    /// The coordinate already has a live chunk, whose handle is given.
    Occupied { existing: ChunkHandle },
}

/// `s` lists every entry of `m` exactly once, as `(coordinate, handle)`.
pub open spec fn lists_entries(s: Seq<(ChunkCoord, ChunkHandle)>, m: Map<ChunkCoord, ChunkHandle>) -> bool {
    &&& s.len() == m.len()
    &&& forall|i: int| 0 <= i < s.len() ==> #[trigger] m.contains_key(s[i].0) && m[s[i].0] == s[i].1
    &&& forall|c: ChunkCoord| #[trigger] m.contains_key(c) ==> exists|i: int| 0 <= i < s.len() && s[i].0 == c
    &&& forall|i: int, j: int| 0 <= i < s.len() && 0 <= j < s.len() && i != j ==> s[i].0 != s[j].0
}

/// The set of chunks that currently exist: at most one handle per
/// coordinate.
pub struct ChunkIndex {
    cells: CellMap,
}

impl View for ChunkIndex {
    type V = Map<ChunkCoord, ChunkHandle>;

    closed spec fn view(&self) -> Map<ChunkCoord, ChunkHandle> {
        Map::new(
            |c: ChunkCoord| cell_map(self.cells).contains_key(coord_key(c)),
            |c: ChunkCoord| cell_map(self.cells)[coord_key(c)],
        )
    }
}

impl ChunkIndex {
    /// Well-formedness: the underlying map is finite.
    pub closed spec fn wf(&self) -> bool {
        cell_map(self.cells).dom().finite()
    }

    proof fn lemma_len(&self)
        requires
            self.wf(),
        ensures
            self@.dom().finite(),
            self@.len() == cell_map(self.cells).len(),
    {
        let keys = cell_map(self.cells).dom();
        let f = |k: (i32, i32)| key_coord(k);
        assert(keys.map(f) =~= self@.dom()) by {
            assert forall|c: ChunkCoord| self@.dom().contains(c) implies keys.map(f).contains(c) by {
                assert(keys.contains(coord_key(c)) && f(coord_key(c)) == c);
            }
        }
        assert(vstd::relations::injective_on(f, keys));
        vstd::set_lib::lemma_map_size(keys, self@.dom(), f);
    }

    pub fn new() -> (r: ChunkIndex)
        ensures
            r.wf(),
            r@ == Map::<ChunkCoord, ChunkHandle>::empty(),
    {
        let r = ChunkIndex { cells: map_new() };
        assert(r@ =~= Map::<ChunkCoord, ChunkHandle>::empty());
        r
    }

    /// Number of live chunks.
    pub fn len(&self) -> (r: usize)
        requires
            self.wf(),
        ensures
            r == self@.len(),
    {
        proof {
            self.lemma_len();
        }
        map_len(&self.cells)
    }

    pub fn contains(&self, c: ChunkCoord) -> (r: bool)
        requires
            self.wf(),
        ensures
            r == self@.contains_key(c),
    {
        map_get(&self.cells, (c.x, c.z)).is_some()
    }

    pub fn get(&self, c: ChunkCoord) -> (r: Option<ChunkHandle>)
        requires
            self.wf(),
        ensures
            r == (if self@.contains_key(c) { Some(self@[c]) } else { None::<ChunkHandle> }),
    {
        map_get(&self.cells, (c.x, c.z))
    }

    /// Registers a newly spawned chunk. A coordinate that already has a chunk
    /// is refused and the index is left as it was.
    pub fn insert(&mut self, c: ChunkCoord, h: ChunkHandle) -> (r: Result<(), ChunkIndexError>)
        requires
            old(self).wf(),
        ensures
            final(self).wf(),
            old(self)@.contains_key(c) ==> r == Err::<(), ChunkIndexError>(
                ChunkIndexError::Occupied { existing: old(self)@[c] },
            ) && final(self)@ == old(self)@,
            !old(self)@.contains_key(c) ==> r is Ok && final(self)@ == old(self)@.insert(c, h),
    {
        match map_get(&self.cells, (c.x, c.z)) {
            Some(existing) => Err(ChunkIndexError::Occupied { existing }),
            None => {
                let ghost before = self@;
                let _ = map_insert(&mut self.cells, (c.x, c.z), h);
                assert(self@ =~= before.insert(c, h));
                Ok(())
            },
        }
    }

    /// Unregisters a chunk, handing back its handle so that the caller can
    /// destroy the terrain object.
    pub fn remove(&mut self, c: ChunkCoord) -> (r: Option<ChunkHandle>)
        requires
            old(self).wf(),
        ensures
            final(self).wf(),
            r == (if old(self)@.contains_key(c) { Some(old(self)@[c]) } else { None::<ChunkHandle> }),
            final(self)@ == old(self)@.remove(c),
    {
        let ghost before = self@;
        let r = map_remove(&mut self.cells, (c.x, c.z));
        assert(self@ =~= before.remove(c));
        r
    }

    /// Every `(coordinate, handle)` pair, once each.
    pub fn entries(&self) -> (r: Vec<(ChunkCoord, ChunkHandle)>)
        requires
            self.wf(),
        ensures
            lists_entries(r@, self@),
    {
        let pairs = map_entries(&self.cells);
        let ghost m = cell_map(self.cells);
        let mut r: Vec<(ChunkCoord, ChunkHandle)> = Vec::new();
        let mut i: usize = 0;
        while i < pairs.len()
            invariant
                lists_pairs(pairs@, m),
                m == cell_map(self.cells),
                i <= pairs@.len(),
                r@.len() == i,
                forall|j: int| 0 <= j < i ==> #[trigger] r@[j] == (key_coord(pairs@[j].0), pairs@[j].1),
            decreases pairs@.len() - i,
        {
            let (k, h) = pairs[i];
            r.push((ChunkCoord { x: k.0, z: k.1 }, h));
            i = i + 1;
        }
        proof {
            self.lemma_len();
            let v = self@;
            assert forall|j: int| 0 <= j < r@.len() implies #[trigger] v.contains_key(r@[j].0) && v[r@[j].0] == r@[j].1 by {
                assert(r@[j] == (key_coord(pairs@[j].0), pairs@[j].1));
                assert(m.contains_key(pairs@[j].0));
                assert(coord_key(key_coord(pairs@[j].0)) == pairs@[j].0);
            }
            assert forall|c: ChunkCoord| #[trigger] v.contains_key(c) implies exists|j: int| 0 <= j < r@.len() && r@[j].0 == c by {
                assert(m.contains_key(coord_key(c)));
                let j = choose|j: int| 0 <= j < pairs@.len() && pairs@[j].0 == coord_key(c);
                assert(r@[j] == (key_coord(pairs@[j].0), pairs@[j].1));
            }
            assert forall|a: int, b: int| 0 <= a < r@.len() && 0 <= b < r@.len() && a != b implies r@[a].0 != r@[b].0 by {
                assert(r@[a] == (key_coord(pairs@[a].0), pairs@[a].1));
                assert(r@[b] == (key_coord(pairs@[b].0), pairs@[b].1));
                assert(pairs@[a].0 != pairs@[b].0);
            }
        }
        r
    }
}

} // verus!
