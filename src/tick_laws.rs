use vstd::prelude::*;

use crate::coord::ChunkCoord;
use crate::index::ChunkHandle;
use crate::streamer::{
    applied, despawn_due, is_despawn_plan, is_spawn_plan, keys_of, spawn_due, within,
};

verus! {

/// A despawn plan only names chunks that are due to go.
proof fn despawn_keys_are_due(
    d: Seq<(ChunkCoord, ChunkHandle)>,
    m: Map<ChunkCoord, ChunkHandle>,
    center: ChunkCoord,
    r: int,
    c: ChunkCoord,
)
    requires
        is_despawn_plan(d, m, center, r),
        keys_of(d).contains(c),
    ensures
        despawn_due(m, center, r, c),
{
    let i = choose|i: int| 0 <= i < d.len() && d[i].0 == c;
    assert(crate::streamer::despawn_set(m, center, r).contains(d[i].0));
}

/// A spawn plan names each coordinate once, and none that the index holds:
/// it can be recorded with `apply_tick` on the index it was made from.
pub proof fn lemma_spawn_plan_is_fresh(
    spawn: Seq<ChunkCoord>,
    m: Map<ChunkCoord, ChunkHandle>,
    observer: ChunkCoord,
    spawn_radius: int,
)
    requires
        is_spawn_plan(spawn, m, observer, spawn_radius),
    ensures
        spawn.no_duplicates(),
        forall|i: int| 0 <= i < spawn.len() ==> !m.contains_key(#[trigger] spawn[i]),
{
    assert forall|i: int, j: int| 0 <= i < spawn.len() && 0 <= j < spawn.len() && i != j implies spawn[i] != spawn[j] by {
        if i < j {
            assert(crate::streamer::precedes(spawn[i], spawn[j]));
        } else {
            assert(crate::streamer::precedes(spawn[j], spawn[i]));
        }
    }
    assert forall|i: int| 0 <= i < spawn.len() implies !m.contains_key(#[trigger] spawn[i]) by {
        assert(spawn.to_set().contains(spawn[i]));
        assert(spawn_due(m, observer, spawn_radius, spawn[i]));
    }
}

/// After one tick whose despawn radius is off or at least the spawn radius,
/// every coordinate within the spawn radius has a chunk; starting from an
/// empty index, those are exactly the chunks that exist.
pub proof fn lemma_spawn_complete(
    m0: Map<ChunkCoord, ChunkHandle>,
    observer: ChunkCoord,
    spawn_radius: int,
    despawn_radius: int,
    spawn: Seq<ChunkCoord>,
    handles: Seq<ChunkHandle>,
    despawn: Seq<(ChunkCoord, ChunkHandle)>,
    m1: Map<ChunkCoord, ChunkHandle>,
)
    requires
        despawn_radius < 0 || despawn_radius >= spawn_radius,
        is_spawn_plan(spawn, m0, observer, spawn_radius),
        is_despawn_plan(despawn, m0, observer, despawn_radius),
        applied(m0, spawn, handles, despawn, m1),
    ensures
        forall|c: ChunkCoord| within(c, observer, spawn_radius) ==> #[trigger] m1.contains_key(c),
        m0 == Map::<ChunkCoord, ChunkHandle>::empty() ==> forall|c: ChunkCoord|
            #[trigger] m1.contains_key(c) <==> within(c, observer, spawn_radius),
{
    assert forall|c: ChunkCoord| within(c, observer, spawn_radius) implies #[trigger] m1.contains_key(c) by {
        if keys_of(despawn).contains(c) {
            despawn_keys_are_due(despawn, m0, observer, despawn_radius, c);
        }
        if !m0.contains_key(c) {
            assert(spawn.to_set().contains(c));
        }
    }
    if m0 == Map::<ChunkCoord, ChunkHandle>::empty() {
        assert forall|c: ChunkCoord| #[trigger] m1.contains_key(c) implies within(c, observer, spawn_radius) by {
            assert(spawn.contains(c));
            assert(spawn.to_set().contains(c));
            assert(spawn_due(m0, observer, spawn_radius, c));
        }
    }
}

/// With despawning on, a tick tears down every chunk beyond the despawn
/// radius, naming each one exactly once with its handle, and leaves every
/// chunk within that radius in place with its handle, not generated again.
pub proof fn lemma_despawn_with_hysteresis(
    m0: Map<ChunkCoord, ChunkHandle>,
    observer: ChunkCoord,
    spawn_radius: int,
    despawn_radius: int,
    spawn: Seq<ChunkCoord>,
    handles: Seq<ChunkHandle>,
    despawn: Seq<(ChunkCoord, ChunkHandle)>,
    m1: Map<ChunkCoord, ChunkHandle>,
)
    requires
        despawn_radius >= 0,
        is_spawn_plan(spawn, m0, observer, spawn_radius),
        is_despawn_plan(despawn, m0, observer, despawn_radius),
        applied(m0, spawn, handles, despawn, m1),
    ensures
        forall|c: ChunkCoord| #[trigger] m0.contains_key(c) && !within(c, observer, despawn_radius) ==> {
            &&& !m1.contains_key(c)
            &&& exists|i: int| 0 <= i < despawn.len() && despawn[i] == (c, m0[c])
            &&& forall|i: int, j: int| 0 <= i < despawn.len() && 0 <= j < despawn.len()
                && despawn[i].0 == c && despawn[j].0 == c ==> i == j
        },
        forall|c: ChunkCoord| #[trigger] m0.contains_key(c) && within(c, observer, despawn_radius) ==> {
            &&& m1.contains_key(c)
            &&& m1[c] == m0[c]
            &&& !spawn.contains(c)
        },
{
    assert forall|c: ChunkCoord| #[trigger] m0.contains_key(c) && !within(c, observer, despawn_radius) implies {
        &&& !m1.contains_key(c)
        &&& exists|i: int| 0 <= i < despawn.len() && despawn[i] == (c, m0[c])
        &&& forall|i: int, j: int| 0 <= i < despawn.len() && 0 <= j < despawn.len()
            && despawn[i].0 == c && despawn[j].0 == c ==> i == j
    } by {
        assert(crate::streamer::despawn_set(m0, observer, despawn_radius).contains(c));
        let i = choose|i: int| 0 <= i < despawn.len() && despawn[i].0 == c;
        assert(crate::streamer::despawn_set(m0, observer, despawn_radius).contains(despawn[i].0));
        assert(despawn[i] == (c, m0[c]));
        assert(keys_of(despawn).contains(c));
    }
    assert forall|c: ChunkCoord| #[trigger] m0.contains_key(c) && within(c, observer, despawn_radius) implies {
        &&& m1.contains_key(c)
        &&& m1[c] == m0[c]
        &&& !spawn.contains(c)
    } by {
        if keys_of(despawn).contains(c) {
            despawn_keys_are_due(despawn, m0, observer, despawn_radius, c);
        }
        if spawn.contains(c) {
            assert(spawn.to_set().contains(c));
        }
    }
}

/// Two ticks in a row for an observer that did not move: the second one
/// generates nothing, destroys nothing, and leaves the index as it was.
/// (A despawn radius below the spawn radius, when despawning is on, makes
/// the second tick tear down what the first one spawned.)
pub proof fn lemma_tick_idempotent(
    m0: Map<ChunkCoord, ChunkHandle>,
    observer: ChunkCoord,
    spawn_radius: int,
    despawn_radius: int,
    spawn: Seq<ChunkCoord>,
    handles: Seq<ChunkHandle>,
    despawn: Seq<(ChunkCoord, ChunkHandle)>,
    m1: Map<ChunkCoord, ChunkHandle>,
    spawn2: Seq<ChunkCoord>,
    handles2: Seq<ChunkHandle>,
    despawn2: Seq<(ChunkCoord, ChunkHandle)>,
    m2: Map<ChunkCoord, ChunkHandle>,
)
    requires
        despawn_radius < 0 || despawn_radius >= spawn_radius,
        is_spawn_plan(spawn, m0, observer, spawn_radius),
        is_despawn_plan(despawn, m0, observer, despawn_radius),
        applied(m0, spawn, handles, despawn, m1),
        is_spawn_plan(spawn2, m1, observer, spawn_radius),
        is_despawn_plan(despawn2, m1, observer, despawn_radius),
        applied(m1, spawn2, handles2, despawn2, m2),
    ensures
        spawn2.len() == 0,
        despawn2.len() == 0,
        m2 == m1,
{
    lemma_spawn_complete(m0, observer, spawn_radius, despawn_radius, spawn, handles, despawn, m1);
    if spawn2.len() > 0 {
        assert(spawn2.to_set().contains(spawn2[0]));
        assert(spawn_due(m1, observer, spawn_radius, spawn2[0]));
    }
    if despawn2.len() > 0 {
        let c = despawn2[0].0;
        assert(crate::streamer::despawn_set(m1, observer, despawn_radius).contains(c));
        assert(m1.contains_key(c));
        if m0.contains_key(c) {
            assert(!keys_of(despawn).contains(c));
            if despawn_due(m0, observer, despawn_radius, c) {
                assert(crate::streamer::despawn_set(m0, observer, despawn_radius).contains(c));
                let i = choose|i: int| 0 <= i < despawn.len() && despawn[i].0 == c;
                assert(keys_of(despawn).contains(c));
            }
        } else {
            assert(spawn.contains(c));
            assert(spawn.to_set().contains(c));
            assert(spawn_due(m0, observer, spawn_radius, c));
        }
    }
    assert(keys_of(despawn2) =~= Set::<ChunkCoord>::empty());
    assert(m2 =~= m1);
}

/// With despawning off (a negative despawn radius), a tick never takes a
/// chunk away: every chunk stays with its handle, and the count of chunks
/// never goes down, however the observer moves.
pub proof fn lemma_disabled_despawn_keeps_chunks(
    m0: Map<ChunkCoord, ChunkHandle>,
    observer: ChunkCoord,
    spawn_radius: int,
    despawn_radius: int,
    spawn: Seq<ChunkCoord>,
    handles: Seq<ChunkHandle>,
    despawn: Seq<(ChunkCoord, ChunkHandle)>,
    m1: Map<ChunkCoord, ChunkHandle>,
)
    requires
        despawn_radius < 0,
        m1.dom().finite(),
        is_spawn_plan(spawn, m0, observer, spawn_radius),
        is_despawn_plan(despawn, m0, observer, despawn_radius),
        applied(m0, spawn, handles, despawn, m1),
    ensures
        despawn.len() == 0,
        m0.dom().subset_of(m1.dom()),
        forall|c: ChunkCoord| #[trigger] m0.contains_key(c) ==> m1[c] == m0[c],
        m0.len() <= m1.len(),
{
    if despawn.len() > 0 {
        assert(crate::streamer::despawn_set(m0, observer, despawn_radius).contains(despawn[0].0));
    }
    assert(keys_of(despawn) =~= Set::<ChunkCoord>::empty());
    assert(m0.dom().subset_of(m1.dom()));
    vstd::set_lib::lemma_len_subset(m0.dom(), m1.dom());
}

} // verus!
