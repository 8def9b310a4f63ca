use terrain_chunks::coord::{chunk_axis, ChunkCoord, FLOOR_SIZE};
use terrain_chunks::index::{ChunkHandle, ChunkIndex, ChunkIndexError};
use terrain_chunks::spells::DamageElement;
use terrain_chunks::streamer::{
    apply_tick, observer_chunk, remove_chunks_from_index, update_chunk_index, ChunkRenderSettings,
    TickPlan,
};

/// Runs one tick: plans, hands out fresh handles from `next` for the
/// chunks to spawn, records the outcome. Returns the plan.
fn tick(index: &mut ChunkIndex, settings: &ChunkRenderSettings, observer: ChunkCoord, next: &mut u64) -> TickPlan {
    let plan = update_chunk_index(index, settings, observer);
    let mut handles: Vec<ChunkHandle> = Vec::new();
    for _ in 0..plan.spawn.len() {
        handles.push(*next);
        *next += 1;
    }
    apply_tick(index, &plan, &handles);
    plan
}

fn sorted_keys(index: &ChunkIndex) -> Vec<(i32, i32)> {
    let mut keys: Vec<(i32, i32)> = index.entries().iter().map(|(c, _)| (c.x, c.z)).collect();
    keys.sort();
    keys
}

fn square(cx: i32, cz: i32, r: i32) -> Vec<(i32, i32)> {
    let mut v = Vec::new();
    for x in cx - r..=cx + r {
        for z in cz - r..=cz + r {
            v.push((x, z));
        }
    }
    v.sort();
    v
}

#[test]
fn negative_world_position_floors_to_negative_chunk() {
    assert_eq!(FLOOR_SIZE, 8);
    assert_eq!(chunk_axis(-1), -1);
    assert_eq!(ChunkCoord::from_world(-1, 0), ChunkCoord::new(-1, 0));
}

#[test]
fn chunk_axis_boundaries() {
    assert_eq!(chunk_axis(0), 0);
    assert_eq!(chunk_axis(7), 0);
    assert_eq!(chunk_axis(8), 1);
    assert_eq!(chunk_axis(-8), -1);
    assert_eq!(chunk_axis(-9), -2);
    assert_eq!(chunk_axis(i32::MIN), -268435456);
    assert_eq!(chunk_axis(i32::MAX), 268435455);
}

#[test]
fn world_origin_of_chunk() {
    assert_eq!(ChunkCoord::new(-2, 3).world_origin(), (-16, 24));
}

#[test]
fn default_settings() {
    let s = ChunkRenderSettings::default();
    assert_eq!(s.spawn_radius, 3);
    assert_eq!(s.despawn_radius, 5);
}

#[test]
fn first_tick_spawns_the_three_by_three_square() {
    let mut index = ChunkIndex::new();
    let settings = ChunkRenderSettings { spawn_radius: 1, despawn_radius: 2 };
    let mut next = 100;
    let plan = tick(&mut index, &settings, ChunkCoord::new(0, 0), &mut next);
    assert_eq!(index.len(), 9);
    assert_eq!(sorted_keys(&index), square(0, 0, 1));
    assert!(plan.despawn.is_empty());
    // row-major: z outer, x inner
    let order: Vec<(i32, i32)> = plan.spawn.iter().map(|c| (c.x, c.z)).collect();
    assert_eq!(
        order,
        vec![(-1, -1), (0, -1), (1, -1), (-1, 0), (0, 0), (1, 0), (-1, 1), (0, 1), (1, 1)]
    );
    assert_eq!(index.get(ChunkCoord::new(-1, -1)), Some(100));
    assert_eq!(index.get(ChunkCoord::new(1, 1)), Some(108));
}

#[test]
fn far_move_despawns_every_old_chunk_once() {
    let mut index = ChunkIndex::new();
    let settings = ChunkRenderSettings { spawn_radius: 1, despawn_radius: 2 };
    let mut next = 1;
    tick(&mut index, &settings, ChunkCoord::new(0, 0), &mut next);
    let plan = tick(&mut index, &settings, ChunkCoord::new(5, 0), &mut next);
    let mut gone: Vec<(i32, i32, u64)> = plan.despawn.iter().map(|(c, h)| (c.x, c.z, *h)).collect();
    gone.sort();
    assert_eq!(gone.len(), 9);
    let mut expected_handles: Vec<u64> = gone.iter().map(|g| g.2).collect();
    expected_handles.sort();
    assert_eq!(expected_handles, (1..=9).collect::<Vec<u64>>());
    for x in -1..=1 {
        assert!(!index.contains(ChunkCoord::new(x, 0)));
    }
    assert_eq!(sorted_keys(&index), square(5, 0, 1));
}

#[test]
fn near_move_keeps_chunks_within_despawn_radius() {
    let mut index = ChunkIndex::new();
    let settings = ChunkRenderSettings { spawn_radius: 1, despawn_radius: 2 };
    let mut next = 1;
    tick(&mut index, &settings, ChunkCoord::new(0, 0), &mut next);
    let kept_before = index.get(ChunkCoord::new(0, 1));
    let plan = tick(&mut index, &settings, ChunkCoord::new(2, 0), &mut next);
    // x = -1 is 3 away: gone; x = 0 and x = 1 stay with their handles
    let gone: Vec<(i32, i32)> = {
        let mut g: Vec<(i32, i32)> = plan.despawn.iter().map(|(c, _)| (c.x, c.z)).collect();
        g.sort();
        g
    };
    assert_eq!(gone, vec![(-1, -1), (-1, 0), (-1, 1)]);
    assert_eq!(index.get(ChunkCoord::new(0, 1)), kept_before);
    for c in plan.spawn.iter() {
        assert!(c.x >= 2, "an existing chunk was generated again");
    }
    // the new square is x in 1..=3: columns 2 and 3 are new
    assert_eq!(plan.spawn.len(), 6);
    assert_eq!(index.len(), 9 - 3 + 6);
}

#[test]
fn second_tick_in_place_does_nothing() {
    let mut index = ChunkIndex::new();
    let settings = ChunkRenderSettings::default();
    let mut next = 1;
    tick(&mut index, &settings, ChunkCoord::new(-3, 4), &mut next);
    let before = index.entries();
    let plan = tick(&mut index, &settings, ChunkCoord::new(-3, 4), &mut next);
    assert!(plan.spawn.is_empty());
    assert!(plan.despawn.is_empty());
    assert_eq!(index.entries(), before);
    assert_eq!(index.len(), 49);
}

#[test]
fn disabled_despawn_never_shrinks() {
    let mut index = ChunkIndex::new();
    let settings = ChunkRenderSettings { spawn_radius: 1, despawn_radius: -1 };
    let mut next = 1;
    let mut last = 0;
    for (x, z) in [(0, 0), (10, 0), (10, 10), (-20, 3), (0, 0)] {
        let plan = tick(&mut index, &settings, ChunkCoord::new(x, z), &mut next);
        assert!(plan.despawn.is_empty());
        assert!(index.len() >= last);
        last = index.len();
    }
    assert_eq!(index.len(), 9 * 4);
}

#[test]
fn negative_spawn_radius_spawns_nothing() {
    let index = ChunkIndex::new();
    let settings = ChunkRenderSettings { spawn_radius: -1, despawn_radius: 0 };
    let plan = update_chunk_index(&index, &settings, ChunkCoord::new(0, 0));
    assert!(plan.spawn.is_empty());
}

#[test]
fn spawn_square_is_clipped_at_the_coordinate_range() {
    let index = ChunkIndex::new();
    let settings = ChunkRenderSettings { spawn_radius: 1, despawn_radius: 1 };
    let plan = update_chunk_index(&index, &settings, ChunkCoord::new(i32::MAX, i32::MIN));
    assert_eq!(plan.spawn.len(), 4);
    assert_eq!(plan.spawn[0], ChunkCoord::new(i32::MAX - 1, i32::MIN));
}

#[test]
fn insert_refuses_an_occupied_coordinate() {
    let mut index = ChunkIndex::new();
    let c = ChunkCoord::new(2, -7);
    assert_eq!(index.insert(c, 5), Ok(()));
    assert_eq!(index.insert(c, 6), Err(ChunkIndexError::Occupied { existing: 5 }));
    assert_eq!(index.get(c), Some(5));
    assert_eq!(index.len(), 1);
}

#[test]
fn remove_hands_back_the_handle() {
    let mut index = ChunkIndex::new();
    let a = ChunkCoord::new(0, 0);
    let b = ChunkCoord::new(1, 0);
    index.insert(a, 10).unwrap();
    index.insert(b, 11).unwrap();
    assert_eq!(index.remove(a), Some(10));
    assert_eq!(index.remove(a), None);
    assert!(!index.contains(a));
    assert!(index.contains(b));
    assert_eq!(index.entries(), vec![(b, 11)]);
}

#[test]
fn remove_chunks_passes_over_missing_keys() {
    let mut index = ChunkIndex::new();
    for i in 0..4 {
        index.insert(ChunkCoord::new(i, i), i as u64).unwrap();
    }
    remove_chunks_from_index(&mut index, &vec![ChunkCoord::new(1, 1), ChunkCoord::new(9, 9), ChunkCoord::new(3, 3)]);
    assert_eq!(sorted_keys(&index), vec![(0, 0), (2, 2)]);
}

#[test]
fn observer_must_be_unique() {
    assert_eq!(observer_chunk(&vec![]), None);
    assert_eq!(observer_chunk(&vec![(0, 0), (1, 1)]), None);
    assert_eq!(observer_chunk(&vec![(-1, 9)]), Some(ChunkCoord::new(-1, 1)));
}

#[test]
fn damage_elements_compare_by_variant() {
    assert_eq!(DamageElement::Fire, DamageElement::Fire);
    assert_ne!(DamageElement::Fire, DamageElement::Frost);
}
