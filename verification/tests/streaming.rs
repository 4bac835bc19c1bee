//! Streaming and persistence tests: rate-limited loading, distance
//! culling, the physics tier, the diff round-trip and the session cache.

use blocworld::blocs::{BlocType, ChunkPos, PosInChunk};
use blocworld::game_state::{ChunkSave, ChunkSaves, ChunkTypes, GameSave, GameState};
use blocworld::generation::{generate_from_columns, Biome, FlatWordGenerator, Generator};
use blocworld::loading::{
    load_chunks, planar_dist2, render_physic, unload_chunks, PHYSIC_DISTANCE, RENDER_DISTANCE,
};
use blocworld::world::Chunks;
use blocworld::{CHUNK_VOLUME, CHUNK_X, CHUNK_Y, CHUNK_Z};

fn in_radius_candidates(pc: ChunkPos) -> usize {
    let r = RENDER_DISTANCE as i64;
    let mut n = 0usize;
    for x in (pc.x as i64 - r)..(pc.x as i64 + r) {
        for z in (pc.z as i64 - r)..(pc.z as i64 + r) {
            let dx = x - pc.x as i64;
            let dz = z - pc.z as i64;
            if dx * dx + dz * dz <= (r * r) {
                n += 1;
            }
        }
    }
    n
}

#[test]
fn planar_distance_is_exact() {
    let a = ChunkPos { x: 3, y: 9, z: -4 };
    let b = ChunkPos { x: 0, y: 0, z: 0 };
    assert_eq!(planar_dist2(a, b), 9 + 16);
    assert_eq!(planar_dist2(a, a), 0);
    let far = ChunkPos { x: i32::MAX, y: 0, z: i32::MIN };
    let near = ChunkPos { x: i32::MIN, y: 0, z: i32::MAX };
    // no overflow at the extremes
    let _ = planar_dist2(far, near);
}

#[test]
fn one_chunk_loaded_per_tick_until_the_radius_is_full() {
    let mut world = Chunks::new();
    let mut cache = GameState::new();
    let saves = ChunkSaves::default();
    let gen = FlatWordGenerator::new(1);
    let pc = ChunkPos { x: 0, y: 0, z: 0 };

    let expected = in_radius_candidates(pc);
    let mut ticks = 0usize;
    loop {
        let before = world.inner.len();
        let loaded = load_chunks(&mut world, &gen, pc, &saves, &mut cache);
        match loaded {
            Some(p) => {
                // at most one new chunk per tick, inside the radius
                assert_eq!(world.inner.len(), before + 1);
                assert!(planar_dist2(p, pc) <= (RENDER_DISTANCE * RENDER_DISTANCE) as u128);
                assert_eq!(p.y, 0);
            }
            None => break,
        }
        ticks += 1;
        assert!(ticks <= expected);
    }
    assert_eq!(world.inner.len(), expected);
    assert_eq!(ticks, expected);
}

#[test]
fn unload_removes_everything_outside_the_radius() {
    let mut world = Chunks::new();
    let mut cache = GameState::new();
    let saves = ChunkSaves::default();
    let gen = FlatWordGenerator::new(1);
    let pc = ChunkPos { x: 0, y: 0, z: 0 };
    while load_chunks(&mut world, &gen, pc, &saves, &mut cache).is_some() {}
    let full = world.inner.len();
    assert!(full > 0);

    // the viewer moves far away: everything is out of range
    let moved = ChunkPos { x: 100, y: 0, z: 100 };
    unload_chunks(&mut world, moved);
    assert_eq!(world.inner.len(), 0);

    // reload around the old spot, then move one chunk to the side
    while load_chunks(&mut world, &gen, pc, &saves, &mut cache).is_some() {}
    let shifted = ChunkPos { x: 1, y: 0, z: 0 };
    unload_chunks(&mut world, shifted);
    for (pos, _) in world.inner.iter() {
        assert!(planar_dist2(*pos, shifted) <= (RENDER_DISTANCE * RENDER_DISTANCE) as u128);
    }
}

#[test]
fn physics_radius_is_a_separate_tier() {
    let mut world = Chunks::new();
    let mut cache = GameState::new();
    let saves = ChunkSaves::default();
    let gen = FlatWordGenerator::new(1);
    let pc = ChunkPos { x: 0, y: 0, z: 0 };
    while load_chunks(&mut world, &gen, pc, &saves, &mut cache).is_some() {}
    world.link_chunks();
    render_physic(&mut world, pc);

    let surface = PosInChunk { x: 2, y: 3, z: 2 };
    // inside the physics radius: the surface block has a collider
    let near = world.get(ChunkPos { x: 0, y: 0, z: 0 }).unwrap();
    assert!(near.get(&surface).unwrap().has_collider);
    // a buried block never does (boundary-surface-only collision)
    let buried = PosInChunk { x: 2, y: 1, z: 2 };
    assert!(!near.get(&buried).unwrap().has_collider);
    // outside the physics radius but still resident: no collider at all
    let far_pos = ChunkPos { x: 4, y: 0, z: 0 };
    assert!(
        planar_dist2(far_pos, pc) >= (PHYSIC_DISTANCE * PHYSIC_DISTANCE) as u128
    );
    let far = world.get(far_pos).unwrap();
    assert!(!far.get(&surface).unwrap().has_collider);
}

#[test]
fn diff_round_trip_restores_the_edit_and_nothing_else() {
    let mut world = Chunks::new();
    let mut cache = GameState::new();
    let mut saves = ChunkSaves::default();
    let gen = FlatWordGenerator::new(0);
    let pos = ChunkPos { x: 0, y: 0, z: 0 };
    world.generate(&gen, pos, &saves, &mut cache);

    // the edit: a grass block becomes Air
    let edited = PosInChunk { x: 2, y: 3, z: 5 };
    let target = blocworld::blocs::BlocRef { chunk: pos, index: edited.to_chunk_index() };
    world.remove_bloc(target, &mut cache, &mut saves);

    // "save": snapshot the sparse overlay; nothing else is persisted
    let blob = GameSave { chunks: saves.clone() };

    // clear all state, then load the save back
    let mut world2 = Chunks::new();
    let mut cache2 = GameState::new();
    let mut saves2 = ChunkSaves::default();
    world2.generate(&gen, pos, &saves2, &mut cache2);
    world2.load_save(&gen, blob.chunks, &mut saves2, &mut cache2);

    let fresh = gen.generate(pos);
    let chunk = world2.get(pos).unwrap();
    for i in 0..CHUNK_VOLUME {
        let p = PosInChunk::from_chunk_index(i);
        let have = chunk.get(&p).unwrap().typ;
        if p == edited {
            assert_eq!(have, BlocType::Air);
        } else {
            assert_eq!(have, fresh[i]);
        }
    }
}

#[test]
fn reload_within_a_session_uses_the_cache() {
    let mut world = Chunks::new();
    let mut cache = GameState::new();
    let mut saves = ChunkSaves::default();
    let gen = FlatWordGenerator::new(0);
    let pos = ChunkPos { x: 2, y: 0, z: 2 };
    world.generate(&gen, pos, &saves, &mut cache);

    // mutate the cached copy directly, unload, reload: the cache wins
    let p = PosInChunk { x: 0, y: 0, z: 0 };
    cache.set_bloc_type(pos, p.to_chunk_index(), BlocType::Sand);
    world.unload(pos);
    world.load_or_generate(&gen, pos, &saves, &mut cache);
    let chunk = world.get(pos).unwrap();
    assert_eq!(chunk.get(&p).unwrap().typ, BlocType::Sand);
}

#[test]
fn chunk_save_overlay_applies_pointwise() {
    let mut save = ChunkSave::default();
    let a = PosInChunk { x: 1, y: 2, z: 3 };
    let b = PosInChunk { x: 4, y: 0, z: 0 };
    save.insert(a, BlocType::Air);
    save.insert(b, BlocType::Sand);
    save.insert(a, BlocType::Stone); // later record wins

    let mut types = vec![BlocType::Dirt; CHUNK_VOLUME];
    save.apply_to(&mut types);
    assert_eq!(types[a.to_chunk_index()], BlocType::Stone);
    assert_eq!(types[b.to_chunk_index()], BlocType::Sand);
    assert_eq!(types[PosInChunk { x: 0, y: 0, z: 0 }.to_chunk_index()], BlocType::Dirt);
}

#[test]
fn record_change_creates_and_extends_overlays() {
    let mut saves = ChunkSaves::default();
    let pos = ChunkPos { x: 9, y: 0, z: -9 };
    let p1 = PosInChunk { x: 1, y: 1, z: 1 };
    let p2 = PosInChunk { x: 2, y: 2, z: 2 };
    assert!(saves.get(pos).is_none());
    saves.record_change(pos, p1, BlocType::Air);
    saves.record_change(pos, p2, BlocType::Air);
    let entry = saves.get(pos).unwrap();
    assert_eq!(entry.get(p1), Some(BlocType::Air));
    assert_eq!(entry.get(p2), Some(BlocType::Air));
    assert_eq!(entry.get(PosInChunk { x: 3, y: 3, z: 3 }), None);
}

#[test]
fn game_state_cache_basics() {
    let mut cache = GameState::new();
    let pos = ChunkPos { x: 1, y: 0, z: 1 };
    assert!(cache.get(pos).is_none());
    cache.insert(pos, ChunkTypes(vec![BlocType::Stone; CHUNK_VOLUME]));
    assert_eq!(cache.get(pos).unwrap().0[0], BlocType::Stone);
    cache.insert(pos, ChunkTypes(vec![BlocType::Dirt; CHUNK_VOLUME]));
    assert_eq!(cache.get(pos).unwrap().0[0], BlocType::Dirt);
    cache.clear();
    assert!(cache.get(pos).is_none());
}

#[test]
fn biome_selection_thresholds() {
    assert_eq!(Biome::new(100, 500), Biome::SnowyPlain);
    assert_eq!(Biome::new(800, 500), Biome::Desert);
    assert_eq!(Biome::new(500, 400), Biome::Plain);
    assert_eq!(Biome::new(500, 600), Biome::Forest);
    assert_eq!(Biome::Plain.top_block(), BlocType::Dirt);
    assert_eq!(Biome::Forest.top_block(), BlocType::Grass);
    assert_eq!(Biome::Desert.top_block(), BlocType::Sand);
    assert_eq!(Biome::SnowyPlain.top_block(), BlocType::SnowyDirt);
}

#[test]
fn column_fill_builds_the_biome_layers() {
    let mut cols: Vec<(u8, BlocType)> = Vec::new();
    for _ in 0..CHUNK_X * CHUNK_Z {
        cols.push((6, BlocType::Sand));
    }
    // one special column: full height, and one flat at zero
    cols[0] = (CHUNK_Y as u8, BlocType::Grass);
    cols[1] = (0, BlocType::Dirt);
    let types = generate_from_columns(&cols);
    assert_eq!(types.len(), CHUNK_VOLUME);
    // ordinary column (x=2, z=0): stone below, dirt, then sand on top
    assert_eq!(types[PosInChunk { x: 2, y: 0, z: 0 }.to_chunk_index()], BlocType::Stone);
    assert_eq!(types[PosInChunk { x: 2, y: 3, z: 0 }.to_chunk_index()], BlocType::Stone);
    assert_eq!(types[PosInChunk { x: 2, y: 4, z: 0 }.to_chunk_index()], BlocType::Dirt);
    assert_eq!(types[PosInChunk { x: 2, y: 5, z: 0 }.to_chunk_index()], BlocType::Sand);
    assert_eq!(types[PosInChunk { x: 2, y: 6, z: 0 }.to_chunk_index()], BlocType::Air);
    // full-height column tops out at the last cell
    assert_eq!(
        types[PosInChunk { x: 0, y: (CHUNK_Y - 1) as u8, z: 0 }.to_chunk_index()],
        BlocType::Grass
    );
    // zero-height column puts its surface block at the floor
    assert_eq!(types[PosInChunk { x: 1, y: 0, z: 0 }.to_chunk_index()], BlocType::Dirt);
    assert_eq!(types[PosInChunk { x: 1, y: 1, z: 0 }.to_chunk_index()], BlocType::Air);
}
