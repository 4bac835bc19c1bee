//! World-level tests: chunk creation and wiring, linking, block removal,
//! and the destruction state machine.

use blocworld::blocs::{BlocRef, BlocType, ChunkPos, DestructionLevel, PosInChunk};
use blocworld::destruction::{destroy_bloc, reset_destruction_lvl, BlocBeingDestroyed};
use blocworld::game_state::{ChunkSaves, GameState};
use blocworld::generation::{FlatWordGenerator, Generator};
use blocworld::world::Chunks;
use blocworld::{CHUNK_VOLUME, CHUNK_X, CHUNK_Y};

fn flat_chunk_at(world: &mut Chunks, pos: ChunkPos) {
    let gen = FlatWordGenerator::new(0);
    let types = gen.generate(pos);
    world.load_types(pos, &types);
}

fn bloc_type(world: &Chunks, pos: ChunkPos, p: PosInChunk) -> BlocType {
    world.get(pos).unwrap().get(&p).unwrap().typ
}

fn face_count(world: &Chunks, pos: ChunkPos, p: PosInChunk) -> usize {
    world.get(pos).unwrap().get(&p).unwrap().faces.0.len()
}

#[test]
fn new_chunk_wires_intra_chunk_neighbors() {
    let mut world = Chunks::new();
    let pos = ChunkPos { x: 0, y: 0, z: 0 };
    flat_chunk_at(&mut world, pos);
    let chunk = world.get(pos).unwrap();

    // a corner block: edges open, interior sides wired
    let corner = chunk.get(&PosInChunk { x: 0, y: 0, z: 0 }).unwrap();
    assert!(corner.neighbors.down.is_none());
    assert!(corner.neighbors.left.is_none());
    assert!(corner.neighbors.back.is_none());
    let up = corner.neighbors.up.unwrap();
    assert_eq!(up.chunk, pos);
    assert_eq!(up.index, PosInChunk { x: 0, y: 1, z: 0 }.to_chunk_index());
    let right = corner.neighbors.right.unwrap();
    assert_eq!(right.index, PosInChunk { x: 1, y: 0, z: 0 }.to_chunk_index());

    // colliders requested for every non-Air block at creation
    assert!(corner.has_collider);
    let air = chunk.get(&PosInChunk { x: 0, y: 10, z: 0 }).unwrap();
    assert_eq!(air.typ, BlocType::Air);
    assert!(!air.has_collider);
}

#[test]
fn flat_generator_layout() {
    let gen = FlatWordGenerator::new(7);
    let types = gen.generate(ChunkPos { x: 3, y: 0, z: -2 });
    assert_eq!(types.len(), CHUNK_VOLUME);
    assert_eq!(types[PosInChunk { x: 0, y: 0, z: 0 }.to_chunk_index()], BlocType::Stone);
    assert_eq!(types[PosInChunk { x: 4, y: 2, z: 6 }.to_chunk_index()], BlocType::Stone);
    assert_eq!(types[PosInChunk { x: 4, y: 3, z: 6 }.to_chunk_index()], BlocType::Grass);
    assert_eq!(types[PosInChunk { x: 1, y: 4, z: 1 }.to_chunk_index()], BlocType::Stone);
    assert_eq!(types[PosInChunk { x: 2, y: 4, z: 1 }.to_chunk_index()], BlocType::Air);
    assert_eq!(types[PosInChunk { x: 4, y: 15, z: 6 }.to_chunk_index()], BlocType::Air);
}

#[test]
fn generator_is_deterministic() {
    let gen = FlatWordGenerator::new(123);
    let pos = ChunkPos { x: -4, y: 0, z: 9 };
    let first = gen.generate(pos);
    let second = gen.generate(pos);
    assert_eq!(first.len(), second.len());
    for i in 0..first.len() {
        assert_eq!(first[i], second[i]);
    }
}

#[test]
fn render_chunk_emits_expected_faces() {
    let mut world = Chunks::new();
    let pos = ChunkPos { x: 0, y: 0, z: 0 };
    flat_chunk_at(&mut world, pos);
    world.render_chunk(pos, None);

    // grass with open sky above: exactly one Up face
    assert_eq!(face_count(&world, pos, PosInChunk { x: 0, y: 3, z: 0 }), 1);
    // grass below the lone stone marker: no face (stone above, dirt around)
    assert_eq!(face_count(&world, pos, PosInChunk { x: 1, y: 3, z: 1 }), 0);
    // the lone stone marker: open on top and all four sides
    assert_eq!(face_count(&world, pos, PosInChunk { x: 1, y: 4, z: 1 }), 5);
    // buried stone: side chunk faces unresolved, nothing visible
    assert_eq!(face_count(&world, pos, PosInChunk { x: 3, y: 1, z: 3 }), 0);
    // air renders nothing
    assert_eq!(face_count(&world, pos, PosInChunk { x: 5, y: 12, z: 5 }), 0);
}

#[test]
fn linking_wires_boundary_blocks_both_ways() {
    let mut world = Chunks::new();
    let a = ChunkPos { x: 0, y: 0, z: 0 };
    let b = ChunkPos { x: 1, y: 0, z: 0 };
    flat_chunk_at(&mut world, a);
    flat_chunk_at(&mut world, b);
    world.link(a, b);

    let pa = PosInChunk { x: (CHUNK_X - 1) as u8, y: 2, z: 3 };
    let pb = PosInChunk { x: 0, y: 2, z: 3 };
    let ba = world.get(a).unwrap().get(&pa).unwrap();
    let slot = ba.neighbors.right.unwrap();
    assert_eq!(slot.chunk, b);
    assert_eq!(slot.index, pb.to_chunk_index());
    let bb = world.get(b).unwrap().get(&pb).unwrap();
    let slot_back = bb.neighbors.left.unwrap();
    assert_eq!(slot_back.chunk, a);
    assert_eq!(slot_back.index, pa.to_chunk_index());
}

#[test]
fn link_pair_is_idempotent_under_the_flag() {
    let mut world = Chunks::new();
    let a = ChunkPos { x: 0, y: 0, z: 0 };
    let b = ChunkPos { x: 1, y: 0, z: 0 };
    flat_chunk_at(&mut world, a);
    flat_chunk_at(&mut world, b);

    world.link_pair(a, blocworld::blocs::Direction::Right);
    assert!(world.get(a).unwrap().neighbors_are_linked.right);

    // snapshot the boundary wiring and faces, then link again
    let pa = PosInChunk { x: (CHUNK_X - 1) as u8, y: 5, z: 2 };
    let before_slot = world.get(a).unwrap().get(&pa).unwrap().neighbors.right;
    let before_faces = world.get(a).unwrap().get(&pa).unwrap().faces.0.clone();
    world.link_pair(a, blocworld::blocs::Direction::Right);
    let after_slot = world.get(a).unwrap().get(&pa).unwrap().neighbors.right;
    let after_faces = &world.get(a).unwrap().get(&pa).unwrap().faces.0;
    assert_eq!(before_slot, after_slot);
    assert_eq!(&before_faces, after_faces);
    assert!(world.get(a).unwrap().neighbors_are_linked.right);
}

#[test]
fn link_chunks_links_all_positive_neighbors() {
    let mut world = Chunks::new();
    let a = ChunkPos { x: 0, y: 0, z: 0 };
    let b = ChunkPos { x: 1, y: 0, z: 0 };
    let c = ChunkPos { x: 0, y: 0, z: 1 };
    flat_chunk_at(&mut world, a);
    flat_chunk_at(&mut world, b);
    flat_chunk_at(&mut world, c);
    world.link_chunks();
    let nal = world.get(a).unwrap().neighbors_are_linked;
    assert!(!nal.up); // no chunk above
    assert!(nal.right);
    assert!(nal.front);

    // the pass wires the boundary blocks, not just the flags
    let pa = PosInChunk { x: (CHUNK_X - 1) as u8, y: 7, z: 3 };
    let slot = world.get(a).unwrap().get(&pa).unwrap().neighbors.right.unwrap();
    assert_eq!(slot.chunk, b);
    assert_eq!(slot.index, PosInChunk { x: 0, y: 7, z: 3 }.to_chunk_index());
    let pf = PosInChunk { x: 2, y: 7, z: 7 };
    let slot = world.get(a).unwrap().get(&pf).unwrap().neighbors.front.unwrap();
    assert_eq!(slot.chunk, c);
    assert_eq!(slot.index, PosInChunk { x: 2, y: 7, z: 0 }.to_chunk_index());
}

#[test]
fn load_accepts_a_resident_chunk_without_a_cache_entry() {
    let mut world = Chunks::new();
    let cache = GameState::new();
    let pos = ChunkPos { x: 0, y: 0, z: 0 };
    flat_chunk_at(&mut world, pos);
    // resident but never cached: the call is a no-op, not a panic
    world.load(pos, &cache);
    assert_eq!(bloc_type(&world, pos, PosInChunk { x: 0, y: 3, z: 0 }), BlocType::Grass);
}

#[test]
fn unload_severs_neighbor_slots_and_flags() {
    let mut world = Chunks::new();
    let a = ChunkPos { x: 0, y: 0, z: 0 };
    let b = ChunkPos { x: 1, y: 0, z: 0 };
    flat_chunk_at(&mut world, a);
    flat_chunk_at(&mut world, b);
    world.link_chunks();
    assert!(world.get(a).unwrap().neighbors_are_linked.right);

    world.unload(b);
    assert!(world.get(b).is_none());
    // the pair is forgotten on the remaining side
    assert!(!world.get(a).unwrap().neighbors_are_linked.right);
    let pa = PosInChunk { x: (CHUNK_X - 1) as u8, y: 2, z: 3 };
    assert!(world.get(a).unwrap().get(&pa).unwrap().neighbors.right.is_none());
}

#[test]
fn unlink_keeps_faces_as_they_were() {
    // the teardown path deliberately does not re-evaluate visibility
    let mut world = Chunks::new();
    let a = ChunkPos { x: 0, y: 0, z: 0 };
    let b = ChunkPos { x: 1, y: 0, z: 0 };
    flat_chunk_at(&mut world, a);
    flat_chunk_at(&mut world, b);
    world.link(a, b);
    let pa = PosInChunk { x: (CHUNK_X - 1) as u8, y: 2, z: 3 };
    let faces_before = world.get(a).unwrap().get(&pa).unwrap().faces.0.clone();
    world.unlink(a, b);
    let faces_after = &world.get(a).unwrap().get(&pa).unwrap().faces.0;
    assert_eq!(&faces_before, faces_after);
    assert!(world.get(a).unwrap().get(&pa).unwrap().neighbors.right.is_none());
}

#[test]
fn remove_bloc_exposes_neighbors_and_records_the_edit() {
    let mut world = Chunks::new();
    let mut cache = GameState::new();
    let mut saves = ChunkSaves::default();
    let pos = ChunkPos { x: 0, y: 0, z: 0 };
    let gen = FlatWordGenerator::new(0);
    world.generate(&gen, pos, &saves, &mut cache);
    world.render_chunk(pos, Some(true));

    // remove a grass block of the surface
    let p = PosInChunk { x: 4, y: 3, z: 4 };
    let target = BlocRef { chunk: pos, index: p.to_chunk_index() };
    world.remove_bloc(target, &mut cache, &mut saves);

    assert_eq!(bloc_type(&world, pos, p), BlocType::Air);
    assert_eq!(face_count(&world, pos, p), 0);
    assert!(!world.get(pos).unwrap().get(&p).unwrap().has_collider);

    // the stone below is now exposed and shows its new Up face
    let below = PosInChunk { x: 4, y: 2, z: 4 };
    assert_eq!(bloc_type(&world, pos, below), BlocType::Stone);
    assert_eq!(face_count(&world, pos, below), 1);

    // the edit is in the save overlay and in the session cache
    let save = saves.get(pos).unwrap();
    assert_eq!(save.get(p), Some(BlocType::Air));
    assert_eq!(cache.get(pos).unwrap().0[p.to_chunk_index()], BlocType::Air);
}

#[test]
fn destruction_completes_after_one_second() {
    let mut world = Chunks::new();
    let mut cache = GameState::new();
    let mut saves = ChunkSaves::default();
    let pos = ChunkPos { x: 0, y: 0, z: 0 };
    let gen = FlatWordGenerator::new(0);
    world.generate(&gen, pos, &saves, &mut cache);
    world.render_chunk(pos, Some(true));

    let p = PosInChunk { x: 1, y: 4, z: 1 };
    let target = BlocRef { chunk: pos, index: p.to_chunk_index() };
    let mut bbd = BlocBeingDestroyed::new();

    // first tick targets the block and starts at zero progress
    destroy_bloc(&mut world, &mut cache, &mut saves, &mut bbd, true, Some(target), 250);
    assert_eq!(bbd.0, Some((target, 0)));
    // the freshly targeted block shows the first damage stage
    let f = world.get(pos).unwrap().get(&p).unwrap().faces.0[0];
    assert_eq!(f.destruction_level, DestructionLevel::One);

    // four more ticks of a quarter second each reach the threshold
    destroy_bloc(&mut world, &mut cache, &mut saves, &mut bbd, true, Some(target), 250);
    assert_eq!(bbd.0, Some((target, 250)));
    let f = world.get(pos).unwrap().get(&p).unwrap().faces.0[0];
    assert_eq!(f.destruction_level, DestructionLevel::Two);
    destroy_bloc(&mut world, &mut cache, &mut saves, &mut bbd, true, Some(target), 250);
    assert_eq!(bbd.0, Some((target, 500)));
    destroy_bloc(&mut world, &mut cache, &mut saves, &mut bbd, true, Some(target), 250);
    assert_eq!(bbd.0, Some((target, 750)));
    destroy_bloc(&mut world, &mut cache, &mut saves, &mut bbd, true, Some(target), 250);

    // completion: type Air, state reset, edit recorded
    assert_eq!(bbd.0, None);
    assert_eq!(bloc_type(&world, pos, p), BlocType::Air);
    assert_eq!(face_count(&world, pos, p), 0);
    assert_eq!(saves.get(pos).unwrap().get(p), Some(BlocType::Air));
    // the grass below is re-evaluated and shows its Up face again
    let below = PosInChunk { x: 1, y: 3, z: 1 };
    assert_eq!(face_count(&world, pos, below), 1);
}

#[test]
fn releasing_the_trigger_resets_progress() {
    let mut world = Chunks::new();
    let mut cache = GameState::new();
    let mut saves = ChunkSaves::default();
    let pos = ChunkPos { x: 0, y: 0, z: 0 };
    let gen = FlatWordGenerator::new(0);
    world.generate(&gen, pos, &saves, &mut cache);
    let p = PosInChunk { x: 1, y: 4, z: 1 };
    let target = BlocRef { chunk: pos, index: p.to_chunk_index() };
    let mut bbd = BlocBeingDestroyed::new();
    destroy_bloc(&mut world, &mut cache, &mut saves, &mut bbd, true, Some(target), 100);
    destroy_bloc(&mut world, &mut cache, &mut saves, &mut bbd, true, Some(target), 100);
    assert_eq!(bbd.0, Some((target, 100)));
    destroy_bloc(&mut world, &mut cache, &mut saves, &mut bbd, false, None, 100);
    assert_eq!(bbd.0, None);
    assert_eq!(bloc_type(&world, pos, p), BlocType::Stone);
}

#[test]
fn retargeting_restarts_progress() {
    let mut world = Chunks::new();
    let mut cache = GameState::new();
    let mut saves = ChunkSaves::default();
    let pos = ChunkPos { x: 0, y: 0, z: 0 };
    let gen = FlatWordGenerator::new(0);
    world.generate(&gen, pos, &saves, &mut cache);
    let p1 = PosInChunk { x: 1, y: 4, z: 1 };
    let p2 = PosInChunk { x: 0, y: 3, z: 0 };
    let t1 = BlocRef { chunk: pos, index: p1.to_chunk_index() };
    let t2 = BlocRef { chunk: pos, index: p2.to_chunk_index() };
    let mut bbd = BlocBeingDestroyed::new();
    destroy_bloc(&mut world, &mut cache, &mut saves, &mut bbd, true, Some(t1), 300);
    destroy_bloc(&mut world, &mut cache, &mut saves, &mut bbd, true, Some(t1), 300);
    assert_eq!(bbd.0, Some((t1, 300)));
    destroy_bloc(&mut world, &mut cache, &mut saves, &mut bbd, true, Some(t2), 300);
    assert_eq!(bbd.0, Some((t2, 0)));
}

#[test]
fn reset_pass_clears_damage_on_non_targets() {
    let mut world = Chunks::new();
    let mut cache = GameState::new();
    let mut saves = ChunkSaves::default();
    let pos = ChunkPos { x: 0, y: 0, z: 0 };
    let gen = FlatWordGenerator::new(0);
    world.generate(&gen, pos, &saves, &mut cache);
    world.render_chunk(pos, None);

    let p = PosInChunk { x: 1, y: 4, z: 1 };
    let target = BlocRef { chunk: pos, index: p.to_chunk_index() };
    let mut bbd = BlocBeingDestroyed::new();
    destroy_bloc(&mut world, &mut cache, &mut saves, &mut bbd, true, Some(target), 100);
    let f = world.get(pos).unwrap().get(&p).unwrap().faces.0[0];
    assert_eq!(f.destruction_level, DestructionLevel::One);

    // while the block stays targeted, its damage survives the reset pass
    reset_destruction_lvl(&mut world, &bbd);
    let f = world.get(pos).unwrap().get(&p).unwrap().faces.0[0];
    assert_eq!(f.destruction_level, DestructionLevel::One);

    // once it is no longer the target, the overlay resets to undamaged
    bbd.0 = None;
    reset_destruction_lvl(&mut world, &bbd);
    let f = world.get(pos).unwrap().get(&p).unwrap().faces.0[0];
    assert_eq!(f.destruction_level, DestructionLevel::Zero);
    assert_eq!(f.next_material, Some(f.base_material));
}

#[test]
fn apply_next_material_waits_for_the_asset() {
    let mut world = Chunks::new();
    let pos = ChunkPos { x: 0, y: 0, z: 0 };
    flat_chunk_at(&mut world, pos);
    world.render_chunk(pos, None);
    let p = PosInChunk { x: 0, y: 3, z: 0 };
    let mut f = world.get(pos).unwrap().get(&p).unwrap().faces.0[0];
    let base = f.base_material;
    let staged = blocworld::blocs::FaceMaterial {
        crack: DestructionLevel::Three,
        ..base
    };
    f.next_material = Some(staged);
    // not loaded yet and not the base: the hand-off waits
    f.apply_next_material(false);
    assert_eq!(f.next_material, Some(staged));
    assert_eq!(f.material, base);
    // loaded: the staged material swaps in
    f.apply_next_material(true);
    assert_eq!(f.next_material, None);
    assert_eq!(f.material, staged);
}

#[test]
fn out_of_range_position_yields_no_block() {
    let mut world = Chunks::new();
    let pos = ChunkPos { x: 0, y: 0, z: 0 };
    flat_chunk_at(&mut world, pos);
    let chunk = world.get(pos).unwrap();
    assert!(chunk.get(&PosInChunk { x: CHUNK_X as u8, y: 0, z: 0 }).is_none());
    assert!(chunk.get(&PosInChunk { x: 0, y: CHUNK_Y as u8, z: 0 }).is_none());
    assert!(chunk.get(&PosInChunk { x: 255, y: 255, z: 255 }).is_none());
}

#[test]
fn chunk_world_position_scales_by_extent() {
    let pos = ChunkPos { x: 3, y: -2, z: 5 };
    let world_pos = pos.to_pos();
    assert_eq!(world_pos.x, 3 * blocworld::CHUNK_X as i32);
    assert_eq!(world_pos.y, -2 * blocworld::CHUNK_Y as i32);
    assert_eq!(world_pos.z, 5 * blocworld::CHUNK_Z as i32);
}

#[test]
fn load_types_is_a_no_op_on_a_resident_chunk() {
    let mut world = Chunks::new();
    let pos = ChunkPos { x: 0, y: 0, z: 0 };
    flat_chunk_at(&mut world, pos);
    let before = bloc_type(&world, pos, PosInChunk { x: 0, y: 3, z: 0 });
    let solid = vec![BlocType::Stone; CHUNK_VOLUME];
    world.load_types(pos, &solid);
    assert_eq!(bloc_type(&world, pos, PosInChunk { x: 0, y: 3, z: 0 }), before);
}

#[test]
fn vertical_linking_resolves_the_seam() {
    let mut world = Chunks::new();
    let below = ChunkPos { x: 0, y: 0, z: 0 };
    let above = ChunkPos { x: 0, y: 1, z: 0 };
    flat_chunk_at(&mut world, below);
    // a solid slab directly above the flat world's open sky
    let solid = vec![BlocType::Stone; CHUNK_VOLUME];
    world.load_types(above, &solid);
    world.render_chunk(below, None);

    // before linking, the top boundary acts as open sky
    let top = PosInChunk { x: 2, y: (CHUNK_Y - 1) as u8, z: 2 };
    let solid_top_col = ChunkPos { x: 0, y: 0, z: 0 };
    assert_eq!(face_count(&world, solid_top_col, top), 0); // top block is Air here
    let surface = PosInChunk { x: 2, y: 3, z: 2 };
    assert_eq!(face_count(&world, below, surface), 1);

    // linking wires the seam and re-evaluates the boundary blocks; the
    // solid chunk's bottom boundary now sees Air below and emits faces
    world.link_pair(below, blocworld::blocs::Direction::Up);
    let bottom = PosInChunk { x: 2, y: 0, z: 2 };
    let b = world.get(above).unwrap().get(&bottom).unwrap();
    assert!(b.neighbors.down.is_some());
    let faces: Vec<_> = b.faces.0.iter().map(|f| f.dir).collect();
    assert!(faces.contains(&blocworld::blocs::Direction::Down));
}
