//! Block-level unit tests: index math, visibility, names, keys, blending.

use blocworld::blocs::{
    compute_faces, BlocType, Direction, EffectiveNeighbors, Face, PosInChunk,
};
use blocworld::cracks::{blend_channel, composite_crack, crack_texture_key, texture_key};
use blocworld::{CHUNK_VOLUME, CHUNK_X, CHUNK_Y, CHUNK_Z};

fn all_some(t: BlocType) -> EffectiveNeighbors {
    EffectiveNeighbors {
        up: Some(t),
        down: Some(t),
        right: Some(t),
        left: Some(t),
        front: Some(t),
        back: Some(t),
    }
}

#[test]
fn index_round_trip_all_positions() {
    for x in 0..CHUNK_X as u8 {
        for y in 0..CHUNK_Y as u8 {
            for z in 0..CHUNK_Z as u8 {
                let p = PosInChunk { x, y, z };
                let i = p.to_chunk_index();
                assert!(i < CHUNK_VOLUME);
                let q = PosInChunk::from_chunk_index(i);
                assert_eq!((q.x, q.y, q.z), (x, y, z));
            }
        }
    }
    for i in 0..CHUNK_VOLUME {
        assert_eq!(PosInChunk::from_chunk_index(i).to_chunk_index(), i);
    }
}

#[test]
fn index_formula_exact() {
    let p = PosInChunk { x: 3, y: 5, z: 2 };
    assert_eq!(p.to_chunk_index(), 3 + 5 * CHUNK_X + 2 * CHUNK_X * CHUNK_Y);
    assert_eq!(PosInChunk { x: 0, y: 0, z: 0 }.to_chunk_index(), 0);
    assert_eq!(
        PosInChunk { x: 7, y: 15, z: 7 }.to_chunk_index(),
        CHUNK_VOLUME - 1
    );
}

#[test]
fn to_neighbor_steps_one_cell() {
    let p = PosInChunk { x: 3, y: 5, z: 2 };
    let up = p.to_neighbor(Direction::Up);
    assert_eq!((up.x, up.y, up.z), (3, 6, 2));
    let left = p.to_neighbor(Direction::Left);
    assert_eq!((left.x, left.y, left.z), (2, 5, 2));
    let back = p.to_neighbor(Direction::Back);
    assert_eq!((back.x, back.y, back.z), (3, 5, 1));
}

#[test]
fn surrounded_block_emits_no_face() {
    let faces = compute_faces(BlocType::Stone, all_some(BlocType::Dirt));
    assert_eq!(faces.len(), 0);
}

#[test]
fn air_block_emits_no_face() {
    let faces = compute_faces(BlocType::Air, all_some(BlocType::Air));
    assert_eq!(faces.len(), 0);
    let mut eff = all_some(BlocType::Stone);
    eff.up = None;
    assert_eq!(compute_faces(BlocType::Air, eff).len(), 0);
}

#[test]
fn single_open_side_emits_single_face() {
    let mut eff = all_some(BlocType::Dirt);
    eff.front = Some(BlocType::Air);
    let faces = compute_faces(BlocType::Stone, eff);
    assert_eq!(faces.len(), 1);
    assert_eq!(faces[0].dir, Direction::Front);
    assert_eq!(faces[0].material.typ, BlocType::Stone);
}

#[test]
fn top_boundary_missing_up_counts_as_open_sky() {
    let mut eff = all_some(BlocType::Stone);
    eff.up = None;
    let faces = compute_faces(BlocType::Grass, eff);
    assert_eq!(faces.len(), 1);
    assert_eq!(faces[0].dir, Direction::Up);
}

#[test]
fn missing_down_neighbor_emits_no_face() {
    let mut eff = all_some(BlocType::Stone);
    eff.down = None;
    let faces = compute_faces(BlocType::Grass, eff);
    assert_eq!(faces.len(), 0);
}

#[test]
fn missing_side_neighbors_are_skipped() {
    let eff = EffectiveNeighbors {
        up: Some(BlocType::Stone),
        down: None,
        right: None,
        left: None,
        front: None,
        back: None,
    };
    assert_eq!(compute_faces(BlocType::Stone, eff).len(), 0);
}

#[test]
fn faces_come_in_canonical_direction_order() {
    let eff = EffectiveNeighbors {
        up: Some(BlocType::Air),
        down: Some(BlocType::Air),
        right: Some(BlocType::Stone),
        left: Some(BlocType::Air),
        front: Some(BlocType::Stone),
        back: Some(BlocType::Air),
    };
    let faces: Vec<Face> = compute_faces(BlocType::Sand, eff);
    let dirs: Vec<Direction> = faces.iter().map(|f| f.dir).collect();
    assert_eq!(
        dirs,
        vec![Direction::Up, Direction::Down, Direction::Left, Direction::Back]
    );
}

#[test]
fn bloc_type_names() {
    assert_eq!(BlocType::Dirt.name(), "dirt");
    assert_eq!(BlocType::Grass.name(), "grass");
    assert_eq!(BlocType::Stone.name(), "stone");
    assert_eq!(BlocType::Sand.name(), "sand");
    assert_eq!(BlocType::SnowyDirt.name(), "snowy_dirt");
    assert_eq!(BlocType::Air.name(), "air");
}

#[test]
fn direction_names_and_opposites() {
    assert_eq!(Direction::Up.face_to_render_name(), "top");
    assert_eq!(Direction::Down.face_to_render_name(), "bottom");
    assert_eq!(Direction::Front.face_to_render_name(), "front");
    assert_eq!(Direction::Up.opposite(), Direction::Down);
    assert_eq!(Direction::Left.opposite(), Direction::Right);
    assert_eq!(Direction::Back.opposite(), Direction::Front);
    assert_eq!(Direction::list().len(), 6);
}

#[test]
fn texture_keys_have_render_sink_form() {
    assert_eq!(texture_key(BlocType::Dirt, Direction::Up), "dirt/top.png");
    assert_eq!(
        texture_key(BlocType::SnowyDirt, Direction::Back),
        "snowy_dirt/back.png"
    );
    assert_eq!(crack_texture_key(1), "cracks/crack_1.png");
    assert_eq!(crack_texture_key(5), "cracks/crack_5.png");
}

#[test]
fn blend_channel_exact_values() {
    // zero alpha keeps the base, full alpha takes the overlay
    assert_eq!(blend_channel(100, 200, 0), 100);
    assert_eq!(blend_channel(100, 200, 255), 200);
    // (100 * 204 + 200 * 51) / 255 == 120
    assert_eq!(blend_channel(100, 200, 51), 120);
}

#[test]
fn composite_crack_blends_rgb_and_keeps_alpha() {
    let base = vec![100u8, 100, 100, 77, 10, 20, 30, 200];
    let overlay = vec![200u8, 200, 200, 255, 0, 0, 0, 0];
    let out = composite_crack(&base, &overlay);
    // first pixel: overlay alpha 255 takes the overlay color, base alpha kept
    assert_eq!(&out[0..4], &[200, 200, 200, 77]);
    // second pixel: overlay alpha 0 keeps the base entirely
    assert_eq!(&out[4..8], &[10, 20, 30, 200]);
}
