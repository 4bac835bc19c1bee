//! The streaming scheduler: loads at most one missing chunk per tick
//! inside the render radius, unloads every resident chunk outside it, and
//! toggles colliders by the separate, smaller physics radius — visual
//! distance and physical distance are decoupled culling tiers.

use vstd::prelude::*;

use crate::CHUNK_VOLUME;
use crate::blocs::ChunkPos;
use crate::game_state::{ChunkSaves, GameState};
use crate::generation::Generator;
use crate::world::{Chunks, effective_types_spec, fresh_chunk_spec};

verus! {

/// Radius, in chunks, inside which chunks are kept resident and meshed.
pub const RENDER_DISTANCE: u32 = 5;

/// Radius, in chunks, inside which blocks carry colliders. Independent of
/// the render radius.
pub const PHYSIC_DISTANCE: u32 = 2;

/// Squared distance of two chunk positions in the horizontal plane; the
/// vertical axis does not count toward streaming distance.
pub open spec fn planar_dist2_spec(a: ChunkPos, b: ChunkPos) -> int {
    (a.x - b.x) * (a.x - b.x) + (a.z - b.z) * (a.z - b.z)
}

/// Computes the squared planar distance exactly.
pub fn planar_dist2(a: ChunkPos, b: ChunkPos) -> (r: u128)
    ensures
        r == planar_dist2_spec(a, b),
{
    let dx = (a.x as i64 - b.x as i64) as i128;
    let dz = (a.z as i64 - b.z as i64) as i128;
    proof {
        assert(0 <= dx * dx <= 0x1_0000_0000_0000_0000 && 0 <= dz * dz
            <= 0x1_0000_0000_0000_0000 && dx * dx + dz * dz <= 0x2_0000_0000_0000_0000 && dx * dx
            + dz * dz >= 0 && dx * dx + dz * dz == planar_dist2_spec(a, b)) by (nonlinear_arith)
            requires
                dx == a.x as int - b.x as int,
                dz == a.z as int - b.z as int,
                -0x1_0000_0000 < dx < 0x1_0000_0000,
                -0x1_0000_0000 < dz < 0x1_0000_0000,
        ;
    }
    (dx * dx + dz * dz) as u128
}

/// The candidate column (x, z) lies in the square the load scan walks.
pub open spec fn in_scan_square_spec(pc: ChunkPos, x: int, z: int) -> bool {
    pc.x - RENDER_DISTANCE <= x < pc.x + RENDER_DISTANCE && pc.z - RENDER_DISTANCE <= z < pc.z
        + RENDER_DISTANCE
}

/// The streaming load decision: the first candidate chunk position
/// within the squared render radius around the viewer that is not yet
/// resident, or `None` when every candidate inside the radius is. The
/// shell that runs an external generator asks here, produces the type
/// array, and hands it to `Chunks::load_generated`.
pub fn next_missing_chunk(chunks: &Chunks, player_chunk: ChunkPos) -> (r: Option<ChunkPos>)
    requires
        chunks.wf(),
        i32::MIN + RENDER_DISTANCE <= player_chunk.x <= i32::MAX - RENDER_DISTANCE,
        i32::MIN + RENDER_DISTANCE <= player_chunk.z <= i32::MAX - RENDER_DISTANCE,
    ensures
        match r {
            None => forall|x: int, z: int|
                in_scan_square_spec(player_chunk, x, z) && planar_dist2_spec(
                    ChunkPos { x: x as i32, y: 0, z: z as i32 },
                    player_chunk,
                ) <= RENDER_DISTANCE * RENDER_DISTANCE ==> #[trigger] chunks@.contains_key(
                    ChunkPos { x: x as i32, y: 0, z: z as i32 },
                ),
            Some(p) => !chunks@.contains_key(p) && p.y == 0 && in_scan_square_spec(
                player_chunk,
                p.x as int,
                p.z as int,
            ) && planar_dist2_spec(p, player_chunk) <= RENDER_DISTANCE * RENDER_DISTANCE && (
            // `p` is the first such candidate in scan order: every earlier
            // in-radius candidate is already resident
            forall|xi: int, zi: int|
                in_scan_square_spec(player_chunk, xi, zi) && (xi < p.x || (xi == p.x && zi < p.z))
                    && planar_dist2_spec(
                    ChunkPos { x: xi as i32, y: 0, z: zi as i32 },
                    player_chunk,
                ) <= RENDER_DISTANCE * RENDER_DISTANCE ==> #[trigger] chunks@.contains_key(
                    ChunkPos { x: xi as i32, y: 0, z: zi as i32 },
                )),
        },
{
    let x_lo = player_chunk.x - RENDER_DISTANCE as i32;
    let x_hi = player_chunk.x + RENDER_DISTANCE as i32;
    let z_lo = player_chunk.z - RENDER_DISTANCE as i32;
    let z_hi = player_chunk.z + RENDER_DISTANCE as i32;
    let mut x = x_lo;
    while x < x_hi
        invariant
            chunks.wf(),
            x_lo == player_chunk.x - RENDER_DISTANCE,
            x_hi == player_chunk.x + RENDER_DISTANCE,
            z_lo == player_chunk.z - RENDER_DISTANCE,
            z_hi == player_chunk.z + RENDER_DISTANCE,
            x_lo <= x <= x_hi,
            forall|xi: int, zi: int|
                x_lo <= xi < x && z_lo <= zi < z_hi && planar_dist2_spec(
                    ChunkPos { x: xi as i32, y: 0, z: zi as i32 },
                    player_chunk,
                ) <= RENDER_DISTANCE * RENDER_DISTANCE ==> #[trigger] chunks@.contains_key(
                    ChunkPos { x: xi as i32, y: 0, z: zi as i32 },
                ),
        decreases x_hi - x,
    {
        let mut z = z_lo;
        while z < z_hi
            invariant
                chunks.wf(),
                x_lo == player_chunk.x - RENDER_DISTANCE,
                x_hi == player_chunk.x + RENDER_DISTANCE,
                z_lo == player_chunk.z - RENDER_DISTANCE,
                z_hi == player_chunk.z + RENDER_DISTANCE,
                x_lo <= x < x_hi,
                z_lo <= z <= z_hi,
                forall|xi: int, zi: int|
                    x_lo <= xi < x && z_lo <= zi < z_hi && planar_dist2_spec(
                        ChunkPos { x: xi as i32, y: 0, z: zi as i32 },
                        player_chunk,
                    ) <= RENDER_DISTANCE * RENDER_DISTANCE ==> #[trigger] chunks@.contains_key(
                        ChunkPos { x: xi as i32, y: 0, z: zi as i32 },
                ),
                forall|zi: int|
                    z_lo <= zi < z && planar_dist2_spec(
                        ChunkPos { x: x as i32, y: 0, z: zi as i32 },
                        player_chunk,
                    ) <= RENDER_DISTANCE * RENDER_DISTANCE ==> #[trigger] chunks@.contains_key(
                        ChunkPos { x: x as i32, y: 0, z: zi as i32 },
                ),
            decreases z_hi - z,
        {
            let cand = ChunkPos { x, y: 0, z };
            let d2 = planar_dist2(cand, player_chunk);
            if d2 <= (RENDER_DISTANCE * RENDER_DISTANCE) as u128 {
                if !chunks.contains(cand) {
                    return Some(cand);
                }
            }
            z = z + 1;
        }
        x = x + 1;
    }
    None
}

/// The streaming load pass: walks the candidate chunk positions within
/// the squared render radius around the viewer and loads the first
/// missing one — at most one chunk instantiated per tick, bounding
/// per-tick latency. Returns the position it loaded, or `None` when every
/// candidate inside the radius is already resident.
pub fn load_chunks<G: Generator>(
    chunks: &mut Chunks,
    gen: &G,
    player_chunk: ChunkPos,
    chunk_saves: &ChunkSaves,
    game_state: &mut GameState,
) -> (loaded: Option<ChunkPos>)
    requires
        old(chunks).wf(),
        chunk_saves.wf(),
        old(game_state).wf(),
        i32::MIN + RENDER_DISTANCE <= player_chunk.x <= i32::MAX - RENDER_DISTANCE,
        i32::MIN + RENDER_DISTANCE <= player_chunk.z <= i32::MAX - RENDER_DISTANCE,
    ensures
        final(chunks).wf(),
        final(game_state).wf(),
        match loaded {
            None => final(chunks)@ == old(chunks)@ && final(game_state)@ == old(game_state)@ && (
            forall|x: int, z: int|
                in_scan_square_spec(player_chunk, x, z) && planar_dist2_spec(
                    ChunkPos { x: x as i32, y: 0, z: z as i32 },
                    player_chunk,
                ) <= RENDER_DISTANCE * RENDER_DISTANCE ==> #[trigger] old(chunks)@.contains_key(
                    ChunkPos { x: x as i32, y: 0, z: z as i32 },
                )),
            Some(p) => {
                &&& !old(chunks)@.contains_key(p)
                &&& p.y == 0
                &&& in_scan_square_spec(player_chunk, p.x as int, p.z as int)
                &&& planar_dist2_spec(p, player_chunk) <= RENDER_DISTANCE * RENDER_DISTANCE
                &&& forall|xi: int, zi: int|
                    in_scan_square_spec(player_chunk, xi, zi) && (xi < p.x || (xi == p.x && zi
                        < p.z)) && planar_dist2_spec(
                        ChunkPos { x: xi as i32, y: 0, z: zi as i32 },
                        player_chunk,
                    ) <= RENDER_DISTANCE * RENDER_DISTANCE ==> #[trigger] old(
                        chunks,
                    )@.contains_key(ChunkPos { x: xi as i32, y: 0, z: zi as i32 })
                &&& final(chunks)@.dom() == old(chunks)@.dom().insert(p)
                &&& forall|c: ChunkPos| #![auto]
                    old(chunks)@.contains_key(c) && c != p ==> final(chunks)@[c] == old(chunks)@[c]
                &&& (old(game_state)@.contains_key(p) ==> final(game_state)@ == old(game_state)@
                    && fresh_chunk_spec(final(chunks)@[p], p, old(game_state)@[p].0@))
                &&& (!old(game_state)@.contains_key(p) ==> {
                    let types = effective_types_spec(gen.types_spec(p), chunk_saves@, p);
                    final(game_state)@ == old(game_state)@.insert(p, final(game_state)@[p])
                        && final(game_state)@[p].0@ == types && fresh_chunk_spec(
                        final(chunks)@[p],
                        p,
                        types,
                    )
                })
            },
        },
{
    match next_missing_chunk(chunks, player_chunk) {
        None => None,
        Some(p) => {
            chunks.load_or_generate(gen, p, chunk_saves, game_state);
            proof {
                assert(final(chunks)@.dom() =~= old(chunks)@.dom().insert(p));
            }
            Some(p)
        },
    }
}

/// The streaming unload pass: every resident chunk whose squared planar
/// distance to the viewer exceeds the render radius is unlinked from its
/// neighbors and destroyed. Afterwards all resident chunks lie inside the
/// radius, and no chunk inside the radius was touched by residency — the
/// pass only removes.
pub fn unload_chunks(chunks: &mut Chunks, player_chunk: ChunkPos)
    requires
        old(chunks).wf(),
    ensures
        final(chunks).wf(),
        forall|p: ChunkPos|
            #[trigger] final(chunks)@.contains_key(p) ==> old(chunks)@.contains_key(p)
                && planar_dist2_spec(p, player_chunk) <= RENDER_DISTANCE * RENDER_DISTANCE,
        forall|p: ChunkPos|
            old(chunks)@.contains_key(p) && planar_dist2_spec(p, player_chunk) <= RENDER_DISTANCE
                * RENDER_DISTANCE ==> #[trigger] final(chunks)@.contains_key(p),
        forall|p: ChunkPos| #![auto]
            final(chunks)@.contains_key(p) ==> final(chunks)@[p].pos == old(chunks)@[p].pos
                && final(chunks)@[p].blocs.0@.len() == old(chunks)@[p].blocs.0@.len(),
        forall|p: ChunkPos, j: int| #![trigger final(chunks)@[p].blocs.0@[j]]
            final(chunks)@.contains_key(p) && 0 <= j < old(chunks)@[p].blocs.0@.len()
                ==> crate::world::slots_cleared_or_same_spec(
                old(chunks)@[p].blocs.0@[j],
                final(chunks)@[p].blocs.0@[j],
            ),
{
    let ps = chunks.positions();
    let n = ps.len();
    proof {
        assert forall|j1: int, j2: int| 0 <= j1 < j2 < n implies #[trigger] ps@[j1] != (
        #[trigger] ps@[j2]) by {
            assert(old(chunks).inner@[j1].0 != old(chunks).inner@[j2].0);
        }
        assert forall|p: ChunkPos| #[trigger] old(chunks)@.contains_key(p) implies exists|j: int|
            0 <= j < n && ps@[j] == p by {
            crate::assoc::lemma_assoc_map_contains(old(chunks).inner@, p);
            let j = choose|j: int|
                0 <= j < old(chunks).inner@.len() && (#[trigger] old(chunks).inner@[j]).0 == p;
            assert(ps@[j] == p);
        }
    }
    let mut i: usize = 0;
    while i < n
        invariant
            chunks.wf(),
            i <= n,
            n == ps@.len(),
            forall|j1: int, j2: int| 0 <= j1 < j2 < n ==> #[trigger] ps@[j1] != (#[trigger] ps@[j2]),
            forall|p: ChunkPos| #[trigger] old(chunks)@.contains_key(p) ==> exists|j: int|
                0 <= j < n && ps@[j] == p,
            forall|p: ChunkPos|
                #[trigger] chunks@.contains_key(p) ==> old(chunks)@.contains_key(p),
            forall|j: int|
                0 <= j < i && planar_dist2_spec(#[trigger] ps@[j], player_chunk) > RENDER_DISTANCE
                    * RENDER_DISTANCE ==> !chunks@.contains_key(ps@[j]),
            forall|j: int| i <= j < n ==> chunks@.contains_key(#[trigger] ps@[j]),
            forall|p: ChunkPos|
                old(chunks)@.contains_key(p) && planar_dist2_spec(p, player_chunk)
                    <= RENDER_DISTANCE * RENDER_DISTANCE ==> #[trigger] chunks@.contains_key(p),
            forall|p: ChunkPos| #![auto]
                chunks@.contains_key(p) ==> chunks@[p].pos == old(chunks)@[p].pos
                    && chunks@[p].blocs.0@.len() == old(chunks)@[p].blocs.0@.len(),
            forall|p: ChunkPos, j: int| #![trigger chunks@[p].blocs.0@[j]]
                chunks@.contains_key(p) && 0 <= j < old(chunks)@[p].blocs.0@.len()
                    ==> crate::world::slots_cleared_or_same_spec(
                    old(chunks)@[p].blocs.0@[j],
                    chunks@[p].blocs.0@[j],
                ),
        decreases n - i,
    {
        let pos = ps[i];
        let d2 = planar_dist2(pos, player_chunk);
        if d2 > (RENDER_DISTANCE * RENDER_DISTANCE) as u128 {
            let ghost wpre = chunks@;
            chunks.unload(pos);
            proof {
                assert forall|p: ChunkPos, j: int| #![trigger chunks@[p].blocs.0@[j]]
                    chunks@.contains_key(p) && 0 <= j < old(chunks)@[p].blocs.0@.len() implies
                    crate::world::slots_cleared_or_same_spec(
                    old(chunks)@[p].blocs.0@[j],
                    chunks@[p].blocs.0@[j],
                ) by {
                    assert(crate::world::slots_cleared_or_same_spec(
                        wpre[p].blocs.0@[j],
                        chunks@[p].blocs.0@[j],
                    ));
                    crate::world::lemma_slots_cleared_trans(
                        old(chunks)@[p].blocs.0@[j],
                        wpre[p].blocs.0@[j],
                        chunks@[p].blocs.0@[j],
                    );
                }
            }
        }
        i = i + 1;
    }
    proof {
        assert forall|p: ChunkPos| #[trigger] final(chunks)@.contains_key(p) implies old(
            chunks,
        )@.contains_key(p) && planar_dist2_spec(p, player_chunk) <= RENDER_DISTANCE
            * RENDER_DISTANCE by {
            let j = choose|j: int| 0 <= j < n && ps@[j] == p;
        }
    }
}

} // verus!

verus! {

use crate::chunk::Bloc;
use crate::world::{has_visible_face, faces_in_world_spec, lemma_faces_stable, same_types};

/// The physics culling pass: inside the physics radius every block's
/// collider is recomputed from its visibility (present iff a face is
/// visible); outside it every collider is detached. Chunk residency and
/// faces are untouched: visual and physical distance are independent
/// tiers.
pub fn render_physic(chunks: &mut Chunks, player_chunk: ChunkPos)
    requires
        old(chunks).wf(),
    ensures
        final(chunks).wf(),
        final(chunks)@.dom() == old(chunks)@.dom(),
        same_types(old(chunks)@, final(chunks)@),
        forall|c: ChunkPos| #![auto]
            old(chunks)@.contains_key(c) ==> final(chunks)@[c].pos == old(chunks)@[c].pos && final(chunks)@[c].neighbors_are_linked == old(chunks)@[c].neighbors_are_linked && final(chunks)@[c].blocs.0@.len() == old(chunks)@[c].blocs.0@.len(),
        forall|c: ChunkPos, j: int| #![trigger final(chunks)@[c].blocs.0@[j]]
            old(chunks)@.contains_key(c) && 0 <= j < old(chunks)@[c].blocs.0@.len() ==> {
                let b0 = old(chunks)@[c].blocs.0@[j];
                let b1 = final(chunks)@[c].blocs.0@[j];
                b1 == (Bloc { has_collider: b1.has_collider, ..b0 }) && b1.has_collider == (
                if planar_dist2_spec(c, player_chunk) < PHYSIC_DISTANCE * PHYSIC_DISTANCE {
                    has_visible_face(final(chunks)@, b1)
                } else {
                    false
                })
            },
{
    let ps = chunks.positions();
    let n = ps.len();
    proof {
        assert forall|j1: int, j2: int| 0 <= j1 < j2 < n implies #[trigger] ps@[j1] != (
        #[trigger] ps@[j2]) by {
            assert(old(chunks).inner@[j1].0 != old(chunks).inner@[j2].0);
        }
        assert forall|p: ChunkPos| #[trigger] old(chunks)@.contains_key(p) implies exists|j: int|
            0 <= j < n && ps@[j] == p by {
            crate::assoc::lemma_assoc_map_contains(old(chunks).inner@, p);
            let j = choose|j: int|
                0 <= j < old(chunks).inner@.len() && (#[trigger] old(chunks).inner@[j]).0 == p;
            assert(ps@[j] == p);
        }
    }
    let mut i: usize = 0;
    while i < n
        invariant
            chunks.wf(),
            i <= n,
            n == ps@.len(),
            forall|j1: int, j2: int| 0 <= j1 < j2 < n ==> #[trigger] ps@[j1] != (#[trigger] ps@[j2]),
            forall|j: int| 0 <= j < n ==> old(chunks)@.contains_key(#[trigger] ps@[j]),
            chunks@.dom() == old(chunks)@.dom(),
            same_types(old(chunks)@, chunks@),
            forall|c: ChunkPos| #![auto]
                old(chunks)@.contains_key(c) ==> chunks@[c].pos == old(chunks)@[c].pos
                    && chunks@[c].neighbors_are_linked == old(chunks)@[c].neighbors_are_linked
                    && chunks@[c].blocs.0@.len() == old(chunks)@[c].blocs.0@.len(),
            forall|c: ChunkPos, j: int| #![trigger chunks@[c].blocs.0@[j]]
                old(chunks)@.contains_key(c) && 0 <= j < old(chunks)@[c].blocs.0@.len() ==> {
                    let b0 = old(chunks)@[c].blocs.0@[j];
                    let b1 = chunks@[c].blocs.0@[j];
                    b1 == (Bloc { has_collider: b1.has_collider, ..b0 })
                },
            forall|k: int| i <= k < n ==> chunks@[#[trigger] ps@[k]] == old(chunks)@[ps@[k]],
            forall|k: int, j: int| #![trigger chunks@[ps@[k]].blocs.0@[j]]
                0 <= k < i && 0 <= j < old(chunks)@[ps@[k]].blocs.0@.len() ==> {
                    let b1 = chunks@[ps@[k]].blocs.0@[j];
                    b1.has_collider == (if planar_dist2_spec(ps@[k], player_chunk)
                        < PHYSIC_DISTANCE * PHYSIC_DISTANCE {
                        has_visible_face(chunks@, b1)
                    } else {
                        false
                    })
                },
        decreases n - i,
    {
        let pos = ps[i];
        let ghost wpre = chunks@;
        let d2 = planar_dist2(pos, player_chunk);
        if d2 < (PHYSIC_DISTANCE * PHYSIC_DISTANCE) as u128 {
            chunks.load_physic(pos);
        } else {
            chunks.unload_physic(pos);
        }
        proof {
            lemma_faces_stable(wpre, chunks@);
            lemma_faces_stable(old(chunks)@, chunks@);
            crate::linking::lemma_same_types_trans(old(chunks)@, wpre, chunks@);
            assert forall|k: int, j: int| #![trigger chunks@[ps@[k]].blocs.0@[j]]
                0 <= k < i + 1 && 0 <= j < old(chunks)@[ps@[k]].blocs.0@.len() implies {
                let b1 = chunks@[ps@[k]].blocs.0@[j];
                b1.has_collider == (if planar_dist2_spec(ps@[k], player_chunk) < PHYSIC_DISTANCE
                    * PHYSIC_DISTANCE {
                    has_visible_face(chunks@, b1)
                } else {
                    false
                })
            } by {
                if k < i {
                    assert(ps@[k] != ps@[i as int]);
                    assert(chunks@[ps@[k]].blocs.0@[j] == wpre[ps@[k]].blocs.0@[j]);
                    assert(has_visible_face(wpre, wpre[ps@[k]].blocs.0@[j]) == has_visible_face(
                        chunks@,
                        chunks@[ps@[k]].blocs.0@[j],
                    ));
                }
            }
        }
        i = i + 1;
    }
    proof {
        assert forall|c: ChunkPos, j: int| #![trigger final(chunks)@[c].blocs.0@[j]]
            old(chunks)@.contains_key(c) && 0 <= j < old(chunks)@[c].blocs.0@.len() implies {
            let b0 = old(chunks)@[c].blocs.0@[j];
            let b1 = final(chunks)@[c].blocs.0@[j];
            b1 == (Bloc { has_collider: b1.has_collider, ..b0 }) && b1.has_collider == (if
                planar_dist2_spec(c, player_chunk) < PHYSIC_DISTANCE * PHYSIC_DISTANCE {
                has_visible_face(final(chunks)@, b1)
            } else {
                false
            })
        } by {
            let k = choose|k: int| 0 <= k < n && ps@[k] == c;
            assert(chunks@[ps@[k]].blocs.0@[j] == final(chunks)@[c].blocs.0@[j]);
        }
    }
}

/// Re-evaluates the visibility of every block of every resident chunk and
/// recomputes every collider by the physics radius. Afterwards each block
/// shows exactly the face set the final world dictates.
pub fn render_all(chunks: &mut Chunks, player_chunk: ChunkPos)
    requires
        old(chunks).wf(),
    ensures
        final(chunks).wf(),
        final(chunks)@.dom() == old(chunks)@.dom(),
        same_types(old(chunks)@, final(chunks)@),
        forall|c: ChunkPos| #![auto]
            old(chunks)@.contains_key(c) ==> final(chunks)@[c].pos == old(chunks)@[c].pos && final(chunks)@[c].neighbors_are_linked == old(chunks)@[c].neighbors_are_linked && final(chunks)@[c].blocs.0@.len() == old(chunks)@[c].blocs.0@.len(),
        forall|c: ChunkPos, j: int| #![trigger final(chunks)@[c].blocs.0@[j]]
            old(chunks)@.contains_key(c) && 0 <= j < old(chunks)@[c].blocs.0@.len() ==> {
                let b0 = old(chunks)@[c].blocs.0@[j];
                let b1 = final(chunks)@[c].blocs.0@[j];
                b1.pos_in_chunk == b0.pos_in_chunk && b1.typ == b0.typ && b1.neighbors
                    == b0.neighbors && b1.faces.0@ == faces_in_world_spec(final(chunks)@, b1)
                    && b1.has_collider == (planar_dist2_spec(c, player_chunk) < PHYSIC_DISTANCE
                    * PHYSIC_DISTANCE && has_visible_face(final(chunks)@, b1))
            },
{
    let ps = chunks.positions();
    let n = ps.len();
    proof {
        assert forall|j1: int, j2: int| 0 <= j1 < j2 < n implies #[trigger] ps@[j1] != (
        #[trigger] ps@[j2]) by {
            assert(old(chunks).inner@[j1].0 != old(chunks).inner@[j2].0);
        }
        assert forall|p: ChunkPos| #[trigger] old(chunks)@.contains_key(p) implies exists|j: int|
            0 <= j < n && ps@[j] == p by {
            crate::assoc::lemma_assoc_map_contains(old(chunks).inner@, p);
            let j = choose|j: int|
                0 <= j < old(chunks).inner@.len() && (#[trigger] old(chunks).inner@[j]).0 == p;
            assert(ps@[j] == p);
        }
    }
    let mut i: usize = 0;
    while i < n
        invariant
            chunks.wf(),
            i <= n,
            n == ps@.len(),
            forall|j1: int, j2: int| 0 <= j1 < j2 < n ==> #[trigger] ps@[j1] != (#[trigger] ps@[j2]),
            forall|j: int| 0 <= j < n ==> old(chunks)@.contains_key(#[trigger] ps@[j]),
            chunks@.dom() == old(chunks)@.dom(),
            same_types(old(chunks)@, chunks@),
            forall|c: ChunkPos| #![auto]
                old(chunks)@.contains_key(c) ==> chunks@[c].pos == old(chunks)@[c].pos
                    && chunks@[c].neighbors_are_linked == old(chunks)@[c].neighbors_are_linked
                    && chunks@[c].blocs.0@.len() == old(chunks)@[c].blocs.0@.len(),
            forall|c: ChunkPos, j: int| #![trigger chunks@[c].blocs.0@[j]]
                old(chunks)@.contains_key(c) && 0 <= j < old(chunks)@[c].blocs.0@.len() ==> {
                    let b0 = old(chunks)@[c].blocs.0@[j];
                    let b1 = chunks@[c].blocs.0@[j];
                    b1.pos_in_chunk == b0.pos_in_chunk && b1.typ == b0.typ && b1.neighbors
                        == b0.neighbors
                },
            forall|k: int| i <= k < n ==> chunks@[#[trigger] ps@[k]] == old(chunks)@[ps@[k]],
            forall|k: int, j: int| #![trigger chunks@[ps@[k]].blocs.0@[j]]
                0 <= k < i && 0 <= j < old(chunks)@[ps@[k]].blocs.0@.len() ==> {
                    let b1 = chunks@[ps@[k]].blocs.0@[j];
                    b1.faces.0@ == faces_in_world_spec(chunks@, b1) && b1.has_collider == (
                    planar_dist2_spec(ps@[k], player_chunk) < PHYSIC_DISTANCE * PHYSIC_DISTANCE
                        && has_visible_face(chunks@, b1))
                },
        decreases n - i,
    {
        let pos = ps[i];
        let ghost wpre = chunks@;
        let d2 = planar_dist2(pos, player_chunk);
        let need_physic = d2 < (PHYSIC_DISTANCE * PHYSIC_DISTANCE) as u128;
        chunks.render_chunk(pos, Some(need_physic));
        proof {
            lemma_faces_stable(wpre, chunks@);
            lemma_faces_stable(old(chunks)@, chunks@);
            crate::linking::lemma_same_types_trans(old(chunks)@, wpre, chunks@);
            assert forall|k: int, j: int| #![trigger chunks@[ps@[k]].blocs.0@[j]]
                0 <= k < i + 1 && 0 <= j < old(chunks)@[ps@[k]].blocs.0@.len() implies {
                let b1 = chunks@[ps@[k]].blocs.0@[j];
                b1.faces.0@ == faces_in_world_spec(chunks@, b1) && b1.has_collider == (
                planar_dist2_spec(ps@[k], player_chunk) < PHYSIC_DISTANCE * PHYSIC_DISTANCE
                    && has_visible_face(chunks@, b1))
            } by {
                if k < i {
                    assert(ps@[k] != ps@[i as int]);
                    assert(chunks@[ps@[k]].blocs.0@[j] == wpre[ps@[k]].blocs.0@[j]);
                    assert(faces_in_world_spec(wpre, wpre[ps@[k]].blocs.0@[j])
                        == faces_in_world_spec(chunks@, chunks@[ps@[k]].blocs.0@[j]));
                } else {
                    assert(chunks@[ps@[k]].blocs.0@[j].faces.0@ == faces_in_world_spec(
                        chunks@,
                        chunks@[ps@[k]].blocs.0@[j],
                    ));
                }
            }
        }
        i = i + 1;
    }
    proof {
        assert forall|c: ChunkPos, j: int| #![trigger final(chunks)@[c].blocs.0@[j]]
            old(chunks)@.contains_key(c) && 0 <= j < old(chunks)@[c].blocs.0@.len() implies {
            let b0 = old(chunks)@[c].blocs.0@[j];
            let b1 = final(chunks)@[c].blocs.0@[j];
            b1.pos_in_chunk == b0.pos_in_chunk && b1.typ == b0.typ && b1.neighbors == b0.neighbors
                && b1.faces.0@ == faces_in_world_spec(final(chunks)@, b1) && b1.has_collider == (
            planar_dist2_spec(c, player_chunk) < PHYSIC_DISTANCE * PHYSIC_DISTANCE
                && has_visible_face(final(chunks)@, b1))
        } by {
            let k = choose|k: int| 0 <= k < n && ps@[k] == c;
            assert(chunks@[ps@[k]].blocs.0@[j] == final(chunks)@[c].blocs.0@[j]);
        }
    }
}

} // verus!
