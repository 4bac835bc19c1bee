//! The block-destruction state machine: per-viewer target tracking,
//! progressive damage with staged crack overlays, and commit on
//! completion. Progress is measured in milliseconds of held trigger time;
//! a block completes after one full second.

use vstd::prelude::*;

use crate::CHUNK_VOLUME;
use crate::blocs::{BlocRef, BlocType, ChunkPos, DestructionLevel, Face, FaceMaterial, PosInChunk};
use crate::chunk::Bloc;
use crate::game_state::{ChunkSaves, GameState};
use crate::world::{
    Chunks, bloc_at, faces_in_world_spec, is_neighbor_slot_spec, ref_in_world,
};

verus! {

/// Progress needed to destroy a block, in milliseconds.
pub const DESTRUCTION_COMPLETE_MS: u32 = 1000;

/// Per-viewer destruction state: the targeted block and the progress
/// accumulated on it, or nothing while no block is being destroyed.
#[derive(Clone, Copy, Debug, PartialEq, Eq)]
pub struct BlocBeingDestroyed(pub Option<(BlocRef, u32)>);

impl BlocBeingDestroyed {
    /// Stored progress is always short of completion: reaching the
    /// threshold commits the destruction and resets the state.
    pub open spec fn wf(self) -> bool {
        match self.0 {
            Some((_, p)) => p < DESTRUCTION_COMPLETE_MS,
            None => true,
        }
    }

    /// No block being destroyed.
    pub fn new() -> (r: Self)
        ensures
            r.wf(),
            r.0 == Option::<(BlocRef, u32)>::None,
    {
        BlocBeingDestroyed(None)
    }
}

/// The damage stage newly crossed when progress moves from `old_ms` to
/// `new_ms` on the same target: one stage per fifth of the completion
/// threshold.
pub open spec fn crack_stage_spec(old_ms: int, new_ms: int) -> Option<u8> {
    if old_ms < 200 && new_ms >= 200 {
        Some(1u8)
    } else if old_ms < 400 && new_ms >= 400 {
        Some(2u8)
    } else if old_ms < 600 && new_ms >= 600 {
        Some(3u8)
    } else if old_ms < 800 && new_ms >= 800 {
        Some(4u8)
    } else {
        None
    }
}

/// The damage overlay level shown for stage `n` (stage 0 is the freshly
/// targeted block).
pub open spec fn stage_level_spec(n: int) -> DestructionLevel {
    if n == 0 {
        DestructionLevel::One
    } else if n == 1 {
        DestructionLevel::Two
    } else if n == 2 {
        DestructionLevel::Three
    } else if n == 3 {
        DestructionLevel::Four
    } else {
        DestructionLevel::Five
    }
}

/// Computes the damage overlay level for a stage.
pub fn stage_level(n: u8) -> (r: DestructionLevel)
    ensures
        r == stage_level_spec(n as int),
{
    if n == 0 {
        DestructionLevel::One
    } else if n == 1 {
        DestructionLevel::Two
    } else if n == 2 {
        DestructionLevel::Three
    } else if n == 3 {
        DestructionLevel::Four
    } else {
        DestructionLevel::Five
    }
}

/// A face with its damage overlay advanced to `lvl`: the crack texture is
/// composited onto the base texture and staged as the next material, so
/// the swap happens only once the replacement asset is ready.
pub open spec fn damaged_face_spec(f: Face, lvl: DestructionLevel) -> Face {
    Face {
        destruction_level: lvl,
        next_material: Some(
            FaceMaterial { typ: f.base_material.typ, dir: f.base_material.dir, crack: lvl },
        ),
        ..f
    }
}

/// A face with its damage overlay reset: back to the base material (staged
/// for hand-off) and the undamaged level; an undamaged face is untouched.
pub open spec fn reset_face_spec(f: Face) -> Face {
    if f.destruction_level != DestructionLevel::Zero {
        Face { destruction_level: DestructionLevel::Zero, next_material: Some(f.base_material), ..f }
    } else {
        f
    }
}

impl Chunks {
    /// Advances the damage overlay of every face of one block to `lvl`.
    fn apply_damage(&mut self, br: BlocRef, lvl: DestructionLevel)
        requires
            old(self).wf(),
            ref_in_world(old(self)@, br),
        ensures
            final(self).wf(),
            final(self)@.dom() == old(self)@.dom(),
            crate::world::same_types(old(self)@, final(self)@),
            forall|c: ChunkPos| #![auto]
                old(self)@.contains_key(c) && c != br.chunk ==> final(self)@[c] == old(self)@[c],
            final(self)@[br.chunk].pos == old(self)@[br.chunk].pos,
            final(self)@[br.chunk].neighbors_are_linked == old(self)@[br.chunk].neighbors_are_linked,
            final(self)@[br.chunk].blocs.0@.len() == old(self)@[br.chunk].blocs.0@.len(),
            forall|j: int| #![auto]
                0 <= j < old(self)@[br.chunk].blocs.0@.len() && j != br.index ==> final(self)@[br.chunk].blocs.0@[j] == old(self)@[br.chunk].blocs.0@[j],
            bloc_at(final(self)@, br).pos_in_chunk == bloc_at(old(self)@, br).pos_in_chunk,
            bloc_at(final(self)@, br).typ == bloc_at(old(self)@, br).typ,
            bloc_at(final(self)@, br).neighbors == bloc_at(old(self)@, br).neighbors,
            bloc_at(final(self)@, br).has_collider == bloc_at(old(self)@, br).has_collider,
            bloc_at(final(self)@, br).faces.0@.len() == bloc_at(old(self)@, br).faces.0@.len(),
            forall|k: int| #![auto]
                0 <= k < bloc_at(old(self)@, br).faces.0@.len() ==> bloc_at(
                    final(self)@,
                    br,
                ).faces.0@[k] == damaged_face_spec(bloc_at(old(self)@, br).faces.0@[k], lvl),
    {
        let i = match self.find_index(br.chunk) {
            Some(i) => i,
            None => {
                proof {
                    assert(false);
                }
                return ;
            },
        };
        let mut entry = self.inner.remove(i);
        let mut b = entry.1.blocs.0.remove(br.index);
        let n = b.faces.0.len();
        let mut new_faces: Vec<Face> = Vec::new();
        let mut k: usize = 0;
        while k < n
            invariant
                n == b.faces.0@.len(),
                k <= n,
                new_faces@.len() == k,
                forall|m: int|
                    0 <= m < k ==> #[trigger] new_faces@[m] == damaged_face_spec(
                        b.faces.0@[m],
                        lvl,
                    ),
            decreases n - k,
        {
            let f = b.faces.0[k];
            new_faces.push(
                Face {
                    destruction_level: lvl,
                    next_material: Some(
                        FaceMaterial {
                            typ: f.base_material.typ,
                            dir: f.base_material.dir,
                            crack: lvl,
                        },
                    ),
                    ..f
                },
            );
            k = k + 1;
        }
        b.faces = crate::blocs::BlocFaces(new_faces);
        let ghost gb = b;
        entry.1.blocs.0.insert(br.index, b);
        let ghost gentry = entry;
        self.inner.push(entry);
        proof {
            let s0 = old(self).inner@;
            crate::assoc::lemma_assoc_map_index(s0, i as int);
            crate::assoc::lemma_assoc_map_remove(s0, i as int);
            let removed = s0.remove(i as int);
            assert(forall|j: int|
                0 <= j < removed.len() ==> (#[trigger] removed[j]) == if j < i as int {
                    s0[j]
                } else {
                    s0[j + 1]
                });
            assert(forall|j: int| 0 <= j < removed.len() ==> (#[trigger] removed[j]).0 != br.chunk);
            crate::assoc::lemma_assoc_map_push(removed, br.chunk, gentry.1);
            assert(final(self)@ =~= old(self)@.insert(br.chunk, gentry.1));
            assert(final(self)@.dom() =~= old(self)@.dom());
            assert(gentry.1.blocs.0@ =~= old(self)@[br.chunk].blocs.0@.update(br.index as int, gb));
            assert(final(self).wf());
            assert(crate::world::same_types(old(self)@, final(self)@));
        }
    }
}

/// One tick of the destruction state machine, from the viewer inputs of
/// the tick: whether the primary trigger is held, what the ray-cast hit,
/// and the elapsed time. Releasing the trigger resets the state; a ray
/// miss changes nothing this tick; a target change restarts progress at
/// zero. Fixed progress thresholds advance a staged damage overlay on the
/// target's faces. At the completion threshold the block's type is set to
/// Air, its faces and collider are cleared, the edit is recorded into the
/// save overlay, all six wired neighbors are re-evaluated, and the state
/// resets.
pub fn destroy_bloc(
    chunks: &mut Chunks,
    game_state: &mut GameState,
    chunk_saves: &mut ChunkSaves,
    bbd: &mut BlocBeingDestroyed,
    trigger_held: bool,
    ray_hit: Option<BlocRef>,
    delta_ms: u32,
)
    requires
        old(chunks).wf(),
        old(game_state).wf(),
        old(chunk_saves).wf(),
        old(bbd).wf(),
        delta_ms <= u32::MAX - (DESTRUCTION_COMPLETE_MS - 1),
        match ray_hit {
            Some(t) => ref_in_world(old(chunks)@, t) && old(game_state)@.contains_key(t.chunk),
            None => true,
        },
    ensures
        final(chunks).wf(),
        final(game_state).wf(),
        final(chunk_saves).wf(),
        final(bbd).wf(),
        !trigger_held ==> final(bbd).0 == Option::<(BlocRef, u32)>::None && final(chunks)@ == old(
            chunks,
        )@ && final(game_state)@ == old(game_state)@ && final(chunk_saves)@ == old(chunk_saves)@,
        trigger_held && ray_hit == Option::<BlocRef>::None ==> *final(bbd) == *old(bbd) && final(chunks)@ == old(chunks)@ && final(game_state)@ == old(game_state)@ && final(chunk_saves)@ == old(
            chunk_saves,
        )@,
        (trigger_held && ray_hit matches Some(target)) ==> {
            let target = ray_hit.unwrap();
            let fresh = match old(bbd).0 {
                None => true,
                Some((cur, _)) => cur != target,
            };
            let oldp = match old(bbd).0 {
                Some((_, p)) => p as int,
                None => 0,
            };
            let np = if fresh {
                0
            } else {
                oldp + delta_ms
            };
            let stage = if fresh {
                Some(0u8)
            } else {
                crack_stage_spec(oldp, np)
            };
            if np >= DESTRUCTION_COMPLETE_MS {
                // completion: the targeted block becomes Air, the edit is
                // recorded, the neighbors are re-evaluated
                &&& final(bbd).0 == Option::<(BlocRef, u32)>::None
                &&& final(chunks)@.dom() == old(chunks)@.dom()
                &&& bloc_at(final(chunks)@, target).typ == BlocType::Air
                &&& bloc_at(final(chunks)@, target).faces.0@.len() == 0
                &&& !bloc_at(final(chunks)@, target).has_collider
                &&& forall|r: BlocRef| #![trigger bloc_at(final(chunks)@, r)]
                    ref_in_world(old(chunks)@, r) ==> bloc_at(final(chunks)@, r).neighbors
                        == bloc_at(old(chunks)@, r).neighbors && bloc_at(final(chunks)@, r).typ
                        == (if r == target {
                        BlocType::Air
                    } else {
                        bloc_at(old(chunks)@, r).typ
                    })
                &&& forall|r: BlocRef| #![trigger bloc_at(final(chunks)@, r)]
                    ref_in_world(old(chunks)@, r) && r != target && is_neighbor_slot_spec(
                        bloc_at(old(chunks)@, target).neighbors,
                        r,
                    ) ==> bloc_at(final(chunks)@, r).faces.0@ == faces_in_world_spec(
                        final(chunks)@,
                        bloc_at(final(chunks)@, r),
                    )
                &&& final(game_state)@[target.chunk].0@ == old(game_state)@[target.chunk].0@.update(
                    target.index as int,
                    BlocType::Air,
                )
                &&& final(chunk_saves)@.contains_key(target.chunk)
                &&& final(chunk_saves)@[target.chunk]@ == (if old(chunk_saves)@.contains_key(
                    target.chunk,
                ) {
                    old(chunk_saves)@[target.chunk]@
                } else {
                    Map::<PosInChunk, BlocType>::empty()
                }).insert(crate::blocs::from_index_spec(target.index as int), BlocType::Air)
            } else {
                // progress accumulates; a crossed threshold stages a crack
                // overlay on the target's faces
                &&& final(bbd).0 == Some((target, np as u32))
                &&& final(game_state)@ == old(game_state)@
                &&& final(chunk_saves)@ == old(chunk_saves)@
                &&& final(chunks)@.dom() == old(chunks)@.dom()
                &&& forall|r: BlocRef| #![trigger bloc_at(final(chunks)@, r)]
                    ref_in_world(old(chunks)@, r) && r != target ==> bloc_at(final(chunks)@, r)
                        == bloc_at(old(chunks)@, r)
                &&& (match stage {
                    None => final(chunks)@ == old(chunks)@,
                    Some(n) => {
                        &&& bloc_at(final(chunks)@, target).faces.0@.len() == bloc_at(
                            old(chunks)@,
                            target,
                        ).faces.0@.len()
                        &&& forall|k: int| #![auto]
                            0 <= k < bloc_at(old(chunks)@, target).faces.0@.len() ==> bloc_at(
                                final(chunks)@,
                                target,
                            ).faces.0@[k] == damaged_face_spec(
                                bloc_at(old(chunks)@, target).faces.0@[k],
                                stage_level_spec(n as int),
                            )
                    },
                })
            }
        },
{
    if !trigger_held {
        bbd.0 = None;
        return ;
    }
    let target = match ray_hit {
        None => {
            return ;
        },
        Some(t) => t,
    };
    let (oldp, fresh) = match bbd.0 {
        None => (0u32, true),
        Some((c, p)) => {
            if c != target {
                (0u32, true)
            } else {
                (p, false)
            }
        },
    };
    let np = if fresh {
        0
    } else {
        oldp + delta_ms
    };
    let stage: Option<u8> = if fresh {
        Some(0)
    } else {
        if oldp < 200 && np >= 200 {
            Some(1)
        } else if oldp < 400 && np >= 400 {
            Some(2)
        } else if oldp < 600 && np >= 600 {
            Some(3)
        } else if oldp < 800 && np >= 800 {
            Some(4)
        } else {
            None
        }
    };
    match stage {
        Some(n) => {
            let lvl = stage_level(n);
            chunks.apply_damage(target, lvl);
        },
        None => {},
    }
    if np >= DESTRUCTION_COMPLETE_MS {
        chunks.remove_bloc(target, game_state, chunk_saves);
        bbd.0 = None;
    } else {
        bbd.0 = Some((target, np));
    }
}

/// The per-tick damage-reset pass: any face whose damage overlay is
/// advanced while its block is no longer the current target is staged
/// back to its base material and the undamaged level.
pub fn reset_destruction_lvl(chunks: &mut Chunks, bbd: &BlocBeingDestroyed)
    requires
        old(chunks).wf(),
    ensures
        final(chunks).wf(),
        final(chunks)@.dom() == old(chunks)@.dom(),
        crate::world::same_types(old(chunks)@, final(chunks)@),
        forall|c: ChunkPos| #![auto]
            old(chunks)@.contains_key(c) ==> final(chunks)@[c].pos == old(chunks)@[c].pos && final(chunks)@[c].neighbors_are_linked == old(chunks)@[c].neighbors_are_linked && final(chunks)@[c].blocs.0@.len() == old(chunks)@[c].blocs.0@.len(),
        forall|r: BlocRef| #![trigger bloc_at(final(chunks)@, r)]
            ref_in_world(old(chunks)@, r) ==> {
                let b0 = bloc_at(old(chunks)@, r);
                let b1 = bloc_at(final(chunks)@, r);
                if bbd.0 matches Some((t, _)) && t == r {
                    b1 == b0
                } else {
                    b1.pos_in_chunk == b0.pos_in_chunk && b1.typ == b0.typ && b1.neighbors
                        == b0.neighbors && b1.has_collider == b0.has_collider && b1.faces.0@.len()
                        == b0.faces.0@.len() && forall|k: int| #![auto]
                        0 <= k < b0.faces.0@.len() ==> b1.faces.0@[k] == reset_face_spec(
                            b0.faces.0@[k],
                        )
                }
            },
{
    let n = chunks.inner.len();
    let mut ci: usize = 0;
    while ci < n
        invariant
            chunks.wf(),
            ci <= n,
            n == chunks.inner@.len(),
            chunks@.dom() == old(chunks)@.dom(),
            crate::world::same_types(old(chunks)@, chunks@),
            chunks.inner@.len() == old(chunks).inner@.len(),
            forall|j: int|
                0 <= j < n ==> (#[trigger] chunks.inner@[j]).0 == old(chunks).inner@[j].0,
            forall|c: ChunkPos| #![auto]
                old(chunks)@.contains_key(c) ==> chunks@[c].pos == old(chunks)@[c].pos
                    && chunks@[c].neighbors_are_linked == old(chunks)@[c].neighbors_are_linked
                    && chunks@[c].blocs.0@.len() == old(chunks)@[c].blocs.0@.len(),
            forall|j: int|
                ci <= j < n ==> (#[trigger] chunks.inner@[j]) == old(chunks).inner@[j],
            forall|j: int, bi: int| #![trigger chunks.inner@[j].1.blocs.0@[bi]]
                0 <= j < ci && 0 <= bi < CHUNK_VOLUME ==> {
                    let b0 = old(chunks).inner@[j].1.blocs.0@[bi];
                    let b1 = chunks.inner@[j].1.blocs.0@[bi];
                    let r = BlocRef { chunk: chunks.inner@[j].0, index: bi as usize };
                    if bbd.0 matches Some((t, _)) && t == r {
                        b1 == b0
                    } else {
                        b1.pos_in_chunk == b0.pos_in_chunk && b1.typ == b0.typ && b1.neighbors
                            == b0.neighbors && b1.has_collider == b0.has_collider
                            && b1.faces.0@.len() == b0.faces.0@.len() && forall|k: int| #![auto]
                            0 <= k < b0.faces.0@.len() ==> b1.faces.0@[k] == reset_face_spec(
                                b0.faces.0@[k],
                            )
                    }
                },
        decreases n - ci,
    {
        reset_chunk_damage(chunks, ci, bbd);
        ci = ci + 1;
    }
    proof {
        chunks.lemma_wf_map();
        assert forall|r: BlocRef| #![trigger bloc_at(final(chunks)@, r)]
            ref_in_world(old(chunks)@, r) implies {
            let b0 = bloc_at(old(chunks)@, r);
            let b1 = bloc_at(final(chunks)@, r);
            if bbd.0 matches Some((t, _)) && t == r {
                b1 == b0
            } else {
                b1.pos_in_chunk == b0.pos_in_chunk && b1.typ == b0.typ && b1.neighbors
                    == b0.neighbors && b1.has_collider == b0.has_collider && b1.faces.0@.len()
                    == b0.faces.0@.len() && forall|k: int| #![auto]
                    0 <= k < b0.faces.0@.len() ==> b1.faces.0@[k] == reset_face_spec(b0.faces.0@[k])
            }
        } by {
            crate::assoc::lemma_assoc_map_contains(old(chunks).inner@, r.chunk);
            let j = choose|j: int|
                0 <= j < old(chunks).inner@.len() && (#[trigger] old(chunks).inner@[j]).0
                    == r.chunk;
            crate::assoc::lemma_assoc_map_index(old(chunks).inner@, j);
            crate::assoc::lemma_assoc_map_index(final(chunks).inner@, j);
            assert(chunks.inner@[j].1.blocs.0@[r.index as int] == bloc_at(final(chunks)@, r));
        }
    }
}

/// Resets the damage overlays of every block of the chunk entry at `ci`,
/// skipping the current target.
fn reset_chunk_damage(chunks: &mut Chunks, ci: usize, bbd: &BlocBeingDestroyed)
    requires
        old(chunks).wf(),
        ci < old(chunks).inner@.len(),
    ensures
        final(chunks).wf(),
        final(chunks)@.dom() == old(chunks)@.dom(),
        crate::world::same_types(old(chunks)@, final(chunks)@),
        final(chunks).inner@.len() == old(chunks).inner@.len(),
        forall|j: int|
            0 <= j < old(chunks).inner@.len() && j != ci ==> (#[trigger] final(chunks).inner@[j])
                == old(chunks).inner@[j],
        final(chunks).inner@[ci as int].0 == old(chunks).inner@[ci as int].0,
        final(chunks).inner@[ci as int].1.pos == old(chunks).inner@[ci as int].1.pos,
        final(chunks).inner@[ci as int].1.neighbors_are_linked == old(
            chunks,
        ).inner@[ci as int].1.neighbors_are_linked,
        final(chunks).inner@[ci as int].1.blocs.0@.len() == old(
            chunks,
        ).inner@[ci as int].1.blocs.0@.len(),
        forall|c: ChunkPos| #![auto]
            old(chunks)@.contains_key(c) ==> final(chunks)@[c].pos == old(chunks)@[c].pos && final(chunks)@[c].neighbors_are_linked == old(chunks)@[c].neighbors_are_linked && final(chunks)@[c].blocs.0@.len() == old(chunks)@[c].blocs.0@.len(),
        forall|bi: int| #![trigger final(chunks).inner@[ci as int].1.blocs.0@[bi]]
            0 <= bi < CHUNK_VOLUME ==> {
                let b0 = old(chunks).inner@[ci as int].1.blocs.0@[bi];
                let b1 = final(chunks).inner@[ci as int].1.blocs.0@[bi];
                let r = BlocRef { chunk: old(chunks).inner@[ci as int].0, index: bi as usize };
                if bbd.0 matches Some((t, _)) && t == r {
                    b1 == b0
                } else {
                    b1.pos_in_chunk == b0.pos_in_chunk && b1.typ == b0.typ && b1.neighbors
                        == b0.neighbors && b1.has_collider == b0.has_collider && b1.faces.0@.len()
                        == b0.faces.0@.len() && forall|k: int| #![auto]
                        0 <= k < b0.faces.0@.len() ==> b1.faces.0@[k] == reset_face_spec(
                            b0.faces.0@[k],
                        )
                }
            },
{
    let cpos = chunks.inner[ci].0;
    let mut bi: usize = 0;
    while bi < CHUNK_VOLUME
        invariant
            chunks.wf(),
            bi <= CHUNK_VOLUME,
            ci < chunks.inner@.len(),
            chunks.inner@.len() == old(chunks).inner@.len(),
            cpos == old(chunks).inner@[ci as int].0,
            forall|j: int|
                0 <= j < old(chunks).inner@.len() && j != ci ==> (#[trigger] chunks.inner@[j])
                    == old(chunks).inner@[j],
            chunks.inner@[ci as int].0 == old(chunks).inner@[ci as int].0,
            chunks.inner@[ci as int].1.pos == old(chunks).inner@[ci as int].1.pos,
            chunks.inner@[ci as int].1.neighbors_are_linked == old(
                chunks,
            ).inner@[ci as int].1.neighbors_are_linked,
            chunks.inner@[ci as int].1.blocs.0@.len() == old(
                chunks,
            ).inner@[ci as int].1.blocs.0@.len(),
            old(chunks).inner@[ci as int].1.blocs.0@.len() == CHUNK_VOLUME,
            forall|b: int| #![trigger chunks.inner@[ci as int].1.blocs.0@[b]]
                bi <= b < CHUNK_VOLUME ==> chunks.inner@[ci as int].1.blocs.0@[b] == old(
                    chunks,
                ).inner@[ci as int].1.blocs.0@[b],
            forall|b: int| #![trigger chunks.inner@[ci as int].1.blocs.0@[b]]
                0 <= b < bi ==> {
                    let b0 = old(chunks).inner@[ci as int].1.blocs.0@[b];
                    let b1 = chunks.inner@[ci as int].1.blocs.0@[b];
                    let r = BlocRef { chunk: cpos, index: b as usize };
                    if bbd.0 matches Some((t, _)) && t == r {
                        b1 == b0
                    } else {
                        b1.pos_in_chunk == b0.pos_in_chunk && b1.typ == b0.typ && b1.neighbors
                            == b0.neighbors && b1.has_collider == b0.has_collider
                            && b1.faces.0@.len() == b0.faces.0@.len() && forall|k: int| #![auto]
                            0 <= k < b0.faces.0@.len() ==> b1.faces.0@[k] == reset_face_spec(
                                b0.faces.0@[k],
                            )
                    }
                },
        decreases CHUNK_VOLUME - bi,
    {
        let r = BlocRef { chunk: cpos, index: bi };
        let skip = match bbd.0 {
            Some((t, _)) => t == r,
            None => false,
        };
        if !skip {
            let ghost vpre = chunks.inner@;
            let mut entry = chunks.inner.remove(ci);
            let mut b = entry.1.blocs.0.remove(bi);
            let nf = b.faces.0.len();
            let mut new_faces: Vec<Face> = Vec::new();
            let mut k: usize = 0;
            while k < nf
                invariant
                    nf == b.faces.0@.len(),
                    k <= nf,
                    new_faces@.len() == k,
                    forall|m: int|
                        0 <= m < k ==> #[trigger] new_faces@[m] == reset_face_spec(b.faces.0@[m]),
                decreases nf - k,
            {
                let f = b.faces.0[k];
                if !(f.destruction_level == DestructionLevel::Zero) {
                    new_faces.push(
                        Face {
                            destruction_level: DestructionLevel::Zero,
                            next_material: Some(f.base_material),
                            ..f
                        },
                    );
                } else {
                    new_faces.push(f);
                }
                k = k + 1;
            }
            b.faces = crate::blocs::BlocFaces(new_faces);
            let ghost gb = b;
            entry.1.blocs.0.insert(bi, b);
            chunks.inner.insert(ci, entry);
            proof {
                assert(chunks.inner@ =~= vpre.update(
                    ci as int,
                    (vpre[ci as int].0, chunks.inner@[ci as int].1),
                ));
                assert(chunks.inner@[ci as int].1.blocs.0@ =~= vpre[ci as int].1.blocs.0@.update(
                    bi as int,
                    gb,
                ));
                assert(chunks.wf());
            }
        }
        bi = bi + 1;
    }
    proof {
        crate::world::lemma_view_of_entrywise(*old(chunks), *chunks);
        assert forall|c: ChunkPos| #![auto]
            old(chunks)@.contains_key(c) implies final(chunks)@[c].pos == old(chunks)@[c].pos
            && final(chunks)@[c].neighbors_are_linked == old(chunks)@[c].neighbors_are_linked
            && final(chunks)@[c].blocs.0@.len() == old(chunks)@[c].blocs.0@.len() by {
            let j = choose|j: int|
                0 <= j < old(chunks).inner@.len() && (#[trigger] old(chunks).inner@[j]).0 == c;
        }
        assert(crate::world::same_types(old(chunks)@, final(chunks)@)) by {
            assert forall|cp: ChunkPos, j: int|
                old(chunks)@.contains_key(cp) && 0 <= j < old(chunks)@[cp].blocs.0@.len() implies (
            #[trigger] old(chunks)@[cp].blocs.0@[j]).typ == final(chunks)@[cp].blocs.0@[j].typ by {
                let e = choose|e: int|
                    0 <= e < old(chunks).inner@.len() && (#[trigger] old(chunks).inner@[e]).0 == cp;
            }
        }
    }
}

} // verus!
