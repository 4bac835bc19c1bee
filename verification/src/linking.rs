//! The neighbor-linking protocol: wiring (and tearing down) the
//! cross-chunk neighbor slots along the shared boundary plane of two
//! adjacent resident chunks, with the re-evaluation of the affected
//! boundary blocks.

use vstd::prelude::*;

use crate::{CHUNK_VOLUME, CHUNK_X, CHUNK_Y, CHUNK_Z};
use crate::blocs::{
    BlocRef, ChunkPos, Direction, Neighbors, PosInChunk, from_index_spec,
    lemma_index_pos_round_trip, lemma_pos_index_round_trip, to_index_spec,
};
use crate::chunk::{Bloc, Chunk};
use crate::world::{
    Chunks, bloc_at, eff_of, faces_in_world_spec, lemma_faces_stable, ref_in_world, same_types,
};

verus! {

/// `b` is the chunk one step from `a` along `d`, in exact integer
/// arithmetic.
pub open spec fn adjacent_toward_spec(a: ChunkPos, b: ChunkPos, d: Direction) -> bool {
    match d {
        Direction::Up => b.x == a.x && b.y == a.y + 1 && b.z == a.z,
        Direction::Down => b.x == a.x && b.y == a.y - 1 && b.z == a.z,
        Direction::Right => b.x == a.x + 1 && b.y == a.y && b.z == a.z,
        Direction::Left => b.x == a.x - 1 && b.y == a.y && b.z == a.z,
        Direction::Front => b.x == a.x && b.y == a.y && b.z == a.z + 1,
        Direction::Back => b.x == a.x && b.y == a.y && b.z == a.z - 1,
    }
}

/// The two chunk positions differ by exactly one unit along one axis.
pub open spec fn adjacent_spec(a: ChunkPos, b: ChunkPos) -> bool {
    ||| adjacent_toward_spec(a, b, Direction::Up)
    ||| adjacent_toward_spec(a, b, Direction::Down)
    ||| adjacent_toward_spec(a, b, Direction::Right)
    ||| adjacent_toward_spec(a, b, Direction::Left)
    ||| adjacent_toward_spec(a, b, Direction::Front)
    ||| adjacent_toward_spec(a, b, Direction::Back)
}

/// The direction of the shared axis, seen from `a`.
pub open spec fn dir_between_spec(a: ChunkPos, b: ChunkPos) -> Direction {
    if b.x > a.x {
        Direction::Right
    } else if b.x < a.x {
        Direction::Left
    } else if b.y > a.y {
        Direction::Up
    } else if b.y < a.y {
        Direction::Down
    } else if b.z > a.z {
        Direction::Front
    } else {
        Direction::Back
    }
}

/// The position lies on the boundary plane of its chunk toward `d`.
pub open spec fn on_boundary_spec(d: Direction, p: PosInChunk) -> bool {
    p.valid() && match d {
        Direction::Up => p.y == CHUNK_Y - 1,
        Direction::Down => p.y == 0,
        Direction::Right => p.x == CHUNK_X - 1,
        Direction::Left => p.x == 0,
        Direction::Front => p.z == CHUNK_Z - 1,
        Direction::Back => p.z == 0,
    }
}

/// Number of blocks in the boundary plane toward `d`.
pub open spec fn boundary_count_spec(d: Direction) -> int {
    match d {
        Direction::Up | Direction::Down => CHUNK_X as int * CHUNK_Z as int,
        Direction::Right | Direction::Left => CHUNK_Y as int * CHUNK_Z as int,
        Direction::Front | Direction::Back => CHUNK_X as int * CHUNK_Y as int,
    }
}

/// The `k`-th position of the boundary plane toward `d`.
pub open spec fn boundary_pos_spec(d: Direction, k: int) -> PosInChunk {
    match d {
        Direction::Up => PosInChunk {
            x: (k % (CHUNK_X as int)) as u8,
            y: (CHUNK_Y - 1) as u8,
            z: (k / (CHUNK_X as int)) as u8,
        },
        Direction::Down => PosInChunk {
            x: (k % (CHUNK_X as int)) as u8,
            y: 0,
            z: (k / (CHUNK_X as int)) as u8,
        },
        Direction::Right => PosInChunk {
            x: (CHUNK_X - 1) as u8,
            y: (k % (CHUNK_Y as int)) as u8,
            z: (k / (CHUNK_Y as int)) as u8,
        },
        Direction::Left => PosInChunk {
            x: 0,
            y: (k % (CHUNK_Y as int)) as u8,
            z: (k / (CHUNK_Y as int)) as u8,
        },
        Direction::Front => PosInChunk {
            x: (k % (CHUNK_X as int)) as u8,
            y: (k / (CHUNK_X as int)) as u8,
            z: (CHUNK_Z - 1) as u8,
        },
        Direction::Back => PosInChunk {
            x: (k % (CHUNK_X as int)) as u8,
            y: (k / (CHUNK_X as int)) as u8,
            z: 0,
        },
    }
}

/// Rank of a boundary position inside its plane: the inverse of
/// `boundary_pos_spec`.
pub open spec fn boundary_k_spec(d: Direction, p: PosInChunk) -> int {
    match d {
        Direction::Up | Direction::Down => p.z as int * CHUNK_X as int + p.x as int,
        Direction::Right | Direction::Left => p.z as int * CHUNK_Y as int + p.y as int,
        Direction::Front | Direction::Back => p.y as int * CHUNK_X as int + p.x as int,
    }
}

/// The partner position on the other side of the boundary: the same plane
/// coordinates, with the shared-axis coordinate flipped to the opposite
/// face.
pub open spec fn mirror_pos_spec(d: Direction, p: PosInChunk) -> PosInChunk {
    match d {
        Direction::Up => PosInChunk { y: 0, ..p },
        Direction::Down => PosInChunk { y: (CHUNK_Y - 1) as u8, ..p },
        Direction::Right => PosInChunk { x: 0, ..p },
        Direction::Left => PosInChunk { x: (CHUNK_X - 1) as u8, ..p },
        Direction::Front => PosInChunk { z: 0, ..p },
        Direction::Back => PosInChunk { z: (CHUNK_Z - 1) as u8, ..p },
    }
}

/// The handle a boundary block of a chunk gets wired to: the mirrored
/// block of the adjacent chunk at `other`.
pub open spec fn partner_ref_spec(other: ChunkPos, d: Direction, p: PosInChunk) -> BlocRef {
    BlocRef { chunk: other, index: to_index_spec(mirror_pos_spec(d, p)) as usize }
}

/// Walking the plane: position `k` is a valid boundary position and its
/// rank is `k`.
pub proof fn lemma_boundary_round_trip(d: Direction, k: int)
    requires
        0 <= k < boundary_count_spec(d),
    ensures
        boundary_pos_spec(d, k).valid(),
        on_boundary_spec(d, boundary_pos_spec(d, k)),
        boundary_k_spec(d, boundary_pos_spec(d, k)) == k,
{
    assert(0 <= k % 8 < 8 && 0 <= k % 16 < 16 && (k < 64 ==> 0 <= k / 8 < 8) && (k < 128 ==> 0 <= k
        / 16 < 8) && (k < 128 ==> 0 <= k / 8 < 16) && (k / 8) * 8 + (k % 8) == k && (k / 16) * 16 + (
    k % 16) == k) by (nonlinear_arith)
        requires
            0 <= k < 128,
    ;
}

/// Every boundary position is reached: its rank is in range and maps back
/// to it.
pub proof fn lemma_boundary_surjective(d: Direction, p: PosInChunk)
    requires
        on_boundary_spec(d, p),
    ensures
        0 <= boundary_k_spec(d, p) < boundary_count_spec(d),
        boundary_pos_spec(d, boundary_k_spec(d, p)) == p,
{
    let x = p.x as int;
    let y = p.y as int;
    let z = p.z as int;
    assert((z < 8 && x < 8 ==> 0 <= z * 8 + x < 64 && (z * 8 + x) % 8 == x && (z * 8 + x) / 8 == z)
        && (z < 8 && y < 16 ==> 0 <= z * 16 + y < 128 && (z * 16 + y) % 16 == y && (z * 16 + y) / 16
        == z) && (y < 16 && x < 8 ==> 0 <= y * 8 + x < 128 && (y * 8 + x) % 8 == x && (y * 8 + x)
        / 8 == y)) by (nonlinear_arith)
        requires
            0 <= x && 0 <= y && 0 <= z,
    ;
}

/// The mirrored position of plane slot `k` is plane slot `k` of the
/// opposite side.
pub proof fn lemma_mirror_of_boundary(d: Direction, k: int)
    requires
        0 <= k < boundary_count_spec(d),
    ensures
        mirror_pos_spec(d, boundary_pos_spec(d, k)) == boundary_pos_spec(d.opposite_spec(), k),
        on_boundary_spec(d.opposite_spec(), mirror_pos_spec(d, boundary_pos_spec(d, k))),
        boundary_k_spec(d.opposite_spec(), mirror_pos_spec(d, boundary_pos_spec(d, k))) == k,
{
    lemma_boundary_round_trip(d, k);
    lemma_boundary_round_trip(d.opposite_spec(), k);
}

/// A chunk1 boundary block after linking: its slot toward the neighbor
/// chunk wired to the mirrored block, everything else as before except the
/// recomputed faces.
pub open spec fn wired_bloc_spec(b0: Bloc, other: ChunkPos, d: Direction, p: PosInChunk, b1: Bloc) -> bool {
    b1 == (Bloc {
        neighbors: b0.neighbors.set_spec(d, Some(partner_ref_spec(other, d, p))),
        faces: b1.faces,
        ..b0
    })
}

impl Chunks {
    /// Computes the number of blocks in the boundary plane toward `d`.
    fn boundary_count(d: Direction) -> (r: usize)
        ensures
            r == boundary_count_spec(d),
    {
        match d {
            Direction::Up | Direction::Down => CHUNK_X * CHUNK_Z,
            Direction::Right | Direction::Left => CHUNK_Y * CHUNK_Z,
            Direction::Front | Direction::Back => CHUNK_X * CHUNK_Y,
        }
    }

    /// Computes the `k`-th position of the boundary plane toward `d`.
    fn boundary_pos(d: Direction, k: usize) -> (r: PosInChunk)
        requires
            k < boundary_count_spec(d),
        ensures
            r == boundary_pos_spec(d, k as int),
            r.valid(),
            on_boundary_spec(d, r),
            boundary_k_spec(d, r) == k,
    {
        proof {
            lemma_boundary_round_trip(d, k as int);
        }
        match d {
            Direction::Up => PosInChunk {
                x: (k % CHUNK_X) as u8,
                y: (CHUNK_Y - 1) as u8,
                z: (k / CHUNK_X) as u8,
            },
            Direction::Down => PosInChunk {
                x: (k % CHUNK_X) as u8,
                y: 0,
                z: (k / CHUNK_X) as u8,
            },
            Direction::Right => PosInChunk {
                x: (CHUNK_X - 1) as u8,
                y: (k % CHUNK_Y) as u8,
                z: (k / CHUNK_Y) as u8,
            },
            Direction::Left => PosInChunk {
                x: 0,
                y: (k % CHUNK_Y) as u8,
                z: (k / CHUNK_Y) as u8,
            },
            Direction::Front => PosInChunk {
                x: (k % CHUNK_X) as u8,
                y: (k / CHUNK_X) as u8,
                z: (CHUNK_Z - 1) as u8,
            },
            Direction::Back => PosInChunk {
                x: (k % CHUNK_X) as u8,
                y: (k / CHUNK_X) as u8,
                z: 0,
            },
        }
    }

    /// Overwrites one neighbor slot of one block, touching nothing else.
    fn set_slot(&mut self, br: BlocRef, dir: Direction, v: Option<BlocRef>)
        requires
            old(self).wf(),
            ref_in_world(old(self)@, br),
        ensures
            final(self).wf(),
            final(self)@.dom() == old(self)@.dom(),
            same_types(old(self)@, final(self)@),
            forall|c: ChunkPos| #![auto]
                old(self)@.contains_key(c) && c != br.chunk ==> final(self)@[c] == old(self)@[c],
            final(self)@[br.chunk].pos == old(self)@[br.chunk].pos,
            final(self)@[br.chunk].neighbors_are_linked == old(self)@[br.chunk].neighbors_are_linked,
            final(self)@[br.chunk].blocs.0@.len() == old(self)@[br.chunk].blocs.0@.len(),
            forall|j: int| #![auto]
                0 <= j < old(self)@[br.chunk].blocs.0@.len() && j != br.index ==> final(self)@[br.chunk].blocs.0@[j] == old(self)@[br.chunk].blocs.0@[j],
            bloc_at(final(self)@, br) == (Bloc {
                neighbors: bloc_at(old(self)@, br).neighbors.set_spec(dir, v),
                ..bloc_at(old(self)@, br)
            }),
    {
        let i = match self.find_index(br.chunk) {
            Some(i) => i,
            None => {
                proof {
                    assert(false);
                }
                return ;
            },
        };
        let mut entry = self.inner.remove(i);
        let mut b = entry.1.blocs.0.remove(br.index);
        b.neighbors.set_with_direction(dir, v);
        let ghost gb = b;
        entry.1.blocs.0.insert(br.index, b);
        let ghost gentry = entry;
        self.inner.push(entry);
        proof {
            let s0 = old(self).inner@;
            crate::assoc::lemma_assoc_map_index(s0, i as int);
            crate::assoc::lemma_assoc_map_remove(s0, i as int);
            let removed = s0.remove(i as int);
            assert(forall|j: int|
                0 <= j < removed.len() ==> (#[trigger] removed[j]) == if j < i as int {
                    s0[j]
                } else {
                    s0[j + 1]
                });
            assert(forall|j: int| 0 <= j < removed.len() ==> (#[trigger] removed[j]).0 != br.chunk);
            crate::assoc::lemma_assoc_map_push(removed, br.chunk, gentry.1);
            assert(final(self)@ =~= old(self)@.insert(br.chunk, gentry.1));
            assert(final(self)@.dom() =~= old(self)@.dom());
            assert(gentry.1.blocs.0@ =~= old(self)@[br.chunk].blocs.0@.update(br.index as int, gb));
            assert(final(self).wf());
            assert(same_types(old(self)@, final(self)@));
        }
    }
}

/// `same_types` composes: equal domains, lengths and types carry across a
/// middle world.
pub proof fn lemma_same_types_trans(
    w1: Map<ChunkPos, Chunk>,
    w2: Map<ChunkPos, Chunk>,
    w3: Map<ChunkPos, Chunk>,
)
    requires
        same_types(w1, w2),
        same_types(w2, w3),
    ensures
        same_types(w1, w3),
{
    assert forall|cp: ChunkPos| w1.contains_key(cp) implies (#[trigger] w1[cp]).blocs.0@.len()
        == w3[cp].blocs.0@.len() by {
        assert(w2.contains_key(cp));
        assert(w2[cp].blocs.0@.len() == w3[cp].blocs.0@.len());
    }
    assert forall|cp: ChunkPos, j: int|
        w1.contains_key(cp) && 0 <= j < w1[cp].blocs.0@.len() implies (
    #[trigger] w1[cp].blocs.0@[j]).typ == w3[cp].blocs.0@[j].typ by {
        assert(w2.contains_key(cp));
        assert(w2[cp].blocs.0@[j].typ == w3[cp].blocs.0@[j].typ);
    }
}

impl Chunks {
    /// Wires the shared boundary plane of two adjacent resident chunks:
    /// for every pair of boundary blocks, each block's slot toward the
    /// other is set to reference the other block, and the visibility of
    /// both is re-evaluated. The linked flags are not touched here; the
    /// guarded entry point `link_pair` maintains them.
    pub fn link(&mut self, pos1: ChunkPos, pos2: ChunkPos)
        requires
            old(self).wf(),
            old(self)@.contains_key(pos1),
            old(self)@.contains_key(pos2),
            adjacent_spec(pos1, pos2),
        ensures
            final(self).wf(),
            final(self)@.dom() == old(self)@.dom(),
            same_types(old(self)@, final(self)@),
            forall|c: ChunkPos| #![auto]
                old(self)@.contains_key(c) && c != pos1 && c != pos2 ==> final(self)@[c] == old(
                    self,
                )@[c],
            final(self)@[pos1].pos == old(self)@[pos1].pos,
            final(self)@[pos1].neighbors_are_linked == old(self)@[pos1].neighbors_are_linked,
            final(self)@[pos1].blocs.0@.len() == old(self)@[pos1].blocs.0@.len(),
            final(self)@[pos2].pos == old(self)@[pos2].pos,
            final(self)@[pos2].neighbors_are_linked == old(self)@[pos2].neighbors_are_linked,
            final(self)@[pos2].blocs.0@.len() == old(self)@[pos2].blocs.0@.len(),
            forall|j: int| #![trigger final(self)@[pos1].blocs.0@[j]]
                0 <= j < CHUNK_VOLUME ==> {
                    let d1 = dir_between_spec(pos1, pos2);
                    let p = from_index_spec(j);
                    let b0 = old(self)@[pos1].blocs.0@[j];
                    let b1 = final(self)@[pos1].blocs.0@[j];
                    if on_boundary_spec(d1, p) {
                        wired_bloc_spec(b0, pos2, d1, p, b1) && b1.faces.0@ == faces_in_world_spec(
                            final(self)@,
                            b1,
                        )
                    } else {
                        b1 == b0
                    }
                },
            forall|j: int| #![trigger final(self)@[pos2].blocs.0@[j]]
                0 <= j < CHUNK_VOLUME ==> {
                    let d2 = dir_between_spec(pos2, pos1);
                    let p = from_index_spec(j);
                    let b0 = old(self)@[pos2].blocs.0@[j];
                    let b1 = final(self)@[pos2].blocs.0@[j];
                    if on_boundary_spec(d2, p) {
                        wired_bloc_spec(b0, pos1, d2, p, b1) && b1.faces.0@ == faces_in_world_spec(
                            final(self)@,
                            b1,
                        )
                    } else {
                        b1 == b0
                    }
                },
    {
        proof {
            self.lemma_wf_map();
        }
        let d1 = if pos1.x < pos2.x {
            Direction::Right
        } else if pos1.x > pos2.x {
            Direction::Left
        } else if pos1.y < pos2.y {
            Direction::Up
        } else if pos1.y > pos2.y {
            Direction::Down
        } else if pos1.z < pos2.z {
            Direction::Front
        } else {
            Direction::Back
        };
        let d2 = d1.opposite();
        proof {
            assert(d1 == dir_between_spec(pos1, pos2));
            assert(adjacent_toward_spec(pos1, pos2, d1));
            assert(d2 == dir_between_spec(pos2, pos1));
            assert(adjacent_toward_spec(pos2, pos1, d2));
            assert(pos1 != pos2);
        }
        let count = Self::boundary_count(d1);
        proof {
            assert(boundary_count_spec(d2) == boundary_count_spec(d1));
        }
        let mut k: usize = 0;
        while k < count
            invariant
                old(self).wf(),
                self.wf(),
                adjacent_toward_spec(pos1, pos2, d1),
                d1 == dir_between_spec(pos1, pos2),
                d2 == d1.opposite_spec(),
                d2 == dir_between_spec(pos2, pos1),
                pos1 != pos2,
                old(self)@.contains_key(pos1),
                old(self)@.contains_key(pos2),
                old(self)@[pos1].wf(),
                old(self)@[pos2].wf(),
                count == boundary_count_spec(d1),
                count == boundary_count_spec(d2),
                k <= count,
                self@.dom() == old(self)@.dom(),
                same_types(old(self)@, self@),
                forall|c: ChunkPos| #![auto]
                    old(self)@.contains_key(c) && c != pos1 && c != pos2 ==> self@[c] == old(
                        self,
                    )@[c],
                self@[pos1].pos == old(self)@[pos1].pos,
                self@[pos1].neighbors_are_linked == old(self)@[pos1].neighbors_are_linked,
                self@[pos1].blocs.0@.len() == old(self)@[pos1].blocs.0@.len(),
                self@[pos2].pos == old(self)@[pos2].pos,
                self@[pos2].neighbors_are_linked == old(self)@[pos2].neighbors_are_linked,
                self@[pos2].blocs.0@.len() == old(self)@[pos2].blocs.0@.len(),
                forall|j: int| #![trigger self@[pos1].blocs.0@[j]]
                    0 <= j < CHUNK_VOLUME ==> {
                        let p = from_index_spec(j);
                        let b0 = old(self)@[pos1].blocs.0@[j];
                        let b1 = self@[pos1].blocs.0@[j];
                        if on_boundary_spec(d1, p) && boundary_k_spec(d1, p) < k {
                            wired_bloc_spec(b0, pos2, d1, p, b1) && b1.faces.0@
                                == faces_in_world_spec(self@, b1)
                        } else {
                            b1 == b0
                        }
                    },
                forall|j: int| #![trigger self@[pos2].blocs.0@[j]]
                    0 <= j < CHUNK_VOLUME ==> {
                        let p = from_index_spec(j);
                        let b0 = old(self)@[pos2].blocs.0@[j];
                        let b1 = self@[pos2].blocs.0@[j];
                        if on_boundary_spec(d2, p) && boundary_k_spec(d2, p) < k {
                            wired_bloc_spec(b0, pos1, d2, p, b1) && b1.faces.0@
                                == faces_in_world_spec(self@, b1)
                        } else {
                            b1 == b0
                        }
                    },
            decreases count - k,
        {
            let ghost w0 = self@;
            let p1 = Self::boundary_pos(d1, k);
            let p2 = Self::boundary_pos(d2, k);
            proof {
                lemma_mirror_of_boundary(d1, k as int);
                lemma_mirror_of_boundary(d2, k as int);
                lemma_pos_index_round_trip(p1);
                lemma_pos_index_round_trip(p2);
            }
            let idx1 = p1.to_chunk_index();
            let idx2 = p2.to_chunk_index();
            let r1 = BlocRef { chunk: pos1, index: idx1 };
            let r2 = BlocRef { chunk: pos2, index: idx2 };
            proof {
                assert(ref_in_world(self@, r1));
                assert(ref_in_world(self@, r2));
            }
            self.set_slot(r1, d1, Some(r2));
            let ghost wa = self@;
            self.set_slot(r2, d2, Some(r1));
            let ghost wb = self@;
            self.render_bloc(r1, None);
            let ghost wc = self@;
            self.render_bloc(r2, None);
            proof {
                let wd = self@;
                lemma_same_types_trans(w0, wa, wb);
                lemma_same_types_trans(w0, wb, wc);
                lemma_same_types_trans(w0, wc, wd);
                lemma_same_types_trans(old(self)@, w0, wd);
                lemma_faces_stable(wb, wd);
                lemma_faces_stable(wc, wd);
                lemma_same_types_trans(w0, wa, wd);
                lemma_faces_stable(w0, wd);

                // the pair processed this iteration
                assert(from_index_spec(idx1 as int) == p1);
                assert(from_index_spec(idx2 as int) == p2);
                assert(mirror_pos_spec(d1, p1) == p2);
                assert(mirror_pos_spec(d2, p2) == p1);
                assert(partner_ref_spec(pos2, d1, p1) == r2);
                assert(partner_ref_spec(pos1, d2, p2) == r1);
                assert(boundary_k_spec(d1, p1) == k as int);
                assert(boundary_k_spec(d2, p2) == k as int);

                let b0_1 = old(self)@[pos1].blocs.0@[idx1 as int];
                let b1_1 = wd[pos1].blocs.0@[idx1 as int];
                assert(w0[pos1].blocs.0@[idx1 as int] == b0_1);
                assert(bloc_at(wa, r1) == (Bloc {
                    neighbors: b0_1.neighbors.set_spec(d1, Some(r2)),
                    ..b0_1
                }));
                assert(bloc_at(wb, r1) == bloc_at(wa, r1));
                assert(b1_1 == bloc_at(wd, r1));
                assert(bloc_at(wd, r1) == bloc_at(wc, r1));
                assert(b1_1.neighbors == b0_1.neighbors.set_spec(d1, Some(r2)));
                assert(wired_bloc_spec(b0_1, pos2, d1, p1, b1_1));
                assert(b1_1.faces.0@ == faces_in_world_spec(wb, bloc_at(wb, r1)));
                assert(bloc_at(wb, r1).typ == b1_1.typ && bloc_at(wb, r1).neighbors
                    == b1_1.neighbors);
                assert(eff_of(wb, b1_1.neighbors) == eff_of(wd, b1_1.neighbors));
                assert(faces_in_world_spec(wd, b1_1) == faces_in_world_spec(wb, bloc_at(wb, r1)));

                let b0_2 = old(self)@[pos2].blocs.0@[idx2 as int];
                let b1_2 = wd[pos2].blocs.0@[idx2 as int];
                assert(w0[pos2].blocs.0@[idx2 as int] == b0_2);
                assert(bloc_at(wa, r2) == b0_2);
                assert(bloc_at(wb, r2) == (Bloc {
                    neighbors: b0_2.neighbors.set_spec(d2, Some(r1)),
                    ..b0_2
                }));
                assert(bloc_at(wc, r2) == bloc_at(wb, r2));
                assert(b1_2 == bloc_at(wd, r2));
                assert(b1_2.neighbors == b0_2.neighbors.set_spec(d2, Some(r1)));
                assert(wired_bloc_spec(b0_2, pos1, d2, p2, b1_2));
                assert(b1_2.faces.0@ == faces_in_world_spec(wc, bloc_at(wc, r2)));
                assert(bloc_at(wc, r2).typ == b1_2.typ && bloc_at(wc, r2).neighbors
                    == b1_2.neighbors);
                assert(eff_of(wc, b1_2.neighbors) == eff_of(wd, b1_2.neighbors));
                assert(faces_in_world_spec(wd, b1_2) == faces_in_world_spec(wc, bloc_at(wc, r2)));

                // all other chunk1 blocks kept their value this iteration
                assert forall|j: int| #![trigger wd[pos1].blocs.0@[j]]
                    0 <= j < CHUNK_VOLUME && j != idx1 as int implies wd[pos1].blocs.0@[j]
                    == w0[pos1].blocs.0@[j] by {}
                assert forall|j: int| #![trigger wd[pos2].blocs.0@[j]]
                    0 <= j < CHUNK_VOLUME && j != idx2 as int implies wd[pos2].blocs.0@[j]
                    == w0[pos2].blocs.0@[j] by {}

                // re-establish the chunk1 block invariant for k + 1
                assert forall|j: int| #![trigger wd[pos1].blocs.0@[j]]
                    0 <= j < CHUNK_VOLUME implies {
                    let p = from_index_spec(j);
                    let b0 = old(self)@[pos1].blocs.0@[j];
                    let b1 = wd[pos1].blocs.0@[j];
                    if on_boundary_spec(d1, p) && boundary_k_spec(d1, p) < k + 1 {
                        wired_bloc_spec(b0, pos2, d1, p, b1) && b1.faces.0@ == faces_in_world_spec(
                            wd,
                            b1,
                        )
                    } else {
                        b1 == b0
                    }
                } by {
                    let p = from_index_spec(j);
                    lemma_index_pos_round_trip(j);
                    if j == idx1 as int {
                    } else {
                        assert(wd[pos1].blocs.0@[j] == w0[pos1].blocs.0@[j]);
                        if on_boundary_spec(d1, p) && boundary_k_spec(d1, p) < k {
                            let b1 = w0[pos1].blocs.0@[j];
                            assert(b1.faces.0@ == faces_in_world_spec(w0, b1));
                            assert(faces_in_world_spec(wd, b1) == faces_in_world_spec(w0, b1));
                        } else {
                            assert(!(on_boundary_spec(d1, p) && boundary_k_spec(d1, p) < k + 1)) by {
                                if on_boundary_spec(d1, p) && boundary_k_spec(d1, p) == k as int {
                                    lemma_boundary_surjective(d1, p);
                                    assert(p == boundary_pos_spec(d1, k as int));
                                    assert(j == to_index_spec(p));
                                    assert(j == idx1 as int);
                                }
                            }
                        }
                    }
                }
                // re-establish the chunk2 block invariant for k + 1
                assert forall|j: int| #![trigger wd[pos2].blocs.0@[j]]
                    0 <= j < CHUNK_VOLUME implies {
                    let p = from_index_spec(j);
                    let b0 = old(self)@[pos2].blocs.0@[j];
                    let b1 = wd[pos2].blocs.0@[j];
                    if on_boundary_spec(d2, p) && boundary_k_spec(d2, p) < k + 1 {
                        wired_bloc_spec(b0, pos1, d2, p, b1) && b1.faces.0@ == faces_in_world_spec(
                            wd,
                            b1,
                        )
                    } else {
                        b1 == b0
                    }
                } by {
                    let p = from_index_spec(j);
                    lemma_index_pos_round_trip(j);
                    if j == idx2 as int {
                    } else {
                        assert(wd[pos2].blocs.0@[j] == w0[pos2].blocs.0@[j]);
                        if on_boundary_spec(d2, p) && boundary_k_spec(d2, p) < k {
                            let b1 = w0[pos2].blocs.0@[j];
                            assert(b1.faces.0@ == faces_in_world_spec(w0, b1));
                            assert(faces_in_world_spec(wd, b1) == faces_in_world_spec(w0, b1));
                        } else {
                            assert(!(on_boundary_spec(d2, p) && boundary_k_spec(d2, p) < k + 1)) by {
                                if on_boundary_spec(d2, p) && boundary_k_spec(d2, p) == k as int {
                                    lemma_boundary_surjective(d2, p);
                                    assert(p == boundary_pos_spec(d2, k as int));
                                    assert(j == to_index_spec(p));
                                    assert(j == idx2 as int);
                                }
                            }
                        }
                    }
                }
            }
            k = k + 1;
        }
        proof {
            assert forall|j: int| #![trigger self@[pos1].blocs.0@[j]]
                0 <= j < CHUNK_VOLUME implies {
                let p = from_index_spec(j);
                let b0 = old(self)@[pos1].blocs.0@[j];
                let b1 = self@[pos1].blocs.0@[j];
                if on_boundary_spec(d1, p) {
                    wired_bloc_spec(b0, pos2, d1, p, b1) && b1.faces.0@ == faces_in_world_spec(
                        self@,
                        b1,
                    )
                } else {
                    b1 == b0
                }
            } by {
                let p = from_index_spec(j);
                lemma_index_pos_round_trip(j);
                if on_boundary_spec(d1, p) {
                    lemma_boundary_surjective(d1, p);
                }
            }
            assert forall|j: int| #![trigger self@[pos2].blocs.0@[j]]
                0 <= j < CHUNK_VOLUME implies {
                let p = from_index_spec(j);
                let b0 = old(self)@[pos2].blocs.0@[j];
                let b1 = self@[pos2].blocs.0@[j];
                if on_boundary_spec(d2, p) {
                    wired_bloc_spec(b0, pos1, d2, p, b1) && b1.faces.0@ == faces_in_world_spec(
                        self@,
                        b1,
                    )
                } else {
                    b1 == b0
                }
            } by {
                let p = from_index_spec(j);
                lemma_index_pos_round_trip(j);
                if on_boundary_spec(d2, p) {
                    lemma_boundary_surjective(d2, p);
                }
            }
        }
    }
}

/// A block after teardown: the slot toward the departed neighbor cleared,
/// everything else — faces included — untouched.
pub open spec fn cleared_bloc_spec(b0: Bloc, d: Direction, b1: Bloc) -> bool {
    b1 == (Bloc { neighbors: b0.neighbors.set_spec(d, None), ..b0 })
}

/// The linked flag toward one of the three tracked positive directions.
pub open spec fn nal_get_spec(nal: crate::chunk::ChunkNeighborsAreLinked, dir: Direction) -> bool {
    match dir {
        Direction::Up => nal.up,
        Direction::Right => nal.right,
        Direction::Front => nal.front,
        _ => false,
    }
}

pub open spec fn nal_set_spec(
    nal: crate::chunk::ChunkNeighborsAreLinked,
    dir: Direction,
    v: bool,
) -> crate::chunk::ChunkNeighborsAreLinked {
    match dir {
        Direction::Up => crate::chunk::ChunkNeighborsAreLinked { up: v, ..nal },
        Direction::Right => crate::chunk::ChunkNeighborsAreLinked { right: v, ..nal },
        Direction::Front => crate::chunk::ChunkNeighborsAreLinked { front: v, ..nal },
        _ => nal,
    }
}

/// What performing the linking of the pair `(pos1, pos2)` along `dir`
/// does to the world: both boundary planes wired to their mirrored
/// partners and re-evaluated against the final world, everything else
/// untouched.
pub open spec fn linked_step_spec(
    w0: Map<ChunkPos, Chunk>,
    w1: Map<ChunkPos, Chunk>,
    pos1: ChunkPos,
    pos2: ChunkPos,
    dir: Direction,
) -> bool {
    &&& forall|c: ChunkPos| #![auto]
        w0.contains_key(c) && c != pos1 && c != pos2 ==> w1[c] == w0[c]
    &&& w1[pos1].pos == w0[pos1].pos
    &&& w1[pos1].blocs.0@.len() == w0[pos1].blocs.0@.len()
    &&& w1[pos2].pos == w0[pos2].pos
    &&& w1[pos2].neighbors_are_linked == w0[pos2].neighbors_are_linked
    &&& w1[pos2].blocs.0@.len() == w0[pos2].blocs.0@.len()
    &&& forall|j: int| #![trigger w1[pos1].blocs.0@[j]]
        0 <= j < CHUNK_VOLUME ==> {
            let p = from_index_spec(j);
            let b0 = w0[pos1].blocs.0@[j];
            let b1 = w1[pos1].blocs.0@[j];
            if on_boundary_spec(dir, p) {
                wired_bloc_spec(b0, pos2, dir, p, b1) && b1.faces.0@ == faces_in_world_spec(
                    w1,
                    b1,
                )
            } else {
                b1 == b0
            }
        }
    &&& forall|j: int| #![trigger w1[pos2].blocs.0@[j]]
        0 <= j < CHUNK_VOLUME ==> {
            let p = from_index_spec(j);
            let b0 = w0[pos2].blocs.0@[j];
            let b1 = w1[pos2].blocs.0@[j];
            if on_boundary_spec(dir.opposite_spec(), p) {
                wired_bloc_spec(b0, pos1, dir.opposite_spec(), p, b1) && b1.faces.0@
                    == faces_in_world_spec(w1, b1)
            } else {
                b1 == b0
            }
        }
}

/// The linking pass must link `p` to the chunk `q` one step along the
/// tracked positive direction `d`: both resident, the flag not yet set.
pub open spec fn pass_links_spec(
    w: Map<ChunkPos, Chunk>,
    p: ChunkPos,
    q: ChunkPos,
    d: Direction,
) -> bool {
    &&& (d == Direction::Up || d == Direction::Right || d == Direction::Front)
    &&& w.contains_key(p)
    &&& w.contains_key(q)
    &&& adjacent_toward_spec(p, q, d)
    &&& !nal_get_spec(w[p].neighbors_are_linked, d)
}

/// `c` is an end of some pair the linking pass wires.
pub open spec fn involved_in_link_spec(w: Map<ChunkPos, Chunk>, c: ChunkPos) -> bool {
    exists|p: ChunkPos, q: ChunkPos, d: Direction|
        #[trigger] pass_links_spec(w, p, q, d) && (c == p || c == q)
}

/// Both boundary planes of the pair `(p, q)` along `d` stand wired in
/// world `w`, each boundary block showing the faces `w` dictates.
pub open spec fn pair_wired_spec(
    w: Map<ChunkPos, Chunk>,
    p: ChunkPos,
    q: ChunkPos,
    d: Direction,
) -> bool {
    &&& forall|j: int| #![trigger w[p].blocs.0@[j]]
        0 <= j < CHUNK_VOLUME && on_boundary_spec(d, from_index_spec(j)) ==> w[p].blocs.0@[j].neighbors.get_spec(
            d,
        ) == Some(partner_ref_spec(q, d, from_index_spec(j))) && w[p].blocs.0@[j].faces.0@
            == faces_in_world_spec(w, w[p].blocs.0@[j])
    &&& forall|j: int| #![trigger w[q].blocs.0@[j]]
        0 <= j < CHUNK_VOLUME && on_boundary_spec(d.opposite_spec(), from_index_spec(j))
            ==> w[q].blocs.0@[j].neighbors.get_spec(d.opposite_spec()) == Some(
            partner_ref_spec(p, d.opposite_spec(), from_index_spec(j)),
        ) && w[q].blocs.0@[j].faces.0@ == faces_in_world_spec(w, w[q].blocs.0@[j])
}

/// A wired pair stays wired across one more linking step of a different
/// pair: the step pins every slot it does not wire, and face evaluation
/// is stable under type-preserving changes.
pub proof fn lemma_pair_wired_persists(
    w0: Map<ChunkPos, Chunk>,
    w1: Map<ChunkPos, Chunk>,
    pos1: ChunkPos,
    pos2: ChunkPos,
    dir: Direction,
    p: ChunkPos,
    q: ChunkPos,
    d: Direction,
)
    requires
        linked_step_spec(w0, w1, pos1, pos2, dir),
        same_types(w0, w1),
        w0.contains_key(p),
        w0.contains_key(q),
        w0.contains_key(pos1),
        w0.contains_key(pos2),
        d == Direction::Up || d == Direction::Right || d == Direction::Front,
        dir == Direction::Up || dir == Direction::Right || dir == Direction::Front,
        adjacent_toward_spec(p, q, d),
        adjacent_toward_spec(pos1, pos2, dir),
        !(p == pos1 && d == dir),
        pair_wired_spec(w0, p, q, d),
    ensures
        pair_wired_spec(w1, p, q, d),
{
    lemma_faces_stable(w0, w1);
    let d2 = d.opposite_spec();
    assert forall|j: int| #![trigger w1[p].blocs.0@[j]]
        0 <= j < CHUNK_VOLUME && on_boundary_spec(d, from_index_spec(j)) implies
        w1[p].blocs.0@[j].neighbors.get_spec(d) == Some(
        partner_ref_spec(q, d, from_index_spec(j)),
    ) && w1[p].blocs.0@[j].faces.0@ == faces_in_world_spec(w1, w1[p].blocs.0@[j]) by {
        let b0 = w0[p].blocs.0@[j];
        let b1 = w1[p].blocs.0@[j];
        if p == pos1 {
            assert(d != dir);
            if on_boundary_spec(dir, from_index_spec(j)) {
                assert(wired_bloc_spec(b0, pos2, dir, from_index_spec(j), b1));
                assert(b1.neighbors.get_spec(d) == b0.neighbors.get_spec(d));
            } else {
                assert(b1 == b0);
                assert(faces_in_world_spec(w1, b1) == faces_in_world_spec(w0, b0));
            }
        } else if p == pos2 {
            if on_boundary_spec(dir.opposite_spec(), from_index_spec(j)) {
                assert(wired_bloc_spec(b0, pos1, dir.opposite_spec(), from_index_spec(j), b1));
                assert(d != dir.opposite_spec());
                assert(b1.neighbors.get_spec(d) == b0.neighbors.get_spec(d));
            } else {
                assert(b1 == b0);
                assert(faces_in_world_spec(w1, b1) == faces_in_world_spec(w0, b0));
            }
        } else {
            assert(w1[p] == w0[p]);
            assert(b1 == b0);
            assert(faces_in_world_spec(w1, b1) == faces_in_world_spec(w0, b0));
        }
    }
    assert forall|j: int| #![trigger w1[q].blocs.0@[j]]
        0 <= j < CHUNK_VOLUME && on_boundary_spec(d2, from_index_spec(j)) implies
        w1[q].blocs.0@[j].neighbors.get_spec(d2) == Some(
        partner_ref_spec(p, d2, from_index_spec(j)),
    ) && w1[q].blocs.0@[j].faces.0@ == faces_in_world_spec(w1, w1[q].blocs.0@[j]) by {
        let b0 = w0[q].blocs.0@[j];
        let b1 = w1[q].blocs.0@[j];
        if q == pos1 {
            if on_boundary_spec(dir, from_index_spec(j)) {
                assert(wired_bloc_spec(b0, pos2, dir, from_index_spec(j), b1));
                assert(d2 != dir);
                assert(b1.neighbors.get_spec(d2) == b0.neighbors.get_spec(d2));
            } else {
                assert(b1 == b0);
                assert(faces_in_world_spec(w1, b1) == faces_in_world_spec(w0, b0));
            }
        } else if q == pos2 {
            if on_boundary_spec(dir.opposite_spec(), from_index_spec(j)) {
                assert(wired_bloc_spec(b0, pos1, dir.opposite_spec(), from_index_spec(j), b1));
                assert(d2 != dir.opposite_spec()) by {
                    if d == dir {
                        assert(p == pos1);
                        assert(false);
                    }
                }
                assert(b1.neighbors.get_spec(d2) == b0.neighbors.get_spec(d2));
            } else {
                assert(b1 == b0);
                assert(faces_in_world_spec(w1, b1) == faces_in_world_spec(w0, b0));
            }
        } else {
            assert(w1[q] == w0[q]);
            assert(b1 == b0);
            assert(faces_in_world_spec(w1, b1) == faces_in_world_spec(w0, b0));
        }
    }
}

/// A performed linking step leaves its own pair wired.
pub proof fn lemma_linked_step_wires(
    w0: Map<ChunkPos, Chunk>,
    w1: Map<ChunkPos, Chunk>,
    pos1: ChunkPos,
    pos2: ChunkPos,
    dir: Direction,
)
    requires
        linked_step_spec(w0, w1, pos1, pos2, dir),
    ensures
        pair_wired_spec(w1, pos1, pos2, dir),
{
    assert forall|j: int| #![trigger w1[pos1].blocs.0@[j]]
        0 <= j < CHUNK_VOLUME && on_boundary_spec(dir, from_index_spec(j)) implies
        w1[pos1].blocs.0@[j].neighbors.get_spec(dir) == Some(
        partner_ref_spec(pos2, dir, from_index_spec(j)),
    ) && w1[pos1].blocs.0@[j].faces.0@ == faces_in_world_spec(w1, w1[pos1].blocs.0@[j]) by {
        assert(wired_bloc_spec(
            w0[pos1].blocs.0@[j],
            pos2,
            dir,
            from_index_spec(j),
            w1[pos1].blocs.0@[j],
        ));
    }
    assert forall|j: int| #![trigger w1[pos2].blocs.0@[j]]
        0 <= j < CHUNK_VOLUME && on_boundary_spec(dir.opposite_spec(), from_index_spec(j)) implies
        w1[pos2].blocs.0@[j].neighbors.get_spec(dir.opposite_spec()) == Some(
        partner_ref_spec(pos1, dir.opposite_spec(), from_index_spec(j)),
    ) && w1[pos2].blocs.0@[j].faces.0@ == faces_in_world_spec(w1, w1[pos2].blocs.0@[j]) by {
        assert(wired_bloc_spec(
            w0[pos2].blocs.0@[j],
            pos1,
            dir.opposite_spec(),
            from_index_spec(j),
            w1[pos2].blocs.0@[j],
        ));
    }
}

impl Chunks {
    /// Reverse of the wiring step only: clears the neighbor slots on both
    /// sides of the shared boundary plane, without re-evaluating
    /// visibility on either side — every face stays exactly as it was, so
    /// a stale face can linger at a newly exposed seam until that block's
    /// next re-render. The contract pins this teardown asymmetry down.
    pub fn unlink(&mut self, pos1: ChunkPos, pos2: ChunkPos)
        requires
            old(self).wf(),
            old(self)@.contains_key(pos1),
            old(self)@.contains_key(pos2),
            adjacent_spec(pos1, pos2),
        ensures
            final(self).wf(),
            final(self)@.dom() == old(self)@.dom(),
            same_types(old(self)@, final(self)@),
            forall|c: ChunkPos| #![auto]
                old(self)@.contains_key(c) && c != pos1 && c != pos2 ==> final(self)@[c] == old(
                    self,
                )@[c],
            final(self)@[pos1].pos == old(self)@[pos1].pos,
            final(self)@[pos1].neighbors_are_linked == old(self)@[pos1].neighbors_are_linked,
            final(self)@[pos1].blocs.0@.len() == old(self)@[pos1].blocs.0@.len(),
            final(self)@[pos2].pos == old(self)@[pos2].pos,
            final(self)@[pos2].neighbors_are_linked == old(self)@[pos2].neighbors_are_linked,
            final(self)@[pos2].blocs.0@.len() == old(self)@[pos2].blocs.0@.len(),
            forall|j: int| #![trigger final(self)@[pos1].blocs.0@[j]]
                0 <= j < CHUNK_VOLUME ==> {
                    let d1 = dir_between_spec(pos1, pos2);
                    let p = from_index_spec(j);
                    let b0 = old(self)@[pos1].blocs.0@[j];
                    let b1 = final(self)@[pos1].blocs.0@[j];
                    if on_boundary_spec(d1, p) {
                        cleared_bloc_spec(b0, d1, b1)
                    } else {
                        b1 == b0
                    }
                },
            forall|j: int| #![trigger final(self)@[pos2].blocs.0@[j]]
                0 <= j < CHUNK_VOLUME ==> {
                    let d2 = dir_between_spec(pos2, pos1);
                    let p = from_index_spec(j);
                    let b0 = old(self)@[pos2].blocs.0@[j];
                    let b1 = final(self)@[pos2].blocs.0@[j];
                    if on_boundary_spec(d2, p) {
                        cleared_bloc_spec(b0, d2, b1)
                    } else {
                        b1 == b0
                    }
                },
    {
        proof {
            self.lemma_wf_map();
        }
        let d1 = if pos1.x < pos2.x {
            Direction::Right
        } else if pos1.x > pos2.x {
            Direction::Left
        } else if pos1.y < pos2.y {
            Direction::Up
        } else if pos1.y > pos2.y {
            Direction::Down
        } else if pos1.z < pos2.z {
            Direction::Front
        } else {
            Direction::Back
        };
        let d2 = d1.opposite();
        proof {
            assert(d1 == dir_between_spec(pos1, pos2));
            assert(adjacent_toward_spec(pos1, pos2, d1));
            assert(d2 == dir_between_spec(pos2, pos1));
            assert(pos1 != pos2);
        }
        let count = Self::boundary_count(d1);
        proof {
            assert(boundary_count_spec(d2) == boundary_count_spec(d1));
        }
        let mut k: usize = 0;
        while k < count
            invariant
                old(self).wf(),
                self.wf(),
                adjacent_toward_spec(pos1, pos2, d1),
                d1 == dir_between_spec(pos1, pos2),
                d2 == d1.opposite_spec(),
                d2 == dir_between_spec(pos2, pos1),
                pos1 != pos2,
                old(self)@.contains_key(pos1),
                old(self)@.contains_key(pos2),
                old(self)@[pos1].wf(),
                old(self)@[pos2].wf(),
                count == boundary_count_spec(d1),
                count == boundary_count_spec(d2),
                k <= count,
                self@.dom() == old(self)@.dom(),
                same_types(old(self)@, self@),
                forall|c: ChunkPos| #![auto]
                    old(self)@.contains_key(c) && c != pos1 && c != pos2 ==> self@[c] == old(
                        self,
                    )@[c],
                self@[pos1].pos == old(self)@[pos1].pos,
                self@[pos1].neighbors_are_linked == old(self)@[pos1].neighbors_are_linked,
                self@[pos1].blocs.0@.len() == old(self)@[pos1].blocs.0@.len(),
                self@[pos2].pos == old(self)@[pos2].pos,
                self@[pos2].neighbors_are_linked == old(self)@[pos2].neighbors_are_linked,
                self@[pos2].blocs.0@.len() == old(self)@[pos2].blocs.0@.len(),
                forall|j: int| #![trigger self@[pos1].blocs.0@[j]]
                    0 <= j < CHUNK_VOLUME ==> {
                        let p = from_index_spec(j);
                        let b0 = old(self)@[pos1].blocs.0@[j];
                        let b1 = self@[pos1].blocs.0@[j];
                        if on_boundary_spec(d1, p) && boundary_k_spec(d1, p) < k {
                            cleared_bloc_spec(b0, d1, b1)
                        } else {
                            b1 == b0
                        }
                    },
                forall|j: int| #![trigger self@[pos2].blocs.0@[j]]
                    0 <= j < CHUNK_VOLUME ==> {
                        let p = from_index_spec(j);
                        let b0 = old(self)@[pos2].blocs.0@[j];
                        let b1 = self@[pos2].blocs.0@[j];
                        if on_boundary_spec(d2, p) && boundary_k_spec(d2, p) < k {
                            cleared_bloc_spec(b0, d2, b1)
                        } else {
                            b1 == b0
                        }
                    },
            decreases count - k,
        {
            let ghost w0 = self@;
            let p1 = Self::boundary_pos(d1, k);
            let p2 = Self::boundary_pos(d2, k);
            proof {
                lemma_pos_index_round_trip(p1);
                lemma_pos_index_round_trip(p2);
            }
            let idx1 = p1.to_chunk_index();
            let idx2 = p2.to_chunk_index();
            let r1 = BlocRef { chunk: pos1, index: idx1 };
            let r2 = BlocRef { chunk: pos2, index: idx2 };
            self.set_slot(r1, d1, None);
            let ghost wa = self@;
            self.set_slot(r2, d2, None);
            proof {
                let wd = self@;
                lemma_same_types_trans(w0, wa, wd);
                lemma_same_types_trans(old(self)@, w0, wd);
                assert(from_index_spec(idx1 as int) == p1);
                assert(from_index_spec(idx2 as int) == p2);
                assert(boundary_k_spec(d1, p1) == k as int);
                assert(boundary_k_spec(d2, p2) == k as int);
                assert forall|j: int| #![trigger wd[pos1].blocs.0@[j]]
                    0 <= j < CHUNK_VOLUME implies {
                    let p = from_index_spec(j);
                    let b0 = old(self)@[pos1].blocs.0@[j];
                    let b1 = wd[pos1].blocs.0@[j];
                    if on_boundary_spec(d1, p) && boundary_k_spec(d1, p) < k + 1 {
                        cleared_bloc_spec(b0, d1, b1)
                    } else {
                        b1 == b0
                    }
                } by {
                    let p = from_index_spec(j);
                    lemma_index_pos_round_trip(j);
                    if j != idx1 as int {
                        assert(wd[pos1].blocs.0@[j] == w0[pos1].blocs.0@[j]);
                        assert(!(on_boundary_spec(d1, p) && boundary_k_spec(d1, p) == k as int)) by {
                            if on_boundary_spec(d1, p) && boundary_k_spec(d1, p) == k as int {
                                lemma_boundary_surjective(d1, p);
                                assert(j == idx1 as int);
                            }
                        }
                    }
                }
                assert forall|j: int| #![trigger wd[pos2].blocs.0@[j]]
                    0 <= j < CHUNK_VOLUME implies {
                    let p = from_index_spec(j);
                    let b0 = old(self)@[pos2].blocs.0@[j];
                    let b1 = wd[pos2].blocs.0@[j];
                    if on_boundary_spec(d2, p) && boundary_k_spec(d2, p) < k + 1 {
                        cleared_bloc_spec(b0, d2, b1)
                    } else {
                        b1 == b0
                    }
                } by {
                    let p = from_index_spec(j);
                    lemma_index_pos_round_trip(j);
                    if j != idx2 as int {
                        assert(wd[pos2].blocs.0@[j] == w0[pos2].blocs.0@[j]);
                        assert(!(on_boundary_spec(d2, p) && boundary_k_spec(d2, p) == k as int)) by {
                            if on_boundary_spec(d2, p) && boundary_k_spec(d2, p) == k as int {
                                lemma_boundary_surjective(d2, p);
                                assert(j == idx2 as int);
                            }
                        }
                    }
                }
            }
            k = k + 1;
        }
        proof {
            assert forall|j: int| #![trigger self@[pos1].blocs.0@[j]]
                0 <= j < CHUNK_VOLUME implies {
                let p = from_index_spec(j);
                let b0 = old(self)@[pos1].blocs.0@[j];
                let b1 = self@[pos1].blocs.0@[j];
                if on_boundary_spec(d1, p) {
                    cleared_bloc_spec(b0, d1, b1)
                } else {
                    b1 == b0
                }
            } by {
                lemma_index_pos_round_trip(j);
                if on_boundary_spec(d1, from_index_spec(j)) {
                    lemma_boundary_surjective(d1, from_index_spec(j));
                }
            }
            assert forall|j: int| #![trigger self@[pos2].blocs.0@[j]]
                0 <= j < CHUNK_VOLUME implies {
                let p = from_index_spec(j);
                let b0 = old(self)@[pos2].blocs.0@[j];
                let b1 = self@[pos2].blocs.0@[j];
                if on_boundary_spec(d2, p) {
                    cleared_bloc_spec(b0, d2, b1)
                } else {
                    b1 == b0
                }
            } by {
                lemma_index_pos_round_trip(j);
                if on_boundary_spec(d2, from_index_spec(j)) {
                    lemma_boundary_surjective(d2, from_index_spec(j));
                }
            }
        }
    }

    /// Sets or clears one linked flag of a resident chunk, touching
    /// nothing else.
    pub(crate) fn set_flag(&mut self, pos: ChunkPos, dir: Direction, v: bool)
        requires
            old(self).wf(),
            old(self)@.contains_key(pos),
        ensures
            final(self).wf(),
            final(self)@.dom() == old(self)@.dom(),
            same_types(old(self)@, final(self)@),
            forall|c: ChunkPos| #![auto]
                old(self)@.contains_key(c) && c != pos ==> final(self)@[c] == old(self)@[c],
            final(self)@[pos] == (Chunk {
                neighbors_are_linked: nal_set_spec(
                    old(self)@[pos].neighbors_are_linked,
                    dir,
                    v,
                ),
                ..old(self)@[pos]
            }),
    {
        let i = match self.find_index(pos) {
            Some(i) => i,
            None => {
                proof {
                    assert(false);
                }
                return ;
            },
        };
        let mut entry = self.inner.remove(i);
        match dir {
            Direction::Up => {
                entry.1.neighbors_are_linked.up = v;
            },
            Direction::Right => {
                entry.1.neighbors_are_linked.right = v;
            },
            Direction::Front => {
                entry.1.neighbors_are_linked.front = v;
            },
            _ => {},
        }
        let ghost gentry = entry;
        self.inner.push(entry);
        proof {
            let s0 = old(self).inner@;
            crate::assoc::lemma_assoc_map_index(s0, i as int);
            crate::assoc::lemma_assoc_map_remove(s0, i as int);
            let removed = s0.remove(i as int);
            assert(forall|j: int|
                0 <= j < removed.len() ==> (#[trigger] removed[j]) == if j < i as int {
                    s0[j]
                } else {
                    s0[j + 1]
                });
            assert(forall|j: int| 0 <= j < removed.len() ==> (#[trigger] removed[j]).0 != pos);
            crate::assoc::lemma_assoc_map_push(removed, pos, gentry.1);
            assert(final(self)@ =~= old(self)@.insert(pos, gentry.1));
            assert(final(self)@.dom() =~= old(self)@.dom());
            assert(final(self).wf());
            assert(same_types(old(self)@, final(self)@));
        }
    }

    /// The guarded linking step for one chunk and one tracked direction
    /// (`Up`, `Right` or `Front`): a no-op if the pair is already linked —
    /// the flag prevents double-linking, so repeating the operation
    /// neither duplicates nor corrupts neighbor references — or if the
    /// neighbor chunk is not resident; otherwise wires the pair and sets
    /// the flag.
    #[verifier::rlimit(60)]
    pub fn link_pair(&mut self, pos1: ChunkPos, dir: Direction)
        requires
            old(self).wf(),
            old(self)@.contains_key(pos1),
            dir == Direction::Up || dir == Direction::Right || dir == Direction::Front,
            match dir {
                Direction::Up => pos1.y < i32::MAX,
                Direction::Right => pos1.x < i32::MAX,
                _ => pos1.z < i32::MAX,
            },
        ensures
            final(self).wf(),
            final(self)@.dom() == old(self)@.dom(),
            same_types(old(self)@, final(self)@),
            nal_get_spec(old(self)@[pos1].neighbors_are_linked, dir) ==> final(self)@ == old(
                self,
            )@,
            !old(self)@.contains_key(pos1.step_spec(dir)) ==> final(self)@ == old(self)@,
            nal_get_spec(final(self)@[pos1].neighbors_are_linked, dir) == (nal_get_spec(
                old(self)@[pos1].neighbors_are_linked,
                dir,
            ) || old(self)@.contains_key(pos1.step_spec(dir))),
            forall|d2: Direction|
                d2 != dir ==> nal_get_spec(
                    #[trigger] final(self)@[pos1].neighbors_are_linked,
                    d2,
                ) == nal_get_spec(old(self)@[pos1].neighbors_are_linked, d2),
            forall|c: ChunkPos| #![auto]
                old(self)@.contains_key(c) && c != pos1 ==> final(self)@[c].neighbors_are_linked
                    == old(self)@[c].neighbors_are_linked,
            // when the pair was not yet linked and the neighbor is
            // resident, the linking is actually performed: both boundary
            // planes are wired and re-evaluated, everything else untouched
            !nal_get_spec(old(self)@[pos1].neighbors_are_linked, dir) && old(self)@.contains_key(
                pos1.step_spec(dir),
            ) ==> linked_step_spec(
                old(self)@,
                final(self)@,
                pos1,
                pos1.step_spec(dir),
                dir,
            ),
    {
        proof {
            self.lemma_wf_map();
        }
        let flagged = {
            let c = match self.get(pos1) {
                Some(c) => c,
                None => {
                    proof {
                        assert(false);
                    }
                    return ;
                },
            };
            match dir {
                Direction::Up => c.neighbors_are_linked.up,
                Direction::Right => c.neighbors_are_linked.right,
                _ => c.neighbors_are_linked.front,
            }
        };
        if flagged {
            return ;
        }
        let pos2 = pos1.step(dir);
        if !self.contains(pos2) {
            return ;
        }
        proof {
            assert(adjacent_toward_spec(pos1, pos2, dir));
            assert(dir_between_spec(pos1, pos2) == dir);
            assert(dir_between_spec(pos2, pos1) == dir.opposite_spec());
            assert(pos2 == pos1.step_spec(dir));
        }
        self.link(pos1, pos2);
        let ghost wl = self@;
        self.set_flag(pos1, dir, true);
        proof {
            lemma_same_types_trans(old(self)@, old(self)@, final(self)@);
            assert(final(self)@[pos1].blocs == wl[pos1].blocs);
            assert(final(self)@[pos2] == wl[pos2]);
            assert(forall|j: int| #![trigger final(self)@[pos1].blocs.0@[j]]
                0 <= j < CHUNK_VOLUME ==> final(self)@[pos1].blocs.0@[j] == wl[pos1].blocs.0@[j]);
            lemma_faces_stable(wl, final(self)@);
            assert forall|j: int| #![trigger final(self)@[pos1].blocs.0@[j]]
                0 <= j < CHUNK_VOLUME && on_boundary_spec(dir, from_index_spec(j)) implies final(self)@[pos1].blocs.0@[j].faces.0@ == faces_in_world_spec(
                final(self)@,
                final(self)@[pos1].blocs.0@[j],
            ) by {
                let b1 = wl[pos1].blocs.0@[j];
                assert(b1.faces.0@ == faces_in_world_spec(wl, b1));
                assert(faces_in_world_spec(final(self)@, b1) == faces_in_world_spec(wl, b1));
            }
            assert forall|j: int| #![trigger final(self)@[pos2].blocs.0@[j]]
                0 <= j < CHUNK_VOLUME && on_boundary_spec(dir.opposite_spec(), from_index_spec(j))
                implies final(self)@[pos2].blocs.0@[j].faces.0@ == faces_in_world_spec(
                final(self)@,
                final(self)@[pos2].blocs.0@[j],
            ) by {
                let b1 = wl[pos2].blocs.0@[j];
                assert(b1.faces.0@ == faces_in_world_spec(wl, b1));
                assert(faces_in_world_spec(final(self)@, b1) == faces_in_world_spec(wl, b1));
            }
        }
    }

    /// One step of the linking pass preserves every wired pair of the
    /// chunks already processed.
    proof fn lemma_pass_inv_step(
        w_old: Map<ChunkPos, Chunk>,
        w_pre: Map<ChunkPos, Chunk>,
        w_post: Map<ChunkPos, Chunk>,
        ps: Seq<ChunkPos>,
        i: int,
        pos: ChunkPos,
        pos2: ChunkPos,
        dir: Direction,
        performed: bool,
    )
        requires
            0 <= i < ps.len(),
            pos == ps[i],
            forall|j1: int, j2: int|
                0 <= j1 < j2 < ps.len() ==> #[trigger] ps[j1] != (#[trigger] ps[j2]),
            dir == Direction::Up || dir == Direction::Right || dir == Direction::Front,
            w_pre.dom() == w_old.dom(),
            w_post.dom() == w_old.dom(),
            same_types(w_pre, w_post),
            !performed ==> w_post == w_pre,
            performed ==> adjacent_toward_spec(pos, pos2, dir) && w_pre.contains_key(pos)
                && w_pre.contains_key(pos2) && linked_step_spec(w_pre, w_post, pos, pos2, dir),
            forall|jj: int, q: ChunkPos, d: Direction|
                #![trigger ps[jj], pass_links_spec(w_old, ps[jj], q, d)]
                0 <= jj < i && pass_links_spec(w_old, ps[jj], q, d) ==> pair_wired_spec(
                    w_pre,
                    ps[jj],
                    q,
                    d,
                ),
        ensures
            forall|jj: int, q: ChunkPos, d: Direction|
                #![trigger ps[jj], pass_links_spec(w_old, ps[jj], q, d)]
                0 <= jj < i && pass_links_spec(w_old, ps[jj], q, d) ==> pair_wired_spec(
                    w_post,
                    ps[jj],
                    q,
                    d,
                ),
    {
        assert forall|jj: int, q: ChunkPos, d: Direction|
            #![trigger ps[jj], pass_links_spec(w_old, ps[jj], q, d)]
            0 <= jj < i && pass_links_spec(w_old, ps[jj], q, d) implies pair_wired_spec(
            w_post,
            ps[jj],
            q,
            d,
        ) by {
            assert(pair_wired_spec(w_pre, ps[jj], q, d));
            if performed {
                assert(ps[jj] != pos);
                assert(w_pre.contains_key(ps[jj]));
                assert(w_pre.contains_key(q));
                lemma_pair_wired_persists(w_pre, w_post, pos, pos2, dir, ps[jj], q, d);
            }
        }
    }

    /// The per-tick linking pass: links every resident chunk to any of
    /// its three positive-direction neighbor chunks that is also resident
    /// and not yet linked. Afterwards every such pair stands wired along
    /// its boundary plane with the boundary faces re-evaluated; a chunk
    /// whose pairs were all linked before (or have no resident neighbor)
    /// is untouched; and a flag holds exactly where it held before or the
    /// neighbor was resident this tick — never for an absent neighbor.
    #[verifier::rlimit(100)]
    pub fn link_chunks(&mut self)
        requires
            old(self).wf(),
        ensures
            final(self).wf(),
            final(self)@.dom() == old(self)@.dom(),
            same_types(old(self)@, final(self)@),
            forall|c: ChunkPos, j: int| #![trigger final(self)@[c].blocs.0@[j]]
                old(self)@.contains_key(c) && 0 <= j < old(self)@[c].blocs.0@.len() ==> {
                    let b0 = old(self)@[c].blocs.0@[j];
                    let b1 = final(self)@[c].blocs.0@[j];
                    b1.pos_in_chunk == b0.pos_in_chunk && b1.typ == b0.typ && b1.has_collider
                        == b0.has_collider
                },
            forall|p: ChunkPos| #![auto]
                old(self)@.contains_key(p) ==> final(self)@[p].neighbors_are_linked.up == (old(
                    self,
                )@[p].neighbors_are_linked.up || (p.y < i32::MAX && old(self)@.contains_key(
                    p.step_spec(Direction::Up),
                ))),
            forall|p: ChunkPos| #![auto]
                old(self)@.contains_key(p) ==> final(self)@[p].neighbors_are_linked.right == (old(
                    self,
                )@[p].neighbors_are_linked.right || (p.x < i32::MAX && old(self)@.contains_key(
                    p.step_spec(Direction::Right),
                ))),
            forall|p: ChunkPos| #![auto]
                old(self)@.contains_key(p) ==> final(self)@[p].neighbors_are_linked.front == (old(
                    self,
                )@[p].neighbors_are_linked.front || (p.z < i32::MAX && old(self)@.contains_key(
                    p.step_spec(Direction::Front),
                ))),
            forall|c: ChunkPos| #![auto]
                old(self)@.contains_key(c) && !involved_in_link_spec(old(self)@, c) ==> final(self)@[c] == old(self)@[c],
            forall|p: ChunkPos, q: ChunkPos, d: Direction|
                #[trigger] pass_links_spec(old(self)@, p, q, d) ==> pair_wired_spec(
                    final(self)@,
                    p,
                    q,
                    d,
                ),
    {
        proof {
            self.lemma_wf_map();
        }
        let ps = self.positions();
        let n = ps.len();
        proof {
            assert forall|j1: int, j2: int| 0 <= j1 < j2 < n implies #[trigger] ps@[j1] != (
            #[trigger] ps@[j2]) by {
                assert(old(self).inner@[j1].0 != old(self).inner@[j2].0);
            }
            assert forall|p: ChunkPos| #[trigger] old(self)@.contains_key(p) implies exists|j: int|
                0 <= j < n && ps@[j] == p by {
                crate::assoc::lemma_assoc_map_contains(old(self).inner@, p);
                let j = choose|j: int|
                    0 <= j < old(self).inner@.len() && (#[trigger] old(self).inner@[j]).0 == p;
                assert(ps@[j] == p);
            }
        }
        let mut i: usize = 0;
        while i < n
            invariant
                self.wf(),
                old(self).wf(),
                n == ps@.len(),
                i <= n,
                forall|j1: int, j2: int|
                    0 <= j1 < j2 < n ==> #[trigger] ps@[j1] != (#[trigger] ps@[j2]),
                forall|p: ChunkPos| #[trigger] old(self)@.contains_key(p) ==> exists|j: int|
                    0 <= j < n && ps@[j] == p,
                forall|j: int| 0 <= j < n ==> old(self)@.contains_key(#[trigger] ps@[j]),
                self@.dom() == old(self)@.dom(),
                same_types(old(self)@, self@),
                forall|c: ChunkPos, j: int| #![trigger self@[c].blocs.0@[j]]
                    old(self)@.contains_key(c) && 0 <= j < old(self)@[c].blocs.0@.len() ==> {
                        let b0 = old(self)@[c].blocs.0@[j];
                        let b1 = self@[c].blocs.0@[j];
                        b1.pos_in_chunk == b0.pos_in_chunk && b1.typ == b0.typ && b1.has_collider
                            == b0.has_collider
                    },
                forall|j: int| #![trigger ps@[j]]
                    i <= j < n ==> self@[ps@[j]].neighbors_are_linked == old(
                        self,
                    )@[ps@[j]].neighbors_are_linked,
                forall|j: int| #![trigger ps@[j]]
                    0 <= j < i ==> {
                        let p = ps@[j];
                        self@[p].neighbors_are_linked.up == (old(
                            self,
                        )@[p].neighbors_are_linked.up || (p.y < i32::MAX && old(
                            self,
                        )@.contains_key(p.step_spec(Direction::Up))))
                            && self@[p].neighbors_are_linked.right == (old(
                            self,
                        )@[p].neighbors_are_linked.right || (p.x < i32::MAX && old(
                            self,
                        )@.contains_key(p.step_spec(Direction::Right))))
                            && self@[p].neighbors_are_linked.front == (old(
                            self,
                        )@[p].neighbors_are_linked.front || (p.z < i32::MAX && old(
                            self,
                        )@.contains_key(p.step_spec(Direction::Front))))
                    },
                forall|c: ChunkPos| #![auto]
                    old(self)@.contains_key(c) && !involved_in_link_spec(old(self)@, c)
                        ==> self@[c] == old(self)@[c],
                forall|jj: int, q: ChunkPos, d: Direction|
                    #![trigger ps@[jj], pass_links_spec(old(self)@, ps@[jj], q, d)]
                    0 <= jj < i && pass_links_spec(old(self)@, ps@[jj], q, d) ==> pair_wired_spec(
                        self@,
                        ps@[jj],
                        q,
                        d,
                    ),
            decreases n - i,
        {
            let pos = ps[i];
            let ghost w0 = self@;
            let ghost perf_up = pos.y < i32::MAX && !w0[pos].neighbors_are_linked.up
                && w0.contains_key(pos.step_spec(Direction::Up));
            if pos.y < i32::MAX {
                self.link_pair(pos, Direction::Up);
            }
            let ghost w1 = self@;
            proof {
                lemma_same_types_trans(old(self)@, w0, w1);
                if perf_up {
                    assert(adjacent_toward_spec(pos, pos.step_spec(Direction::Up), Direction::Up));
                    assert(linked_step_spec(w0, w1, pos, pos.step_spec(Direction::Up), Direction::Up));
                    lemma_linked_step_wires(w0, w1, pos, pos.step_spec(Direction::Up), Direction::Up);
                } else {
                    assert(w1 == w0);
                }
                if perf_up {
                    assert(w0.contains_key(pos));
                }
                Self::lemma_pass_inv_step(
                    old(self)@,
                    w0,
                    w1,
                    ps@,
                    i as int,
                    pos,
                    pos.step_spec(Direction::Up),
                    Direction::Up,
                    perf_up,
                );
            }
            let ghost perf_right = pos.x < i32::MAX && !w1[pos].neighbors_are_linked.right
                && w1.contains_key(pos.step_spec(Direction::Right));
            if pos.x < i32::MAX {
                self.link_pair(pos, Direction::Right);
            }
            let ghost w2 = self@;
            proof {
                lemma_same_types_trans(old(self)@, w1, w2);
                if perf_right {
                    assert(adjacent_toward_spec(
                        pos,
                        pos.step_spec(Direction::Right),
                        Direction::Right,
                    ));
                    assert(linked_step_spec(
                        w1,
                        w2,
                        pos,
                        pos.step_spec(Direction::Right),
                        Direction::Right,
                    ));
                    lemma_linked_step_wires(
                        w1,
                        w2,
                        pos,
                        pos.step_spec(Direction::Right),
                        Direction::Right,
                    );
                } else {
                    assert(w2 == w1);
                }
                if perf_right {
                    assert(w1.contains_key(pos));
                }
                Self::lemma_pass_inv_step(
                    old(self)@,
                    w1,
                    w2,
                    ps@,
                    i as int,
                    pos,
                    pos.step_spec(Direction::Right),
                    Direction::Right,
                    perf_right,
                );
                if perf_up {
                    if perf_right {
                        lemma_pair_wired_persists(
                            w1,
                            w2,
                            pos,
                            pos.step_spec(Direction::Right),
                            Direction::Right,
                            pos,
                            pos.step_spec(Direction::Up),
                            Direction::Up,
                        );
                    }
                    assert(pair_wired_spec(w2, pos, pos.step_spec(Direction::Up), Direction::Up));
                }
            }
            let ghost perf_front = pos.z < i32::MAX && !w2[pos].neighbors_are_linked.front
                && w2.contains_key(pos.step_spec(Direction::Front));
            if pos.z < i32::MAX {
                self.link_pair(pos, Direction::Front);
            }
            let ghost w3 = self@;
            proof {
                lemma_same_types_trans(old(self)@, w2, w3);
                if perf_front {
                    assert(adjacent_toward_spec(
                        pos,
                        pos.step_spec(Direction::Front),
                        Direction::Front,
                    ));
                    assert(linked_step_spec(
                        w2,
                        w3,
                        pos,
                        pos.step_spec(Direction::Front),
                        Direction::Front,
                    ));
                    lemma_linked_step_wires(
                        w2,
                        w3,
                        pos,
                        pos.step_spec(Direction::Front),
                        Direction::Front,
                    );
                } else {
                    assert(w3 == w2);
                }
                if perf_front {
                    assert(w2.contains_key(pos));
                }
                Self::lemma_pass_inv_step(
                    old(self)@,
                    w2,
                    w3,
                    ps@,
                    i as int,
                    pos,
                    pos.step_spec(Direction::Front),
                    Direction::Front,
                    perf_front,
                );
                if perf_up {
                    if perf_front {
                        lemma_pair_wired_persists(
                            w2,
                            w3,
                            pos,
                            pos.step_spec(Direction::Front),
                            Direction::Front,
                            pos,
                            pos.step_spec(Direction::Up),
                            Direction::Up,
                        );
                    }
                    assert(pair_wired_spec(w3, pos, pos.step_spec(Direction::Up), Direction::Up));
                }
                if perf_right {
                    if perf_front {
                        lemma_pair_wired_persists(
                            w2,
                            w3,
                            pos,
                            pos.step_spec(Direction::Front),
                            Direction::Front,
                            pos,
                            pos.step_spec(Direction::Right),
                            Direction::Right,
                        );
                    }
                    assert(pair_wired_spec(
                        w3,
                        pos,
                        pos.step_spec(Direction::Right),
                        Direction::Right,
                    ));
                }

                // flags of this chunk across the three steps
                assert(nal_get_spec(w1[pos].neighbors_are_linked, Direction::Right)
                    == nal_get_spec(w0[pos].neighbors_are_linked, Direction::Right));
                assert(nal_get_spec(w1[pos].neighbors_are_linked, Direction::Front)
                    == nal_get_spec(w0[pos].neighbors_are_linked, Direction::Front));
                assert(nal_get_spec(w2[pos].neighbors_are_linked, Direction::Up) == nal_get_spec(
                    w1[pos].neighbors_are_linked,
                    Direction::Up,
                ));
                assert(nal_get_spec(w2[pos].neighbors_are_linked, Direction::Front)
                    == nal_get_spec(w1[pos].neighbors_are_linked, Direction::Front));
                assert(nal_get_spec(w3[pos].neighbors_are_linked, Direction::Up) == nal_get_spec(
                    w2[pos].neighbors_are_linked,
                    Direction::Up,
                ));
                assert(nal_get_spec(w3[pos].neighbors_are_linked, Direction::Right)
                    == nal_get_spec(w2[pos].neighbors_are_linked, Direction::Right));
                assert(w1[pos].neighbors_are_linked.right == w0[pos].neighbors_are_linked.right
                    && w1[pos].neighbors_are_linked.front == w0[pos].neighbors_are_linked.front);
                assert(w2[pos].neighbors_are_linked.up == w1[pos].neighbors_are_linked.up
                    && w2[pos].neighbors_are_linked.front == w1[pos].neighbors_are_linked.front);
                assert(w3[pos].neighbors_are_linked.up == w2[pos].neighbors_are_linked.up
                    && w3[pos].neighbors_are_linked.right == w2[pos].neighbors_are_linked.right);
                assert(pos.y < i32::MAX ==> w1[pos].neighbors_are_linked.up == (
                w0[pos].neighbors_are_linked.up || w0.contains_key(pos.step_spec(Direction::Up))));
                assert(pos.x < i32::MAX ==> w2[pos].neighbors_are_linked.right == (
                w1[pos].neighbors_are_linked.right || w1.contains_key(
                    pos.step_spec(Direction::Right),
                )));
                assert(pos.z < i32::MAX ==> w3[pos].neighbors_are_linked.front == (
                w2[pos].neighbors_are_linked.front || w2.contains_key(
                    pos.step_spec(Direction::Front),
                )));

                // block fields survive each step
                old(self).lemma_wf_map();
                assert forall|c: ChunkPos, j: int| #![trigger w3[c].blocs.0@[j]]
                    old(self)@.contains_key(c) && 0 <= j < old(self)@[c].blocs.0@.len() implies {
                    let b0 = old(self)@[c].blocs.0@[j];
                    let b1 = w3[c].blocs.0@[j];
                    b1.pos_in_chunk == b0.pos_in_chunk && b1.typ == b0.typ && b1.has_collider
                        == b0.has_collider
                } by {
                    assert(old(self)@[c].wf());
                    assert(0 <= j < CHUNK_VOLUME);
                    let ba = w0[c].blocs.0@[j];
                    let bb = w1[c].blocs.0@[j];
                    let bc = w2[c].blocs.0@[j];
                    let bd = w3[c].blocs.0@[j];
                    assert(ba.pos_in_chunk == old(self)@[c].blocs.0@[j].pos_in_chunk && ba.typ
                        == old(self)@[c].blocs.0@[j].typ && ba.has_collider == old(
                        self,
                    )@[c].blocs.0@[j].has_collider);
                    assert(bb.pos_in_chunk == ba.pos_in_chunk && bb.typ == ba.typ
                        && bb.has_collider == ba.has_collider) by {
                        if perf_up && (c == pos || c == pos.step_spec(Direction::Up)) {
                            assert(0 <= j < CHUNK_VOLUME);
                        } else {
                            assert(w1[c] == w0[c]);
                        }
                    }
                    assert(bc.pos_in_chunk == bb.pos_in_chunk && bc.typ == bb.typ
                        && bc.has_collider == bb.has_collider) by {
                        if perf_right && (c == pos || c == pos.step_spec(Direction::Right)) {
                            assert(0 <= j < CHUNK_VOLUME);
                        } else {
                            assert(w2[c] == w1[c]);
                        }
                    }
                    assert(bd.pos_in_chunk == bc.pos_in_chunk && bd.typ == bc.typ
                        && bd.has_collider == bc.has_collider) by {
                        if perf_front && (c == pos || c == pos.step_spec(Direction::Front)) {
                            assert(0 <= j < CHUNK_VOLUME);
                        } else {
                            assert(w3[c] == w2[c]);
                        }
                    }
                }

                // the new chunk's pairs for the invariant at i + 1
                assert forall|q: ChunkPos, d: Direction|
                    pass_links_spec(old(self)@, pos, q, d) implies #[trigger] pair_wired_spec(
                    w3,
                    pos,
                    q,
                    d,
                ) by {
                    if d == Direction::Up {
                        assert(q == pos.step_spec(Direction::Up));
                        assert(perf_up);
                    } else if d == Direction::Right {
                        assert(q == pos.step_spec(Direction::Right));
                        assert(perf_right);
                    } else {
                        assert(q == pos.step_spec(Direction::Front));
                        assert(perf_front);
                    }
                }

                // chunks the pass does not link at all are untouched
                assert forall|c: ChunkPos| #![auto]
                    old(self)@.contains_key(c) && !involved_in_link_spec(old(self)@, c) implies
                    w3[c] == old(self)@[c] by {
                    if perf_up {
                        assert(pass_links_spec(
                            old(self)@,
                            pos,
                            pos.step_spec(Direction::Up),
                            Direction::Up,
                        ));
                        assert(c != pos && c != pos.step_spec(Direction::Up));
                    }
                    if perf_right {
                        assert(pass_links_spec(
                            old(self)@,
                            pos,
                            pos.step_spec(Direction::Right),
                            Direction::Right,
                        ));
                        assert(c != pos && c != pos.step_spec(Direction::Right));
                    }
                    if perf_front {
                        assert(pass_links_spec(
                            old(self)@,
                            pos,
                            pos.step_spec(Direction::Front),
                            Direction::Front,
                        ));
                        assert(c != pos && c != pos.step_spec(Direction::Front));
                    }
                    assert(w1[c] == w0[c]);
                    assert(w2[c] == w1[c]);
                    assert(w3[c] == w2[c]);
                }
            }
            i = i + 1;
        }
        proof {
            assert forall|p: ChunkPos| #![auto] old(self)@.contains_key(p) implies final(self)@[p].neighbors_are_linked.up == (old(self)@[p].neighbors_are_linked.up || (p.y
                < i32::MAX && old(self)@.contains_key(p.step_spec(Direction::Up)))) && final(self)@[p].neighbors_are_linked.right == (old(self)@[p].neighbors_are_linked.right || (p.x
                < i32::MAX && old(self)@.contains_key(p.step_spec(Direction::Right)))) && final(self)@[p].neighbors_are_linked.front == (old(self)@[p].neighbors_are_linked.front || (p.z
                < i32::MAX && old(self)@.contains_key(p.step_spec(Direction::Front)))) by {
                let j = choose|j: int| 0 <= j < n && ps@[j] == p;
            }
            assert forall|p: ChunkPos, q: ChunkPos, d: Direction|
                #[trigger] pass_links_spec(old(self)@, p, q, d) implies pair_wired_spec(
                final(self)@,
                p,
                q,
                d,
            ) by {
                let j = choose|j: int| 0 <= j < n && ps@[j] == p;
            }
        }
    }
}

} // verus!