//! Chunk-level data model: the block object, the dense per-chunk block
//! array with its intra-chunk neighbor wiring, and the chunk bundle with
//! its linked-flag set.

use vstd::prelude::*;

use crate::{CHUNK_VOLUME, CHUNK_X, CHUNK_Y, CHUNK_Z};
use crate::blocs::{
    BlocFaces, BlocRef, BlocType, ChunkPos, Direction, Face, Neighbors, PosInChunk,
    from_index_spec, to_index_spec,
};

verus! {

/// A single block cell: its position inside the owning chunk, its mutable
/// type, its six neighbor slots, its currently rendered faces, and whether
/// the physics sink holds a collider for it.
#[derive(Clone, Debug)]
pub struct Bloc {
    pub pos_in_chunk: PosInChunk,
    pub typ: BlocType,
    pub neighbors: Neighbors,
    pub faces: BlocFaces,
    pub has_collider: bool,
}

/// The intra-chunk neighbor slot of position `p` toward `dir`: a handle to
/// the adjacent block of the same chunk, or `None` at a chunk edge (to be
/// filled later by cross-chunk linking).
pub open spec fn intra_slot_spec(cp: ChunkPos, p: PosInChunk, dir: Direction) -> Option<BlocRef> {
    if p.neighbor_in_bounds(dir) {
        Some(BlocRef { chunk: cp, index: to_index_spec(p.neighbor_spec(dir)) as usize })
    } else {
        None
    }
}

/// The neighbor record a freshly created block starts with: all six slots
/// wired to intra-chunk neighbors where they exist.
pub open spec fn initial_neighbors_spec(cp: ChunkPos, p: PosInChunk) -> Neighbors {
    Neighbors {
        up: intra_slot_spec(cp, p, Direction::Up),
        down: intra_slot_spec(cp, p, Direction::Down),
        right: intra_slot_spec(cp, p, Direction::Right),
        left: intra_slot_spec(cp, p, Direction::Left),
        front: intra_slot_spec(cp, p, Direction::Front),
        back: intra_slot_spec(cp, p, Direction::Back),
    }
}

/// The dense array of the `CHUNK_X * CHUNK_Y * CHUNK_Z` block objects a
/// chunk owns, indexed by the linear in-chunk index.
#[derive(Clone, Debug)]
pub struct ChunkBlocs(pub Vec<Bloc>);

impl ChunkBlocs {
    /// One block per cell, each knowing its own position.
    pub open spec fn wf(self) -> bool {
        self.0@.len() == CHUNK_VOLUME && forall|i: int|
            0 <= i < CHUNK_VOLUME ==> (#[trigger] self.0@[i]).pos_in_chunk == from_index_spec(i)
    }

    /// Wraps an already built block array.
    pub fn from_inner(inner: Vec<Bloc>) -> (r: Self)
        ensures
            r.0 == inner,
    {
        Self(inner)
    }

    /// Allocates all block objects for a chunk at `chunk_pos` holding
    /// `types`, wires every block's six neighbor slots to its intra-chunk
    /// neighbors (a slot is `None` at a chunk edge), renders no face yet,
    /// and requests a collider for every non-Air block.
    pub fn new(chunk_pos: ChunkPos, types: &Vec<BlocType>) -> (r: Self)
        requires
            types@.len() == CHUNK_VOLUME,
        ensures
            r.wf(),
            forall|i: int|
                0 <= i < CHUNK_VOLUME ==> (#[trigger] r.0@[i]) == (Bloc {
                    pos_in_chunk: from_index_spec(i),
                    typ: types@[i],
                    neighbors: initial_neighbors_spec(chunk_pos, from_index_spec(i)),
                    faces: r.0@[i].faces,
                    has_collider: types@[i] != BlocType::Air,
                }),
            forall|i: int| 0 <= i < CHUNK_VOLUME ==> (#[trigger] r.0@[i]).faces.0@.len() == 0,
    {
        let mut blocs: Vec<Bloc> = Vec::new();
        let mut i: usize = 0;
        while i < CHUNK_VOLUME
            invariant
                types@.len() == CHUNK_VOLUME,
                i <= CHUNK_VOLUME,
                blocs@.len() == i,
                forall|j: int|
                    0 <= j < i ==> (#[trigger] blocs@[j]) == (Bloc {
                        pos_in_chunk: from_index_spec(j),
                        typ: types@[j],
                        neighbors: initial_neighbors_spec(chunk_pos, from_index_spec(j)),
                        faces: blocs@[j].faces,
                        has_collider: types@[j] != BlocType::Air,
                    }),
                forall|j: int| 0 <= j < i ==> (#[trigger] blocs@[j]).faces.0@.len() == 0,
            decreases CHUNK_VOLUME - i,
        {
            let pos_in_chunk = PosInChunk::from_chunk_index(i);
            let up = if pos_in_chunk.y as usize == CHUNK_Y - 1 {
                None
            } else {
                Some(
                    BlocRef {
                        chunk: chunk_pos,
                        index: pos_in_chunk.to_neighbor(Direction::Up).to_chunk_index(),
                    },
                )
            };
            let down = if pos_in_chunk.y == 0 {
                None
            } else {
                Some(
                    BlocRef {
                        chunk: chunk_pos,
                        index: pos_in_chunk.to_neighbor(Direction::Down).to_chunk_index(),
                    },
                )
            };
            let right = if pos_in_chunk.x as usize == CHUNK_X - 1 {
                None
            } else {
                Some(
                    BlocRef {
                        chunk: chunk_pos,
                        index: pos_in_chunk.to_neighbor(Direction::Right).to_chunk_index(),
                    },
                )
            };
            let left = if pos_in_chunk.x == 0 {
                None
            } else {
                Some(
                    BlocRef {
                        chunk: chunk_pos,
                        index: pos_in_chunk.to_neighbor(Direction::Left).to_chunk_index(),
                    },
                )
            };
            let front = if pos_in_chunk.z as usize == CHUNK_Z - 1 {
                None
            } else {
                Some(
                    BlocRef {
                        chunk: chunk_pos,
                        index: pos_in_chunk.to_neighbor(Direction::Front).to_chunk_index(),
                    },
                )
            };
            let back = if pos_in_chunk.z == 0 {
                None
            } else {
                Some(
                    BlocRef {
                        chunk: chunk_pos,
                        index: pos_in_chunk.to_neighbor(Direction::Back).to_chunk_index(),
                    },
                )
            };
            let typ = types[i];
            let bloc = Bloc {
                pos_in_chunk,
                typ,
                neighbors: Neighbors { up, down, right, left, front, back },
                faces: BlocFaces(Vec::new()),
                has_collider: typ != BlocType::Air,
            };
            proof {
                assert(bloc.neighbors =~= initial_neighbors_spec(chunk_pos, from_index_spec(
                    i as int,
                )));
            }
            blocs.push(bloc);
            i = i + 1;
        }
        Self(blocs)
    }

    /// An all-Air chunk.
    pub fn new_empty(chunk_pos: ChunkPos) -> (r: Self)
        ensures
            r.wf(),
            forall|i: int| 0 <= i < CHUNK_VOLUME ==> (#[trigger] r.0@[i]).typ == BlocType::Air,
            forall|i: int|
                0 <= i < CHUNK_VOLUME ==> (#[trigger] r.0@[i]).neighbors == initial_neighbors_spec(
                    chunk_pos,
                    from_index_spec(i),
                ),
            forall|i: int| 0 <= i < CHUNK_VOLUME ==> (#[trigger] r.0@[i]).faces.0@.len() == 0,
            forall|i: int| 0 <= i < CHUNK_VOLUME ==> !(#[trigger] r.0@[i]).has_collider,
    {
        let mut types: Vec<BlocType> = Vec::new();
        let mut i: usize = 0;
        while i < CHUNK_VOLUME
            invariant
                i <= CHUNK_VOLUME,
                types@.len() == i,
                forall|j: int| 0 <= j < i ==> (#[trigger] types@[j]) == BlocType::Air,
            decreases CHUNK_VOLUME - i,
        {
            types.push(BlocType::Air);
            i = i + 1;
        }
        Self::new(chunk_pos, &types)
    }

    /// The block at an in-chunk position; `None` for out-of-range
    /// coordinates, which callers must range-check.
    pub fn get(&self, pos: &PosInChunk) -> (r: Option<&Bloc>)
        requires
            self.wf(),
        ensures
            match r {
                Some(b) => pos.valid() && *b == self.0@[to_index_spec(*pos)],
                None => !pos.valid(),
            },
    {
        if (pos.x as usize) < CHUNK_X && (pos.y as usize) < CHUNK_Y && (pos.z as usize) < CHUNK_Z {
            Some(&self.0[pos.to_chunk_index()])
        } else {
            None
        }
    }

    /// Replaces the block at an in-chunk position.
    pub fn set(&mut self, pos: &PosInChunk, val: Bloc)
        requires
            old(self).wf(),
            pos.valid(),
            val.pos_in_chunk == *pos,
        ensures
            final(self).wf(),
            final(self).0@ == old(self).0@.update(to_index_spec(*pos), val),
    {
        let ghost gval = val;
        let idx = pos.to_chunk_index();
        self.0.set(idx, val);
        proof {
            crate::blocs::lemma_pos_index_round_trip(*pos);
            assert(forall|i: int|
                0 <= i < CHUNK_VOLUME ==> (#[trigger] final(self).0@[i]).pos_in_chunk
                    == from_index_spec(i));
        }
    }
}

/// The 3-bit "linked" flag set of a chunk: which of the three
/// positive-direction neighbor chunks have already been cross-linked.
/// Linking is symmetric, so only positive directions are tracked, which
/// prevents double-linking.
#[derive(Clone, Copy, Debug, PartialEq, Eq, Structural)]
pub struct ChunkNeighborsAreLinked {
    pub up: bool,
    pub right: bool,
    pub front: bool,
}

impl Default for ChunkNeighborsAreLinked {
    /// Nothing linked yet.
    fn default() -> (r: Self)
        ensures
            !r.up && !r.right && !r.front,
    {
        Self { up: false, right: false, front: false }
    }
}

/// A resident chunk: its block array, its position in chunk-grid units,
/// and its linked-flag set.
#[derive(Clone, Debug)]
pub struct Chunk {
    pub blocs: ChunkBlocs,
    pub pos: ChunkPos,
    pub neighbors_are_linked: ChunkNeighborsAreLinked,
}

impl Chunk {
    /// Well-formed block array.
    pub open spec fn wf(self) -> bool {
        self.blocs.wf()
    }

    /// An all-Air chunk at `pos`, nothing linked.
    pub fn new_empty(pos: ChunkPos) -> (r: Self)
        ensures
            r.wf(),
            r.pos == pos,
            !r.neighbors_are_linked.up && !r.neighbors_are_linked.right
                && !r.neighbors_are_linked.front,
            forall|i: int| 0 <= i < CHUNK_VOLUME ==> (#[trigger] r.blocs.0@[i]).typ == BlocType::Air,
    {
        Self {
            pos,
            blocs: ChunkBlocs::new_empty(pos),
            neighbors_are_linked: ChunkNeighborsAreLinked::default(),
        }
    }

    /// A chunk at `pos` around an already built block array, nothing
    /// linked.
    pub fn new_with_blocs(pos: ChunkPos, blocs: ChunkBlocs) -> (r: Self)
        ensures
            r.pos == pos,
            r.blocs == blocs,
            !r.neighbors_are_linked.up && !r.neighbors_are_linked.right
                && !r.neighbors_are_linked.front,
    {
        Self { pos, blocs, neighbors_are_linked: ChunkNeighborsAreLinked::default() }
    }

    /// The block at an in-chunk position; `None` for out-of-range
    /// coordinates.
    pub fn get(&self, pos: &PosInChunk) -> (r: Option<&Bloc>)
        requires
            self.wf(),
        ensures
            match r {
                Some(b) => pos.valid() && *b == self.blocs.0@[to_index_spec(*pos)],
                None => !pos.valid(),
            },
    {
        self.blocs.get(pos)
    }
}

} // verus!
