//! The world index: the one authoritative mapping from chunk position to
//! resident chunk, and every operation that reads or mutates blocks across
//! chunk boundaries — visibility re-evaluation, collider toggling,
//! cross-chunk linking, block removal, and chunk loading.

use vstd::prelude::*;

use crate::{CHUNK_VOLUME, CHUNK_X, CHUNK_Y, CHUNK_Z};
use crate::assoc::{
    assoc_map, lemma_assoc_map_contains, lemma_assoc_map_index, lemma_assoc_map_no_key,
    lemma_assoc_map_push, lemma_assoc_map_remove, unique_keys,
};
use crate::blocs::{
    BlocFaces, BlocRef, BlocType, ChunkPos, Direction, EffectiveNeighbors, Face, Neighbors,
    PosInChunk, compute_faces, faces_for_spec, from_index_spec,
};
use crate::chunk::{Bloc, Chunk, ChunkBlocs, ChunkNeighborsAreLinked};

verus! {

/// The type a block handle resolves to in world `w`, or `None` if the
/// handle dangles (chunk not resident or index out of range).
pub open spec fn resolve_typ(w: Map<ChunkPos, Chunk>, r: BlocRef) -> Option<BlocType> {
    if w.contains_key(r.chunk) && r.index < w[r.chunk].blocs.0@.len() {
        Some(w[r.chunk].blocs.0@[r.index as int].typ)
    } else {
        None
    }
}

/// What a neighbor slot resolves to: `None` both for an empty slot and for
/// a dangling handle.
pub open spec fn resolve_slot(w: Map<ChunkPos, Chunk>, slot: Option<BlocRef>) -> Option<BlocType> {
    match slot {
        Some(r) => resolve_typ(w, r),
        None => None,
    }
}

/// All six neighbor slots of a block resolved against world `w`.
pub open spec fn eff_of(w: Map<ChunkPos, Chunk>, nbs: Neighbors) -> EffectiveNeighbors {
    EffectiveNeighbors {
        up: resolve_typ_opt(w, nbs.up),
        down: resolve_typ_opt(w, nbs.down),
        right: resolve_typ_opt(w, nbs.right),
        left: resolve_typ_opt(w, nbs.left),
        front: resolve_typ_opt(w, nbs.front),
        back: resolve_typ_opt(w, nbs.back),
    }
}

pub open spec fn resolve_typ_opt(w: Map<ChunkPos, Chunk>, slot: Option<BlocRef>) -> Option<
    BlocType,
> {
    resolve_slot(w, slot)
}

/// The face set block `b` must show in world `w`.
pub open spec fn faces_in_world_spec(w: Map<ChunkPos, Chunk>, b: Bloc) -> Seq<Face> {
    faces_for_spec(b.typ, eff_of(w, b.neighbors))
}

/// At least one face visible: the block lies on a boundary surface.
pub open spec fn has_visible_face(w: Map<ChunkPos, Chunk>, b: Bloc) -> bool {
    faces_in_world_spec(w, b).len() > 0
}

/// The handle points at an existing block of world `w`.
pub open spec fn ref_in_world(w: Map<ChunkPos, Chunk>, r: BlocRef) -> bool {
    w.contains_key(r.chunk) && r.index < w[r.chunk].blocs.0@.len()
}

/// The block a handle points at.
pub open spec fn bloc_at(w: Map<ChunkPos, Chunk>, r: BlocRef) -> Bloc {
    w[r.chunk].blocs.0@[r.index as int]
}

/// Worlds `w1` and `w2` hold the same chunks with the same block types:
/// everything visibility evaluation reads through handles.
pub open spec fn same_types(w1: Map<ChunkPos, Chunk>, w2: Map<ChunkPos, Chunk>) -> bool {
    &&& w1.dom() == w2.dom()
    &&& forall|cp: ChunkPos|
        w1.contains_key(cp) ==> (#[trigger] w1[cp]).blocs.0@.len() == w2[cp].blocs.0@.len()
    &&& forall|cp: ChunkPos, j: int|
        w1.contains_key(cp) && 0 <= j < w1[cp].blocs.0@.len() ==> (#[trigger] w1[cp].blocs.0@[j]).typ
            == w2[cp].blocs.0@[j].typ
}

/// Visibility evaluation depends on the world only through block types:
/// two worlds with the same types resolve every handle, every neighbor
/// record and every face set alike.
pub proof fn lemma_faces_stable(w1: Map<ChunkPos, Chunk>, w2: Map<ChunkPos, Chunk>)
    requires
        same_types(w1, w2),
    ensures
        forall|r: BlocRef| #[trigger] resolve_typ(w1, r) == resolve_typ(w2, r),
        forall|n: Neighbors| #[trigger] eff_of(w1, n) == eff_of(w2, n),
        forall|b: Bloc| #[trigger] faces_in_world_spec(w1, b) == faces_in_world_spec(w2, b),
{
    assert forall|r: BlocRef| #[trigger] resolve_typ(w1, r) == resolve_typ(w2, r) by {
        if w1.contains_key(r.chunk) {
            assert(w1[r.chunk].blocs.0@.len() == w2[r.chunk].blocs.0@.len());
        }
    }
    assert forall|n: Neighbors| #[trigger] eff_of(w1, n) == eff_of(w2, n) by {
        assert(resolve_typ_opt(w1, n.up) == resolve_typ_opt(w2, n.up));
        assert(resolve_typ_opt(w1, n.down) == resolve_typ_opt(w2, n.down));
        assert(resolve_typ_opt(w1, n.right) == resolve_typ_opt(w2, n.right));
        assert(resolve_typ_opt(w1, n.left) == resolve_typ_opt(w2, n.left));
        assert(resolve_typ_opt(w1, n.front) == resolve_typ_opt(w2, n.front));
        assert(resolve_typ_opt(w1, n.back) == resolve_typ_opt(w2, n.back));
    }
}

/// The world index: at most one resident chunk per chunk position.
#[derive(Debug)]
pub struct Chunks {
    pub inner: Vec<(ChunkPos, Chunk)>,
}

impl View for Chunks {
    type V = Map<ChunkPos, Chunk>;

    open spec fn view(&self) -> Map<ChunkPos, Chunk> {
        assoc_map(self.inner@)
    }
}

impl Chunks {
    /// At most one chunk per position, each chunk well-formed and keyed by
    /// its own position.
    pub open spec fn wf(self) -> bool {
        unique_keys(self.inner@) && forall|i: int|
            0 <= i < self.inner@.len() ==> (#[trigger] self.inner@[i]).1.pos == self.inner@[i].0
                && self.inner@[i].1.wf()
    }

    /// Every resident chunk, read through the map view, is well-formed and
    /// keyed by its own position.
    pub proof fn lemma_wf_map(self)
        requires
            self.wf(),
        ensures
            forall|k: ChunkPos|
                self@.contains_key(k) ==> (#[trigger] self@[k]).wf() && self@[k].pos == k,
    {
        assert forall|k: ChunkPos| self@.contains_key(k) implies (#[trigger] self@[k]).wf()
            && self@[k].pos == k by {
            lemma_assoc_map_contains(self.inner@, k);
            let i = choose|i: int| 0 <= i < self.inner@.len() && (#[trigger] self.inner@[i]).0 == k;
            lemma_assoc_map_index(self.inner@, i);
        }
    }

    /// An empty world.
    pub fn new() -> (r: Self)
        ensures
            r.wf(),
            r@ == Map::<ChunkPos, Chunk>::empty(),
    {
        Chunks { inner: Vec::new() }
    }

    /// Index of the entry holding `pos`, if the chunk is resident.
    pub(crate) fn find_index(&self, pos: ChunkPos) -> (r: Option<usize>)
        requires
            self.wf(),
        ensures
            match r {
                Some(i) => i < self.inner@.len() && self.inner@[i as int].0 == pos
                    && self@.contains_key(pos) && self@[pos] == self.inner@[i as int].1,
                None => !self@.contains_key(pos),
            },
    {
        let n = self.inner.len();
        let mut i: usize = 0;
        while i < n
            invariant
                self.wf(),
                n == self.inner@.len(),
                i <= n,
                forall|j: int| 0 <= j < i ==> (#[trigger] self.inner@[j]).0 != pos,
            decreases n - i,
        {
            if self.inner[i].0 == pos {
                proof {
                    lemma_assoc_map_index(self.inner@, i as int);
                }
                return Some(i);
            }
            i = i + 1;
        }
        proof {
            lemma_assoc_map_no_key(self.inner@, pos);
        }
        None
    }

    /// The resident chunk at `pos`, if any.
    pub fn get(&self, pos: ChunkPos) -> (r: Option<&Chunk>)
        requires
            self.wf(),
        ensures
            match r {
                Some(c) => self@.contains_key(pos) && *c == self@[pos] && c.wf() && c.pos == pos,
                None => !self@.contains_key(pos),
            },
    {
        match self.find_index(pos) {
            Some(i) => Some(&self.inner[i].1),
            None => None,
        }
    }

    /// Whether a chunk is resident at `pos`.
    pub fn contains(&self, pos: ChunkPos) -> (r: bool)
        requires
            self.wf(),
        ensures
            r == self@.contains_key(pos),
    {
        match self.find_index(pos) {
            Some(_) => true,
            None => false,
        }
    }

    /// Makes `chunk` the resident chunk at `pos`, replacing any previous
    /// one.
    pub fn insert(&mut self, pos: ChunkPos, chunk: Chunk)
        requires
            old(self).wf(),
            chunk.wf(),
            chunk.pos == pos,
        ensures
            final(self).wf(),
            final(self)@ == old(self)@.insert(pos, chunk),
    {
        let ghost gchunk = chunk;
        match self.find_index(pos) {
            Some(i) => {
                let _ = self.inner.remove(i);
                self.inner.push((pos, chunk));
                proof {
                    lemma_assoc_map_remove(old(self).inner@, i as int);
                    let removed = old(self).inner@.remove(i as int);
                    assert(forall|j: int|
                        0 <= j < removed.len() ==> (#[trigger] removed[j]) == if j < i as int {
                            old(self).inner@[j]
                        } else {
                            old(self).inner@[j + 1]
                        });
                    assert(forall|j: int| 0 <= j < removed.len() ==> (#[trigger] removed[j]).0 != pos);
                    lemma_assoc_map_push(removed, pos, gchunk);
                    assert(final(self)@ =~= old(self)@.insert(pos, gchunk));
                }
            },
            None => {
                self.inner.push((pos, chunk));
                proof {
                    lemma_assoc_map_contains(old(self).inner@, pos);
                    assert(forall|j: int|
                        0 <= j < old(self).inner@.len() ==> (#[trigger] old(self).inner@[j]).0
                            != pos);
                    lemma_assoc_map_push(old(self).inner@, pos, gchunk);
                }
            },
        }
    }

    /// Removes the resident chunk at `pos`, returning it.
    fn take_out(&mut self, pos: ChunkPos) -> (r: Option<Chunk>)
        requires
            old(self).wf(),
        ensures
            final(self).wf(),
            match r {
                Some(c) => old(self)@.contains_key(pos) && c == old(self)@[pos] && c.wf() && c.pos
                    == pos && final(self)@ == old(self)@.remove(pos),
                None => !old(self)@.contains_key(pos) && final(self)@ == old(self)@,
            },
    {
        match self.find_index(pos) {
            Some(i) => {
                proof {
                    lemma_assoc_map_index(old(self).inner@, i as int);
                    lemma_assoc_map_remove(old(self).inner@, i as int);
                }
                let (_, c) = self.inner.remove(i);
                Some(c)
            },
            None => None,
        }
    }

    /// Drops every resident chunk (with all its block objects and rendered
    /// faces).
    pub fn clear(&mut self)
        ensures
            final(self).wf(),
            final(self)@ == Map::<ChunkPos, Chunk>::empty(),
    {
        self.inner = Vec::new();
    }

    /// The positions of all resident chunks.
    pub fn positions(&self) -> (r: Vec<ChunkPos>)
        requires
            self.wf(),
        ensures
            r@.len() == self.inner@.len(),
            forall|i: int| 0 <= i < r@.len() ==> #[trigger] r@[i] == self.inner@[i].0,
            forall|i: int| 0 <= i < r@.len() ==> self@.contains_key(#[trigger] r@[i]),
    {
        let n = self.inner.len();
        let mut r: Vec<ChunkPos> = Vec::new();
        let mut i: usize = 0;
        while i < n
            invariant
                self.wf(),
                n == self.inner@.len(),
                i <= n,
                r@.len() == i,
                forall|j: int| 0 <= j < i ==> #[trigger] r@[j] == self.inner@[j].0,
            decreases n - i,
        {
            r.push(self.inner[i].0);
            i = i + 1;
        }
        proof {
            assert forall|j: int| 0 <= j < r@.len() implies self@.contains_key(#[trigger] r@[j]) by {
                lemma_assoc_map_index(self.inner@, j);
            }
        }
        r
    }

    /// What one neighbor slot resolves to: the referenced block's type, or
    /// `None` for an empty slot or a dangling handle.
    fn resolve(&self, slot: Option<BlocRef>) -> (r: Option<BlocType>)
        requires
            self.wf(),
        ensures
            r == resolve_slot(self@, slot),
    {
        match slot {
            None => None,
            Some(br) => {
                match self.get(br.chunk) {
                    None => None,
                    Some(c) => {
                        if br.index < c.blocs.0.len() {
                            Some(c.blocs.0[br.index].typ)
                        } else {
                            None
                        }
                    },
                }
            },
        }
    }

    /// Resolves all six neighbor slots of a block.
    fn effective_neighbors(&self, nbs: Neighbors) -> (r: EffectiveNeighbors)
        requires
            self.wf(),
        ensures
            r == eff_of(self@, nbs),
    {
        EffectiveNeighbors {
            up: self.resolve(nbs.up),
            down: self.resolve(nbs.down),
            right: self.resolve(nbs.right),
            left: self.resolve(nbs.left),
            front: self.resolve(nbs.front),
            back: self.resolve(nbs.back),
        }
    }

    /// Re-evaluates the visibility of one block: discards its previously
    /// emitted faces and replaces them with exactly the face set its
    /// neighbors dictate. When `overwrite_physic` is `Some(p)`, the
    /// collider is recomputed: present iff `p` and at least one face is
    /// visible (boundary-surface-only collision); `None` leaves the
    /// collider untouched.
    pub fn render_bloc(&mut self, br: BlocRef, overwrite_physic: Option<bool>)
        requires
            old(self).wf(),
            ref_in_world(old(self)@, br),
        ensures
            final(self).wf(),
            final(self)@.dom() == old(self)@.dom(),
            same_types(old(self)@, final(self)@),
            forall|k: ChunkPos| #![auto]
                old(self)@.contains_key(k) && k != br.chunk ==> final(self)@[k] == old(self)@[k],
            final(self)@[br.chunk].pos == old(self)@[br.chunk].pos,
            final(self)@[br.chunk].neighbors_are_linked == old(self)@[br.chunk].neighbors_are_linked,
            final(self)@[br.chunk].blocs.0@.len() == old(self)@[br.chunk].blocs.0@.len(),
            forall|j: int| #![auto]
                0 <= j < old(self)@[br.chunk].blocs.0@.len() && j != br.index ==> final(self)@[br.chunk].blocs.0@[j] == old(self)@[br.chunk].blocs.0@[j],
            bloc_at(final(self)@, br).pos_in_chunk == bloc_at(old(self)@, br).pos_in_chunk,
            bloc_at(final(self)@, br).typ == bloc_at(old(self)@, br).typ,
            bloc_at(final(self)@, br).neighbors == bloc_at(old(self)@, br).neighbors,
            bloc_at(final(self)@, br).faces.0@ == faces_in_world_spec(
                old(self)@,
                bloc_at(old(self)@, br),
            ),
            match overwrite_physic {
                None => bloc_at(final(self)@, br).has_collider == bloc_at(
                    old(self)@,
                    br,
                ).has_collider,
                Some(p) => bloc_at(final(self)@, br).has_collider == (p && has_visible_face(
                    old(self)@,
                    bloc_at(old(self)@, br),
                )),
            },
    {
        let i = match self.find_index(br.chunk) {
            Some(i) => i,
            None => {
                proof {
                    assert(false);
                }
                return ;
            },
        };
        let (typ, nbs) = {
            let b = &self.inner[i].1.blocs.0[br.index];
            (b.typ, b.neighbors)
        };
        let eff = self.effective_neighbors(nbs);
        let faces = compute_faces(typ, eff);
        let any_face = faces.len() > 0;

        let mut entry = self.inner.remove(i);
        let mut b = entry.1.blocs.0.remove(br.index);
        b.faces = BlocFaces(faces);
        match overwrite_physic {
            None => {},
            Some(p) => {
                b.has_collider = p && any_face;
            },
        }
        let ghost gb = b;
        entry.1.blocs.0.insert(br.index, b);
        let ghost gentry = entry;
        self.inner.push(entry);

        proof {
            let s0 = old(self).inner@;
            lemma_assoc_map_index(s0, i as int);
            lemma_assoc_map_remove(s0, i as int);
            let removed = s0.remove(i as int);
            assert(forall|j: int|
                0 <= j < removed.len() ==> (#[trigger] removed[j]) == if j < i as int {
                    s0[j]
                } else {
                    s0[j + 1]
                });
            assert(forall|j: int| 0 <= j < removed.len() ==> (#[trigger] removed[j]).0 != br.chunk);
            lemma_assoc_map_push(removed, br.chunk, gentry.1);
            assert(final(self)@ =~= old(self)@.insert(br.chunk, gentry.1));
            assert(final(self)@.dom() =~= old(self)@.dom());

            let oldblocs = old(self)@[br.chunk].blocs.0@;
            assert(gentry.1.blocs.0@ =~= oldblocs.update(br.index as int, gb));
            assert(final(self).wf());
            assert(same_types(old(self)@, final(self)@));
        }
    }

    /// Re-evaluates every block of the resident chunk at `pos`, in index
    /// order. Afterwards each block shows exactly the face set the final
    /// world dictates, and, when `overwrite_physic` requests it, holds a
    /// collider iff it has a visible face.
    pub fn render_chunk(&mut self, pos: ChunkPos, overwrite_physic: Option<bool>)
        requires
            old(self).wf(),
            old(self)@.contains_key(pos),
        ensures
            final(self).wf(),
            final(self)@.dom() == old(self)@.dom(),
            same_types(old(self)@, final(self)@),
            forall|k: ChunkPos| #![auto]
                old(self)@.contains_key(k) && k != pos ==> final(self)@[k] == old(self)@[k],
            final(self)@[pos].pos == old(self)@[pos].pos,
            final(self)@[pos].neighbors_are_linked == old(self)@[pos].neighbors_are_linked,
            final(self)@[pos].blocs.0@.len() == old(self)@[pos].blocs.0@.len(),
            forall|j: int| #![trigger final(self)@[pos].blocs.0@[j]]
                0 <= j < old(self)@[pos].blocs.0@.len() ==> {
                    let b0 = old(self)@[pos].blocs.0@[j];
                    let b1 = final(self)@[pos].blocs.0@[j];
                    b1.pos_in_chunk == b0.pos_in_chunk && b1.typ == b0.typ && b1.neighbors
                        == b0.neighbors && b1.faces.0@ == faces_in_world_spec(final(self)@, b1)
                        && (match overwrite_physic {
                        None => b1.has_collider == b0.has_collider,
                        Some(p) => b1.has_collider == (p && has_visible_face(final(self)@, b1)),
                    })
                },
    {
        proof {
            self.lemma_wf_map();
        }
        let mut bi: usize = 0;
        while bi < CHUNK_VOLUME
            invariant
                self.wf(),
                bi <= CHUNK_VOLUME,
                old(self)@.contains_key(pos),
                old(self)@[pos].wf(),
                self@.dom() == old(self)@.dom(),
                same_types(old(self)@, self@),
                forall|k: ChunkPos| #![auto]
                    old(self)@.contains_key(k) && k != pos ==> self@[k] == old(self)@[k],
                self@[pos].pos == old(self)@[pos].pos,
                self@[pos].neighbors_are_linked == old(self)@[pos].neighbors_are_linked,
                self@[pos].blocs.0@.len() == old(self)@[pos].blocs.0@.len(),
                forall|j: int| #![trigger self@[pos].blocs.0@[j]]
                    0 <= j < old(self)@[pos].blocs.0@.len() ==> {
                        let b0 = old(self)@[pos].blocs.0@[j];
                        let b1 = self@[pos].blocs.0@[j];
                        b1.pos_in_chunk == b0.pos_in_chunk && b1.typ == b0.typ && b1.neighbors
                            == b0.neighbors
                    },
                forall|j: int| #![auto]
                    bi <= j < old(self)@[pos].blocs.0@.len() ==> self@[pos].blocs.0@[j] == old(self)@[pos].blocs.0@[j],
                forall|j: int| #![trigger self@[pos].blocs.0@[j]]
                    0 <= j < bi ==> {
                        let b1 = self@[pos].blocs.0@[j];
                        b1.faces.0@ == faces_in_world_spec(old(self)@, b1) && (match
                            overwrite_physic {
                            None => b1.has_collider == old(self)@[pos].blocs.0@[j].has_collider,
                            Some(p) => b1.has_collider == (p && has_visible_face(old(self)@, b1)),
                        })
                    },
            decreases CHUNK_VOLUME - bi,
        {
            let br = BlocRef { chunk: pos, index: bi };
            let ghost wpre = self@;
            proof {
                lemma_faces_stable(old(self)@, wpre);
            }
            self.render_bloc(br, overwrite_physic);
            proof {
                lemma_faces_stable(old(self)@, wpre);
                lemma_faces_stable(wpre, self@);
                assert(same_types(old(self)@, self@));
            }
            bi = bi + 1;
        }
        proof {
            lemma_faces_stable(old(self)@, self@);
        }
    }


    /// Whether the block a handle points at currently has at least one
    /// visible face.
    fn visible_now(&self, br: BlocRef) -> (r: bool)
        requires
            self.wf(),
            ref_in_world(self@, br),
        ensures
            r == has_visible_face(self@, bloc_at(self@, br)),
    {
        let i = match self.find_index(br.chunk) {
            Some(i) => i,
            None => {
                proof {
                    assert(false);
                }
                return false;
            },
        };
        let (typ, nbs) = {
            let b = &self.inner[i].1.blocs.0[br.index];
            (b.typ, b.neighbors)
        };
        let eff = self.effective_neighbors(nbs);
        let faces = compute_faces(typ, eff);
        faces.len() > 0
    }

    /// Attaches or detaches the collider of one block, touching nothing
    /// else.
    fn set_collider(&mut self, br: BlocRef, value: bool)
        requires
            old(self).wf(),
            ref_in_world(old(self)@, br),
        ensures
            final(self).wf(),
            final(self)@.dom() == old(self)@.dom(),
            same_types(old(self)@, final(self)@),
            forall|k: ChunkPos| #![auto]
                old(self)@.contains_key(k) && k != br.chunk ==> final(self)@[k] == old(self)@[k],
            final(self)@[br.chunk].pos == old(self)@[br.chunk].pos,
            final(self)@[br.chunk].neighbors_are_linked == old(self)@[br.chunk].neighbors_are_linked,
            final(self)@[br.chunk].blocs.0@.len() == old(self)@[br.chunk].blocs.0@.len(),
            forall|j: int| #![auto]
                0 <= j < old(self)@[br.chunk].blocs.0@.len() && j != br.index ==> final(self)@[br.chunk].blocs.0@[j] == old(self)@[br.chunk].blocs.0@[j],
            bloc_at(final(self)@, br) == (Bloc {
                has_collider: value,
                ..bloc_at(old(self)@, br)
            }),
    {
        let i = match self.find_index(br.chunk) {
            Some(i) => i,
            None => {
                proof {
                    assert(false);
                }
                return ;
            },
        };
        let mut entry = self.inner.remove(i);
        let mut b = entry.1.blocs.0.remove(br.index);
        b.has_collider = value;
        let ghost gb = b;
        entry.1.blocs.0.insert(br.index, b);
        let ghost gentry = entry;
        self.inner.push(entry);
        proof {
            let s0 = old(self).inner@;
            lemma_assoc_map_index(s0, i as int);
            lemma_assoc_map_remove(s0, i as int);
            let removed = s0.remove(i as int);
            assert(forall|j: int|
                0 <= j < removed.len() ==> (#[trigger] removed[j]) == if j < i as int {
                    s0[j]
                } else {
                    s0[j + 1]
                });
            assert(forall|j: int| 0 <= j < removed.len() ==> (#[trigger] removed[j]).0 != br.chunk);
            lemma_assoc_map_push(removed, br.chunk, gentry.1);
            assert(final(self)@ =~= old(self)@.insert(br.chunk, gentry.1));
            assert(final(self)@.dom() =~= old(self)@.dom());
            assert(gentry.1.blocs.0@ =~= old(self)@[br.chunk].blocs.0@.update(br.index as int, gb));
            assert(final(self).wf());
            assert(same_types(old(self)@, final(self)@));
        }
    }

    /// Recomputes the collider of every block of the resident chunk at
    /// `pos` from its current visibility, touching no face: present iff
    /// the block has at least one visible face (boundary-surface-only
    /// collision).
    pub fn load_physic(&mut self, pos: ChunkPos)
        requires
            old(self).wf(),
            old(self)@.contains_key(pos),
        ensures
            final(self).wf(),
            final(self)@.dom() == old(self)@.dom(),
            same_types(old(self)@, final(self)@),
            forall|k: ChunkPos| #![auto]
                old(self)@.contains_key(k) && k != pos ==> final(self)@[k] == old(self)@[k],
            final(self)@[pos].pos == old(self)@[pos].pos,
            final(self)@[pos].neighbors_are_linked == old(self)@[pos].neighbors_are_linked,
            final(self)@[pos].blocs.0@.len() == old(self)@[pos].blocs.0@.len(),
            forall|j: int| #![trigger final(self)@[pos].blocs.0@[j]]
                0 <= j < old(self)@[pos].blocs.0@.len() ==> {
                    let b0 = old(self)@[pos].blocs.0@[j];
                    let b1 = final(self)@[pos].blocs.0@[j];
                    b1 == (Bloc { has_collider: b1.has_collider, ..b0 }) && b1.has_collider == (
                    has_visible_face(final(self)@, b1))
                },
    {
        proof {
            self.lemma_wf_map();
        }
        let mut bi: usize = 0;
        while bi < CHUNK_VOLUME
            invariant
                self.wf(),
                bi <= CHUNK_VOLUME,
                old(self)@.contains_key(pos),
                old(self)@[pos].wf(),
                self@.dom() == old(self)@.dom(),
                same_types(old(self)@, self@),
                forall|k: ChunkPos| #![auto]
                    old(self)@.contains_key(k) && k != pos ==> self@[k] == old(self)@[k],
                self@[pos].pos == old(self)@[pos].pos,
                self@[pos].neighbors_are_linked == old(self)@[pos].neighbors_are_linked,
                self@[pos].blocs.0@.len() == old(self)@[pos].blocs.0@.len(),
                forall|j: int| #![trigger self@[pos].blocs.0@[j]]
                    0 <= j < old(self)@[pos].blocs.0@.len() ==> {
                        let b0 = old(self)@[pos].blocs.0@[j];
                        let b1 = self@[pos].blocs.0@[j];
                        b1 == (Bloc { has_collider: b1.has_collider, ..b0 })
                    },
                forall|j: int| #![auto]
                    bi <= j < old(self)@[pos].blocs.0@.len() ==> self@[pos].blocs.0@[j] == old(self)@[pos].blocs.0@[j],
                forall|j: int| #![trigger self@[pos].blocs.0@[j]]
                    0 <= j < bi ==> {
                        let b1 = self@[pos].blocs.0@[j];
                        b1.has_collider == has_visible_face(old(self)@, b1)
                    },
            decreases CHUNK_VOLUME - bi,
        {
            let br = BlocRef { chunk: pos, index: bi };
            let ghost wpre = self@;
            proof {
                lemma_faces_stable(old(self)@, wpre);
            }
            let v = self.visible_now(br);
            self.set_collider(br, v);
            proof {
                lemma_faces_stable(old(self)@, wpre);
                lemma_faces_stable(wpre, self@);
            }
            bi = bi + 1;
        }
        proof {
            lemma_faces_stable(old(self)@, self@);
        }
    }

    /// Detaches the collider of every block of the resident chunk at
    /// `pos`, touching nothing else.
    pub fn unload_physic(&mut self, pos: ChunkPos)
        requires
            old(self).wf(),
            old(self)@.contains_key(pos),
        ensures
            final(self).wf(),
            final(self)@.dom() == old(self)@.dom(),
            same_types(old(self)@, final(self)@),
            forall|k: ChunkPos| #![auto]
                old(self)@.contains_key(k) && k != pos ==> final(self)@[k] == old(self)@[k],
            final(self)@[pos].pos == old(self)@[pos].pos,
            final(self)@[pos].neighbors_are_linked == old(self)@[pos].neighbors_are_linked,
            final(self)@[pos].blocs.0@.len() == old(self)@[pos].blocs.0@.len(),
            forall|j: int| #![auto]
                0 <= j < old(self)@[pos].blocs.0@.len() ==> final(self)@[pos].blocs.0@[j] == (Bloc {
                    has_collider: false,
                    ..old(self)@[pos].blocs.0@[j]
                }),
    {
        proof {
            self.lemma_wf_map();
        }
        let mut bi: usize = 0;
        while bi < CHUNK_VOLUME
            invariant
                self.wf(),
                bi <= CHUNK_VOLUME,
                old(self)@.contains_key(pos),
                old(self)@[pos].wf(),
                self@.dom() == old(self)@.dom(),
                same_types(old(self)@, self@),
                forall|k: ChunkPos| #![auto]
                    old(self)@.contains_key(k) && k != pos ==> self@[k] == old(self)@[k],
                self@[pos].pos == old(self)@[pos].pos,
                self@[pos].neighbors_are_linked == old(self)@[pos].neighbors_are_linked,
                self@[pos].blocs.0@.len() == old(self)@[pos].blocs.0@.len(),
                forall|j: int| #![auto]
                    0 <= j < bi ==> self@[pos].blocs.0@[j] == (Bloc {
                        has_collider: false,
                        ..old(self)@[pos].blocs.0@[j]
                    }),
                forall|j: int| #![auto]
                    bi <= j < old(self)@[pos].blocs.0@.len() ==> self@[pos].blocs.0@[j] == old(self)@[pos].blocs.0@[j],
            decreases CHUNK_VOLUME - bi,
        {
            let br = BlocRef { chunk: pos, index: bi };
            self.set_collider(br, false);
            bi = bi + 1;
        }
    }
}

/// `r` stands in one of the six neighbor slots of `nbs`.
pub open spec fn is_neighbor_slot_spec(nbs: Neighbors, r: BlocRef) -> bool {
    ||| nbs.up == Some(r)
    ||| nbs.down == Some(r)
    ||| nbs.right == Some(r)
    ||| nbs.left == Some(r)
    ||| nbs.front == Some(r)
    ||| nbs.back == Some(r)
}

impl Chunks {
    /// Overwrites the type of one block, touching nothing else.
    fn set_typ(&mut self, br: BlocRef, t: BlocType)
        requires
            old(self).wf(),
            ref_in_world(old(self)@, br),
        ensures
            final(self).wf(),
            final(self)@.dom() == old(self)@.dom(),
            forall|c: ChunkPos| #![auto]
                old(self)@.contains_key(c) && c != br.chunk ==> final(self)@[c] == old(self)@[c],
            final(self)@[br.chunk].pos == old(self)@[br.chunk].pos,
            final(self)@[br.chunk].neighbors_are_linked == old(self)@[br.chunk].neighbors_are_linked,
            final(self)@[br.chunk].blocs.0@.len() == old(self)@[br.chunk].blocs.0@.len(),
            forall|j: int| #![auto]
                0 <= j < old(self)@[br.chunk].blocs.0@.len() && j != br.index ==> final(self)@[br.chunk].blocs.0@[j] == old(self)@[br.chunk].blocs.0@[j],
            bloc_at(final(self)@, br) == (Bloc { typ: t, ..bloc_at(old(self)@, br) }),
    {
        let i = match self.find_index(br.chunk) {
            Some(i) => i,
            None => {
                proof {
                    assert(false);
                }
                return ;
            },
        };
        let mut entry = self.inner.remove(i);
        let mut b = entry.1.blocs.0.remove(br.index);
        b.typ = t;
        let ghost gb = b;
        entry.1.blocs.0.insert(br.index, b);
        let ghost gentry = entry;
        self.inner.push(entry);
        proof {
            let s0 = old(self).inner@;
            lemma_assoc_map_index(s0, i as int);
            lemma_assoc_map_remove(s0, i as int);
            let removed = s0.remove(i as int);
            assert(forall|j: int|
                0 <= j < removed.len() ==> (#[trigger] removed[j]) == if j < i as int {
                    s0[j]
                } else {
                    s0[j + 1]
                });
            assert(forall|j: int| 0 <= j < removed.len() ==> (#[trigger] removed[j]).0 != br.chunk);
            lemma_assoc_map_push(removed, br.chunk, gentry.1);
            assert(final(self)@ =~= old(self)@.insert(br.chunk, gentry.1));
            assert(final(self)@.dom() =~= old(self)@.dom());
            assert(gentry.1.blocs.0@ =~= old(self)@[br.chunk].blocs.0@.update(br.index as int, gb));
            assert(final(self).wf());
        }
    }

    /// Destruction commit for one block: sets its type to Air, discards
    /// its faces and collider, patches the session cache, records the edit
    /// in the save overlay, and re-evaluates all six wired neighbors,
    /// because removing a block exposes new faces on them. A dangling
    /// neighbor handle is skipped, not a crash.
    pub fn remove_bloc(
        &mut self,
        br: BlocRef,
        game_state: &mut crate::game_state::GameState,
        chunk_saves: &mut crate::game_state::ChunkSaves,
    )
        requires
            old(self).wf(),
            ref_in_world(old(self)@, br),
            old(game_state).wf(),
            old(game_state)@.contains_key(br.chunk),
            old(chunk_saves).wf(),
        ensures
            final(self).wf(),
            final(self)@.dom() == old(self)@.dom(),
            forall|c: ChunkPos| #![auto]
                old(self)@.contains_key(c) ==> final(self)@[c].pos == old(self)@[c].pos && final(self)@[c].neighbors_are_linked == old(self)@[c].neighbors_are_linked && final(self)@[c].blocs.0@.len() == old(self)@[c].blocs.0@.len(),
            forall|r: BlocRef| #![trigger bloc_at(final(self)@, r)]
                ref_in_world(old(self)@, r) ==> {
                    let b0 = bloc_at(old(self)@, r);
                    let b1 = bloc_at(final(self)@, r);
                    b1.pos_in_chunk == b0.pos_in_chunk && b1.neighbors == b0.neighbors && b1.typ
                        == (if r == br {
                        BlocType::Air
                    } else {
                        b0.typ
                    }) && (r != br && !is_neighbor_slot_spec(
                        bloc_at(old(self)@, br).neighbors,
                        r,
                    ) ==> b1 == b0) && (r != br && is_neighbor_slot_spec(
                        bloc_at(old(self)@, br).neighbors,
                        r,
                    ) ==> b1.faces.0@ == faces_in_world_spec(final(self)@, b1) && b1.has_collider
                        == b0.has_collider)
                },
            bloc_at(final(self)@, br).typ == BlocType::Air,
            bloc_at(final(self)@, br).faces.0@.len() == 0,
            !bloc_at(final(self)@, br).has_collider,
            final(game_state).wf(),
            final(game_state)@.dom() == old(game_state)@.dom(),
            forall|k: ChunkPos| #![auto]
                old(game_state)@.contains_key(k) && k != br.chunk ==> final(game_state)@[k] == old(game_state)@[k],
            final(game_state)@[br.chunk].0@ == old(game_state)@[br.chunk].0@.update(br.index as int, BlocType::Air),
            final(chunk_saves).wf(),
            final(chunk_saves)@.dom() == old(chunk_saves)@.dom().insert(br.chunk),
            forall|k: ChunkPos| #![auto]
                old(chunk_saves)@.contains_key(k) && k != br.chunk ==> final(chunk_saves)@[k] == old(chunk_saves)@[k],
            final(chunk_saves)@[br.chunk]@ == (if old(chunk_saves)@.contains_key(br.chunk) {
                old(chunk_saves)@[br.chunk]@
            } else {
                Map::<PosInChunk, BlocType>::empty()
            }).insert(from_index_spec(br.index as int), BlocType::Air),
    {
        proof {
            self.lemma_wf_map();
        }
        let nbs = {
            let i = match self.find_index(br.chunk) {
                Some(i) => i,
                None => {
                    proof {
                        assert(false);
                    }
                    return ;
                },
            };
            self.inner[i].1.blocs.0[br.index].neighbors
        };
        let ghost b00 = bloc_at(old(self)@, br);
        self.set_typ(br, BlocType::Air);
        let ghost w1 = self@;
        self.render_bloc(br, Some(true));
        let ghost w2 = self@;
        proof {
            assert(bloc_at(w2, br).typ == BlocType::Air);
            assert(bloc_at(w2, br).faces.0@ =~= Seq::<Face>::empty());
            assert(!bloc_at(w2, br).has_collider);
            assert(same_types(w1, w2));
        }

        let pic = PosInChunk::from_chunk_index(br.index);
        proof {
            assert(pic.valid()) by {
                crate::blocs::lemma_index_pos_round_trip(br.index as int);
            }
        }
        game_state.set_bloc_type(br.chunk, br.index, BlocType::Air);
        chunk_saves.record_change(br.chunk, pic, BlocType::Air);

        let dirs = Direction::list();
        let mut di: usize = 0;
        while di < 6
            invariant
                self.wf(),
                di <= 6,
                dirs@ == crate::blocs::direction_order(),
                ref_in_world(w2, br),
                bloc_at(old(self)@, br).neighbors == nbs,
                self@.dom() == w2.dom(),
                same_types(w2, self@),
                w2.dom() == old(self)@.dom(),
                bloc_at(w2, br).typ == BlocType::Air,
                forall|c: ChunkPos| #![auto]
                    w2.contains_key(c) ==> self@[c].pos == w2[c].pos && self@[c].neighbors_are_linked == w2[c].neighbors_are_linked && self@[c].blocs.0@.len() == w2[c].blocs.0@.len(),
                forall|r: BlocRef| #![trigger bloc_at(self@, r)]
                    ref_in_world(w2, r) ==> {
                        let b2 = bloc_at(w2, r);
                        let b1 = bloc_at(self@, r);
                        b1.pos_in_chunk == b2.pos_in_chunk && b1.neighbors == b2.neighbors
                            && b1.typ == b2.typ && b1.has_collider == b2.has_collider && (
                        b1.faces.0@ == b2.faces.0@ || b1.faces.0@ == faces_in_world_spec(
                            self@,
                            b1,
                        ))
                    },
                forall|r: BlocRef| #![trigger bloc_at(self@, r)]
                    ref_in_world(w2, r) && !exists_slot_below(nbs, di as int, r) ==> bloc_at(
                        self@,
                        r,
                    ) == bloc_at(w2, r),
                forall|r: BlocRef| #![trigger bloc_at(self@, r)]
                    ref_in_world(w2, r) && exists_slot_below(nbs, di as int, r) ==> bloc_at(
                        self@,
                        r,
                    ).faces.0@ == faces_in_world_spec(self@, bloc_at(self@, r)) && bloc_at(
                        self@,
                        r,
                    ).has_collider == bloc_at(w2, r).has_collider,
            decreases 6 - di,
        {
            let d = dirs[di];
            proof {
                assert(d == crate::blocs::direction_order()[di as int]);
            }
            let slot = nbs.get_with_direction(d);
            let ghost wp = self@;
            let mut rendered_ref: Option<BlocRef> = None;
            match slot {
                None => {},
                Some(n) => {
                    let resident_ok = match self.get(n.chunk) {
                        Some(c) => n.index < c.blocs.0.len(),
                        None => false,
                    };
                    if resident_ok {
                        self.render_bloc(n, None);
                        rendered_ref = Some(n);
                    }
                },
            }
            proof {
                lemma_faces_stable(wp, self@);
                lemma_faces_stable(w2, self@);
                assert forall|r: BlocRef| #![trigger bloc_at(self@, r)]
                    ref_in_world(w2, r) implies {
                    let b2 = bloc_at(w2, r);
                    let b1 = bloc_at(self@, r);
                    b1.pos_in_chunk == b2.pos_in_chunk && b1.neighbors == b2.neighbors && b1.typ
                        == b2.typ && b1.has_collider == b2.has_collider && (b1.faces.0@
                        == b2.faces.0@ || b1.faces.0@ == faces_in_world_spec(self@, b1))
                } by {
                    match rendered_ref {
                        Some(n) => {
                            if r == n {
                                let bp = bloc_at(wp, r);
                                let b1 = bloc_at(self@, r);
                                assert(b1.faces.0@ == faces_in_world_spec(wp, bp));
                                assert(b1.typ == bp.typ && b1.neighbors == bp.neighbors);
                                assert(eff_of(wp, b1.neighbors) == eff_of(self@, b1.neighbors));
                                assert(faces_in_world_spec(self@, b1) == faces_in_world_spec(
                                    wp,
                                    bp,
                                ));
                            } else {
                                assert(bloc_at(self@, r) == bloc_at(wp, r));
                                if bloc_at(wp, r).faces.0@ == faces_in_world_spec(
                                    wp,
                                    bloc_at(wp, r),
                                ) {
                                    assert(faces_in_world_spec(self@, bloc_at(self@, r))
                                        == faces_in_world_spec(wp, bloc_at(wp, r)));
                                }
                            }
                        },
                        None => {
                            assert(bloc_at(self@, r) == bloc_at(wp, r));
                            if bloc_at(wp, r).faces.0@ == faces_in_world_spec(wp, bloc_at(wp, r)) {
                                assert(faces_in_world_spec(self@, bloc_at(self@, r))
                                    == faces_in_world_spec(wp, bloc_at(wp, r)));
                            }
                        },
                    }
                }
                assert forall|r: BlocRef| #![trigger bloc_at(self@, r)]
                    ref_in_world(w2, r) && !exists_slot_below(nbs, di as int + 1, r) implies
                    bloc_at(self@, r) == bloc_at(w2, r) by {
                    lemma_slot_below_step(nbs, di as int, r);
                    assert(!exists_slot_below(nbs, di as int, r));
                    assert(nbs.get_spec(d) != Some(r));
                    match rendered_ref {
                        Some(n) => {
                            assert(r != n);
                            assert(bloc_at(self@, r) == bloc_at(wp, r));
                        },
                        None => {
                            assert(bloc_at(self@, r) == bloc_at(wp, r));
                        },
                    }
                }
                assert forall|r: BlocRef| #![trigger bloc_at(self@, r)]
                    ref_in_world(w2, r) && exists_slot_below(nbs, di as int + 1, r) implies
                    bloc_at(self@, r).faces.0@ == faces_in_world_spec(self@, bloc_at(self@, r))
                        && bloc_at(self@, r).has_collider == bloc_at(w2, r).has_collider by {
                    lemma_slot_below_step(nbs, di as int, r);
                    match rendered_ref {
                        Some(n) => {
                            if r == n {
                                let bp = bloc_at(wp, r);
                                let b1 = bloc_at(self@, r);
                                assert(b1.faces.0@ == faces_in_world_spec(wp, bp));
                                assert(eff_of(wp, b1.neighbors) == eff_of(self@, b1.neighbors));
                                assert(faces_in_world_spec(self@, b1) == faces_in_world_spec(
                                    wp,
                                    bp,
                                ));
                            } else {
                                assert(exists_slot_below(nbs, di as int, r) || nbs.get_spec(d)
                                    == Some(r));
                                assert(exists_slot_below(nbs, di as int, r));
                                assert(bloc_at(self@, r) == bloc_at(wp, r));
                                assert(bloc_at(wp, r).faces.0@ == faces_in_world_spec(
                                    wp,
                                    bloc_at(wp, r),
                                ));
                                assert(faces_in_world_spec(self@, bloc_at(self@, r))
                                    == faces_in_world_spec(wp, bloc_at(wp, r)));
                            }
                        },
                        None => {
                            // either the slot is empty or the handle dangles; a
                            // dangling handle is never a live ref of the world
                            assert(bloc_at(self@, r) == bloc_at(wp, r));
                            if nbs.get_spec(d) == Some(r) && !exists_slot_below(
                                nbs,
                                di as int,
                                r,
                            ) {
                                assert(ref_in_world(wp, r));
                                assert(false);
                            }
                            assert(exists_slot_below(nbs, di as int, r));
                            assert(bloc_at(wp, r).faces.0@ == faces_in_world_spec(
                                wp,
                                bloc_at(wp, r),
                            ));
                            assert(faces_in_world_spec(self@, bloc_at(self@, r))
                                == faces_in_world_spec(wp, bloc_at(wp, r)));
                        },
                    }
                }
            }
            di = di + 1;
        }
        proof {
            lemma_faces_stable(w2, self@);
            assert(bloc_at(self@, br).typ == BlocType::Air);
            assert(bloc_at(self@, br).faces.0@.len() == 0) by {
                let b1 = bloc_at(self@, br);
                if b1.faces.0@ == bloc_at(w2, br).faces.0@ {
                } else {
                    assert(b1.faces.0@ == faces_in_world_spec(self@, b1));
                    assert(faces_in_world_spec(self@, b1) =~= Seq::<Face>::empty());
                }
            }
            assert forall|r: BlocRef| #![trigger bloc_at(final(self)@, r)]
                ref_in_world(old(self)@, r) implies {
                let b0 = bloc_at(old(self)@, r);
                let b1 = bloc_at(final(self)@, r);
                b1.pos_in_chunk == b0.pos_in_chunk && b1.neighbors == b0.neighbors && b1.typ == (
                if r == br {
                    BlocType::Air
                } else {
                    b0.typ
                }) && (r != br && !is_neighbor_slot_spec(b00.neighbors, r) ==> b1 == b0) && (r != br
                    && is_neighbor_slot_spec(b00.neighbors, r) ==> b1.faces.0@
                    == faces_in_world_spec(final(self)@, b1) && b1.has_collider == b0.has_collider)
            } by {
                assert(ref_in_world(w2, r));
                if is_neighbor_slot_spec(b00.neighbors, r) {
                    assert(exists_slot_below(nbs, 6, r));
                } else {
                    assert(!exists_slot_below(nbs, 6, r));
                }
            }
        }
    }
}

/// `r` stands in one of the first `n` neighbor slots, in canonical
/// direction order.
pub open spec fn exists_slot_below(nbs: Neighbors, n: int, r: BlocRef) -> bool {
    exists|m: int|
        0 <= m < n && 0 <= m < 6 && nbs.get_spec(#[trigger] crate::blocs::direction_order()[m])
            == Some(r)
}

/// Unrolls `exists_slot_below` by one direction.
pub proof fn lemma_slot_below_step(nbs: Neighbors, di: int, r: BlocRef)
    requires
        0 <= di < 6,
    ensures
        exists_slot_below(nbs, di + 1, r) <==> (exists_slot_below(nbs, di, r) || nbs.get_spec(
            crate::blocs::direction_order()[di],
        ) == Some(r)),
{
    if exists_slot_below(nbs, di + 1, r) {
        let m = choose|m: int|
            0 <= m < di + 1 && 0 <= m < 6 && nbs.get_spec(
                #[trigger] crate::blocs::direction_order()[m],
            ) == Some(r);
        if m < di {
            assert(exists_slot_below(nbs, di, r));
        }
    }
    if exists_slot_below(nbs, di, r) {
        let m = choose|m: int|
            0 <= m < di && 0 <= m < 6 && nbs.get_spec(
                #[trigger] crate::blocs::direction_order()[m],
            ) == Some(r);
        assert(0 <= m < di + 1 && nbs.get_spec(crate::blocs::direction_order()[m]) == Some(r));
        assert(exists_slot_below(nbs, di + 1, r));
    }
    if nbs.get_spec(crate::blocs::direction_order()[di]) == Some(r) {
        assert(exists_slot_below(nbs, di + 1, r));
    }
}

} // verus!

verus! {

/// The type array a chunk at `pos` must show: the generator's output
/// patched with the chunk's recorded edits, if any.
pub open spec fn effective_types_spec(
    g: Seq<BlocType>,
    saves: Map<ChunkPos, crate::game_state::ChunkSave>,
    pos: ChunkPos,
) -> Seq<BlocType> {
    if saves.contains_key(pos) {
        crate::game_state::overlay_spec(g, saves[pos]@)
    } else {
        g
    }
}

/// A freshly loaded chunk at `pos` holding `types`: intra-chunk wiring,
/// no face rendered yet, nothing linked, collider per non-Air type.
pub open spec fn fresh_chunk_spec(c: Chunk, pos: ChunkPos, types: Seq<BlocType>) -> bool {
    &&& c.pos == pos
    &&& c.wf()
    &&& !c.neighbors_are_linked.up
    &&& !c.neighbors_are_linked.right
    &&& !c.neighbors_are_linked.front
    &&& forall|i: int|
        0 <= i < CHUNK_VOLUME ==> {
            let b = #[trigger] c.blocs.0@[i];
            b.typ == types[i] && b.neighbors == crate::chunk::initial_neighbors_spec(
                pos,
                from_index_spec(i),
            ) && b.faces.0@.len() == 0 && b.has_collider == (types[i] != BlocType::Air)
        }
}

impl Chunks {
    /// Instantiates a chunk at `pos` from a full type array and makes it
    /// resident; a no-op if a chunk is already resident there.
    pub fn load_types(&mut self, pos: ChunkPos, types: &Vec<BlocType>)
        requires
            old(self).wf(),
            types@.len() == CHUNK_VOLUME,
        ensures
            final(self).wf(),
            old(self)@.contains_key(pos) ==> final(self)@ == old(self)@,
            !old(self)@.contains_key(pos) ==> final(self)@.dom() == old(self)@.dom().insert(pos)
                && (forall|c: ChunkPos| #![auto]
                old(self)@.contains_key(c) && c != pos ==> final(self)@[c] == old(self)@[c])
                && fresh_chunk_spec(final(self)@[pos], pos, types@),
    {
        if self.contains(pos) {
            return ;
        }
        let blocs = ChunkBlocs::new(pos, types);
        let chunk = Chunk::new_with_blocs(pos, blocs);
        self.insert(pos, chunk);
        proof {
            assert(final(self)@.dom() =~= old(self)@.dom().insert(pos));
        }
    }

    /// Loads a chunk from the session cache; a no-op if a chunk is
    /// already resident at `pos`, and otherwise the cache must already
    /// hold the chunk's type array.
    pub fn load(&mut self, pos: ChunkPos, game_state: &crate::game_state::GameState)
        requires
            old(self).wf(),
            game_state.wf(),
            old(self)@.contains_key(pos) || game_state@.contains_key(pos),
        ensures
            final(self).wf(),
            old(self)@.contains_key(pos) ==> final(self)@ == old(self)@,
            !old(self)@.contains_key(pos) ==> final(self)@.dom() == old(self)@.dom().insert(pos)
                && (forall|c: ChunkPos| #![auto]
                old(self)@.contains_key(c) && c != pos ==> final(self)@[c] == old(self)@[c])
                && fresh_chunk_spec(final(self)@[pos], pos, game_state@[pos].0@),
    {
        if self.contains(pos) {
            return ;
        }
        let types = match game_state.get(pos) {
            Some(t) => t,
            None => {
                proof {
                    assert(false);
                }
                return ;
            },
        };
        let copied = crate::game_state::copy_types(&types.0);
        self.load_types(pos, &copied);
    }

    /// Makes a chunk resident at `pos` from an externally produced fresh
    /// type array: overlays the chunk's recorded edits, caches the result
    /// for the session, and instantiates the chunk. A no-op if a chunk is
    /// already resident there. This is the entry point for a generator the
    /// core cannot run itself; `fresh` must be that generator's output for
    /// `pos`.
    pub fn load_generated(
        &mut self,
        pos: ChunkPos,
        fresh: Vec<BlocType>,
        chunk_saves: &crate::game_state::ChunkSaves,
        game_state: &mut crate::game_state::GameState,
    )
        requires
            old(self).wf(),
            fresh@.len() == CHUNK_VOLUME,
            chunk_saves.wf(),
            old(game_state).wf(),
        ensures
            final(self).wf(),
            final(game_state).wf(),
            old(self)@.contains_key(pos) ==> final(self)@ == old(self)@ && final(game_state)@
                == old(game_state)@,
            !old(self)@.contains_key(pos) ==> {
                let types = effective_types_spec(fresh@, chunk_saves@, pos);
                &&& final(game_state)@ == old(game_state)@.insert(
                    pos,
                    final(game_state)@[pos],
                )
                &&& final(game_state)@[pos].0@ == types
                &&& final(self)@.dom() == old(self)@.dom().insert(pos)
                &&& forall|c: ChunkPos| #![auto]
                    old(self)@.contains_key(c) && c != pos ==> final(self)@[c] == old(self)@[c]
                &&& fresh_chunk_spec(final(self)@[pos], pos, types)
            },
    {
        if self.contains(pos) {
            return ;
        }
        let mut types = fresh;
        match chunk_saves.get(pos) {
            Some(save) => {
                save.apply_to(&mut types);
            },
            None => {},
        }
        game_state.insert(pos, crate::game_state::ChunkTypes(crate::game_state::copy_types(&types)));
        self.load_types(pos, &types);
    }

    /// Runs the generator for `pos`, overlays every recorded edit from the
    /// save overlay, caches the patched array, and instantiates the chunk;
    /// a no-op if a chunk is already resident there.
    pub fn generate<G: crate::generation::Generator>(
        &mut self,
        gen: &G,
        pos: ChunkPos,
        chunk_saves: &crate::game_state::ChunkSaves,
        game_state: &mut crate::game_state::GameState,
    )
        requires
            old(self).wf(),
            chunk_saves.wf(),
            old(game_state).wf(),
        ensures
            final(self).wf(),
            final(game_state).wf(),
            old(self)@.contains_key(pos) ==> final(self)@ == old(self)@ && final(game_state)@
                == old(game_state)@,
            !old(self)@.contains_key(pos) ==> {
                let types = effective_types_spec(gen.types_spec(pos), chunk_saves@, pos);
                &&& final(game_state)@ == old(game_state)@.insert(
                    pos,
                    final(game_state)@[pos],
                )
                &&& final(game_state)@[pos].0@ == types
                &&& final(self)@.dom() == old(self)@.dom().insert(pos)
                &&& forall|c: ChunkPos| #![auto]
                    old(self)@.contains_key(c) && c != pos ==> final(self)@[c] == old(self)@[c]
                &&& fresh_chunk_spec(final(self)@[pos], pos, types)
            },
    {
        let fresh = gen.generate(pos);
        self.load_generated(pos, fresh, chunk_saves, game_state);
    }

    /// The streaming entry point: reuses the session cache when the chunk
    /// was already produced this session, otherwise generates and patches
    /// it; a no-op if a chunk is already resident at `pos`.
    pub fn load_or_generate<G: crate::generation::Generator>(
        &mut self,
        gen: &G,
        pos: ChunkPos,
        chunk_saves: &crate::game_state::ChunkSaves,
        game_state: &mut crate::game_state::GameState,
    )
        requires
            old(self).wf(),
            chunk_saves.wf(),
            old(game_state).wf(),
        ensures
            final(self).wf(),
            final(game_state).wf(),
            old(self)@.contains_key(pos) ==> final(self)@ == old(self)@ && final(game_state)@
                == old(game_state)@,
            !old(self)@.contains_key(pos) && old(game_state)@.contains_key(pos) ==> final(game_state)@ == old(game_state)@ && final(self)@.dom() == old(self)@.dom().insert(pos) && (
            forall|c: ChunkPos| #![auto]
                old(self)@.contains_key(c) && c != pos ==> final(self)@[c] == old(self)@[c])
                && fresh_chunk_spec(final(self)@[pos], pos, old(game_state)@[pos].0@),
            !old(self)@.contains_key(pos) && !old(game_state)@.contains_key(pos) ==> {
                let types = effective_types_spec(gen.types_spec(pos), chunk_saves@, pos);
                &&& final(game_state)@ == old(game_state)@.insert(
                    pos,
                    final(game_state)@[pos],
                )
                &&& final(game_state)@[pos].0@ == types
                &&& final(self)@.dom() == old(self)@.dom().insert(pos)
                &&& forall|c: ChunkPos| #![auto]
                    old(self)@.contains_key(c) && c != pos ==> final(self)@[c] == old(self)@[c]
                &&& fresh_chunk_spec(final(self)@[pos], pos, types)
            },
    {
        if self.contains(pos) {
            return ;
        }
        let cached = match game_state.get(pos) {
            Some(_) => true,
            None => false,
        };
        if cached {
            self.load(pos, game_state);
        } else {
            self.generate(gen, pos, chunk_saves, game_state);
        }
    }
}

} // verus!

verus! {

use crate::linking::{adjacent_spec, adjacent_toward_spec};

/// Block `b1` equals `b0` except that some neighbor slots may have been
/// cleared: teardown never creates references.
pub open spec fn slots_cleared_or_same_spec(b0: Bloc, b1: Bloc) -> bool {
    &&& b1.pos_in_chunk == b0.pos_in_chunk
    &&& b1.typ == b0.typ
    &&& b1.faces == b0.faces
    &&& b1.has_collider == b0.has_collider
    &&& forall|d: Direction| #![trigger b1.neighbors.get_spec(d)]
        b1.neighbors.get_spec(d) == b0.neighbors.get_spec(d) || b1.neighbors.get_spec(d)
            == Option::<BlocRef>::None
}

/// The pair of `pos` and its neighbor `q` one step along `d` is recorded
/// as linked: by `pos`'s own flag for a tracked positive direction, by
/// the neighbor's flag otherwise (linking is symmetric, so only positive
/// directions are tracked).
pub open spec fn pair_linked_spec(
    w: Map<ChunkPos, Chunk>,
    pos: ChunkPos,
    q: ChunkPos,
    d: Direction,
) -> bool {
    match d {
        Direction::Up | Direction::Right | Direction::Front => crate::linking::nal_get_spec(
            w[pos].neighbors_are_linked,
            d,
        ),
        _ => crate::linking::nal_get_spec(w[q].neighbors_are_linked, d.opposite_spec()),
    }
}

/// Clearing slots composes.
pub proof fn lemma_slots_cleared_trans(b0: Bloc, b1: Bloc, b2: Bloc)
    requires
        slots_cleared_or_same_spec(b0, b1),
        slots_cleared_or_same_spec(b1, b2),
    ensures
        slots_cleared_or_same_spec(b0, b2),
{
    assert forall|d: Direction| #![trigger b2.neighbors.get_spec(d)]
        b2.neighbors.get_spec(d) == b0.neighbors.get_spec(d) || b2.neighbors.get_spec(d)
            == Option::<BlocRef>::None by {
        assert(b1.neighbors.get_spec(d) == b0.neighbors.get_spec(d) || b1.neighbors.get_spec(d)
            == Option::<BlocRef>::None);
    }
}

impl Chunks {
    /// Severs the pair of `pos` and its neighbor chunk one step along
    /// `dir`, if that pair is currently linked: clears the boundary slots
    /// on both sides and, where the neighbor tracks the pair (below, left
    /// or back of `pos`), clears the neighbor's linked flag. Faces, types
    /// and colliders stay untouched; slots are only ever cleared.
    fn sever_toward(&mut self, pos: ChunkPos, dir: Direction)
        requires
            old(self).wf(),
            old(self)@.contains_key(pos),
        ensures
            final(self).wf(),
            final(self)@.dom() == old(self)@.dom(),
            forall|c: ChunkPos| #![auto]
                old(self)@.contains_key(c) ==> final(self)@[c].pos == old(self)@[c].pos && final(self)@[c].blocs.0@.len() == old(self)@[c].blocs.0@.len(),
            forall|c: ChunkPos| #![auto]
                old(self)@.contains_key(c) && c != pos && !adjacent_toward_spec(pos, c, dir)
                    ==> final(self)@[c] == old(self)@[c],
            final(self)@[pos].neighbors_are_linked == old(self)@[pos].neighbors_are_linked,
            forall|c: ChunkPos| #![auto]
                old(self)@.contains_key(c) && adjacent_toward_spec(pos, c, dir) ==> final(self)@[c].neighbors_are_linked == crate::linking::nal_set_spec(
                    old(self)@[c].neighbors_are_linked,
                    dir.opposite_spec(),
                    false,
                ),
            forall|c: ChunkPos, j: int| #![trigger final(self)@[c].blocs.0@[j]]
                old(self)@.contains_key(c) && 0 <= j < old(self)@[c].blocs.0@.len()
                    ==> slots_cleared_or_same_spec(
                    old(self)@[c].blocs.0@[j],
                    final(self)@[c].blocs.0@[j],
                ),
            // a pair recorded as linked is actually severed: the resident
            // neighbor's boundary slots toward `pos` are cleared
            forall|q: ChunkPos| #![auto]
                old(self)@.contains_key(q) && adjacent_toward_spec(pos, q, dir)
                    && pair_linked_spec(old(self)@, pos, q, dir) ==> forall|j: int|
                    #![trigger final(self)@[q].blocs.0@[j]]
                    0 <= j < CHUNK_VOLUME && crate::linking::on_boundary_spec(
                        dir.opposite_spec(),
                        from_index_spec(j),
                    ) ==> final(self)@[q].blocs.0@[j].neighbors.get_spec(dir.opposite_spec())
                        == Option::<BlocRef>::None,
    {
        proof {
            self.lemma_wf_map();
        }
        let step_ok = match dir {
            Direction::Up => pos.y < i32::MAX,
            Direction::Down => pos.y > i32::MIN,
            Direction::Right => pos.x < i32::MAX,
            Direction::Left => pos.x > i32::MIN,
            Direction::Front => pos.z < i32::MAX,
            Direction::Back => pos.z > i32::MIN,
        };
        if !step_ok {
            return ;
        }
        let pos2 = pos.step(dir);
        proof {
            assert(adjacent_toward_spec(pos, pos2, dir));
            assert(pos2 != pos);
        }
        let own_flag = match dir {
            Direction::Up | Direction::Right | Direction::Front => true,
            _ => false,
        };
        if own_flag {
            let flagged = {
                let c = match self.get(pos) {
                    Some(c) => c,
                    None => {
                        proof {
                            assert(false);
                        }
                        return ;
                    },
                };
                match dir {
                    Direction::Up => c.neighbors_are_linked.up,
                    Direction::Right => c.neighbors_are_linked.right,
                    _ => c.neighbors_are_linked.front,
                }
            };
            if !flagged {
                return ;
            }
            if !self.contains(pos2) {
                return ;
            }
            self.unlink(pos, pos2);
        } else {
            let linked = match self.get(pos2) {
                Some(c) => match dir {
                    Direction::Down => c.neighbors_are_linked.up,
                    Direction::Left => c.neighbors_are_linked.right,
                    _ => c.neighbors_are_linked.front,
                },
                None => false,
            };
            if !linked {
                return ;
            }
            self.unlink(pos, pos2);
            self.set_flag(pos2, dir.opposite(), false);
        }
    }

    /// Unloads the resident chunk at `pos`: severs the cross-chunk wiring
    /// toward every linked neighbor (clearing the neighbor's flag where
    /// the neighbor tracked the pair), then destroys the chunk with all
    /// its block objects and rendered faces. On the chunks that remain,
    /// teardown only ever clears neighbor slots — faces, types and
    /// colliders stay untouched — and a neighbor that tracked its link to
    /// this chunk has that flag cleared.
    #[verifier::rlimit(60)]
    pub fn unload(&mut self, pos: ChunkPos)
        requires
            old(self).wf(),
            old(self)@.contains_key(pos),
        ensures
            final(self).wf(),
            final(self)@.dom() == old(self)@.dom().remove(pos),
            forall|c: ChunkPos| #![auto]
                final(self)@.dom().contains(c) && !adjacent_spec(pos, c) ==> final(self)@[c]
                    == old(self)@[c],
            forall|c: ChunkPos| #![auto]
                final(self)@.dom().contains(c) ==> final(self)@[c].pos == old(self)@[c].pos
                    && final(self)@[c].blocs.0@.len() == old(self)@[c].blocs.0@.len(),
            forall|c: ChunkPos, j: int| #![trigger final(self)@[c].blocs.0@[j]]
                final(self)@.dom().contains(c) && 0 <= j < old(self)@[c].blocs.0@.len()
                    ==> slots_cleared_or_same_spec(
                    old(self)@[c].blocs.0@[j],
                    final(self)@[c].blocs.0@[j],
                ),
            forall|c: ChunkPos| #![auto]
                final(self)@.dom().contains(c) ==> (adjacent_toward_spec(c, pos, Direction::Up)
                    ==> !final(self)@[c].neighbors_are_linked.up) && (adjacent_toward_spec(
                    c,
                    pos,
                    Direction::Right,
                ) ==> !final(self)@[c].neighbors_are_linked.right) && (adjacent_toward_spec(
                    c,
                    pos,
                    Direction::Front,
                ) ==> !final(self)@[c].neighbors_are_linked.front),
            // every pair recorded as linked is severed before the chunk
            // dies: the remaining neighbor's boundary slots toward the
            // unloaded chunk are cleared, no reference dangles into it
            // from a formerly linked seam
            forall|q: ChunkPos, d: Direction| #![auto]
                final(self)@.dom().contains(q) && adjacent_toward_spec(pos, q, d)
                    && pair_linked_spec(old(self)@, pos, q, d) ==> forall|j: int|
                    #![trigger final(self)@[q].blocs.0@[j]]
                    0 <= j < CHUNK_VOLUME && crate::linking::on_boundary_spec(
                        d.opposite_spec(),
                        from_index_spec(j),
                    ) ==> final(self)@[q].blocs.0@[j].neighbors.get_spec(d.opposite_spec())
                        == Option::<BlocRef>::None,
    {
        self.sever_toward(pos, Direction::Up);
        let ghost w1 = self@;
        self.sever_toward(pos, Direction::Right);
        let ghost w2 = self@;
        self.sever_toward(pos, Direction::Front);
        let ghost w3 = self@;
        self.sever_toward(pos, Direction::Down);
        let ghost w4 = self@;
        self.sever_toward(pos, Direction::Left);
        let ghost w5 = self@;
        self.sever_toward(pos, Direction::Back);
        let ghost w6 = self@;
        let _ = self.take_out(pos);
        proof {
            assert(final(self)@ == w6.remove(pos));
            assert(final(self)@.dom() =~= old(self)@.dom().remove(pos));
            assert forall|c: ChunkPos, j: int| #![trigger final(self)@[c].blocs.0@[j]]
                final(self)@.dom().contains(c) && 0 <= j < old(self)@[c].blocs.0@.len() implies
                slots_cleared_or_same_spec(
                old(self)@[c].blocs.0@[j],
                final(self)@[c].blocs.0@[j],
            ) by {
                let b0 = old(self)@[c].blocs.0@[j];
                let ba = w1[c].blocs.0@[j];
                let bb = w2[c].blocs.0@[j];
                let bc = w3[c].blocs.0@[j];
                let bd = w4[c].blocs.0@[j];
                let be = w5[c].blocs.0@[j];
                let bf = w6[c].blocs.0@[j];
                assert(slots_cleared_or_same_spec(b0, ba));
                assert(slots_cleared_or_same_spec(ba, bb));
                assert(slots_cleared_or_same_spec(bb, bc));
                assert(slots_cleared_or_same_spec(bc, bd));
                assert(slots_cleared_or_same_spec(bd, be));
                assert(slots_cleared_or_same_spec(be, bf));
                lemma_slots_cleared_trans(b0, ba, bb);
                lemma_slots_cleared_trans(b0, bb, bc);
                lemma_slots_cleared_trans(b0, bc, bd);
                lemma_slots_cleared_trans(b0, bd, be);
                lemma_slots_cleared_trans(b0, be, bf);
            }
            assert forall|c: ChunkPos| #![auto]
                final(self)@.dom().contains(c) implies (adjacent_toward_spec(
                c,
                pos,
                Direction::Up,
            ) ==> !final(self)@[c].neighbors_are_linked.up) && (adjacent_toward_spec(
                c,
                pos,
                Direction::Right,
            ) ==> !final(self)@[c].neighbors_are_linked.right) && (adjacent_toward_spec(
                c,
                pos,
                Direction::Front,
            ) ==> !final(self)@[c].neighbors_are_linked.front) by {
                assert(old(self)@.contains_key(c));
                assert(w1.contains_key(c));
                assert(w2.contains_key(c));
                assert(w3.contains_key(c));
                assert(w4.contains_key(c));
                assert(w5.contains_key(c));
                assert(c != pos);
                if adjacent_toward_spec(c, pos, Direction::Up) {
                    assert(adjacent_toward_spec(pos, c, Direction::Down));
                    assert(!adjacent_toward_spec(pos, c, Direction::Up));
                    assert(!adjacent_toward_spec(pos, c, Direction::Right));
                    assert(!adjacent_toward_spec(pos, c, Direction::Front));
                    assert(!adjacent_toward_spec(pos, c, Direction::Left));
                    assert(!adjacent_toward_spec(pos, c, Direction::Back));
                    assert(w1[c] == old(self)@[c]);
                    assert(w2[c] == w1[c]);
                    assert(w3[c] == w2[c]);
                    assert(w4[c].neighbors_are_linked == crate::linking::nal_set_spec(
                        w3[c].neighbors_are_linked,
                        Direction::Up,
                        false,
                    ));
                    assert(w5[c] == w4[c]);
                    assert(w6[c] == w5[c]);
                }
                if adjacent_toward_spec(c, pos, Direction::Right) {
                    assert(adjacent_toward_spec(pos, c, Direction::Left));
                    assert(!adjacent_toward_spec(pos, c, Direction::Up));
                    assert(!adjacent_toward_spec(pos, c, Direction::Right));
                    assert(!adjacent_toward_spec(pos, c, Direction::Front));
                    assert(!adjacent_toward_spec(pos, c, Direction::Down));
                    assert(!adjacent_toward_spec(pos, c, Direction::Back));
                    assert(w1[c] == old(self)@[c]);
                    assert(w2[c] == w1[c]);
                    assert(w3[c] == w2[c]);
                    assert(w4[c] == w3[c]);
                    assert(w5[c].neighbors_are_linked == crate::linking::nal_set_spec(
                        w4[c].neighbors_are_linked,
                        Direction::Right,
                        false,
                    ));
                    assert(w6[c] == w5[c]);
                }
                if adjacent_toward_spec(c, pos, Direction::Front) {
                    assert(adjacent_toward_spec(pos, c, Direction::Back));
                    assert(!adjacent_toward_spec(pos, c, Direction::Up));
                    assert(!adjacent_toward_spec(pos, c, Direction::Right));
                    assert(!adjacent_toward_spec(pos, c, Direction::Front));
                    assert(!adjacent_toward_spec(pos, c, Direction::Down));
                    assert(!adjacent_toward_spec(pos, c, Direction::Left));
                    assert(w1[c] == old(self)@[c]);
                    assert(w2[c] == w1[c]);
                    assert(w3[c] == w2[c]);
                    assert(w4[c] == w3[c]);
                    assert(w5[c] == w4[c]);
                    assert(w6[c].neighbors_are_linked == crate::linking::nal_set_spec(
                        w5[c].neighbors_are_linked,
                        Direction::Front,
                        false,
                    ));
                }
            }
            assert forall|q: ChunkPos, d: Direction| #![auto]
                final(self)@.dom().contains(q) && adjacent_toward_spec(pos, q, d)
                    && pair_linked_spec(old(self)@, pos, q, d) implies forall|j: int|
                #![trigger final(self)@[q].blocs.0@[j]]
                0 <= j < CHUNK_VOLUME && crate::linking::on_boundary_spec(
                    d.opposite_spec(),
                    from_index_spec(j),
                ) ==> final(self)@[q].blocs.0@[j].neighbors.get_spec(d.opposite_spec())
                    == Option::<BlocRef>::None by {
                assert(old(self)@.contains_key(q));
                assert(q != pos);
                // a chunk is adjacent to `pos` in exactly one direction, so
                // exactly one severing phase touches it and every other
                // phase leaves it untouched
                assert(d == Direction::Up || !adjacent_toward_spec(pos, q, Direction::Up));
                assert(d == Direction::Down || !adjacent_toward_spec(pos, q, Direction::Down));
                assert(d == Direction::Right || !adjacent_toward_spec(pos, q, Direction::Right));
                assert(d == Direction::Left || !adjacent_toward_spec(pos, q, Direction::Left));
                assert(d == Direction::Front || !adjacent_toward_spec(pos, q, Direction::Front));
                assert(d == Direction::Back || !adjacent_toward_spec(pos, q, Direction::Back));
                if d == Direction::Up {
                    assert(pair_linked_spec(old(self)@, pos, q, Direction::Up));
                    assert(forall|j: int| #![trigger w1[q].blocs.0@[j]]
                        0 <= j < CHUNK_VOLUME && crate::linking::on_boundary_spec(
                            Direction::Down,
                            from_index_spec(j),
                        ) ==> w1[q].blocs.0@[j].neighbors.get_spec(Direction::Down)
                            == Option::<BlocRef>::None);
                    assert(w2[q] == w1[q] && w3[q] == w2[q] && w4[q] == w3[q] && w5[q] == w4[q]
                        && w6[q] == w5[q]);
                } else if d == Direction::Right {
                    assert(w1[q] == old(self)@[q]);
                    assert(pair_linked_spec(w1, pos, q, Direction::Right));
                    assert(w1[pos].neighbors_are_linked == old(self)@[pos].neighbors_are_linked);
                    assert(forall|j: int| #![trigger w2[q].blocs.0@[j]]
                        0 <= j < CHUNK_VOLUME && crate::linking::on_boundary_spec(
                            Direction::Left,
                            from_index_spec(j),
                        ) ==> w2[q].blocs.0@[j].neighbors.get_spec(Direction::Left)
                            == Option::<BlocRef>::None);
                    assert(w3[q] == w2[q] && w4[q] == w3[q] && w5[q] == w4[q] && w6[q] == w5[q]);
                } else if d == Direction::Front {
                    assert(w1[q] == old(self)@[q] && w2[q] == w1[q]);
                    assert(w2[pos].neighbors_are_linked == old(self)@[pos].neighbors_are_linked);
                    assert(pair_linked_spec(w2, pos, q, Direction::Front));
                    assert(forall|j: int| #![trigger w3[q].blocs.0@[j]]
                        0 <= j < CHUNK_VOLUME && crate::linking::on_boundary_spec(
                            Direction::Back,
                            from_index_spec(j),
                        ) ==> w3[q].blocs.0@[j].neighbors.get_spec(Direction::Back)
                            == Option::<BlocRef>::None);
                    assert(w4[q] == w3[q] && w5[q] == w4[q] && w6[q] == w5[q]);
                } else if d == Direction::Down {
                    assert(w1[q] == old(self)@[q] && w2[q] == w1[q] && w3[q] == w2[q]);
                    assert(pair_linked_spec(w3, pos, q, Direction::Down));
                    assert(forall|j: int| #![trigger w4[q].blocs.0@[j]]
                        0 <= j < CHUNK_VOLUME && crate::linking::on_boundary_spec(
                            Direction::Up,
                            from_index_spec(j),
                        ) ==> w4[q].blocs.0@[j].neighbors.get_spec(Direction::Up)
                            == Option::<BlocRef>::None);
                    assert(w5[q] == w4[q] && w6[q] == w5[q]);
                } else if d == Direction::Left {
                    assert(w1[q] == old(self)@[q] && w2[q] == w1[q] && w3[q] == w2[q] && w4[q]
                        == w3[q]);
                    assert(pair_linked_spec(w4, pos, q, Direction::Left));
                    assert(forall|j: int| #![trigger w5[q].blocs.0@[j]]
                        0 <= j < CHUNK_VOLUME && crate::linking::on_boundary_spec(
                            Direction::Right,
                            from_index_spec(j),
                        ) ==> w5[q].blocs.0@[j].neighbors.get_spec(Direction::Right)
                            == Option::<BlocRef>::None);
                    assert(w6[q] == w5[q]);
                } else {
                    assert(w1[q] == old(self)@[q] && w2[q] == w1[q] && w3[q] == w2[q] && w4[q]
                        == w3[q] && w5[q] == w4[q]);
                    assert(pair_linked_spec(w5, pos, q, Direction::Back));
                    assert(forall|j: int| #![trigger w6[q].blocs.0@[j]]
                        0 <= j < CHUNK_VOLUME && crate::linking::on_boundary_spec(
                            Direction::Front,
                            from_index_spec(j),
                        ) ==> w6[q].blocs.0@[j].neighbors.get_spec(Direction::Front)
                            == Option::<BlocRef>::None);
                }
                assert(final(self)@[q] == w6[q]);
            }
        }
    }
}

} // verus!

verus! {

impl Chunks {
    /// Restores a loaded save: replaces the edit overlays wholesale,
    /// clears all resident chunks and the session cache, then reloads
    /// every previously resident position through the generator patched
    /// with the new overlays. Afterwards every reloaded chunk shows its
    /// edited blocks as saved and every other block as freshly generated.
    pub fn load_save<G: crate::generation::Generator>(
        &mut self,
        gen: &G,
        new_saves: crate::game_state::ChunkSaves,
        chunk_saves: &mut crate::game_state::ChunkSaves,
        game_state: &mut crate::game_state::GameState,
    )
        requires
            old(self).wf(),
            new_saves.wf(),
        ensures
            final(self).wf(),
            final(chunk_saves).wf(),
            final(chunk_saves)@ == new_saves@,
            final(game_state).wf(),
            forall|p: ChunkPos|
                #[trigger] final(self)@.contains_key(p) <==> old(self)@.contains_key(p),
            forall|p: ChunkPos|
                #[trigger] final(self)@.contains_key(p) ==> fresh_chunk_spec(
                    final(self)@[p],
                    p,
                    effective_types_spec(gen.types_spec(p), new_saves@, p),
                ),
            forall|p: ChunkPos|
                #[trigger] final(game_state)@.contains_key(p) <==> old(self)@.contains_key(p),
            forall|p: ChunkPos|
                #[trigger] final(game_state)@.contains_key(p) ==> final(game_state)@[p].0@
                    == effective_types_spec(gen.types_spec(p), new_saves@, p),
    {
        let ps = self.positions();
        let n = ps.len();
        proof {
            assert forall|j1: int, j2: int| 0 <= j1 < j2 < n implies #[trigger] ps@[j1] != (
            #[trigger] ps@[j2]) by {
                assert(old(self).inner@[j1].0 != old(self).inner@[j2].0);
            }
            assert forall|p: ChunkPos| #[trigger] old(self)@.contains_key(p) implies exists|j: int|
                0 <= j < n && ps@[j] == p by {
                crate::assoc::lemma_assoc_map_contains(old(self).inner@, p);
                let j = choose|j: int|
                    0 <= j < old(self).inner@.len() && (#[trigger] old(self).inner@[j]).0 == p;
                assert(ps@[j] == p);
            }
        }
        let ghost gsaves = new_saves;
        *chunk_saves = new_saves;
        self.clear();
        game_state.clear();
        let mut i: usize = 0;
        while i < n
            invariant
                self.wf(),
                game_state.wf(),
                chunk_saves.wf(),
                chunk_saves@ == gsaves@,
                i <= n,
                n == ps@.len(),
                forall|j1: int, j2: int|
                    0 <= j1 < j2 < n ==> #[trigger] ps@[j1] != (#[trigger] ps@[j2]),
                forall|p: ChunkPos|
                    #[trigger] old(self)@.contains_key(p) ==> exists|j: int|
                        0 <= j < n && ps@[j] == p,
                forall|j: int| 0 <= j < n ==> old(self)@.contains_key(#[trigger] ps@[j]),
                forall|p: ChunkPos|
                    #[trigger] self@.contains_key(p) ==> exists|j: int| 0 <= j < i && ps@[j] == p,
                forall|p: ChunkPos|
                    #[trigger] game_state@.contains_key(p) ==> exists|j: int|
                        0 <= j < i && ps@[j] == p,
                forall|j: int|
                    0 <= j < i ==> self@.contains_key(#[trigger] ps@[j]) && fresh_chunk_spec(
                        self@[ps@[j]],
                        ps@[j],
                        effective_types_spec(gen.types_spec(ps@[j]), gsaves@, ps@[j]),
                    ),
                forall|j: int|
                    0 <= j < i ==> game_state@.contains_key(#[trigger] ps@[j])
                        && game_state@[ps@[j]].0@ == effective_types_spec(
                        gen.types_spec(ps@[j]),
                        gsaves@,
                        ps@[j],
                    ),
            decreases n - i,
        {
            let pos = ps[i];
            proof {
                if self@.contains_key(pos) {
                    let j = choose|j: int| 0 <= j < i && ps@[j] == pos;
                    assert(ps@[j] != ps@[i as int]);
                    assert(false);
                }
                if game_state@.contains_key(pos) {
                    let j = choose|j: int| 0 <= j < i && ps@[j] == pos;
                    assert(ps@[j] != ps@[i as int]);
                    assert(false);
                }
            }
            let ghost wpre = self@;
            let ghost gpre = game_state@;
            self.load_or_generate(gen, pos, chunk_saves, game_state);
            proof {
                assert forall|p: ChunkPos| #[trigger] self@.contains_key(p) implies exists|j: int|
                    0 <= j < i + 1 && ps@[j] == p by {
                    if p == pos {
                        assert(ps@[i as int] == p);
                    } else {
                        assert(wpre.contains_key(p));
                        let j = choose|j: int| 0 <= j < i && ps@[j] == p;
                        assert(0 <= j < i + 1 && ps@[j] == p);
                    }
                }
                assert forall|p: ChunkPos| #[trigger] game_state@.contains_key(p) implies exists|
                    j: int,
                |
                    0 <= j < i + 1 && ps@[j] == p by {
                    if p == pos {
                        assert(ps@[i as int] == p);
                    } else {
                        assert(gpre.contains_key(p));
                        let j = choose|j: int| 0 <= j < i && ps@[j] == p;
                        assert(0 <= j < i + 1 && ps@[j] == p);
                    }
                }
            }
            i = i + 1;
        }
        proof {
            assert forall|p: ChunkPos|
                #[trigger] final(self)@.contains_key(p) <==> old(self)@.contains_key(p) by {
                if final(self)@.contains_key(p) {
                    let j = choose|j: int| 0 <= j < n && ps@[j] == p;
                    assert(old(self)@.contains_key(ps@[j]));
                }
                if old(self)@.contains_key(p) {
                    let j = choose|j: int| 0 <= j < n && ps@[j] == p;
                    assert(final(self)@.contains_key(ps@[j]));
                }
            }
            assert forall|p: ChunkPos|
                #[trigger] final(game_state)@.contains_key(p) <==> old(self)@.contains_key(p) by {
                if final(game_state)@.contains_key(p) {
                    let j = choose|j: int| 0 <= j < n && ps@[j] == p;
                    assert(old(self)@.contains_key(ps@[j]));
                }
                if old(self)@.contains_key(p) {
                    let j = choose|j: int| 0 <= j < n && ps@[j] == p;
                    assert(final(game_state)@.contains_key(ps@[j]));
                }
            }
            assert forall|p: ChunkPos| #[trigger] final(self)@.contains_key(p) implies
                fresh_chunk_spec(
                final(self)@[p],
                p,
                effective_types_spec(gen.types_spec(p), gsaves@, p),
            ) by {
                let j = choose|j: int| 0 <= j < n && ps@[j] == p;
            }
            assert forall|p: ChunkPos| #[trigger] final(game_state)@.contains_key(p) implies final(game_state)@[p].0@ == effective_types_spec(gen.types_spec(p), gsaves@, p) by {
                let j = choose|j: int| 0 <= j < n && ps@[j] == p;
            }
        }
    }
}

} // verus!

verus! {

/// Two worlds whose entry lists have the same keys in the same order
/// denote maps with the same domain, and each entry is what its key maps
/// to.
pub proof fn lemma_view_of_entrywise(a: Chunks, b: Chunks)
    requires
        a.wf(),
        b.wf(),
        a.inner@.len() == b.inner@.len(),
        forall|j: int| 0 <= j < a.inner@.len() ==> (#[trigger] b.inner@[j]).0 == a.inner@[j].0,
    ensures
        b@.dom() == a@.dom(),
        forall|j: int|
            0 <= j < a.inner@.len() ==> a@.contains_key((#[trigger] a.inner@[j]).0) && a@[a.inner@[j].0]
                == a.inner@[j].1 && b@[a.inner@[j].0] == b.inner@[j].1,
        forall|k: ChunkPos|
            #[trigger] a@.contains_key(k) ==> exists|j: int|
                0 <= j < a.inner@.len() && a.inner@[j].0 == k,
{
    assert forall|j: int|
        0 <= j < a.inner@.len() implies a@.contains_key((#[trigger] a.inner@[j]).0)
        && a@[a.inner@[j].0] == a.inner@[j].1 && b@[a.inner@[j].0] == b.inner@[j].1 by {
        lemma_assoc_map_index(a.inner@, j);
        lemma_assoc_map_index(b.inner@, j);
    }
    assert forall|k: ChunkPos| #[trigger] a@.contains_key(k) implies exists|j: int|
        0 <= j < a.inner@.len() && a.inner@[j].0 == k by {
        lemma_assoc_map_contains(a.inner@, k);
    }
    assert forall|k: ChunkPos| a@.contains_key(k) implies b@.contains_key(k) by {
        lemma_assoc_map_contains(a.inner@, k);
        let j = choose|j: int| 0 <= j < a.inner@.len() && (#[trigger] a.inner@[j]).0 == k;
        lemma_assoc_map_index(b.inner@, j);
    }
    assert forall|k: ChunkPos| b@.contains_key(k) implies a@.contains_key(k) by {
        lemma_assoc_map_contains(b.inner@, k);
        let j = choose|j: int| 0 <= j < b.inner@.len() && (#[trigger] b.inner@[j]).0 == k;
        lemma_assoc_map_index(a.inner@, j);
    }
    assert(b@.dom() =~= a@.dom());
}

} // verus!
