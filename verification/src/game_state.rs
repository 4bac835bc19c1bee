//! Session cache and diff-based persistence: the full generated-plus-patched
//! type array of every chunk seen this session (`GameState`), the sparse
//! player-edit overlays that are the only chunk data ever persisted
//! (`ChunkSave`, `ChunkSaves`), and the overlay application that patches a
//! freshly generated chunk.

use vstd::prelude::*;

use crate::CHUNK_VOLUME;
use crate::assoc::{
    assoc_map, lemma_assoc_map_index, lemma_assoc_map_no_key, lemma_assoc_map_push,
    lemma_assoc_map_remove, lemma_assoc_map_update, unique_keys,
};
use crate::blocs::{
    BlocType, ChunkPos, PosInChunk, from_index_spec, lemma_index_pos_round_trip,
    lemma_pos_index_round_trip, to_index_spec,
};

verus! {

/// The full block-type array of one chunk, indexed by the linear in-chunk
/// index.
#[derive(Clone, Debug)]
pub struct ChunkTypes(pub Vec<BlocType>);

impl ChunkTypes {
    /// The array covers exactly the chunk's volume.
    pub open spec fn wf(self) -> bool {
        self.0@.len() == CHUNK_VOLUME
    }
}

/// Copies a block-type array.
pub fn copy_types(v: &Vec<BlocType>) -> (r: Vec<BlocType>)
    ensures
        r@ == v@,
{
    let mut r: Vec<BlocType> = Vec::new();
    let n = v.len();
    let mut i: usize = 0;
    while i < n
        invariant
            n == v@.len(),
            i <= n,
            r@ == v@.take(i as int),
        decreases n - i,
    {
        r.push(v[i]);
        proof {
            assert(r@ =~= v@.take(i as int + 1));
        }
        i = i + 1;
    }
    proof {
        assert(v@.take(n as int) =~= v@);
    }
    r
}

/// Transient per-session cache mapping chunk position to the full
/// generated-plus-patched type array, so that a chunk that is merely
/// unloaded and reloaded within a session is not regenerated. Never
/// persisted.
#[derive(Clone, Debug)]
pub struct GameState {
    pub chunks: Vec<(ChunkPos, ChunkTypes)>,
}

impl View for GameState {
    type V = Map<ChunkPos, ChunkTypes>;

    open spec fn view(&self) -> Map<ChunkPos, ChunkTypes> {
        assoc_map(self.chunks@)
    }
}

impl GameState {
    /// At most one entry per chunk position, every array full-size.
    pub open spec fn wf(self) -> bool {
        unique_keys(self.chunks@) && forall|i: int|
            0 <= i < self.chunks@.len() ==> (#[trigger] self.chunks@[i]).1.wf()
    }

    /// Empty cache.
    pub fn new() -> (r: Self)
        ensures
            r.wf(),
            r@ == Map::<ChunkPos, ChunkTypes>::empty(),
    {
        GameState { chunks: Vec::new() }
    }

    /// The cached type array for `pos`, if the chunk was already produced
    /// this session.
    pub fn get(&self, pos: ChunkPos) -> (r: Option<&ChunkTypes>)
        requires
            self.wf(),
        ensures
            match r {
                Some(t) => self@.contains_key(pos) && *t == self@[pos] && t.wf(),
                None => !self@.contains_key(pos),
            },
    {
        let n = self.chunks.len();
        let mut i: usize = 0;
        while i < n
            invariant
                self.wf(),
                n == self.chunks@.len(),
                i <= n,
                forall|j: int| 0 <= j < i ==> (#[trigger] self.chunks@[j]).0 != pos,
            decreases n - i,
        {
            if self.chunks[i].0 == pos {
                proof {
                    lemma_assoc_map_index(self.chunks@, i as int);
                }
                return Some(&self.chunks[i].1);
            }
            i = i + 1;
        }
        proof {
            lemma_assoc_map_no_key(self.chunks@, pos);
        }
        None
    }

    /// Caches (or replaces) the type array for `pos`.
    pub fn insert(&mut self, pos: ChunkPos, types: ChunkTypes)
        requires
            old(self).wf(),
            types.wf(),
        ensures
            final(self).wf(),
            final(self)@ == old(self)@.insert(pos, types),
    {
        let ghost gtypes = types;
        let n = self.chunks.len();
        let mut i: usize = 0;
        while i < n
            invariant
                gtypes == types,
                gtypes.wf(),
                self.chunks@ == old(self).chunks@,
                self.wf(),
                n == self.chunks@.len(),
                i <= n,
                forall|j: int| 0 <= j < i ==> (#[trigger] self.chunks@[j]).0 != pos,
            decreases n - i,
        {
            if self.chunks[i].0 == pos {
                proof {
                    assert(self.chunks@[i as int].0 == pos);
                }
                self.chunks.set(i, (pos, types));
                proof {
                    assert(self.chunks@ == old(self).chunks@.update(i as int, (pos, gtypes)));
                    assert((pos, gtypes) == (old(self).chunks@[i as int].0, gtypes));
                    lemma_assoc_map_update(old(self).chunks@, i as int, gtypes);
                }
                return ;
            }
            i = i + 1;
        }
        self.chunks.push((pos, types));
        proof {
            lemma_assoc_map_push(old(self).chunks@, pos, gtypes);
        }
    }

    /// Overwrites one cached block type in place; the chunk must already be
    /// cached.
    pub fn set_bloc_type(&mut self, pos: ChunkPos, index: usize, t: BlocType)
        requires
            old(self).wf(),
            old(self)@.contains_key(pos),
            index < CHUNK_VOLUME,
        ensures
            final(self).wf(),
            final(self)@.dom() == old(self)@.dom(),
            forall|k: ChunkPos| #![auto]
                old(self)@.contains_key(k) && k != pos ==> final(self)@[k] == old(self)@[k],
            final(self)@[pos].0@ == old(self)@[pos].0@.update(index as int, t),
    {
        let n = self.chunks.len();
        let mut i: usize = 0;
        while i < n
            invariant
                self.chunks@ == old(self).chunks@,
                self.wf(),
                old(self)@.contains_key(pos),
                index < CHUNK_VOLUME,
                n == self.chunks@.len(),
                i <= n,
                forall|j: int| 0 <= j < i ==> (#[trigger] self.chunks@[j]).0 != pos,
            decreases n - i,
        {
            if self.chunks[i].0 == pos {
                proof {
                    lemma_assoc_map_index(self.chunks@, i as int);
                    assert(self.chunks@[i as int].1.wf());
                }
                let mut entry = self.chunks.remove(i);
                entry.1.0.set(index, t);
                let ghost gentry = entry;
                self.chunks.push(entry);
                proof {
                    lemma_assoc_map_remove(old(self).chunks@, i as int);
                    let removed = old(self).chunks@.remove(i as int);
                    assert(forall|j: int|
                        0 <= j < removed.len() ==> (#[trigger] removed[j]) == if j < i as int {
                            old(self).chunks@[j]
                        } else {
                            old(self).chunks@[j + 1]
                        });
                    assert(forall|j: int| 0 <= j < removed.len() ==> (#[trigger] removed[j]).0 != pos);
                    lemma_assoc_map_push(removed, pos, gentry.1);
                    assert(final(self)@ =~= old(self)@.insert(pos, gentry.1));
                    assert(final(self)@.dom() =~= old(self)@.dom());
                }
                return ;
            }
            i = i + 1;
        }
        proof {
            lemma_assoc_map_no_key(self.chunks@, pos);
        }
    }

    /// Forgets every cached chunk.
    pub fn clear(&mut self)
        ensures
            final(self).wf(),
            final(self)@ == Map::<ChunkPos, ChunkTypes>::empty(),
    {
        self.chunks = Vec::new();
    }
}

/// The sparse edit overlay of one chunk: for each overwritten in-chunk
/// position, the type it was overwritten to. Only deltas from procedural
/// generation, never full chunk contents.
#[derive(Clone, Debug)]
pub struct ChunkSave {
    pub changes: Vec<(PosInChunk, BlocType)>,
}

impl View for ChunkSave {
    type V = Map<PosInChunk, BlocType>;

    open spec fn view(&self) -> Map<PosInChunk, BlocType> {
        assoc_map(self.changes@)
    }
}

impl Default for ChunkSave {
    /// No edit recorded.
    fn default() -> (r: Self)
        ensures
            r.wf(),
            r@ == Map::<PosInChunk, BlocType>::empty(),
    {
        ChunkSave { changes: Vec::new() }
    }
}

impl ChunkSave {
    /// At most one entry per position, every position inside the chunk.
    pub open spec fn wf(self) -> bool {
        unique_keys(self.changes@) && forall|i: int|
            0 <= i < self.changes@.len() ==> (#[trigger] self.changes@[i]).0.valid()
    }

    /// Records that `pos` was overwritten to `t`, replacing any earlier
    /// record for `pos`.
    pub fn insert(&mut self, pos: PosInChunk, t: BlocType)
        requires
            old(self).wf(),
            pos.valid(),
        ensures
            final(self).wf(),
            final(self)@ == old(self)@.insert(pos, t),
    {
        let n = self.changes.len();
        let mut i: usize = 0;
        while i < n
            invariant
                self.changes@ == old(self).changes@,
                self.wf(),
                pos.valid(),
                n == self.changes@.len(),
                i <= n,
                forall|j: int| 0 <= j < i ==> (#[trigger] self.changes@[j]).0 != pos,
            decreases n - i,
        {
            if self.changes[i].0 == pos {
                self.changes.set(i, (pos, t));
                proof {
                    assert(self.changes@ =~= old(self).changes@.update(
                        i as int,
                        (old(self).changes@[i as int].0, t),
                    ));
                    lemma_assoc_map_update(old(self).changes@, i as int, t);
                }
                return ;
            }
            i = i + 1;
        }
        self.changes.push((pos, t));
        proof {
            lemma_assoc_map_push(old(self).changes@, pos, t);
        }
    }

    /// The recorded overwrite for `pos`, if any.
    pub fn get(&self, pos: PosInChunk) -> (r: Option<BlocType>)
        requires
            self.wf(),
        ensures
            match r {
                Some(t) => self@.contains_key(pos) && t == self@[pos],
                None => !self@.contains_key(pos),
            },
    {
        let n = self.changes.len();
        let mut i: usize = 0;
        while i < n
            invariant
                self.wf(),
                n == self.changes@.len(),
                i <= n,
                forall|j: int| 0 <= j < i ==> (#[trigger] self.changes@[j]).0 != pos,
            decreases n - i,
        {
            if self.changes[i].0 == pos {
                proof {
                    lemma_assoc_map_index(self.changes@, i as int);
                }
                return Some(self.changes[i].1);
            }
            i = i + 1;
        }
        proof {
            lemma_assoc_map_no_key(self.changes@, pos);
        }
        None
    }

    /// Patches a freshly generated type array with every recorded edit.
    pub fn apply_to(&self, types: &mut Vec<BlocType>)
        requires
            self.wf(),
            old(types)@.len() == CHUNK_VOLUME,
        ensures
            final(types)@ == overlay_spec(old(types)@, self@),
    {
        let n = self.changes.len();
        let mut i: usize = 0;
        while i < n
            invariant
                self.wf(),
                n == self.changes@.len(),
                i <= n,
                types@ == overlay_entries(old(types)@, self.changes@.take(i as int)),
                types@.len() == CHUNK_VOLUME,
            decreases n - i,
        {
            let (pos, t) = self.changes[i];
            let idx = pos.to_chunk_index();
            types.set(idx, t);
            proof {
                assert(self.changes@.take(i as int + 1).drop_last() =~= self.changes@.take(
                    i as int,
                ));
            }
            i = i + 1;
        }
        proof {
            assert(self.changes@.take(n as int) =~= self.changes@);
            lemma_overlay_entries_spec(old(types)@, self.changes@);
        }
    }
}

/// The result of applying an edit overlay to a type array: each position
/// recorded in `changes` shows its recorded type, every other index keeps
/// the generated type.
pub open spec fn overlay_spec(base: Seq<BlocType>, changes: Map<PosInChunk, BlocType>) -> Seq<
    BlocType,
> {
    Seq::new(
        base.len(),
        |i: int|
            if changes.contains_key(from_index_spec(i)) {
                changes[from_index_spec(i)]
            } else {
                base[i]
            },
    )
}

/// Applying the recorded edits one after the other.
pub open spec fn overlay_entries(base: Seq<BlocType>, s: Seq<(PosInChunk, BlocType)>) -> Seq<
    BlocType,
>
    decreases s.len(),
{
    if s.len() == 0 {
        base
    } else {
        overlay_entries(base, s.drop_last()).update(to_index_spec(s.last().0), s.last().1)
    }
}

/// Applying unique, in-bounds edits one after the other equals the
/// pointwise overlay of the map they denote.
pub proof fn lemma_overlay_entries_spec(base: Seq<BlocType>, s: Seq<(PosInChunk, BlocType)>)
    requires
        unique_keys(s),
        forall|i: int| 0 <= i < s.len() ==> (#[trigger] s[i]).0.valid(),
        base.len() == CHUNK_VOLUME,
    ensures
        overlay_entries(base, s) =~= overlay_spec(base, assoc_map(s)),
    decreases s.len(),
{
    if s.len() == 0 {
        assert(overlay_spec(base, assoc_map(s)) =~= base);
    } else {
        let dl = s.drop_last();
        let lk = s.last().0;
        let lv = s.last().1;
        crate::assoc::lemma_unique_drop_last(s);
        assert(forall|j: int| 0 <= j < dl.len() ==> (#[trigger] dl[j]) == s[j]);
        lemma_overlay_entries_spec(base, dl);
        crate::assoc::lemma_assoc_map_no_key_of_unique(s);
        lemma_pos_index_round_trip(lk);
        let li = to_index_spec(lk);
        assert forall|i: int| 0 <= i < CHUNK_VOLUME implies overlay_entries(base, s)[i]
            == overlay_spec(base, assoc_map(s))[i] by {
            lemma_index_pos_round_trip(i);
            if i == li {
                assert(from_index_spec(i) == lk);
            } else {
                assert(from_index_spec(i) != lk);
            }
        }
    }
}

/// Pointwise reading of the overlay at a valid position: an edited
/// position shows its edit, every other position the generated type. This
/// is the core of the diff round-trip: regenerating a chunk and re-applying
/// its saved edits restores exactly the edited blocks and nothing else.
pub proof fn lemma_overlay_pointwise(
    base: Seq<BlocType>,
    changes: Map<PosInChunk, BlocType>,
    p: PosInChunk,
)
    requires
        base.len() == CHUNK_VOLUME,
        p.valid(),
    ensures
        changes.contains_key(p) ==> overlay_spec(base, changes)[to_index_spec(p)] == changes[p],
        !changes.contains_key(p) ==> overlay_spec(base, changes)[to_index_spec(p)] == base[
            to_index_spec(p)],
{
    lemma_pos_index_round_trip(p);
}

/// The sparse edit overlays of every edited chunk, keyed by chunk
/// position. This is the only chunk data a save ever contains.
#[derive(Clone, Debug)]
pub struct ChunkSaves {
    pub saves: Vec<(ChunkPos, ChunkSave)>,
}

impl View for ChunkSaves {
    type V = Map<ChunkPos, ChunkSave>;

    open spec fn view(&self) -> Map<ChunkPos, ChunkSave> {
        assoc_map(self.saves@)
    }
}

impl Default for ChunkSaves {
    /// No edit recorded anywhere.
    fn default() -> (r: Self)
        ensures
            r.wf(),
            r@ == Map::<ChunkPos, ChunkSave>::empty(),
    {
        ChunkSaves { saves: Vec::new() }
    }
}

impl ChunkSaves {
    /// At most one overlay per chunk position, each overlay well-formed.
    pub open spec fn wf(self) -> bool {
        unique_keys(self.saves@) && forall|i: int|
            0 <= i < self.saves@.len() ==> (#[trigger] self.saves@[i]).1.wf()
    }

    /// The edit overlay recorded for `pos`, if any.
    pub fn get(&self, pos: ChunkPos) -> (r: Option<&ChunkSave>)
        requires
            self.wf(),
        ensures
            match r {
                Some(s) => self@.contains_key(pos) && *s == self@[pos] && s.wf(),
                None => !self@.contains_key(pos),
            },
    {
        let n = self.saves.len();
        let mut i: usize = 0;
        while i < n
            invariant
                self.wf(),
                n == self.saves@.len(),
                i <= n,
                forall|j: int| 0 <= j < i ==> (#[trigger] self.saves@[j]).0 != pos,
            decreases n - i,
        {
            if self.saves[i].0 == pos {
                proof {
                    lemma_assoc_map_index(self.saves@, i as int);
                }
                return Some(&self.saves[i].1);
            }
            i = i + 1;
        }
        proof {
            lemma_assoc_map_no_key(self.saves@, pos);
        }
        None
    }

    /// Records that the block at `pos_in_chunk` of the chunk at `chunk_pos`
    /// was overwritten to `t`, creating the chunk's overlay if this is its
    /// first edit.
    pub fn record_change(&mut self, chunk_pos: ChunkPos, pos_in_chunk: PosInChunk, t: BlocType)
        requires
            old(self).wf(),
            pos_in_chunk.valid(),
        ensures
            final(self).wf(),
            final(self)@.dom() == old(self)@.dom().insert(chunk_pos),
            forall|k: ChunkPos| #![auto]
                old(self)@.contains_key(k) && k != chunk_pos ==> final(self)@[k] == old(self)@[k],
            final(self)@.contains_key(chunk_pos),
            final(self)@[chunk_pos]@ == if old(self)@.contains_key(chunk_pos) {
                old(self)@[chunk_pos]@.insert(pos_in_chunk, t)
            } else {
                Map::<PosInChunk, BlocType>::empty().insert(pos_in_chunk, t)
            },
    {
        let n = self.saves.len();
        let mut i: usize = 0;
        while i < n
            invariant
                self.saves@ == old(self).saves@,
                self.wf(),
                pos_in_chunk.valid(),
                n == self.saves@.len(),
                i <= n,
                forall|j: int| 0 <= j < i ==> (#[trigger] self.saves@[j]).0 != chunk_pos,
            decreases n - i,
        {
            if self.saves[i].0 == chunk_pos {
                proof {
                    lemma_assoc_map_index(self.saves@, i as int);
                }
                let mut entry = self.saves.remove(i);
                entry.1.insert(pos_in_chunk, t);
                let ghost gentry = entry;
                self.saves.push(entry);
                proof {
                    lemma_assoc_map_remove(old(self).saves@, i as int);
                    let removed = old(self).saves@.remove(i as int);
                    assert(forall|j: int|
                        0 <= j < removed.len() ==> (#[trigger] removed[j]) == if j < i as int {
                            old(self).saves@[j]
                        } else {
                            old(self).saves@[j + 1]
                        });
                    assert(forall|j: int|
                        0 <= j < removed.len() ==> (#[trigger] removed[j]).0 != chunk_pos);
                    lemma_assoc_map_push(removed, chunk_pos, gentry.1);
                    assert(final(self)@ =~= old(self)@.insert(chunk_pos, gentry.1));
                    assert(final(self)@.dom() =~= old(self)@.dom().insert(chunk_pos));
                }
                return ;
            }
            i = i + 1;
        }
        proof {
            lemma_assoc_map_no_key(self.saves@, chunk_pos);
        }
        let mut entry = ChunkSave::default();
        entry.insert(pos_in_chunk, t);
        let ghost gentry = entry;
        self.saves.push((chunk_pos, entry));
        proof {
            lemma_assoc_map_push(old(self).saves@, chunk_pos, gentry);
            assert(final(self)@.dom() =~= old(self)@.dom().insert(chunk_pos));
        }
    }
}

/// Everything a save contains about the world: the sparse edit overlays.
/// The shell that writes the save blob adds the viewer transform and
/// velocity, which the core never inspects.
#[derive(Clone, Debug)]
pub struct GameSave {
    pub chunks: ChunkSaves,
}

} // verus!

