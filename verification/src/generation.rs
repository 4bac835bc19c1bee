//! Deterministic terrain generation: the generator capability interface,
//! the flat test generator, biome selection, and the column-fill that turns
//! per-column height and surface data into a chunk's block-type array.
//!
//! Climate samples (temperature, rainfall) are plain values in thousandths
//! of the unit interval, so that the biome rules are exact integer
//! comparisons; the shell that samples its coherent-noise fields converts
//! once at the boundary.

use vstd::prelude::*;

use crate::{CHUNK_VOLUME, CHUNK_X, CHUNK_Y, CHUNK_Z};
use crate::blocs::{
    BlocType, ChunkPos, PosInChunk, from_index_spec, lemma_index_pos_round_trip,
    lemma_pos_index_round_trip, to_index_spec,
};

verus! {

/// A terrain generator: a pure function from chunk position to the chunk's
/// block-type array. `types_spec` is the mathematical output; `generate`
/// must return exactly it, which makes every generator deterministic:
/// identical seed and position always yield identical output.
pub trait Generator: Sized {
    /// The output the generator is committed to at `pos`.
    spec fn types_spec(&self, pos: ChunkPos) -> Seq<BlocType>;

    /// Builds the generator for a world seed.
    fn new(seed: u32) -> Self;

    /// Produces the block-type array for the chunk at `pos`.
    fn generate(&self, pos: ChunkPos) -> (r: Vec<BlocType>)
        ensures
            r@ == self.types_spec(pos),
            r@.len() == CHUNK_VOLUME,
    ;
}

/// The block the flat test world shows at an in-chunk position: three
/// layers of stone, one of grass, one lone stone marker, air above.
pub open spec fn flat_type_at_spec(p: PosInChunk) -> BlocType {
    if p.y < 3 {
        BlocType::Stone
    } else if p.y == 3 {
        BlocType::Grass
    } else if p.x == 1 && p.y == 4 && p.z == 1 {
        BlocType::Stone
    } else {
        BlocType::Air
    }
}

/// The flat world's array, identical for every chunk position.
pub open spec fn flat_types_spec() -> Seq<BlocType> {
    Seq::new(CHUNK_VOLUME as nat, |i: int| flat_type_at_spec(from_index_spec(i)))
}

/// Test generator producing the same flat slab in every chunk.
pub struct FlatWordGenerator;

impl Default for FlatWordGenerator {
    fn default() -> (r: Self)
        ensures
            r == FlatWordGenerator,
    {
        Self
    }
}

impl Generator for FlatWordGenerator {
    open spec fn types_spec(&self, pos: ChunkPos) -> Seq<BlocType> {
        flat_types_spec()
    }

    fn new(seed: u32) -> Self {
        Self
    }

    fn generate(&self, pos: ChunkPos) -> (r: Vec<BlocType>) {
        let mut types: Vec<BlocType> = Vec::new();
        let mut i: usize = 0;
        while i < CHUNK_VOLUME
            invariant
                i <= CHUNK_VOLUME,
                types@.len() == i,
                forall|j: int| 0 <= j < i ==> types@[j] == flat_type_at_spec(from_index_spec(j)),
            decreases CHUNK_VOLUME - i,
        {
            let p = PosInChunk::from_chunk_index(i);
            let t = if p.y < 3 {
                BlocType::Stone
            } else if p.y == 3 {
                BlocType::Grass
            } else if p.x == 1 && p.y == 4 && p.z == 1 {
                BlocType::Stone
            } else {
                BlocType::Air
            };
            types.push(t);
            i = i + 1;
        }
        proof {
            assert(types@ =~= flat_types_spec());
        }
        types
    }
}

/// The biome of a column, selected from its climate samples.
#[derive(Clone, Copy, Debug, PartialEq, Eq, Structural)]
pub enum Biome {
    Plain,
    Forest,
    Desert,
    SnowyPlain,
}

/// Biome selection: cold columns are snowy, hot ones desert, and temperate
/// ones plain or forest by rainfall. Temperature and rainfall are in
/// thousandths of the unit interval.
pub open spec fn biome_spec(temp_milli: u32, rain_milli: u32) -> Biome {
    if temp_milli < 200 {
        Biome::SnowyPlain
    } else if temp_milli > 700 {
        Biome::Desert
    } else if rain_milli < 500 {
        Biome::Plain
    } else {
        Biome::Forest
    }
}

impl Biome {
    /// Selects the biome for the given climate samples.
    pub fn new(temp_milli: u32, rain_milli: u32) -> (r: Self)
        ensures
            r == biome_spec(temp_milli, rain_milli),
    {
        if temp_milli < 200 {
            Self::SnowyPlain
        } else if temp_milli > 700 {
            Self::Desert
        } else if rain_milli < 500 {
            Self::Plain
        } else {
            Self::Forest
        }
    }

    pub open spec fn top_block_spec(self) -> BlocType {
        match self {
            Biome::Plain => BlocType::Dirt,
            Biome::Forest => BlocType::Grass,
            Biome::Desert => BlocType::Sand,
            Biome::SnowyPlain => BlocType::SnowyDirt,
        }
    }

    /// The surface block this biome puts on top of a column.
    pub fn top_block(&self) -> (r: BlocType)
        ensures
            r == self.top_block_spec(),
    {
        match self {
            Biome::Plain => BlocType::Dirt,
            Biome::Forest => BlocType::Grass,
            Biome::Desert => BlocType::Sand,
            Biome::SnowyPlain => BlocType::SnowyDirt,
        }
    }
}

/// The block a generated column of height `h` and surface block `top`
/// holds at height `y`, on top of an all-air base: stone below the dirt
/// layer, the biome's surface block at the top.
pub open spec fn column_type_spec(h: u8, top: BlocType, y: int) -> BlocType {
    if y == if h >= 1 {
        h - 1
    } else {
        0
    } {
        top
    } else if y == if h >= 2 {
        h - 2
    } else {
        0
    } {
        BlocType::Dirt
    } else if y < h - 2 {
        BlocType::Stone
    } else {
        BlocType::Air
    }
}

/// Index of the column (x, z) in a column array.
pub open spec fn column_index_spec(x: int, z: int) -> int {
    z * CHUNK_X as int + x
}

/// Builds a chunk's block-type array from per-column height and surface
/// data, one entry per (x, z) column in `column_index_spec` order. This is
/// the integer half of the biome generator; the climate sampling that
/// produces the entries happens outside.
pub fn generate_from_columns(cols: &Vec<(u8, BlocType)>) -> (r: Vec<BlocType>)
    requires
        cols@.len() == CHUNK_X * CHUNK_Z,
        forall|c: int| 0 <= c < cols@.len() ==> (#[trigger] cols@[c]).0 <= CHUNK_Y,
    ensures
        r@.len() == CHUNK_VOLUME,
        forall|p: PosInChunk|
            p.valid() ==> r@[to_index_spec(p)] == column_type_spec(
                (#[trigger] cols@[column_index_spec(p.x as int, p.z as int)]).0,
                cols@[column_index_spec(p.x as int, p.z as int)].1,
                p.y as int,
            ),
{
    let mut types: Vec<BlocType> = Vec::new();
    let mut i: usize = 0;
    while i < CHUNK_VOLUME
        invariant
            cols@.len() == CHUNK_X * CHUNK_Z,
            forall|c: int| 0 <= c < cols@.len() ==> (#[trigger] cols@[c]).0 <= CHUNK_Y,
            i <= CHUNK_VOLUME,
            types@.len() == i,
            forall|j: int|
                0 <= j < i ==> types@[j] == column_type_spec(
                (#[trigger] cols@[column_index_spec(
                    from_index_spec(j).x as int,
                    from_index_spec(j).z as int,
                )]).0,
                cols@[column_index_spec(from_index_spec(j).x as int, from_index_spec(j).z as int)].1,
                from_index_spec(j).y as int,
            ),
        decreases CHUNK_VOLUME - i,
    {
        let p = PosInChunk::from_chunk_index(i);
        let ci = (p.z as usize) * CHUNK_X + (p.x as usize);
        let (h, top) = cols[ci];
        let t = if p.y as usize + 1 == h as usize || (h == 0 && p.y == 0) {
            top
        } else if p.y as usize + 2 == h as usize || (h <= 1 && p.y == 0) {
            BlocType::Dirt
        } else if (p.y as usize) + 2 < (h as usize) {
            BlocType::Stone
        } else {
            BlocType::Air
        };
        proof {
            assert(t == column_type_spec(h, top, p.y as int));
        }
        types.push(t);
        i = i + 1;
    }
    proof {
        assert forall|p: PosInChunk| p.valid() implies types@[to_index_spec(p)] == column_type_spec(
            (cols@[column_index_spec(p.x as int, p.z as int)]).0,
            cols@[column_index_spec(p.x as int, p.z as int)].1,
            p.y as int,
        ) by {
            lemma_pos_index_round_trip(p);
        }
    }
    types
}

/// Determinism, stated once for every generator: two runs on the same
/// generator and position return the same array, because each equals the
/// generator's committed output `types_spec`.
pub proof fn lemma_generator_deterministic<G: Generator>(
    g: &G,
    pos: ChunkPos,
    first: Seq<BlocType>,
    second: Seq<BlocType>,
)
    requires
        first == g.types_spec(pos),
        second == g.types_spec(pos),
    ensures
        first == second,
{
}

} // verus!
