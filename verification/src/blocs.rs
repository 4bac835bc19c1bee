//! Block-level data model: block types, directions, positions inside a chunk,
//! chunk positions, neighbor slots, rendered faces, and the pure
//! face-visibility rule.

use vstd::prelude::*;

use crate::{CHUNK_X, CHUNK_Y, CHUNK_Z, CHUNK_VOLUME};

verus! {

/// The type a block cell holds. `Air` is the empty sentinel: it never owns
/// faces or a collider.
#[derive(Clone, Copy, Debug, PartialEq, Eq, Structural, Hash)]
pub enum BlocType {
    Dirt,
    Grass,
    Stone,
    Sand,
    SnowyDirt,
    Air,
}

pub open spec fn bloc_type_name_spec(t: BlocType) -> Seq<char> {
    match t {
        BlocType::Dirt => "dirt"@,
        BlocType::Grass => "grass"@,
        BlocType::Stone => "stone"@,
        BlocType::Sand => "sand"@,
        BlocType::SnowyDirt => "snowy_dirt"@,
        BlocType::Air => "air"@,
    }
}

impl BlocType {
    /// Name used to build the texture lookup key of a face.
    pub fn name(&self) -> (r: &'static str)
        ensures
            r@ == bloc_type_name_spec(*self),
    {
        match self {
            BlocType::Dirt => "dirt",
            BlocType::Grass => "grass",
            BlocType::Stone => "stone",
            BlocType::Sand => "sand",
            BlocType::SnowyDirt => "snowy_dirt",
            BlocType::Air => "air",
        }
    }
}

/// One of the six axis directions out of a block.
#[derive(Clone, Copy, Debug, PartialEq, Eq, Structural, Hash)]
pub enum Direction {
    /// +y
    Up,
    /// -y
    Down,
    /// +x
    Right,
    /// -x
    Left,
    /// +z
    Front,
    /// -z
    Back,
}

pub open spec fn direction_order() -> Seq<Direction> {
    seq![
        Direction::Up,
        Direction::Down,
        Direction::Right,
        Direction::Left,
        Direction::Front,
        Direction::Back,
    ]
}

pub open spec fn face_name_spec(d: Direction) -> Seq<char> {
    match d {
        Direction::Up => "top"@,
        Direction::Down => "bottom"@,
        Direction::Right => "right"@,
        Direction::Left => "left"@,
        Direction::Front => "front"@,
        Direction::Back => "back"@,
    }
}

impl Direction {
    /// The six directions, in the order every per-block pass walks them.
    pub fn list() -> (r: [Direction; 6])
        ensures
            r@ == direction_order(),
    {
        let r = [
            Direction::Up,
            Direction::Down,
            Direction::Right,
            Direction::Left,
            Direction::Front,
            Direction::Back,
        ];
        proof {
            assert(r@ =~= direction_order());
        }
        r
    }

    pub open spec fn opposite_spec(self) -> Direction {
        match self {
            Direction::Up => Direction::Down,
            Direction::Down => Direction::Up,
            Direction::Right => Direction::Left,
            Direction::Left => Direction::Right,
            Direction::Front => Direction::Back,
            Direction::Back => Direction::Front,
        }
    }

    /// The direction pointing the other way.
    pub fn opposite(&self) -> (r: Direction)
        ensures
            r == self.opposite_spec(),
    {
        match self {
            Direction::Up => Direction::Down,
            Direction::Down => Direction::Up,
            Direction::Right => Direction::Left,
            Direction::Left => Direction::Right,
            Direction::Front => Direction::Back,
            Direction::Back => Direction::Front,
        }
    }

    /// Face name used to build the texture lookup key of a face.
    pub fn face_to_render_name(&self) -> (r: &'static str)
        ensures
            r@ == face_name_spec(*self),
    {
        match self {
            Direction::Up => "top",
            Direction::Down => "bottom",
            Direction::Right => "right",
            Direction::Left => "left",
            Direction::Front => "front",
            Direction::Back => "back",
        }
    }
}

/// Absolute world position of a block.
#[derive(Clone, Copy, Debug, PartialEq, Eq, Structural)]
pub struct Pos {
    pub x: i32,
    pub y: i32,
    pub z: i32,
}

/// Block position relative to the chunk corner.
#[derive(Clone, Copy, Debug, PartialEq, Eq, Structural, Hash)]
pub struct PosInChunk {
    pub x: u8,
    pub y: u8,
    pub z: u8,
}

/// Linear index of an in-bounds position: `x + y*X + z*X*Y`.
pub open spec fn to_index_spec(p: PosInChunk) -> int {
    p.x as int + p.y as int * CHUNK_X as int + p.z as int * CHUNK_X as int * CHUNK_Y as int
}

/// Inverse of `to_index_spec` on `0 .. CHUNK_VOLUME`.
pub open spec fn from_index_spec(i: int) -> PosInChunk {
    PosInChunk {
        x: (i % CHUNK_X as int) as u8,
        y: ((i / CHUNK_X as int) % CHUNK_Y as int) as u8,
        z: (i / (CHUNK_X as int * CHUNK_Y as int)) as u8,
    }
}

impl PosInChunk {
    /// All three coordinates lie inside the chunk extents.
    pub open spec fn valid(self) -> bool {
        self.x < CHUNK_X && self.y < CHUNK_Y && self.z < CHUNK_Z
    }

    /// Bijective linear index of this position inside the chunk's dense
    /// block array.
    pub fn to_chunk_index(&self) -> (r: usize)
        requires
            self.valid(),
        ensures
            r == to_index_spec(*self),
            r < CHUNK_VOLUME,
    {
        self.x as usize + (self.y as usize * CHUNK_X) + (self.z as usize * CHUNK_X * CHUNK_Y)
    }

    /// Position whose linear index is `chunk_index`.
    pub fn from_chunk_index(chunk_index: usize) -> (r: Self)
        requires
            chunk_index < CHUNK_VOLUME,
        ensures
            r == from_index_spec(chunk_index as int),
            r.valid(),
            to_index_spec(r) == chunk_index,
    {
        let z = chunk_index / (CHUNK_Y * CHUNK_X);
        let y = (chunk_index - (CHUNK_Y * CHUNK_X * z)) / CHUNK_X;
        let x = chunk_index - (CHUNK_Y * CHUNK_X * z) - (CHUNK_X * y);
        proof {
            lemma_index_decomposition(chunk_index as int);
        }
        PosInChunk { x: x as u8, y: y as u8, z: z as u8 }
    }

    /// The neighbor position exists inside the same chunk.
    pub open spec fn neighbor_in_bounds(self, dir: Direction) -> bool {
        match dir {
            Direction::Up => self.y + 1 < CHUNK_Y,
            Direction::Down => self.y >= 1,
            Direction::Right => self.x + 1 < CHUNK_X,
            Direction::Left => self.x >= 1,
            Direction::Front => self.z + 1 < CHUNK_Z,
            Direction::Back => self.z >= 1,
        }
    }

    pub open spec fn neighbor_spec(self, dir: Direction) -> PosInChunk {
        match dir {
            Direction::Up => PosInChunk { y: (self.y + 1) as u8, ..self },
            Direction::Down => PosInChunk { y: (self.y - 1) as u8, ..self },
            Direction::Right => PosInChunk { x: (self.x + 1) as u8, ..self },
            Direction::Left => PosInChunk { x: (self.x - 1) as u8, ..self },
            Direction::Front => PosInChunk { z: (self.z + 1) as u8, ..self },
            Direction::Back => PosInChunk { z: (self.z - 1) as u8, ..self },
        }
    }

    /// The adjacent in-chunk position one step along `dir`.
    pub fn to_neighbor(&self, dir: Direction) -> (r: Self)
        requires
            self.valid(),
            self.neighbor_in_bounds(dir),
        ensures
            r == self.neighbor_spec(dir),
            r.valid(),
    {
        let mut new = *self;
        match dir {
            Direction::Up => { new.y = new.y + 1; },
            Direction::Down => { new.y = new.y - 1; },
            Direction::Right => { new.x = new.x + 1; },
            Direction::Left => { new.x = new.x - 1; },
            Direction::Front => { new.z = new.z + 1; },
            Direction::Back => { new.z = new.z - 1; },
        }
        new
    }
}

/// Decomposes an in-range index into the quotients and remainders the
/// coordinate extraction uses.
proof fn lemma_index_decomposition(i: int)
    requires
        0 <= i < CHUNK_VOLUME,
    ensures
        0 <= (i % (CHUNK_X as int)) < CHUNK_X as int,
        0 <= ((i / (CHUNK_X as int)) % (CHUNK_Y as int)) < CHUNK_Y as int,
        0 <= (i / (CHUNK_X as int * CHUNK_Y as int)) < CHUNK_Z as int,
        i == (i % (CHUNK_X as int)) + ((i / (CHUNK_X as int)) % (CHUNK_Y as int)) * (
        CHUNK_X as int) + (i / (CHUNK_X as int * CHUNK_Y as int)) * (CHUNK_X as int) * (
        CHUNK_Y as int),
        i - ((CHUNK_Y * CHUNK_X) as int) * (i / (CHUNK_X as int * CHUNK_Y as int)) == i % (
        CHUNK_X as int * CHUNK_Y as int),
        (i % (CHUNK_X as int * CHUNK_Y as int)) / (CHUNK_X as int) == (i / (CHUNK_X as int)) % (
        CHUNK_Y as int),
        (i % (CHUNK_X as int * CHUNK_Y as int)) % (CHUNK_X as int) == i % (CHUNK_X as int),
{
    assert(0 <= i % 8 < 8 && 0 <= (i / 8) % 16 < 16 && 0 <= i / 128 < 8 && i == (i % 8) + ((i / 8)
        % 16) * 8 + (i / 128) * 128 && i - 128 * (i / 128) == i % 128 && (i % 128) / 8 == (i / 8)
        % 16 && (i % 128) % 8 == i % 8) by (nonlinear_arith)
        requires
            0 <= i < 1024,
    ;
}

/// Index round-trip, one way: converting a valid position to its linear
/// index and back yields the same position.
pub proof fn lemma_pos_index_round_trip(p: PosInChunk)
    requires
        p.valid(),
    ensures
        0 <= to_index_spec(p) < CHUNK_VOLUME,
        from_index_spec(to_index_spec(p)) == p,
{
    let i = to_index_spec(p);
    assert(0 <= i < 1024 && i % 8 == p.x as int && (i / 8) % 16 == p.y as int && i / 128
        == p.z as int) by (nonlinear_arith)
        requires
            i == p.x as int + p.y as int * 8 + p.z as int * 128,
            p.x < 8,
            p.y < 16,
            p.z < 8,
    ;
}

/// Index round-trip, the other way: converting an in-range linear index to
/// a position and back yields the same index.
pub proof fn lemma_index_pos_round_trip(i: int)
    requires
        0 <= i < CHUNK_VOLUME,
    ensures
        from_index_spec(i).valid(),
        to_index_spec(from_index_spec(i)) == i,
{
    lemma_index_decomposition(i);
}

/// Chunk position in chunk-grid units.
#[derive(Clone, Copy, Debug, PartialEq, Eq, Structural, Hash)]
pub struct ChunkPos {
    pub x: i32,
    pub y: i32,
    pub z: i32,
}

impl ChunkPos {
    /// The chunk's corner world coordinates stay representable.
    pub open spec fn in_world_bounds(self) -> bool {
        i32::MIN <= self.x as int * CHUNK_X as int <= i32::MAX && i32::MIN <= self.y as int
            * CHUNK_Y as int <= i32::MAX && i32::MIN <= self.z as int * CHUNK_Z as int <= i32::MAX
    }

    /// World position of the chunk's corner block:
    /// `chunk_pos * chunk extent`.
    pub fn to_pos(&self) -> (r: Pos)
        requires
            self.in_world_bounds(),
        ensures
            r.x == self.x as int * CHUNK_X as int,
            r.y == self.y as int * CHUNK_Y as int,
            r.z == self.z as int * CHUNK_Z as int,
    {
        Pos {
            x: self.x * CHUNK_X as i32,
            y: self.y * CHUNK_Y as i32,
            z: self.z * CHUNK_Z as i32,
        }
    }

    /// The chunk one step along `dir` in chunk-grid units.
    pub fn step(&self, dir: Direction) -> (r: ChunkPos)
        requires
            match dir {
                Direction::Up => self.y < i32::MAX,
                Direction::Down => self.y > i32::MIN,
                Direction::Right => self.x < i32::MAX,
                Direction::Left => self.x > i32::MIN,
                Direction::Front => self.z < i32::MAX,
                Direction::Back => self.z > i32::MIN,
            },
        ensures
            r == self.step_spec(dir),
    {
        match dir {
            Direction::Up => ChunkPos { y: self.y + 1, ..*self },
            Direction::Down => ChunkPos { y: self.y - 1, ..*self },
            Direction::Right => ChunkPos { x: self.x + 1, ..*self },
            Direction::Left => ChunkPos { x: self.x - 1, ..*self },
            Direction::Front => ChunkPos { z: self.z + 1, ..*self },
            Direction::Back => ChunkPos { z: self.z - 1, ..*self },
        }
    }

    pub open spec fn step_spec(self, dir: Direction) -> ChunkPos {
        match dir {
            Direction::Up => ChunkPos { y: (self.y + 1) as i32, ..self },
            Direction::Down => ChunkPos { y: (self.y - 1) as i32, ..self },
            Direction::Right => ChunkPos { x: (self.x + 1) as i32, ..self },
            Direction::Left => ChunkPos { x: (self.x - 1) as i32, ..self },
            Direction::Front => ChunkPos { z: (self.z + 1) as i32, ..self },
            Direction::Back => ChunkPos { z: (self.z - 1) as i32, ..self },
        }
    }
}

/// Stable handle to a block: the position of the chunk that owns it and the
/// linear index inside that chunk's dense block array. A handle may dangle
/// after its chunk is unloaded; readers treat a dangling handle as "no
/// neighbor".
#[derive(Clone, Copy, Debug, PartialEq, Eq, Structural)]
pub struct BlocRef {
    pub chunk: ChunkPos,
    pub index: usize,
}

/// The six neighbor slots of a block. `None` is a true world/chunk edge not
/// yet linked.
#[derive(Clone, Copy, Debug, PartialEq, Eq, Structural)]
pub struct Neighbors {
    pub up: Option<BlocRef>,
    pub down: Option<BlocRef>,
    pub right: Option<BlocRef>,
    pub left: Option<BlocRef>,
    pub front: Option<BlocRef>,
    pub back: Option<BlocRef>,
}

impl Neighbors {
    pub open spec fn get_spec(self, dir: Direction) -> Option<BlocRef> {
        match dir {
            Direction::Up => self.up,
            Direction::Down => self.down,
            Direction::Right => self.right,
            Direction::Left => self.left,
            Direction::Front => self.front,
            Direction::Back => self.back,
        }
    }

    pub open spec fn set_spec(self, dir: Direction, v: Option<BlocRef>) -> Neighbors {
        match dir {
            Direction::Up => Neighbors { up: v, ..self },
            Direction::Down => Neighbors { down: v, ..self },
            Direction::Right => Neighbors { right: v, ..self },
            Direction::Left => Neighbors { left: v, ..self },
            Direction::Front => Neighbors { front: v, ..self },
            Direction::Back => Neighbors { back: v, ..self },
        }
    }

    /// The slot toward `dir`.
    pub fn get_with_direction(&self, dir: Direction) -> (r: Option<BlocRef>)
        ensures
            r == self.get_spec(dir),
    {
        match dir {
            Direction::Up => self.up,
            Direction::Down => self.down,
            Direction::Right => self.right,
            Direction::Left => self.left,
            Direction::Front => self.front,
            Direction::Back => self.back,
        }
    }

    /// Overwrites the slot toward `dir`.
    pub fn set_with_direction(&mut self, dir: Direction, v: Option<BlocRef>)
        ensures
            *final(self) == old(self).set_spec(dir, v),
    {
        match dir {
            Direction::Up => { self.up = v; },
            Direction::Down => { self.down = v; },
            Direction::Right => { self.right = v; },
            Direction::Left => { self.left = v; },
            Direction::Front => { self.front = v; },
            Direction::Back => { self.back = v; },
        }
    }
}

/// Visual damage stage of a face, advanced while the block is being
/// destroyed.
#[derive(Clone, Copy, Debug, PartialEq, Eq, Structural, Hash)]
pub enum DestructionLevel {
    Zero,
    One,
    Two,
    Three,
    Four,
    Five,
}

/// Identity of the material shown on a face: the base texture is derived
/// from the block type and the face direction, composited with the crack
/// overlay of the damage stage.
#[derive(Clone, Copy, Debug, PartialEq, Eq, Structural)]
pub struct FaceMaterial {
    pub typ: BlocType,
    pub dir: Direction,
    pub crack: DestructionLevel,
}

/// A renderable quad on one side of a block, present only where that side
/// borders empty space.
#[derive(Clone, Copy, Debug, PartialEq, Eq, Structural)]
pub struct Face {
    /// Outward direction of the quad.
    pub dir: Direction,
    /// Material currently shown.
    pub material: FaceMaterial,
    /// Undamaged material of this face.
    pub base_material: FaceMaterial,
    /// Replacement staged until its asset is ready; swapped in by
    /// `Face::apply_next_material`.
    pub next_material: Option<FaceMaterial>,
    /// Damage overlay stage currently shown.
    pub destruction_level: DestructionLevel,
}

pub open spec fn base_material_spec(typ: BlocType, dir: Direction) -> FaceMaterial {
    FaceMaterial { typ, dir, crack: DestructionLevel::Zero }
}

/// A freshly emitted face: undamaged, showing its base material.
pub open spec fn new_face_spec(typ: BlocType, dir: Direction) -> Face {
    Face {
        dir,
        material: base_material_spec(typ, dir),
        base_material: base_material_spec(typ, dir),
        next_material: None,
        destruction_level: DestructionLevel::Zero,
    }
}

impl Face {
    /// Swaps the staged material in, but only once its asset is ready (or
    /// it is the base material, which is always ready). This avoids a
    /// visible flash of a not-yet-loaded texture.
    pub fn apply_next_material(&mut self, next_is_loaded: bool)
        ensures
            final(self).dir == old(self).dir,
            final(self).base_material == old(self).base_material,
            final(self).destruction_level == old(self).destruction_level,
            match old(self).next_material {
                Some(nm) => {
                    if next_is_loaded || nm == old(self).base_material {
                        final(self).material == nm && final(self).next_material
                            == Option::<FaceMaterial>::None
                    } else {
                        final(self).material == old(self).material && final(self).next_material
                            == old(self).next_material
                    }
                },
                None => final(self).material == old(self).material && final(self).next_material
                    == Option::<FaceMaterial>::None,
            },
    {
        if let Some(nm) = self.next_material {
            if next_is_loaded || nm == self.base_material {
                self.material = nm;
                self.next_material = None;
            }
        }
    }
}

/// The set of currently rendered faces of a block (0 to 6).
#[derive(Clone, Debug)]
pub struct BlocFaces(pub Vec<Face>);

impl Default for BlocFaces {
    /// No face rendered.
    fn default() -> (r: Self)
        ensures
            r.0@ == Seq::<Face>::empty(),
    {
        Self(Vec::new())
    }
}

/// What the six neighbor slots of a block resolved to when its visibility
/// is evaluated: the neighbor's type where a wired slot resolves, `None`
/// where the slot is empty or dangling.
#[derive(Clone, Copy, Debug, PartialEq, Eq, Structural)]
pub struct EffectiveNeighbors {
    pub up: Option<BlocType>,
    pub down: Option<BlocType>,
    pub right: Option<BlocType>,
    pub left: Option<BlocType>,
    pub front: Option<BlocType>,
    pub back: Option<BlocType>,
}

impl EffectiveNeighbors {
    pub open spec fn get_spec(self, dir: Direction) -> Option<BlocType> {
        match dir {
            Direction::Up => self.up,
            Direction::Down => self.down,
            Direction::Right => self.right,
            Direction::Left => self.left,
            Direction::Front => self.front,
            Direction::Back => self.back,
        }
    }
}

/// Effective type of one direction, from what the neighbor slot resolved
/// to. A missing or dangling neighbor counts as open sky for the Up
/// direction only: a chunk's top is always assumed open before vertical
/// linking, while side and bottom openness must not be assumed until the
/// adjacent chunk is actually linked.
pub open spec fn effective_type_spec(resolved: Option<BlocType>, dir: Direction) -> Option<
    BlocType,
> {
    match resolved {
        Some(t) => Some(t),
        None => if dir == Direction::Up {
            Some(BlocType::Air)
        } else {
            None
        },
    }
}

/// A face toward `dir` is emitted iff the block itself is not `Air` and the
/// effective neighbor type is `Air`.
pub open spec fn face_visible_spec(typ: BlocType, eff: Option<BlocType>) -> bool {
    typ != BlocType::Air && eff == Some(BlocType::Air)
}

pub open spec fn face_seq_for(typ: BlocType, eff: EffectiveNeighbors, dir: Direction) -> Seq<
    Face,
> {
    if face_visible_spec(typ, effective_type_spec(eff.get_spec(dir), dir)) {
        seq![new_face_spec(typ, dir)]
    } else {
        Seq::empty()
    }
}

/// The full face set of a block, in the canonical direction order.
pub open spec fn faces_for_spec(typ: BlocType, eff: EffectiveNeighbors) -> Seq<Face> {
    face_seq_for(typ, eff, Direction::Up) + face_seq_for(typ, eff, Direction::Down) + face_seq_for(
        typ,
        eff,
        Direction::Right,
    ) + face_seq_for(typ, eff, Direction::Left) + face_seq_for(typ, eff, Direction::Front)
        + face_seq_for(typ, eff, Direction::Back)
}

/// Computes the face set a block must show, from its own type and the six
/// effective neighbor types.
pub fn compute_faces(typ: BlocType, eff: EffectiveNeighbors) -> (r: Vec<Face>)
    ensures
        r@ == faces_for_spec(typ, eff),
{
    let mut faces: Vec<Face> = Vec::new();
    if typ == BlocType::Air {
        proof {
            assert(faces@ =~= faces_for_spec(typ, eff));
        }
        return faces;
    }
    let dirs = Direction::list();
    let mut k: usize = 0;
    while k < 6
        invariant
            k <= 6,
            dirs@ == direction_order(),
            typ != BlocType::Air,
            faces@ == partial_faces_spec(typ, eff, k as int),
        decreases 6 - k,
    {
        let d = dirs[k];
        let e = match d {
            Direction::Up => eff.up,
            Direction::Down => eff.down,
            Direction::Right => eff.right,
            Direction::Left => eff.left,
            Direction::Front => eff.front,
            Direction::Back => eff.back,
        };
        let emit = match e {
            Some(t) => t == BlocType::Air,
            None => d == Direction::Up,
        };
        if emit {
            faces.push(
                Face {
                    dir: d,
                    material: FaceMaterial { typ, dir: d, crack: DestructionLevel::Zero },
                    base_material: FaceMaterial { typ, dir: d, crack: DestructionLevel::Zero },
                    next_material: None,
                    destruction_level: DestructionLevel::Zero,
                },
            );
        }
        proof {
            assert(faces@ =~= partial_faces_spec(typ, eff, k as int + 1));
        }
        k = k + 1;
    }
    proof {
        reveal_with_fuel(partial_faces_spec, 7);
        assert(faces@ =~= faces_for_spec(typ, eff));
    }
    faces
}

/// Faces contributed by the first `n` directions of the canonical order.
pub open spec fn partial_faces_spec(typ: BlocType, eff: EffectiveNeighbors, n: int) -> Seq<Face>
    decreases n,
{
    if n <= 0 {
        Seq::empty()
    } else {
        partial_faces_spec(typ, eff, n - 1) + face_seq_for(typ, eff, direction_order()[n - 1])
    }
}

/// Visibility correctness: a non-Air block surrounded on all six sides by
/// non-Air neighbors emits zero faces, and an Air block emits zero faces
/// regardless of its neighbors.
pub proof fn lemma_visibility_zero_faces(typ: BlocType, eff: EffectiveNeighbors)
    requires
        typ == BlocType::Air || forall|d: Direction|
            (#[trigger] eff.get_spec(d)) != Option::<BlocType>::None && eff.get_spec(d) != Some(
                BlocType::Air,
            ),
    ensures
        faces_for_spec(typ, eff) =~= Seq::<Face>::empty(),
{
}

/// Visibility correctness: a non-Air block with exactly one direction whose
/// effective neighbor is Air emits exactly one face, facing that direction.
pub proof fn lemma_visibility_single_face(typ: BlocType, eff: EffectiveNeighbors, open_dir: Direction)
    requires
        typ != BlocType::Air,
        effective_type_spec(eff.get_spec(open_dir), open_dir) == Some(BlocType::Air),
        forall|d: Direction| d != open_dir ==> effective_type_spec(
            #[trigger] eff.get_spec(d),
            d,
        ) != Some(BlocType::Air),
    ensures
        faces_for_spec(typ, eff) =~= seq![new_face_spec(typ, open_dir)],
{
}

/// Top-boundary rule: with no Up neighbor wired the block behaves as if Air
/// were above and emits an Up face, while a missing Down (or side) neighbor
/// yields no face in that direction.
pub proof fn lemma_top_boundary_rule(typ: BlocType, eff: EffectiveNeighbors, dir: Direction)
    requires
        typ != BlocType::Air,
    ensures
        effective_type_spec(None, Direction::Up) == Some(BlocType::Air),
        face_visible_spec(typ, effective_type_spec(None, Direction::Up)),
        dir != Direction::Up ==> effective_type_spec(None, dir) == Option::<BlocType>::None,
        dir != Direction::Up ==> !face_visible_spec(typ, effective_type_spec(None, dir)),
{
}

} // verus!
