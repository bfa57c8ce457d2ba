//! Positions in the three coordinate spaces of the world: chunks, blocks in
//! world space, and blocks relative to their chunk.

use vstd::prelude::*;
use vstd::bytes::{
    lemma_auto_spec_u64_to_from_le_bytes, spec_u64_from_le_bytes, spec_u64_to_le_bytes,
    u64_from_le_bytes, u64_to_le_bytes,
};
use vstd::slice::slice_subrange;
use crate::direction::{Direction, Vector3, Vector3Accessor};

verus! {

/// Identifies a chunk in chunk space.
#[derive(Debug, Clone, Copy, PartialEq, Eq, Hash, Structural)]
pub struct ChunkPos {
    pub x: isize,
    pub y: isize,
    pub z: isize,
}

/// Identifies a block in world space.
#[derive(Debug, Clone, Copy, PartialEq, Eq, Hash, Structural)]
pub struct BlockPos {
    pub x: isize,
    pub y: isize,
    pub z: isize,
}

/// A block's position within its chunk. Valid positions have every
/// coordinate below 16.
#[derive(Debug, Clone, Copy, PartialEq, Eq, Hash, Structural)]
pub struct ChunkRelativeBlockPos {
    pub x: usize,
    pub y: usize,
    pub z: usize,
}

impl ChunkPos {
    pub fn new(x: isize, y: isize, z: isize) -> (p: Self)
        ensures
            p == (ChunkPos { x, y, z }),
    {
        ChunkPos { x, y, z }
    }

    /// The selected coordinate.
    pub open spec fn spec_get(self, accessor: Vector3Accessor) -> isize {
        match accessor {
            Vector3Accessor::X => self.x,
            Vector3Accessor::Y => self.y,
            Vector3Accessor::Z => self.z,
        }
    }

    /// This position with the selected coordinate replaced by `value`.
    pub open spec fn spec_set(self, accessor: Vector3Accessor, value: isize) -> ChunkPos {
        match accessor {
            Vector3Accessor::X => ChunkPos { x: value, ..self },
            Vector3Accessor::Y => ChunkPos { y: value, ..self },
            Vector3Accessor::Z => ChunkPos { z: value, ..self },
        }
    }

    pub fn get(self, accessor: Vector3Accessor) -> (e: isize)
        ensures
            e == self.spec_get(accessor),
    {
        match accessor {
            Vector3Accessor::X => self.x,
            Vector3Accessor::Y => self.y,
            Vector3Accessor::Z => self.z,
        }
    }

    pub fn set(&mut self, accessor: Vector3Accessor, value: isize)
        ensures
            *final(self) == old(self).spec_set(accessor, value),
    {
        match accessor {
            Vector3Accessor::X => self.x = value,
            Vector3Accessor::Y => self.y = value,
            Vector3Accessor::Z => self.z = value,
        }
    }

    /// Whether `self + v` stays within the range of chunk coordinates.
    pub open spec fn can_add(self, v: Vector3) -> bool {
        &&& isize::MIN <= self.x + v.x <= isize::MAX
        &&& isize::MIN <= self.y + v.y <= isize::MAX
        &&& isize::MIN <= self.z + v.z <= isize::MAX
    }

    /// The chunk at offset `v` from this one.
    pub open spec fn spec_add(self, v: Vector3) -> ChunkPos {
        ChunkPos {
            x: (self.x + v.x) as isize,
            y: (self.y + v.y) as isize,
            z: (self.z + v.z) as isize,
        }
    }

    /// The chunk at offset `v` from this one, or `None` where that chunk
    /// would lie beyond the range of chunk coordinates.
    pub fn checked_add(self, v: Vector3) -> (r: Option<ChunkPos>)
        ensures
            r == (if self.can_add(v) { Some(self.spec_add(v)) } else { None }),
    {
        match (self.x.checked_add(v.x), self.y.checked_add(v.y), self.z.checked_add(v.z)) {
            (Some(x), Some(y), Some(z)) => Some(ChunkPos { x, y, z }),
            _ => None,
        }
    }

    /// The face-adjacent chunk in direction `dir`, if the coordinate range
    /// holds one.
    pub open spec fn spec_neighbour(self, dir: Direction) -> Option<ChunkPos> {
        if self.can_add(dir.spec_normal()) {
            Some(self.spec_add(dir.spec_normal()))
        } else {
            None
        }
    }

    /// The face-adjacent chunk in direction `dir`.
    pub fn neighbour(self, dir: Direction) -> (r: Option<ChunkPos>)
        ensures
            r == self.spec_neighbour(dir),
    {
        self.checked_add(dir.normal())
    }

    /// Whether every block of this chunk has world coordinates in range.
    pub open spec fn in_block_range(self) -> bool {
        &&& isize::MIN <= self.x * 16 && self.x * 16 + 15 <= isize::MAX
        &&& isize::MIN <= self.y * 16 && self.y * 16 + 15 <= isize::MAX
        &&& isize::MIN <= self.z * 16 && self.z * 16 + 15 <= isize::MAX
    }

    /// The world position of the block at `rel` within this chunk:
    /// `self * 16 + rel` on every axis.
    pub open spec fn spec_block_pos(self, rel: ChunkRelativeBlockPos) -> BlockPos {
        BlockPos {
            x: (self.x * 16 + rel.x) as isize,
            y: (self.y * 16 + rel.y) as isize,
            z: (self.z * 16 + rel.z) as isize,
        }
    }

    /// The world position of the chunk's geometric centre: the corner that
    /// its eight innermost blocks share.
    pub open spec fn spec_center(self) -> BlockPos {
        BlockPos {
            x: (self.x * 16 + 8) as isize,
            y: (self.y * 16 + 8) as isize,
            z: (self.z * 16 + 8) as isize,
        }
    }

    /// The world position of the chunk's geometric centre, or `None` where
    /// the chunk's blocks have no world coordinates.
    pub fn center(self) -> (r: Option<BlockPos>)
        ensures
            r == (if self.in_block_range() { Some(self.spec_center()) } else { None }),
    {
        if self.is_in_block_range() {
            Some(BlockPos { x: self.x * 16 + 8, y: self.y * 16 + 8, z: self.z * 16 + 8 })
        } else {
            None
        }
    }

    /// Tests `in_block_range`.
    pub fn is_in_block_range(self) -> (b: bool)
        ensures
            b == self.in_block_range(),
    {
        axis_in_block_range(self.x) && axis_in_block_range(self.y) && axis_in_block_range(self.z)
    }

    /// The world position of the block at `rel` within this chunk, or `None`
    /// where the chunk lies so far out that its blocks have no world
    /// coordinates.
    pub fn block_pos(self, rel: ChunkRelativeBlockPos) -> (r: Option<BlockPos>)
        requires
            rel.in_chunk(),
        ensures
            r == (if self.in_block_range() { Some(self.spec_block_pos(rel)) } else { None }),
    {
        if self.is_in_block_range() {
            Some(
                BlockPos {
                    x: self.x * 16 + rel.x as isize,
                    y: self.y * 16 + rel.y as isize,
                    z: self.z * 16 + rel.z as isize,
                },
            )
        } else {
            None
        }
    }
}

/// Why a stored key is no chunk position.
#[derive(Debug, Clone, Copy, PartialEq, Eq, Structural)]
pub enum KeyError {
    /// The key does not have the length of three 64-bit integers.
    InvalidBlobSize { expected_size: usize, blob_size: usize },
    /// A coordinate in the key is beyond this machine's coordinate range.
    OutOfRange,
}

/// The unsigned 64-bit value with the bits of the signed `v` in two's
/// complement.
pub open spec fn twos_complement(v: int) -> int {
    if v >= 0 {
        v
    } else {
        v + 0x1_0000_0000_0000_0000
    }
}

/// The signed value whose two's complement bits are those of `n`.
pub open spec fn from_twos_complement(n: int) -> int {
    if n < 0x8000_0000_0000_0000 {
        n
    } else {
        n - 0x1_0000_0000_0000_0000
    }
}

/// The eight bytes of one coordinate: 64 bits in two's complement, least
/// significant byte first.
pub open spec fn coord_key(c: isize) -> Seq<u8> {
    spec_u64_to_le_bytes(twos_complement(c as int) as u64)
}

/// The coordinate that the eight bytes at `at` spell, as an integer.
pub open spec fn coord_from_key(key: Seq<u8>, at: int) -> int {
    from_twos_complement(spec_u64_from_le_bytes(key.subrange(at, at + 8)) as int)
}

fn coord_to_key(c: isize) -> (out: Vec<u8>)
    ensures
        out@ == coord_key(c),
        out@.len() == 8,
{
    let v: i64 = c as i64;
    let n: u64 = if v >= 0 {
        v as u64
    } else {
        (v + i64::MAX + 1) as u64 + 0x8000_0000_0000_0000
    };
    u64_to_le_bytes(n)
}

fn coord_of_key(key: &[u8], at: usize) -> (r: Option<isize>)
    requires
        at + 8 <= key@.len() <= usize::MAX,
    ensures
        r == (if isize::MIN <= coord_from_key(key@, at as int) <= isize::MAX {
            Some(coord_from_key(key@, at as int) as isize)
        } else {
            None
        }),
{
    let n: u64 = u64_from_le_bytes(slice_subrange(key, at, at + 8));
    let v: i64 = if n < 0x8000_0000_0000_0000 {
        n as i64
    } else {
        (n - 0x8000_0000_0000_0000) as i64 + i64::MIN
    };
    if v < isize::MIN as i64 || v > isize::MAX as i64 {
        None
    } else {
        Some(v as isize)
    }
}

impl ChunkPos {
    /// The key under which this chunk is stored: its three coordinates, 24
    /// bytes in all.
    pub open spec fn spec_to_key(self) -> Seq<u8> {
        coord_key(self.x) + coord_key(self.y) + coord_key(self.z)
    }

    /// Encodes this position as a storage key.
    pub fn to_key(self) -> (key: Vec<u8>)
        ensures
            key@ == self.spec_to_key(),
            key@.len() == 24,
    {
        let mut key = coord_to_key(self.x);
        let mut y = coord_to_key(self.y);
        let mut z = coord_to_key(self.z);
        key.append(&mut y);
        key.append(&mut z);
        key
    }

    /// Decodes a storage key. Fails with `InvalidBlobSize` exactly where the
    /// key is not 24 bytes long, else with `OutOfRange` exactly where one of
    /// its coordinates does not fit this machine's coordinates.
    pub fn from_key(key: &[u8]) -> (r: Result<ChunkPos, KeyError>)
        ensures
            key@.len() != 24 ==> r == Err::<ChunkPos, KeyError>(
                KeyError::InvalidBlobSize { expected_size: 24, blob_size: key@.len() as usize },
            ),
            key@.len() == 24 ==> r == (if isize::MIN <= coord_from_key(key@, 0) <= isize::MAX
                && isize::MIN <= coord_from_key(key@, 8) <= isize::MAX && isize::MIN
                <= coord_from_key(key@, 16) <= isize::MAX {
                Ok::<ChunkPos, KeyError>(
                    ChunkPos {
                        x: coord_from_key(key@, 0) as isize,
                        y: coord_from_key(key@, 8) as isize,
                        z: coord_from_key(key@, 16) as isize,
                    },
                )
            } else {
                Err::<ChunkPos, KeyError>(KeyError::OutOfRange)
            }),
    {
        if key.len() != 24 {
            return Err(KeyError::InvalidBlobSize { expected_size: 24, blob_size: key.len() });
        }
        match (coord_of_key(key, 0), coord_of_key(key, 8), coord_of_key(key, 16)) {
            (Some(x), Some(y), Some(z)) => Ok(ChunkPos { x, y, z }),
            _ => Err(KeyError::OutOfRange),
        }
    }
}

/// A key decodes to the position it was made from.
pub proof fn lemma_key_round_trip(p: ChunkPos)
    ensures
        p.spec_to_key().len() == 24,
        coord_from_key(p.spec_to_key(), 0) == p.x,
        coord_from_key(p.spec_to_key(), 8) == p.y,
        coord_from_key(p.spec_to_key(), 16) == p.z,
{
    lemma_auto_spec_u64_to_from_le_bytes();
    let key = p.spec_to_key();
    assert(key.subrange(0, 8) =~= coord_key(p.x));
    assert(key.subrange(8, 16) =~= coord_key(p.y));
    assert(key.subrange(16, 24) =~= coord_key(p.z));
}

impl BlockPos {
    pub fn new(x: isize, y: isize, z: isize) -> (p: Self)
        ensures
            p == (BlockPos { x, y, z }),
    {
        BlockPos { x, y, z }
    }

    /// The selected coordinate.
    pub open spec fn spec_get(self, accessor: Vector3Accessor) -> isize {
        match accessor {
            Vector3Accessor::X => self.x,
            Vector3Accessor::Y => self.y,
            Vector3Accessor::Z => self.z,
        }
    }

    /// This position with the selected coordinate replaced by `value`.
    pub open spec fn spec_set(self, accessor: Vector3Accessor, value: isize) -> BlockPos {
        match accessor {
            Vector3Accessor::X => BlockPos { x: value, ..self },
            Vector3Accessor::Y => BlockPos { y: value, ..self },
            Vector3Accessor::Z => BlockPos { z: value, ..self },
        }
    }

    pub fn get(self, accessor: Vector3Accessor) -> (e: isize)
        ensures
            e == self.spec_get(accessor),
    {
        match accessor {
            Vector3Accessor::X => self.x,
            Vector3Accessor::Y => self.y,
            Vector3Accessor::Z => self.z,
        }
    }

    pub fn set(&mut self, accessor: Vector3Accessor, value: isize)
        ensures
            *final(self) == old(self).spec_set(accessor, value),
    {
        match accessor {
            Vector3Accessor::X => self.x = value,
            Vector3Accessor::Y => self.y = value,
            Vector3Accessor::Z => self.z = value,
        }
    }

    /// Whether `self + v` stays within the range of block coordinates.
    pub open spec fn can_add(self, v: Vector3) -> bool {
        &&& isize::MIN <= self.x + v.x <= isize::MAX
        &&& isize::MIN <= self.y + v.y <= isize::MAX
        &&& isize::MIN <= self.z + v.z <= isize::MAX
    }

    /// The block at offset `v` from this one.
    pub open spec fn spec_add(self, v: Vector3) -> BlockPos {
        BlockPos {
            x: (self.x + v.x) as isize,
            y: (self.y + v.y) as isize,
            z: (self.z + v.z) as isize,
        }
    }

    /// The block at offset `v` from this one, or `None` where that block
    /// would lie beyond the range of block coordinates.
    pub fn checked_add(self, v: Vector3) -> (r: Option<BlockPos>)
        ensures
            r == (if self.can_add(v) { Some(self.spec_add(v)) } else { None }),
    {
        match (self.x.checked_add(v.x), self.y.checked_add(v.y), self.z.checked_add(v.z)) {
            (Some(x), Some(y), Some(z)) => Some(BlockPos { x, y, z }),
            _ => None,
        }
    }

    /// The chunk that holds this block: each coordinate floor-divided by 16.
    pub open spec fn spec_chunk_pos(self) -> ChunkPos {
        ChunkPos { x: (self.x / 16) as isize, y: (self.y / 16) as isize, z: (self.z / 16) as isize }
    }

    /// This block's position within its chunk: each coordinate floor-modulo
    /// 16.
    pub open spec fn spec_rel_pos(self) -> ChunkRelativeBlockPos {
        ChunkRelativeBlockPos {
            x: (self.x % 16) as usize,
            y: (self.y % 16) as usize,
            z: (self.z % 16) as usize,
        }
    }

    /// The chunk that holds this block.
    pub fn chunk_pos(self) -> (c: ChunkPos)
        ensures
            c == self.spec_chunk_pos(),
            c.in_block_range(),
    {
        ChunkPos { x: floor_div_16(self.x), y: floor_div_16(self.y), z: floor_div_16(self.z) }
    }

    /// This block's position within its chunk.
    pub fn rel_pos(self) -> (r: ChunkRelativeBlockPos)
        ensures
            r == self.spec_rel_pos(),
            r.in_chunk(),
    {
        ChunkRelativeBlockPos {
            x: floor_mod_16(self.x),
            y: floor_mod_16(self.y),
            z: floor_mod_16(self.z),
        }
    }
}

impl ChunkRelativeBlockPos {
    pub fn new(x: usize, y: usize, z: usize) -> (p: Self)
        ensures
            p == (ChunkRelativeBlockPos { x, y, z }),
    {
        ChunkRelativeBlockPos { x, y, z }
    }

    /// Whether this position names a cell of the 16×16×16 grid.
    pub open spec fn in_chunk(self) -> bool {
        self.x < 16 && self.y < 16 && self.z < 16
    }

    /// Tests `in_chunk`.
    pub fn is_in_chunk(self) -> (b: bool)
        ensures
            b == self.in_chunk(),
    {
        self.x < 16 && self.y < 16 && self.z < 16
    }

    /// The selected coordinate.
    pub open spec fn spec_get(self, accessor: Vector3Accessor) -> usize {
        match accessor {
            Vector3Accessor::X => self.x,
            Vector3Accessor::Y => self.y,
            Vector3Accessor::Z => self.z,
        }
    }

    /// This position with the selected coordinate replaced by `value`.
    pub open spec fn spec_set(self, accessor: Vector3Accessor, value: usize) -> ChunkRelativeBlockPos {
        match accessor {
            Vector3Accessor::X => ChunkRelativeBlockPos { x: value, ..self },
            Vector3Accessor::Y => ChunkRelativeBlockPos { y: value, ..self },
            Vector3Accessor::Z => ChunkRelativeBlockPos { z: value, ..self },
        }
    }

    pub fn get(self, accessor: Vector3Accessor) -> (e: usize)
        ensures
            e == self.spec_get(accessor),
    {
        match accessor {
            Vector3Accessor::X => self.x,
            Vector3Accessor::Y => self.y,
            Vector3Accessor::Z => self.z,
        }
    }

    pub fn set(&mut self, accessor: Vector3Accessor, value: usize)
        ensures
            *final(self) == old(self).spec_set(accessor, value),
    {
        match accessor {
            Vector3Accessor::X => self.x = value,
            Vector3Accessor::Y => self.y = value,
            Vector3Accessor::Z => self.z = value,
        }
    }

    /// Whether this cell touches the face `dir` of its chunk.
    pub open spec fn touches(self, dir: Direction) -> bool {
        self.spec_get(dir.spec_axle()) == dir.spec_chunk_limit()
    }

    /// Tests `touches`.
    pub fn is_touching(self, dir: Direction) -> (b: bool)
        ensures
            b == self.touches(dir),
    {
        self.get(dir.axle()) == dir.chunk_limit()
    }
}

/// Whether the 16 blocks along one axis of a chunk at coordinate `c` have
/// world coordinates in range.
fn axis_in_block_range(c: isize) -> (b: bool)
    ensures
        b == (isize::MIN <= c * 16 && c * 16 + 15 <= isize::MAX),
{
    match c.checked_mul(16) {
        Some(base) => base.checked_add(15).is_some(),
        None => false,
    }
}

/// Floor division by 16, which rounds towards negative infinity.
fn floor_div_16(e: isize) -> (q: isize)
    ensures
        q == e / 16,
        isize::MIN <= q * 16,
        q * 16 + 15 <= isize::MAX,
{
    match e.checked_div_euclid(16) {
        Some(q) => q,
        None => {
            assert(false);
            0
        },
    }
}

/// Floor modulo 16, which is never negative.
fn floor_mod_16(e: isize) -> (r: usize)
    ensures
        r == e % 16,
        r < 16,
{
    match e.checked_rem_euclid(16) {
        Some(r) => r as usize,
        None => {
            assert(false);
            0
        },
    }
}

/// Splits a world block position into the chunk that holds it and the
/// position within that chunk.
pub fn to_chunk_rel_pos(pos: BlockPos) -> (r: (ChunkPos, ChunkRelativeBlockPos))
    ensures
        r.0 == pos.spec_chunk_pos(),
        r.1 == pos.spec_rel_pos(),
{
    (pos.chunk_pos(), pos.rel_pos())
}

/// Splitting a block position into chunk and chunk-relative parts loses
/// nothing: the chunk position times 16 plus the relative position is the
/// block position again, for negative coordinates too, and the relative
/// position lies within the chunk.
pub proof fn lemma_block_pos_round_trip(p: BlockPos)
    ensures
        p.spec_rel_pos().in_chunk(),
        p.spec_chunk_pos().in_block_range(),
        p.spec_chunk_pos().spec_block_pos(p.spec_rel_pos()) == p,
        p.spec_chunk_pos().x * 16 + p.spec_rel_pos().x == p.x,
        p.spec_chunk_pos().y * 16 + p.spec_rel_pos().y == p.y,
        p.spec_chunk_pos().z * 16 + p.spec_rel_pos().z == p.z,
{
}

/// A chunk position and a relative position within the chunk are recovered
/// from the world position they add up to.
pub proof fn lemma_chunk_rel_round_trip(c: ChunkPos, r: ChunkRelativeBlockPos)
    requires
        c.in_block_range(),
        r.in_chunk(),
    ensures
        c.spec_block_pos(r).spec_chunk_pos() == c,
        c.spec_block_pos(r).spec_rel_pos() == r,
{
}

} // verus!
