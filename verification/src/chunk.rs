//! A chunk: a dense 16×16×16 grid of blocks with a dirty flag.

use vstd::prelude::*;
use crate::block::{Block, BlockId, BlockMetadata, BlockRegistry};
use crate::codec::{
    lemma_varint_len, lemma_varint_round_trip, lemma_zigzag_round_trip, read_varint,
    unzigzag, unzigzag_u64, varint, varint_at, write_varint, zigzag, zigzag_i64,
};
use crate::position::{ChunkPos, ChunkRelativeBlockPos};

verus! {

/// The index of the cell `p` when the grid is walked with x outermost and z
/// innermost.
pub open spec fn cell_index(p: ChunkRelativeBlockPos) -> int {
    p.x * 256 + p.y * 16 + p.z
}

/// The cell with index `i` in that walk.
pub open spec fn cell_at(i: int) -> ChunkRelativeBlockPos {
    ChunkRelativeBlockPos { x: (i / 256) as usize, y: ((i / 16) % 16) as usize, z: (i % 16) as usize }
}

/// Cell indices and in-chunk positions correspond one to one.
pub proof fn lemma_cell_index(p: ChunkRelativeBlockPos, i: int)
    ensures
        p.in_chunk() ==> 0 <= cell_index(p) < 4096 && cell_at(cell_index(p)) == p,
        0 <= i < 4096 ==> cell_at(i).in_chunk() && cell_index(cell_at(i)) == i,
{
}

/// The bytes of a grid of blocks: for each block in turn its id, then its
/// metadata.
pub open spec fn block_bytes(grid: Seq<Block>) -> Seq<u8> {
    Seq::new(
        2 * grid.len(),
        |i: int| if i % 2 == 0 { grid[i / 2].id.0 } else { grid[i / 2].metadata.0 },
    )
}

/// The block that the two bytes at `at + 2 * i` spell.
pub open spec fn block_from_bytes(bytes: Seq<u8>, at: int, i: int) -> Block {
    Block { id: BlockId(bytes[at + 2 * i]), metadata: BlockMetadata(bytes[at + 2 * i + 1]) }
}

/// The bytes of one coordinate: the varint of its zigzag mapping.
pub open spec fn coord_bytes(c: isize) -> Seq<u8> {
    varint(zigzag(c as int))
}

/// Reads one coordinate at `at`, giving it and the position behind it.
/// `None` where no varint stands there or its value is no coordinate on
/// this machine.
pub open spec fn coord_at(bytes: Seq<u8>, at: int) -> Option<(isize, int)> {
    match varint_at(bytes, at, 0) {
        Some((n, next)) => {
            let c = unzigzag(n);
            if isize::MIN <= c <= isize::MAX {
                Some((c as isize, next))
            } else {
                None
            }
        },
        None => None,
    }
}

/// What stands before the blocks in a chunk's bytes: the dirty flag as one
/// byte, 0 or 1, then the three coordinates of its position.
pub open spec fn header_bytes(dirty: bool, pos: ChunkPos) -> Seq<u8> {
    seq![if dirty { 1u8 } else { 0u8 }] + coord_bytes(pos.x) + coord_bytes(pos.y) + coord_bytes(
        pos.z,
    )
}

/// Reads a chunk's header, giving the dirty flag, the position and where
/// the blocks begin.
pub open spec fn header_at(bytes: Seq<u8>) -> Option<(bool, ChunkPos, int)> {
    if bytes.len() == 0 || bytes[0] > 1 {
        None
    } else {
        match coord_at(bytes, 1) {
            None => None,
            Some((x, at_y)) => match coord_at(bytes, at_y) {
                None => None,
                Some((y, at_z)) => match coord_at(bytes, at_z) {
                    None => None,
                    Some((z, at_blocks)) => Some((bytes[0] == 1, ChunkPos { x, y, z }, at_blocks)),
                },
            },
        }
    }
}

/// Whether `bytes` begin with the encoding of a chunk: a header and then
/// two bytes for each of the 4096 blocks. What follows is ignored.
pub open spec fn decodable(bytes: Seq<u8>) -> bool {
    header_at(bytes) matches Some((_, _, at)) && at + 8192 <= bytes.len()
}

/// Whether `c` is the chunk that `bytes` encode.
pub open spec fn decodes_to(bytes: Seq<u8>, c: Chunk) -> bool {
    header_at(bytes) matches Some((dirty, pos, at)) && at + 8192 <= bytes.len() && c.dirty == dirty
        && c.pos == pos && forall|i: int|
        0 <= i < 4096 ==> #[trigger] c.grid()[i] == block_from_bytes(bytes, at, i)
}

/// Whether `after` is `before` with the block at `rel` replaced by `block`
/// and nothing else changed.
pub open spec fn is_block_edit_of(
    after: Chunk,
    before: Chunk,
    rel: ChunkRelativeBlockPos,
    block: Block,
) -> bool {
    &&& after.dirty == before.dirty
    &&& after.pos == before.pos
    &&& after.grid() == before.grid().update(cell_index(rel), block)
}

/// A fixed cube of 16×16×16 blocks, the unit of loading, meshing and
/// persistence.
#[derive(Debug)]
pub struct Chunk {
    /// Set on any change that can alter the chunk's surface; cleared once
    /// the surface has been rebuilt.
    pub dirty: bool,
    pub pos: ChunkPos,
    pub blocks: [[[Block; 16]; 16]; 16],
}

impl Clone for Chunk {
    fn clone(&self) -> (c: Self)
        ensures
            c == *self,
    {
        Chunk { dirty: self.dirty, pos: self.pos, blocks: self.blocks }
    }
}

impl Chunk {
    /// The edge length of a chunk, in blocks.
    pub const SIZE: usize = 16;

    /// The block at `p`.
    pub open spec fn spec_block(&self, p: ChunkRelativeBlockPos) -> Block {
        self.blocks[p.x as int][p.y as int][p.z as int]
    }

    /// All 4096 blocks, x outermost and z innermost.
    pub open spec fn grid(&self) -> Seq<Block> {
        Seq::new(4096, |i: int| self.spec_block(cell_at(i)))
    }

    /// An all-air chunk at `pos`, marked dirty.
    pub fn new(pos: ChunkPos) -> (c: Self)
        ensures
            c.dirty,
            c.pos == pos,
            forall|p: ChunkRelativeBlockPos| p.in_chunk() ==> c.spec_block(p) == Block::air(),
    {
        let air = Block::default();
        Chunk { dirty: true, pos, blocks: [[[air; 16]; 16]; 16] }
    }

    /// The block at `pos`.
    pub fn block(&self, pos: ChunkRelativeBlockPos) -> (b: &Block)
        requires
            pos.in_chunk(),
        ensures
            *b == self.spec_block(pos),
    {
        &self.blocks[pos.x][pos.y][pos.z]
    }

    /// The block at `pos`, for writing. Only that block changes; the dirty
    /// flag is left to the caller.
    pub fn block_mut(&mut self, pos: ChunkRelativeBlockPos) -> (b: &mut Block)
        requires
            pos.in_chunk(),
        ensures
            *b == old(self).spec_block(pos),
            final(self).spec_block(pos) == *final(b),
            forall|p: ChunkRelativeBlockPos|
                p.in_chunk() && p != pos ==> final(self).spec_block(p) == old(self).spec_block(p),
            final(self).dirty == old(self).dirty,
            final(self).pos == old(self).pos,
    {
        &mut self.blocks[pos.x][pos.y][pos.z]
    }

    /// The chunk's encoding.
    pub open spec fn spec_serialize(&self) -> Seq<u8> {
        header_bytes(self.dirty, self.pos) + block_bytes(self.grid())
    }

    /// Encodes the chunk: dirty flag, position, then all blocks with x
    /// outermost and z innermost.
    pub fn serialize(&self) -> (out: Vec<u8>)
        ensures
            out@ == self.spec_serialize(),
    {
        let mut out: Vec<u8> = Vec::new();
        out.push(if self.dirty { 1u8 } else { 0u8 });
        write_varint(&mut out, zigzag_i64(self.pos.x as i64));
        write_varint(&mut out, zigzag_i64(self.pos.y as i64));
        write_varint(&mut out, zigzag_i64(self.pos.z as i64));
        assert(out@ =~= header_bytes(self.dirty, self.pos));
        let ghost head = out@;
        let ghost body = block_bytes(self.grid());
        for i in 0..4096usize
            invariant
                head == header_bytes(self.dirty, self.pos),
                body == block_bytes(self.grid()),
                out@ == head + body.take(2 * i),
        {
            let b = self.blocks[i / 256][(i / 16) % 16][i % 16];
            out.push(b.id.0);
            out.push(b.metadata.0);
            assert(out@ =~= head + body.take(2 * (i + 1))) by {
                assert(self.grid()[i as int] == b);
                assert(body[2 * i] == b.id.0);
                assert(body[2 * i + 1] == b.metadata.0);
            }
        }
        assert(body.take(8192) =~= body);
        out
    }

    /// Decodes a chunk from the start of `data`, ignoring what follows it.
    /// Fails exactly where `data` does not begin with a chunk's encoding.
    pub fn deserialize(data: &[u8]) -> (r: Option<Chunk>)
        ensures
            r.is_some() <==> decodable(data@),
            r matches Some(c) ==> decodes_to(data@, c),
    {
        if data.len() == 0 || data[0] > 1 {
            return None;
        }
        let dirty = data[0] == 1;
        let (x, at_y) = match read_coord(data, 1) {
            Some(c) => c,
            None => { return None; },
        };
        let (y, at_z) = match read_coord(data, at_y) {
            Some(c) => c,
            None => { return None; },
        };
        let (z, at) = match read_coord(data, at_z) {
            Some(c) => c,
            None => { return None; },
        };
        if data.len() - at < 8192 {
            return None;
        }
        let mut chunk = Chunk::new(ChunkPos { x, y, z });
        chunk.dirty = dirty;
        for i in 0..4096usize
            invariant
                at + 8192 <= data@.len() <= usize::MAX,
                chunk.dirty == dirty,
                chunk.pos == (ChunkPos { x, y, z }),
                forall|j: int|
                    0 <= j < i ==> chunk.spec_block(#[trigger] cell_at(j)) == block_from_bytes(
                        data@,
                        at as int,
                        j,
                    ),
        {
            let block = Block {
                id: BlockId(data[at + 2 * i]),
                metadata: BlockMetadata(data[at + 2 * i + 1]),
            };
            let cell = ChunkRelativeBlockPos { x: i / 256, y: (i / 16) % 16, z: i % 16 };
            assert(cell == cell_at(i as int));
            let ghost before = chunk;
            *chunk.block_mut(cell) = block;
            assert forall|j: int| 0 <= j < i + 1 implies chunk.spec_block(#[trigger] cell_at(j))
                == block_from_bytes(data@, at as int, j) by {
                if j < i {
                    assert(before.spec_block(cell_at(j)) == block_from_bytes(data@, at as int, j));
                    assert(cell_at(j) != cell && cell_at(j).in_chunk());
                }
            }
        }
        assert forall|j: int| 0 <= j < 4096 implies #[trigger] chunk.grid()[j] == block_from_bytes(
            data@,
            at as int,
            j,
        ) by {
            assert(chunk.spec_block(cell_at(j)) == block_from_bytes(data@, at as int, j));
        }
        Some(chunk)
    }

    /// Replaces the block at `pos` by `block`. Nothing else changes; the
    /// dirty flag is left to the caller.
    pub fn set_block(&mut self, pos: ChunkRelativeBlockPos, block: Block)
        requires
            pos.in_chunk(),
        ensures
            is_block_edit_of(*final(self), *old(self), pos, block),
    {
        *self.block_mut(pos) = block;
        assert(self.grid() =~= old(self).grid().update(cell_index(pos), block)) by {
            assert forall|i: int| 0 <= i < 4096 implies self.grid()[i] == old(self).grid().update(
                cell_index(pos),
                block,
            )[i] by {
                lemma_cell_index(pos, i);
            }
        }
    }

    /// Every cell with its block, x outermost and z innermost.
    pub fn block_iter(&self) -> (cells: Vec<(ChunkRelativeBlockPos, Block)>)
        ensures
            cells@.len() == 4096,
            forall|i: int|
                0 <= i < 4096 ==> #[trigger] cells@[i] == (cell_at(i), self.spec_block(cell_at(i))),
    {
        let mut cells: Vec<(ChunkRelativeBlockPos, Block)> = Vec::new();
        for i in 0..4096usize
            invariant
                cells@.len() == i,
                forall|j: int|
                    0 <= j < i ==> #[trigger] cells@[j] == (cell_at(j), self.spec_block(cell_at(j))),
        {
            let cell = ChunkRelativeBlockPos { x: i / 256, y: (i / 16) % 16, z: i % 16 };
            cells.push((cell, self.blocks[cell.x][cell.y][cell.z]));
        }
        cells
    }

    pub fn get_dirty(&self) -> (d: bool)
        ensures
            d == self.dirty,
    {
        self.dirty
    }

    pub fn set_dirty(&mut self, dirty: bool)
        ensures
            *final(self) == (Chunk { dirty, ..*old(self) }),
    {
        self.dirty = dirty;
    }
}

/// Whether every block of `chunk` has a registered id.
pub open spec fn registered(registry: &BlockRegistry, chunk: Chunk) -> bool {
    forall|p: ChunkRelativeBlockPos|
        p.in_chunk() ==> registry.spec_get(#[trigger] chunk.spec_block(p).id).is_some()
}

/// Tests whether every block of `chunk` has a registered id.
pub fn is_registered(registry: &BlockRegistry, chunk: &Chunk) -> (b: bool)
    ensures
        b == registered(registry, *chunk),
{
    for i in 0..4096usize
        invariant
            forall|j: int|
                0 <= j < i ==> registry.spec_get(#[trigger] chunk.spec_block(cell_at(j)).id).is_some(),
    {
        let cell = ChunkRelativeBlockPos { x: i / 256, y: (i / 16) % 16, z: i % 16 };
        assert(cell == cell_at(i as int));
        if registry.get(chunk.block(cell).id).is_none() {
            return false;
        }
    }
    assert forall|p: ChunkRelativeBlockPos| p.in_chunk() implies registry.spec_get(
        #[trigger] chunk.spec_block(p).id,
    ).is_some() by {
        lemma_cell_index(p, 0);
        assert(registry.spec_get(chunk.spec_block(cell_at(cell_index(p))).id).is_some());
    }
    true
}

/// Reads one coordinate at `at`.
fn read_coord(data: &[u8], at: usize) -> (r: Option<(isize, usize)>)
    ensures
        match r {
            Some((c, next)) => coord_at(data@, at as int) == Some((c, next as int)) && at < next
                <= data@.len(),
            None => coord_at(data@, at as int).is_none(),
        },
{
    match read_varint(data, at) {
        Some((n, next)) => {
            let v: i64 = unzigzag_u64(n);
            if v < isize::MIN as i64 || v > isize::MAX as i64 {
                None
            } else {
                Some((v as isize, next))
            }
        },
        None => None,
    }
}

/// A coordinate that was written is read back, wherever it stands.
proof fn lemma_coord_round_trip(bytes: Seq<u8>, at: int, c: isize)
    requires
        0 <= at,
        at + coord_bytes(c).len() <= bytes.len(),
        bytes.subrange(at, at + coord_bytes(c).len()) == coord_bytes(c),
    ensures
        coord_at(bytes, at) == Some((c, at + coord_bytes(c).len())),
        1 <= coord_bytes(c).len() <= 10,
{
    lemma_zigzag_round_trip(c as int);
    lemma_varint_len(zigzag(c as int), 0);
    lemma_varint_round_trip(bytes, at, 0, zigzag(c as int));
}

/// Decoding undoes encoding: the bytes of a chunk, whatever follows them,
/// decode, and only to a chunk with the same dirty flag, position and
/// blocks.
pub proof fn lemma_serialize_round_trip(c: Chunk, rest: Seq<u8>, d: Chunk)
    ensures
        decodable(c.spec_serialize() + rest),
        decodes_to(c.spec_serialize() + rest, c),
        decodes_to(c.spec_serialize() + rest, d) ==> d.dirty == c.dirty && d.pos == c.pos
            && d.grid() == c.grid(),
{
    let bytes = c.spec_serialize() + rest;
    let bx = coord_bytes(c.pos.x);
    let by = coord_bytes(c.pos.y);
    let bz = coord_bytes(c.pos.z);
    let body = block_bytes(c.grid());
    lemma_zigzag_round_trip(c.pos.x as int);
    lemma_zigzag_round_trip(c.pos.y as int);
    lemma_zigzag_round_trip(c.pos.z as int);
    lemma_varint_len(zigzag(c.pos.x as int), 0);
    lemma_varint_len(zigzag(c.pos.y as int), 0);
    lemma_varint_len(zigzag(c.pos.z as int), 0);
    let at_y = 1 + bx.len() as int;
    let at_z = at_y + by.len();
    let at = at_z + bz.len();
    assert(bytes.len() == at + 8192 + rest.len());
    assert(bytes.subrange(1, at_y) =~= bx);
    assert(bytes.subrange(at_y, at_z) =~= by);
    assert(bytes.subrange(at_z, at) =~= bz);
    lemma_coord_round_trip(bytes, 1, c.pos.x);
    lemma_coord_round_trip(bytes, at_y, c.pos.y);
    lemma_coord_round_trip(bytes, at_z, c.pos.z);
    assert(bytes[0] == (if c.dirty { 1u8 } else { 0u8 }));
    assert(header_at(bytes) == Some((c.dirty, c.pos, at)));
    assert forall|i: int| 0 <= i < 4096 implies #[trigger] c.grid()[i] == block_from_bytes(
        bytes,
        at,
        i,
    ) by {
        assert(bytes[at + 2 * i] == body[2 * i]);
        assert(bytes[at + 2 * i + 1] == body[2 * i + 1]);
    }
    if decodes_to(bytes, d) {
        assert(d.grid() =~= c.grid()) by {
            assert forall|i: int| 0 <= i < 4096 implies d.grid()[i] == c.grid()[i] by {
                assert(d.grid()[i] == block_from_bytes(bytes, at, i));
            }
        }
    }
}

} // verus!
