//! Fills a chunk with terrain from the heights of its 16×16 columns.

use vstd::prelude::*;
use crate::block::{Block, BlockId, BlockMetadata};
use crate::chunk::Chunk;
use crate::position::{ChunkPos, ChunkRelativeBlockPos};

verus! {

/// The terrain over one column of blocks, as world heights.
#[derive(Debug, Clone, Copy, PartialEq, Eq, Structural)]
pub struct ColumnHeights {
    /// The height of the highest block of ground.
    pub surface: isize,
    /// The height of the highest block of stone, below the dirt.
    pub dirt: isize,
}

/// The id of the block at world height `y` of a column: air above the
/// ground, but water below height zero; dirt from the surface down to the
/// stone; stone from there.
pub open spec fn terrain_id(y: int, column: ColumnHeights) -> u8 {
    if y > column.surface {
        if y < 0 {
            4
        } else {
            0
        }
    } else if y > column.dirt {
        1
    } else {
        2
    }
}

fn terrain_id_at(y: isize, column: ColumnHeights) -> (id: u8)
    ensures
        id == terrain_id(y as int, column),
{
    if y > column.surface {
        if y < 0 {
            4
        } else {
            0
        }
    } else if y > column.dirt {
        1
    } else {
        2
    }
}

/// The chunk at `pos` of the terrain whose column over the cell row
/// `(x, _, z)` of the chunk is `columns[x][z]`. `None` where the chunk lies
/// so far out that its blocks have no world heights.
pub fn generate_chunk(pos: ChunkPos, columns: &[[ColumnHeights; 16]; 16]) -> (r: Option<Chunk>)
    ensures
        r.is_some() <==> isize::MIN <= pos.y * 16 && pos.y * 16 + 15 <= isize::MAX,
        r matches Some(chunk) ==> chunk.pos == pos && chunk.dirty && forall|
            p: ChunkRelativeBlockPos,
        |
            p.in_chunk() ==> #[trigger] chunk.spec_block(p) == (Block {
                id: BlockId(terrain_id(pos.y * 16 + p.y, columns@[p.x as int]@[p.z as int])),
                metadata: BlockMetadata(0),
            }),
{
    let base = match pos.y.checked_mul(16) {
        Some(base) => base,
        None => { return None; },
    };
    if base.checked_add(15).is_none() {
        return None;
    }
    let mut chunk = Chunk::new(pos);
    for x in 0..16usize
        invariant
            base == pos.y * 16,
            base + 15 <= isize::MAX,
            chunk.pos == pos,
            chunk.dirty,
            forall|p: ChunkRelativeBlockPos|
                p.in_chunk() && p.x < x ==> #[trigger] chunk.spec_block(p) == (Block {
                    id: BlockId(terrain_id(pos.y * 16 + p.y, columns@[p.x as int]@[p.z as int])),
                    metadata: BlockMetadata(0),
                }),
    {
        for z in 0..16usize
            invariant
                x < 16,
                base == pos.y * 16,
                base + 15 <= isize::MAX,
                chunk.pos == pos,
                chunk.dirty,
                forall|p: ChunkRelativeBlockPos|
                    p.in_chunk() && (p.x < x || (p.x == x && p.z < z)) ==> #[trigger] chunk.spec_block(
                        p,
                    ) == (Block {
                        id: BlockId(
                            terrain_id(pos.y * 16 + p.y, columns@[p.x as int]@[p.z as int]),
                        ),
                        metadata: BlockMetadata(0),
                    }),
        {
            let column = columns[x][z];
            for y in 0..16usize
                invariant
                    x < 16,
                    z < 16,
                    column == columns@[x as int]@[z as int],
                    base == pos.y * 16,
                    base + 15 <= isize::MAX,
                    chunk.pos == pos,
                    chunk.dirty,
                    forall|p: ChunkRelativeBlockPos|
                        p.in_chunk() && (p.x < x || (p.x == x && p.z < z) || (p.x == x && p.z == z
                            && p.y < y)) ==> #[trigger] chunk.spec_block(p) == (Block {
                            id: BlockId(
                                terrain_id(pos.y * 16 + p.y, columns@[p.x as int]@[p.z as int]),
                            ),
                            metadata: BlockMetadata(0),
                        }),
            {
                let id = terrain_id_at(base + y as isize, column);
                let cell = ChunkRelativeBlockPos { x, y, z };
                chunk.set_block(cell, Block { id: BlockId(id), metadata: BlockMetadata(0) });
                proof {
                    assert forall|p: ChunkRelativeBlockPos|
                        p.in_chunk() implies chunk.grid()[crate::chunk::cell_index(p)]
                        == chunk.spec_block(p) by {
                        crate::chunk::lemma_cell_index(p, 0);
                    }
                }
            }
        }
    }
    Some(chunk)
}

} // verus!
