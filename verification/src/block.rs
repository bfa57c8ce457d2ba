//! Block values and the registry of per-type block attributes.

use vstd::prelude::*;

verus! {

/// Identifies a block type. Id 0 is air.
#[derive(Debug, Clone, Copy, PartialEq, Eq, Structural)]
pub struct BlockId(pub u8);

/// Per-block variant state.
#[derive(Debug, Clone, Copy, PartialEq, Eq, Structural)]
pub struct BlockMetadata(pub u8);

/// The smallest addressable voxel: a type id and a metadata byte.
#[derive(Debug, Clone, Copy, PartialEq, Eq, Structural)]
pub struct Block {
    pub id: BlockId,
    pub metadata: BlockMetadata,
}

impl Block {
    /// The air block: id 0, metadata 0.
    pub open spec fn air() -> Block {
        Block { id: BlockId(0), metadata: BlockMetadata(0) }
    }
}

impl Default for Block {
    fn default() -> (b: Self)
        ensures
            b == Block::air(),
    {
        Block { id: BlockId(0), metadata: BlockMetadata(0) }
    }
}

/// Marks a type that describes a kind of block.
pub trait BlockInfo {}

/// A cell of the texture atlas, by column and row.
#[derive(Debug, Clone, Copy, PartialEq, Eq, Structural)]
pub struct AtlasCell {
    pub x: usize,
    pub y: usize,
}

/// Immutable per-type data of a block.
#[derive(Debug, Clone, Copy, PartialEq, Eq, Structural)]
pub struct BlockAttributes {
    /// A transparent block does not hide the faces of its neighbours.
    pub transparent: bool,
    /// An invisible block renders nothing and stops no ray.
    pub invisible: bool,
    /// The cell of the texture atlas that this block's faces show.
    pub uv_coords: AtlasCell,
}

impl BlockInfo for BlockAttributes {}

/// The attributes of every registered block type, indexed by block id. A
/// slot is written at most once.
pub struct BlockRegistry {
    blocks: [Option<BlockAttributes>; 256],
}

impl BlockRegistry {
    /// What is registered under `id`, if anything.
    pub closed spec fn spec_get(&self, id: BlockId) -> Option<BlockAttributes> {
        self.blocks[id.0 as int]
    }

    /// Whether `id` is registered as a block that hides its neighbours'
    /// faces.
    pub open spec fn is_opaque(&self, id: BlockId) -> bool {
        self.spec_get(id) matches Some(attr) && !attr.transparent
    }

    /// Whether `id` is registered as a block that renders and stops rays.
    pub open spec fn is_visible(&self, id: BlockId) -> bool {
        self.spec_get(id) matches Some(attr) && !attr.invisible
    }

    /// An empty registry.
    pub fn new() -> (r: Self)
        ensures
            forall|id: BlockId| r.spec_get(id).is_none(),
    {
        BlockRegistry { blocks: [None; 256] }
    }

    /// Registers `info` under `id`. Fails, leaving the registry as it was,
    /// where `id` is registered already.
    pub fn register(&mut self, id: BlockId, info: BlockAttributes) -> (r: Option<()>)
        ensures
            r.is_some() <==> old(self).spec_get(id).is_none(),
            r.is_none() ==> *final(self) == *old(self),
            r.is_some() ==> final(self).spec_get(id) == Some(info),
            forall|other: BlockId| other != id ==> final(self).spec_get(other) == old(self).spec_get(other),
    {
        let slot: usize = id.0 as usize;
        if self.blocks[slot].is_some() {
            None
        } else {
            self.blocks[slot] = Some(info);
            Some(())
        }
    }

    /// The attributes registered under `id`.
    pub fn get(&self, id: BlockId) -> (r: Option<&BlockAttributes>)
        ensures
            match r {
                Some(attr) => self.spec_get(id) == Some(*attr),
                None => self.spec_get(id).is_none(),
            },
    {
        self.blocks[id.0 as usize].as_ref()
    }
}

} // verus!
