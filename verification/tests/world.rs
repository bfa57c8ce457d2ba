use voxel_world::block::{
    AtlasCell, Block, BlockAttributes, BlockId, BlockMetadata, BlockRegistry,
};
use voxel_world::chunk::Chunk;
use voxel_world::direction::Direction;
use voxel_world::position::{BlockPos, ChunkPos, ChunkRelativeBlockPos};
use voxel_world::world::{is_all_registered, World};

fn stone() -> Block {
    Block { id: BlockId(2), metadata: BlockMetadata(0) }
}

fn registry() -> BlockRegistry {
    let mut r = BlockRegistry::new();
    r.register(
        BlockId(0),
        BlockAttributes { transparent: true, invisible: true, uv_coords: AtlasCell { x: 0, y: 0 } },
    );
    r.register(
        BlockId(2),
        BlockAttributes {
            transparent: false,
            invisible: false,
            uv_coords: AtlasCell { x: 1, y: 0 },
        },
    );
    r
}

/// A world with the chunk at the origin and its six neighbours, all clean.
fn seven_clean_chunks() -> World {
    let mut w = World::new();
    let origin = ChunkPos::new(0, 0, 0);
    w.create_empty_chunk(origin);
    for d in Direction::all() {
        w.create_empty_chunk(origin.neighbour(d).unwrap());
    }
    for p in w.positions() {
        w.chunk_mut(p).unwrap().set_dirty(false);
    }
    w
}

fn dirty_positions(w: &World) -> Vec<ChunkPos> {
    let mut v: Vec<ChunkPos> =
        w.positions().into_iter().filter(|p| w.chunk(*p).unwrap().get_dirty()).collect();
    v.sort_by_key(|p| (p.x, p.y, p.z));
    v
}

fn sorted(mut v: Vec<ChunkPos>) -> Vec<ChunkPos> {
    v.sort_by_key(|p| (p.x, p.y, p.z));
    v
}

#[test]
fn new_world_is_empty() {
    let w = World::new();
    assert!(w.positions().is_empty());
    assert!(w.chunk(ChunkPos::new(0, 0, 0)).is_none());
}

#[test]
fn lookup_never_loads() {
    let mut w = World::new();
    assert!(w.chunk(ChunkPos::new(4, 4, 4)).is_none());
    assert!(w.chunk_mut(ChunkPos::new(4, 4, 4)).is_none());
    assert!(w.positions().is_empty());
}

#[test]
fn create_empty_chunk_loads_dirty_air() {
    let mut w = World::new();
    w.create_empty_chunk(ChunkPos::new(1, 2, 3));
    let c = w.chunk(ChunkPos::new(1, 2, 3)).unwrap();
    assert!(c.get_dirty());
    assert_eq!(c.pos, ChunkPos::new(1, 2, 3));
    assert!(c.block_iter().iter().all(|(_, b)| *b == Block::default()));
    assert_eq!(w.positions(), vec![ChunkPos::new(1, 2, 3)]);
}

#[test]
fn create_empty_chunk_replaces_what_was_loaded() {
    let mut w = World::new();
    w.place_block(stone(), BlockPos::new(1, 1, 1));
    w.create_empty_chunk(ChunkPos::new(0, 0, 0));
    assert_eq!(
        *w.chunk(ChunkPos::new(0, 0, 0)).unwrap().block(ChunkRelativeBlockPos::new(1, 1, 1)),
        Block::default()
    );
    assert_eq!(w.positions().len(), 1);
}

#[test]
fn delete_chunk_unloads_only_that_chunk() {
    let mut w = seven_clean_chunks();
    w.delete_chunk(ChunkPos::new(0, 1, 0));
    assert!(w.chunk(ChunkPos::new(0, 1, 0)).is_none());
    assert_eq!(w.positions().len(), 6);
    w.delete_chunk(ChunkPos::new(9, 9, 9));
    assert_eq!(w.positions().len(), 6);
    assert!(dirty_positions(&w).is_empty());
}

#[test]
fn take_chunk_hands_the_chunk_out() {
    let mut w = World::new();
    w.place_block(stone(), BlockPos::new(17, 0, 0));
    let c = w.take_chunk(ChunkPos::new(1, 0, 0)).unwrap();
    assert_eq!(*c.block(ChunkRelativeBlockPos::new(1, 0, 0)), stone());
    assert!(w.take_chunk(ChunkPos::new(1, 0, 0)).is_none());
    assert!(w.positions().is_empty());
}

#[test]
fn generate_chunk_dirties_the_six_neighbours() {
    let mut w = seven_clean_chunks();
    w.create_empty_chunk(ChunkPos::new(2, 0, 0));
    w.create_empty_chunk(ChunkPos::new(1, 1, 0));
    w.chunk_mut(ChunkPos::new(2, 0, 0)).unwrap().set_dirty(false);
    w.chunk_mut(ChunkPos::new(1, 1, 0)).unwrap().set_dirty(false);
    let mut made = Chunk::new(ChunkPos::new(0, 0, 0));
    made.set_block(ChunkRelativeBlockPos::new(2, 2, 2), stone());
    made.set_dirty(false);
    w.generate_chunk(made);
    let origin = ChunkPos::new(0, 0, 0);
    let expected: Vec<ChunkPos> =
        Direction::all().iter().map(|d| origin.neighbour(*d).unwrap()).collect();
    assert_eq!(dirty_positions(&w), sorted(expected));
    let c = w.chunk(origin).unwrap();
    assert!(!c.get_dirty());
    assert_eq!(*c.block(ChunkRelativeBlockPos::new(2, 2, 2)), stone());
}

#[test]
fn generate_chunk_into_an_empty_world() {
    let mut w = World::new();
    w.generate_chunk(Chunk::new(ChunkPos::new(isize::MAX, isize::MIN, 0)));
    assert_eq!(w.positions(), vec![ChunkPos::new(isize::MAX, isize::MIN, 0)]);
}

#[test]
fn interior_block_dirties_only_its_chunk() {
    let mut w = seven_clean_chunks();
    w.place_block(stone(), BlockPos::new(5, 5, 5));
    assert_eq!(dirty_positions(&w), vec![ChunkPos::new(0, 0, 0)]);
    assert_eq!(
        *w.chunk(ChunkPos::new(0, 0, 0)).unwrap().block(ChunkRelativeBlockPos::new(5, 5, 5)),
        stone()
    );
}

#[test]
fn boundary_block_dirties_the_chunk_beyond_the_face() {
    let cases = [
        (BlockPos::new(0, 5, 5), ChunkPos::new(-1, 0, 0)),
        (BlockPos::new(15, 5, 5), ChunkPos::new(1, 0, 0)),
        (BlockPos::new(5, 0, 5), ChunkPos::new(0, -1, 0)),
        (BlockPos::new(5, 15, 5), ChunkPos::new(0, 1, 0)),
        (BlockPos::new(5, 5, 0), ChunkPos::new(0, 0, -1)),
        (BlockPos::new(5, 5, 15), ChunkPos::new(0, 0, 1)),
    ];
    for (pos, neighbour) in cases {
        let mut w = seven_clean_chunks();
        w.place_block(stone(), pos);
        assert_eq!(dirty_positions(&w), sorted(vec![ChunkPos::new(0, 0, 0), neighbour]));
    }
}

#[test]
fn corner_block_dirties_three_neighbours() {
    let mut w = seven_clean_chunks();
    w.place_block(stone(), BlockPos::new(0, 15, 0));
    assert_eq!(
        dirty_positions(&w),
        sorted(vec![
            ChunkPos::new(0, 0, 0),
            ChunkPos::new(-1, 0, 0),
            ChunkPos::new(0, 1, 0),
            ChunkPos::new(0, 0, -1),
        ])
    );
}

#[test]
fn place_block_changes_one_block() {
    let mut w = seven_clean_chunks();
    w.place_block(stone(), BlockPos::new(-1, 0, 0));
    let c = w.chunk(ChunkPos::new(-1, 0, 0)).unwrap();
    let changed: Vec<ChunkRelativeBlockPos> = c
        .block_iter()
        .into_iter()
        .filter(|(_, b)| *b != Block::default())
        .map(|(p, _)| p)
        .collect();
    assert_eq!(changed, vec![ChunkRelativeBlockPos::new(15, 0, 0)]);
    assert_eq!(dirty_positions(&w), sorted(vec![ChunkPos::new(-1, 0, 0), ChunkPos::new(0, 0, 0)]));
    for p in w.positions() {
        if p != ChunkPos::new(-1, 0, 0) {
            assert!(w.chunk(p).unwrap().block_iter().iter().all(|(_, b)| *b == Block::default()));
        }
    }
}

#[test]
fn place_block_loads_a_missing_chunk() {
    let mut w = World::new();
    w.place_block(stone(), BlockPos::new(-17, 40, 3));
    assert_eq!(w.positions(), vec![ChunkPos::new(-2, 2, 0)]);
    let c = w.chunk(ChunkPos::new(-2, 2, 0)).unwrap();
    assert!(c.get_dirty());
    assert_eq!(c.pos, ChunkPos::new(-2, 2, 0));
    assert_eq!(*c.block(ChunkRelativeBlockPos::new(15, 8, 3)), stone());
    let filled = c.block_iter().into_iter().filter(|(_, b)| *b != Block::default()).count();
    assert_eq!(filled, 1);
}

#[test]
fn place_block_at_the_end_of_the_range() {
    let mut w = World::new();
    w.place_block(stone(), BlockPos::new(isize::MAX, isize::MIN, 0));
    let pos = ChunkPos::new(isize::MAX / 16, isize::MIN / 16, 0);
    assert_eq!(*w.chunk(pos).unwrap().block(ChunkRelativeBlockPos::new(15, 0, 0)), stone());
}

#[test]
fn insert_chunk_touches_no_neighbour() {
    let mut w = seven_clean_chunks();
    let mut c = Chunk::new(ChunkPos::new(0, 0, 0));
    c.set_dirty(false);
    w.insert_chunk(ChunkPos::new(0, 0, 0), c);
    assert!(dirty_positions(&w).is_empty());
}

#[test]
fn registry_covers_world() {
    let mut w = World::new();
    let r = registry();
    assert!(is_all_registered(&r, &w));
    w.place_block(stone(), BlockPos::new(1, 1, 1));
    assert!(is_all_registered(&r, &w));
    w.place_block(Block { id: BlockId(9), metadata: BlockMetadata(0) }, BlockPos::new(100, 1, 1));
    assert!(!is_all_registered(&r, &w));
}
