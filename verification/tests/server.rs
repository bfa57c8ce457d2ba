use voxel_world::block::{Block, BlockId, BlockMetadata};
use voxel_world::chunk::Chunk;
use voxel_world::position::{BlockPos, ChunkPos, ChunkRelativeBlockPos};
use voxel_world::lifecycle::LoaderId;
use voxel_world::server::{
    take_batch, EditStep, FetchStep, LoadStep, ScheduleStage, Server,
};
use voxel_world::worldgen::{generate_chunk, ColumnHeights};

fn stone() -> Block {
    Block { id: BlockId(2), metadata: BlockMetadata(0) }
}

/// A generator over flat ground at height `ground`.
fn flat(ground: isize, pos: ChunkPos) -> Chunk {
    let columns = [[ColumnHeights { surface: ground, dirt: ground - 3 }; 16]; 16];
    generate_chunk(pos, &columns).unwrap()
}

/// Loads a chunk as the tick loop does, with an empty store.
fn load(server: &mut Server, loader: LoaderId, pos: ChunkPos) -> Chunk {
    match server.load_chunk(loader, pos) {
        LoadStep::Ready(chunk) => chunk,
        LoadStep::Fetch(at) => {
            assert_eq!(at, pos);
            match server.chunk_fetched(None) {
                FetchStep::Ready(chunk) => chunk,
                FetchStep::Generate(at) => {
                    assert_eq!(at, pos);
                    server.chunk_generated(flat(3, at))
                }
            }
        }
    }
}

const A: LoaderId = LoaderId(1);
const B: LoaderId = LoaderId(2);
const C: LoaderId = LoaderId(3);

fn p(x: isize, y: isize, z: isize) -> ChunkPos {
    ChunkPos::new(x, y, z)
}

fn same(a: &Chunk, b: &Chunk) -> bool {
    a.pos == b.pos && a.dirty == b.dirty && a.blocks == b.blocks
}

#[test]
fn new_server_is_empty() {
    let s = Server::new();
    assert!(s.world().positions().is_empty());
    assert!(!s.is_connected(A));
    assert_eq!(s.ref_count(p(0, 0, 0)), 0);
    assert_eq!(s.pending(), None);
    assert_eq!(ScheduleStage::Tick, ScheduleStage::Tick);
}

#[test]
fn connect_once() {
    let mut s = Server::new();
    assert!(s.connect(A));
    assert!(s.is_connected(A));
    assert!(!s.is_connected(B));
    load(&mut s, A, p(0, 0, 0));
    assert!(!s.connect(A));
    assert_eq!(s.ref_count(p(0, 0, 0)), 1);
    assert!(s.unload_chunk(A, p(0, 0, 0)).is_some());
}

#[test]
fn missing_chunk_is_fetched_then_generated() {
    let mut s = Server::new();
    s.connect(A);
    assert!(matches!(s.load_chunk(A, p(1, 0, 0)), LoadStep::Fetch(at) if at == p(1, 0, 0)));
    assert_eq!(s.pending(), Some(p(1, 0, 0)));
    assert_eq!(s.ref_count(p(1, 0, 0)), 1);
    assert!(s.world().chunk(p(1, 0, 0)).is_none());
    assert!(matches!(s.chunk_fetched(None), FetchStep::Generate(at) if at == p(1, 0, 0)));
    assert_eq!(s.pending(), Some(p(1, 0, 0)));
    let made = flat(3, p(1, 0, 0));
    let copy = s.chunk_generated(made.clone());
    assert!(same(&copy, &made));
    assert_eq!(s.pending(), None);
    assert!(same(s.world().chunk(p(1, 0, 0)).unwrap(), &made));
}

#[test]
fn stored_chunk_is_decoded_and_made_resident() {
    let mut s = Server::new();
    s.connect(A);
    let mut stored = flat(3, p(0, 0, 0));
    stored.set_block(ChunkRelativeBlockPos::new(1, 2, 3), stone());
    let blob = stored.serialize();
    assert!(matches!(s.load_chunk(A, p(0, 0, 0)), LoadStep::Fetch(_)));
    match s.chunk_fetched(Some(&blob)) {
        FetchStep::Ready(chunk) => assert!(same(&chunk, &stored)),
        FetchStep::Generate(_) => panic!("the stored chunk decodes"),
    }
    assert_eq!(s.pending(), None);
    assert!(same(s.world().chunk(p(0, 0, 0)).unwrap(), &stored));
}

#[test]
fn undecodable_blob_falls_through_to_generation() {
    let mut s = Server::new();
    s.connect(A);
    assert!(matches!(s.load_chunk(A, p(0, 0, 0)), LoadStep::Fetch(_)));
    assert!(matches!(s.chunk_fetched(Some(&[1, 2, 3])), FetchStep::Generate(at) if at == p(0, 0, 0)));
    assert_eq!(s.pending(), Some(p(0, 0, 0)));
    s.chunk_generated(flat(0, p(0, 0, 0)));
    assert!(s.world().chunk(p(0, 0, 0)).is_some());
}

#[test]
fn resident_chunk_is_returned_as_a_copy() {
    let mut s = Server::new();
    s.connect(A);
    s.connect(B);
    let first = load(&mut s, A, p(0, 0, 0));
    match s.load_chunk(B, p(0, 0, 0)) {
        LoadStep::Ready(chunk) => assert!(same(&chunk, &first)),
        LoadStep::Fetch(_) => panic!("the chunk is resident"),
    }
    assert_eq!(s.pending(), None);
    assert_eq!(s.ref_count(p(0, 0, 0)), 2);
}

#[test]
fn loading_twice_counts_once() {
    let mut s = Server::new();
    s.connect(A);
    load(&mut s, A, p(0, 0, 0));
    load(&mut s, A, p(0, 0, 0));
    assert_eq!(s.ref_count(p(0, 0, 0)), 1);
    assert!(s.unload_chunk(A, p(0, 0, 0)).is_some());
    assert!(s.unload_chunk(A, p(0, 0, 0)).is_none());
    assert_eq!(s.ref_count(p(0, 0, 0)), 0);
}

#[test]
fn chunk_stays_while_a_loader_holds_it() {
    let mut s = Server::new();
    s.connect(A);
    s.connect(B);
    let chunk = load(&mut s, A, p(0, 0, 0));
    load(&mut s, B, p(0, 0, 0));
    assert_eq!(s.ref_count(p(0, 0, 0)), 2);
    assert!(s.unload_chunk(A, p(0, 0, 0)).is_none());
    assert_eq!(s.ref_count(p(0, 0, 0)), 1);
    assert!(s.world().chunk(p(0, 0, 0)).is_some());
    let write = s.unload_chunk(B, p(0, 0, 0)).unwrap();
    assert_eq!(write.pos, p(0, 0, 0));
    assert_eq!(write.key, p(0, 0, 0).to_key());
    assert_eq!(write.blob, chunk.serialize());
    assert_eq!(s.ref_count(p(0, 0, 0)), 0);
    assert!(s.world().chunk(p(0, 0, 0)).is_none());
    assert!(s.unload_chunk(B, p(0, 0, 0)).is_none());
    assert!(s.unload_chunk(A, p(0, 0, 0)).is_none());
}

#[test]
fn unloading_what_is_not_held_changes_nothing() {
    let mut s = Server::new();
    s.connect(A);
    s.connect(B);
    load(&mut s, A, p(0, 0, 0));
    assert!(s.unload_chunk(B, p(0, 0, 0)).is_none());
    assert!(s.unload_chunk(A, p(5, 5, 5)).is_none());
    assert_eq!(s.ref_count(p(0, 0, 0)), 1);
    assert!(s.world().chunk(p(0, 0, 0)).is_some());
}

#[test]
fn evicted_chunk_comes_back_from_the_store() {
    let mut s = Server::new();
    s.connect(A);
    load(&mut s, A, p(0, 0, 0));
    assert!(s.replace_block(BlockPos::new(1, 15, 1), stone()));
    let write = s.unload_chunk(A, p(0, 0, 0)).unwrap();
    assert!(matches!(s.load_chunk(A, p(0, 0, 0)), LoadStep::Fetch(_)));
    match s.chunk_fetched(Some(&write.blob)) {
        FetchStep::Ready(chunk) => {
            assert_eq!(*chunk.block(ChunkRelativeBlockPos::new(1, 15, 1)), stone());
            assert_eq!(chunk.pos, p(0, 0, 0));
        }
        FetchStep::Generate(_) => panic!("the written chunk decodes"),
    }
}

#[test]
fn get_chunks_on_an_empty_world_generates_exactly_those() {
    let mut s = Server::new();
    s.connect(A);
    let wanted = vec![p(4, 0, -4), p(-7, 1, 2)];
    let chunks: Vec<Chunk> = wanted.iter().map(|at| load(&mut s, A, *at)).collect();
    assert_eq!(chunks.len(), 2);
    for (chunk, at) in chunks.iter().zip(&wanted) {
        assert!(same(chunk, &flat(3, *at)));
        assert_eq!(chunk.pos, *at);
    }
    let mut resident = s.world().positions();
    resident.sort_by_key(|q| (q.x, q.y, q.z));
    assert_eq!(resident, vec![p(-7, 1, 2), p(4, 0, -4)]);
    assert_eq!(s.ref_count(p(4, 0, -4)), 1);
    assert_eq!(s.ref_count(p(-7, 1, 2)), 1);
}

#[test]
fn disconnect_lets_go_of_everything_in_order() {
    let mut s = Server::new();
    s.connect(A);
    s.connect(B);
    load(&mut s, A, p(0, 0, 0));
    load(&mut s, A, p(1, 0, 0));
    load(&mut s, B, p(1, 0, 0));
    load(&mut s, A, p(2, 0, 0));
    let writes = s.clean_up_disconnected_player(A);
    let gone: Vec<ChunkPos> = writes.iter().map(|w| w.pos).collect();
    assert_eq!(gone, vec![p(0, 0, 0), p(2, 0, 0)]);
    for w in &writes {
        assert_eq!(w.key, w.pos.to_key());
        assert_eq!(w.blob, flat(3, w.pos).serialize());
    }
    assert!(!s.is_connected(A));
    assert!(s.is_connected(B));
    assert_eq!(s.ref_count(p(1, 0, 0)), 1);
    assert_eq!(s.world().positions(), vec![p(1, 0, 0)]);
}

#[test]
fn unloading_a_list_lets_go_of_each_in_turn() {
    let mut s = Server::new();
    s.connect(A);
    s.connect(B);
    load(&mut s, A, p(0, 0, 0));
    load(&mut s, A, p(1, 0, 0));
    load(&mut s, B, p(1, 0, 0));
    load(&mut s, A, p(2, 0, 0));
    let writes = s.unload_chunks(A, &vec![p(2, 0, 0), p(1, 0, 0), p(7, 7, 7), p(2, 0, 0)]);
    let gone: Vec<ChunkPos> = writes.iter().map(|w| w.pos).collect();
    assert_eq!(gone, vec![p(2, 0, 0)]);
    assert!(s.is_connected(A));
    assert_eq!(s.ref_count(p(0, 0, 0)), 1);
    assert_eq!(s.ref_count(p(1, 0, 0)), 1);
    assert_eq!(s.ref_count(p(2, 0, 0)), 0);
    assert!(s.unload_chunks(A, &vec![]).is_empty());
}

#[test]
fn disconnect_of_a_stranger_changes_nothing() {
    let mut s = Server::new();
    s.connect(A);
    load(&mut s, A, p(0, 0, 0));
    assert!(s.clean_up_disconnected_player(C).is_empty());
    assert!(s.is_connected(A));
    assert_eq!(s.ref_count(p(0, 0, 0)), 1);
}

#[test]
fn shutdown_writes_every_resident_chunk_once() {
    let mut s = Server::new();
    s.connect(A);
    s.connect(B);
    load(&mut s, A, p(0, 0, 0));
    load(&mut s, B, p(0, 0, 0));
    load(&mut s, B, p(0, 1, 0));
    let writes = s.shutdown();
    let mut gone: Vec<ChunkPos> = writes.iter().map(|w| w.pos).collect();
    gone.sort_by_key(|q| (q.x, q.y, q.z));
    assert_eq!(gone, vec![p(0, 0, 0), p(0, 1, 0)]);
    for w in &writes {
        assert_eq!(w.key, w.pos.to_key());
        assert_eq!(w.blob, flat(3, w.pos).serialize());
    }
    assert!(s.world().positions().is_empty());
    assert!(!s.is_connected(A));
    assert!(!s.is_connected(B));
    assert_eq!(s.ref_count(p(0, 0, 0)), 0);
}

#[test]
fn replace_block_edits_a_resident_chunk_only() {
    let mut s = Server::new();
    s.connect(A);
    assert!(!s.replace_block(BlockPos::new(17, 0, 0), stone()));
    assert!(s.world().positions().is_empty());
    let before = load(&mut s, A, p(1, 0, 0));
    assert!(s.replace_block(BlockPos::new(17, 9, 0), stone()));
    let after = s.world().chunk(p(1, 0, 0)).unwrap();
    assert_eq!(*after.block(ChunkRelativeBlockPos::new(1, 9, 0)), stone());
    assert_eq!(after.dirty, before.dirty);
    let differing = after
        .block_iter()
        .into_iter()
        .filter(|(q, b)| before.block(*q) != b)
        .count();
    assert_eq!(differing, 1);
    assert_eq!(s.ref_count(p(1, 0, 0)), 1);
}

#[test]
fn edit_of_a_chunk_that_is_not_resident_is_written_back() {
    let mut s = Server::new();
    s.connect(A);
    let pos = BlockPos::new(-1, 9, 0);
    assert!(!s.replace_block(pos, stone()));
    load(&mut s, A, pos.chunk_pos());
    assert!(s.replace_block(pos, stone()));
    let write = s.unload_chunk(A, pos.chunk_pos()).unwrap();
    let stored = Chunk::deserialize(&write.blob).unwrap();
    assert_eq!(*stored.block(pos.rel_pos()), stone());
    assert!(s.world().positions().is_empty());
}

#[test]
fn edit_of_a_resident_chunk_is_applied_at_once() {
    let mut s = Server::new();
    s.connect(A);
    s.connect(B);
    load(&mut s, B, p(0, 0, 0));
    assert!(matches!(s.edit_block(A, BlockPos::new(3, 9, 3), stone()), EditStep::Applied));
    assert_eq!(
        *s.world().chunk(p(0, 0, 0)).unwrap().block(ChunkRelativeBlockPos::new(3, 9, 3)),
        stone()
    );
    assert_eq!(s.ref_count(p(0, 0, 0)), 1);
    assert_eq!(s.pending(), None);
}

#[test]
fn edit_of_a_missing_chunk_loads_edits_and_writes_back() {
    let mut s = Server::new();
    s.connect(A);
    let pos = BlockPos::new(-1, 9, 40);
    let at = pos.chunk_pos();
    assert!(matches!(s.edit_block(A, pos, stone()), EditStep::Fetch(q) if q == at));
    assert_eq!(s.pending(), Some(at));
    assert!(matches!(s.chunk_fetched(None), FetchStep::Generate(_)));
    s.chunk_generated(flat(3, at));
    let write = s.finish_edit(A, pos, stone()).unwrap();
    assert_eq!(write.pos, at);
    assert_eq!(write.key, at.to_key());
    let mut expected = flat(3, at);
    expected.set_block(pos.rel_pos(), stone());
    assert_eq!(write.blob, expected.serialize());
    assert!(s.world().positions().is_empty());
    assert_eq!(s.ref_count(at), 0);
}

#[test]
fn finished_edit_keeps_a_chunk_that_others_hold() {
    let mut s = Server::new();
    s.connect(A);
    s.connect(B);
    let pos = BlockPos::new(5, 5, 5);
    load(&mut s, A, p(0, 0, 0));
    load(&mut s, B, p(0, 0, 0));
    assert!(s.finish_edit(A, pos, stone()).is_none());
    assert_eq!(s.ref_count(p(0, 0, 0)), 1);
    assert_eq!(*s.world().chunk(p(0, 0, 0)).unwrap().block(pos.rel_pos()), stone());
}

#[test]
fn edits_go_to_the_other_loaders() {
    let mut s = Server::new();
    assert!(s.other_loaders(A).is_empty());
    s.connect(A);
    s.connect(B);
    s.connect(C);
    assert_eq!(s.other_loaders(B), vec![A, C]);
    assert_eq!(s.other_loaders(A), vec![B, C]);
    assert_eq!(s.other_loaders(LoaderId(99)), vec![A, B, C]);
    s.clean_up_disconnected_player(A);
    assert_eq!(s.other_loaders(C), vec![B]);
}

#[test]
fn batches_split_a_reply_in_order() {
    let mut queue: Vec<u32> = (0..7).collect();
    assert_eq!(take_batch(&mut queue, 3), vec![0, 1, 2]);
    assert_eq!(take_batch(&mut queue, 3), vec![3, 4, 5]);
    assert_eq!(take_batch(&mut queue, 3), vec![6]);
    assert!(take_batch(&mut queue, 3).is_empty());
    assert!(queue.is_empty());
    let mut queue: Vec<u32> = (0..4).collect();
    assert!(take_batch(&mut queue, 0).is_empty());
    assert_eq!(queue.len(), 4);
    assert_eq!(take_batch(&mut queue, usize::MAX), vec![0, 1, 2, 3]);
}
