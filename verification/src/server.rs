//! The authoritative side of chunk streaming: the server's state, and what
//! it does when a loader asks for a chunk, lets go of one, edits a block or
//! disconnects. Reading and writing the store, generating chunks and talking
//! to clients are left to the caller, who reports back what came of them.

use vstd::prelude::*;
use crate::block::Block;
use crate::chunk::{decodable, decodes_to, is_block_edit_of, Chunk};
use crate::lifecycle::{
    count_holders, lemma_begin_load_inv, lemma_connect_inv, lemma_count_positive,
    lemma_count_update, lemma_disconnect_inv, lemma_finish_load_inv, lemma_index_of,
    lemma_same_loaders, lemma_unload_all_inv, lemma_unload_each_inv, lemma_unload_inv, others,
    same_loaders, LoaderId, LoaderModel, ServerModel,
};
use crate::pos_map::PosMap;
use crate::position::{BlockPos, ChunkPos};
use crate::world::World;

verus! {

/// The stages of the server's schedule.
#[derive(Debug, Clone, Copy, PartialEq, Eq, Hash, Structural)]
pub enum ScheduleStage {
    Tick,
}

/// A chunk that has left memory and is to be written to the store, under
/// its key, in place of what the store holds under that key.
#[derive(Debug)]
pub struct StoreWrite {
    pub pos: ChunkPos,
    pub key: Vec<u8>,
    pub blob: Vec<u8>,
}

impl StoreWrite {
    /// Whether this is the write of `chunk`, evicted from `pos`.
    pub open spec fn is_write_of(&self, pos: ChunkPos, chunk: Chunk) -> bool {
        &&& self.pos == pos
        &&& self.key@ == pos.spec_to_key()
        &&& self.blob@ == chunk.spec_serialize()
    }
}

/// How far a request for a chunk has come.
#[derive(Debug)]
pub enum LoadStep {
    /// The chunk was resident: here is a copy.
    Ready(Chunk),
    /// The chunk is not resident. The caller looks for it in the store,
    /// under the key of this position, and reports with `chunk_fetched`.
    Fetch(ChunkPos),
}

/// How far a request for a chunk has come after the store was asked.
#[derive(Debug)]
pub enum FetchStep {
    /// The store held the chunk, which is resident now: here is a copy.
    Ready(Chunk),
    /// The store held nothing that decodes to a chunk. The caller has the
    /// chunk generated and reports with `chunk_generated`.
    Generate(ChunkPos),
}

/// How far an edit of a block has come.
#[derive(Debug)]
pub enum EditStep {
    /// The chunk that holds the block was resident, and the block is
    /// replaced.
    Applied,
    /// The chunk that holds the block is not resident. It is pending now,
    /// held by the loader that sent the edit. The caller has it fetched or
    /// generated as for any request, and then calls `finish_edit`.
    Fetch(ChunkPos),
}

/// Whether `after` is `before` with the block at the world position `pos`
/// replaced by `block`, in a chunk that is resident, and nothing else
/// changed.
pub open spec fn is_edit_of(
    after: ServerModel,
    before: ServerModel,
    pos: BlockPos,
    block: Block,
) -> bool {
    &&& before.chunks.contains_key(pos.spec_chunk_pos())
    &&& after.counts == before.counts
    &&& after.loaders == before.loaders
    &&& after.pending == before.pending
    &&& after.chunks.dom() == before.chunks.dom()
    &&& is_block_edit_of(
        after.chunks[pos.spec_chunk_pos()],
        before.chunks[pos.spec_chunk_pos()],
        pos.spec_rel_pos(),
        block,
    )
    &&& forall|q: ChunkPos|
        q != pos.spec_chunk_pos() && before.chunks.contains_key(q) ==> #[trigger] after.chunks[q]
            == before.chunks[q]
}

struct Loader {
    id: LoaderId,
    chunks: PosMap<()>,
}

/// The server's state: the resident chunks, their reference counts, and what
/// each connected loader holds.
pub struct Server {
    world: World,
    loaded_chunks: PosMap<usize>,
    loaders: Vec<Loader>,
    pending: Option<ChunkPos>,
}

impl Server {
    /// The state that this server is in.
    pub closed spec fn view(&self) -> ServerModel {
        ServerModel {
            chunks: self.world@,
            counts: Map::new(
                |p: ChunkPos| self.loaded_chunks@.contains_key(p),
                |p: ChunkPos| self.loaded_chunks@[p] as nat,
            ),
            loaders: Seq::new(
                self.loaders@.len(),
                |i: int|
                    LoaderModel {
                        id: self.loaders@[i].id,
                        chunks: self.loaders@[i].chunks.spec_keys(),
                    },
            ),
            pending: self.pending,
        }
    }

    spec fn parts_wf(&self) -> bool {
        &&& self.world.wf()
        &&& self.loaded_chunks.wf()
        &&& forall|i: int| 0 <= i < self.loaders@.len() ==> (#[trigger] self.loaders@[i]).chunks.wf()
    }

    /// Whether the server is consistent: its storage is, and its state
    /// meets the invariant of the model. Holds of every server that `new`
    /// made and these methods changed.
    pub closed spec fn wf(&self) -> bool {
        self.parts_wf() && self@.inv()
    }

    /// In every state of a server the invariant of the lifecycle holds. So
    /// the reference count of a chunk is the number of loaders that hold it,
    /// and while no chunk is being loaded, a chunk is resident exactly where
    /// its reference count is above zero.
    pub proof fn lemma_invariant(&self)
        requires
            self.wf(),
        ensures
            self@.inv(),
            forall|pos: ChunkPos| #[trigger]
                self@.ref_count(pos) == count_holders(self@.loaders, pos),
            self@.pending.is_none() ==> forall|pos: ChunkPos| #[trigger]
                self@.chunks.contains_key(pos) <==> self@.ref_count(pos) > 0,
    {
        assert forall|pos: ChunkPos| #[trigger]
            self@.chunks.contains_key(pos) <==> (self@.counts.contains_key(pos) && self@.pending
                != Some(pos)) by {}
        assert forall|pos: ChunkPos| #[trigger] self@.counts.contains_key(pos) implies self@.counts[pos] > 0 by {}
    }

    /// A server with no chunk resident and no loader connected.
    pub fn new() -> (s: Self)
        ensures
            s.wf(),
            s@ == ServerModel::empty(),
    {
        let s = Server {
            world: World::new(),
            loaded_chunks: PosMap::new(),
            loaders: Vec::new(),
            pending: None,
        };
        assert(s@.counts =~= Map::<ChunkPos, nat>::empty());
        assert(s@.loaders =~= Seq::<LoaderModel>::empty());
        assert forall|pos: ChunkPos| #[trigger] s@.ref_count(pos) == count_holders(
            s@.loaders,
            pos,
        ) by {}
        s
    }

    /// The resident chunks.
    pub fn world(&self) -> (w: &World)
        requires
            self.wf(),
        ensures
            w.wf(),
            w@ == self@.chunks,
    {
        &self.world
    }

    /// The chunk that is being loaded, if one is.
    pub fn pending(&self) -> (p: Option<ChunkPos>)
        ensures
            p == self@.pending,
    {
        self.pending
    }

    fn find_loader(&self, id: LoaderId) -> (r: Option<usize>)
        requires
            self.wf(),
        ensures
            match r {
                Some(i) => i < self.loaders@.len() && self.loaders@[i as int].id == id
                    && self@.is_connected(id) && self@.index_of(id) == i,
                None => !self@.is_connected(id),
            },
    {
        let mut i: usize = 0;
        while i < self.loaders.len()
            invariant
                self.wf(),
                i <= self.loaders@.len(),
                forall|j: int| 0 <= j < i ==> self.loaders@[j].id != id,
            decreases self.loaders@.len() - i,
        {
            if self.loaders[i].id == id {
                proof {
                    assert(self@.loaders[i as int].id == id);
                    lemma_index_of(self@, i as int);
                }
                return Some(i);
            }
            i += 1;
        }
        proof {
            if self@.is_connected(id) {
                let j = choose|j: int| 0 <= j < self@.loaders.len() && self@.loaders[j].id == id;
                assert(self.loaders@[j].id == id);
            }
        }
        None
    }

    /// Whether the loader `id` is connected.
    pub fn is_connected(&self, id: LoaderId) -> (b: bool)
        requires
            self.wf(),
        ensures
            b == self@.is_connected(id),
    {
        self.find_loader(id).is_some()
    }

    /// The reference count of `pos`.
    pub fn ref_count(&self, pos: ChunkPos) -> (n: usize)
        requires
            self.wf(),
        ensures
            n == self@.ref_count(pos),
    {
        match self.loaded_chunks.get(pos) {
            Some(n) => *n,
            None => 0,
        }
    }

    /// Connects the loader `id`, holding nothing. Returns whether it was
    /// new; a loader that is connected already stays as it is.
    pub fn connect(&mut self, id: LoaderId) -> (fresh: bool)
        requires
            old(self).wf(),
        ensures
            final(self).wf(),
            final(self)@ == old(self)@.connect(id),
            fresh == !old(self)@.is_connected(id),
            final(self)@.is_connected(id),
            final(self)@.pending == old(self)@.pending,
            forall|other: LoaderId|
                other != id ==> (#[trigger] final(self)@.is_connected(other) <==> old(
                    self,
                )@.is_connected(other)),
    {
        proof {
            lemma_connect_inv(self@, id);
        }
        if self.find_loader(id).is_some() {
            return false;
        }
        self.loaders.push(Loader { id, chunks: PosMap::new() });
        proof {
            assert(self@.loaders =~= old(self)@.loaders.push(
                LoaderModel { id, chunks: Seq::empty() },
            ));
            assert(self@.counts =~= old(self)@.counts);
            lemma_connect_inv(old(self)@, id);
        }
        true
    }

    /// The loader `loader` asks for the chunk at `pos`. The loader holds
    /// the chunk from now on, and where it did not before, the chunk's
    /// reference count goes up by one. A resident chunk is returned as a
    /// copy. Else the chunk becomes pending, and the caller is to look for
    /// it in the store.
    pub fn load_chunk(&mut self, loader: LoaderId, pos: ChunkPos) -> (step: LoadStep)
        requires
            old(self).wf(),
            old(self)@.is_connected(loader),
            old(self)@.pending.is_none(),
        ensures
            final(self).wf(),
            final(self)@ == old(self)@.begin_load(loader, pos),
            same_loaders(old(self)@, final(self)@),
            match step {
                LoadStep::Ready(chunk) => old(self)@.chunks.contains_key(pos) && chunk == old(
                    self,
                )@.chunks[pos] && final(self)@.pending.is_none(),
                LoadStep::Fetch(at) => !old(self)@.chunks.contains_key(pos) && at == pos && final(self)@.pending == Some(pos),
            },
    {
        let i = match self.find_loader(loader) {
            Some(i) => i,
            None => { return LoadStep::Fetch(pos); },
        };
        let ghost before = self@;
        proof {
            lemma_index_of(before, i as int);
            lemma_begin_load_inv(before, loader, pos);
        }
        if !self.loaders[i].chunks.contains_key(pos) {
            let count = self.ref_count(pos);
            let connected = self.loaders.len();
            proof {
                assert(before.loaders.len() == connected);
                self.loaders@[i as int].chunks.lemma_keys();
                let with = LoaderModel {
                    id: loader,
                    chunks: before.loaders[i as int].chunks.push(pos),
                };
                assert(with.chunks[with.chunks.len() - 1] == pos);
                assert(with.chunks.contains(pos));
                assert(!before.loaders[i as int].chunks.contains(pos));
                lemma_count_update(before.loaders, i as int, with, pos);
                lemma_count_positive(before.loaders.update(i as int, with), pos);
                assert(before.ref_count(pos) == count_holders(before.loaders, pos));
                assert(count + 1 <= before.loaders.len());
            }
            self.loaders[i].chunks.insert(pos, ());
            self.loaded_chunks.insert(pos, count + 1);
            proof {
                assert(self@.loaders =~= before.hold(loader, pos).loaders);
                assert(self@.counts =~= before.hold(loader, pos).counts);
            }
        } else {
            proof {
                self.loaders@[i as int].chunks.lemma_keys();
                assert(self@.loaders =~= before.loaders);
                assert(self@.counts =~= before.counts);
            }
        }
        match self.world.chunk(pos) {
            Some(chunk) => LoadStep::Ready(chunk.clone()),
            None => {
                self.pending = Some(pos);
                proof {
                    assert(self@.loaders =~= before.begin_load(loader, pos).loaders);
                    assert(self@.counts =~= before.begin_load(loader, pos).counts);
                }
                LoadStep::Fetch(pos)
            },
        }
    }

    /// Reports what the store holds under the key of the pending chunk:
    /// `Some` bytes, or `None` where it holds nothing or could not be read.
    /// Bytes that decode to a chunk make that chunk resident, and a copy is
    /// returned. Else the chunk stays pending, and the caller is to have it
    /// generated.
    pub fn chunk_fetched(&mut self, blob: Option<&[u8]>) -> (step: FetchStep)
        requires
            old(self).wf(),
            old(self)@.pending.is_some(),
        ensures
            final(self).wf(),
            same_loaders(old(self)@, final(self)@),
            match step {
                FetchStep::Ready(chunk) => blob matches Some(bytes) && decodes_to(bytes@, chunk)
                    && final(self)@ == old(self)@.finish_load(chunk),
                FetchStep::Generate(at) => !(blob matches Some(bytes) && decodable(bytes@))
                    && old(self)@.pending == Some(at) && final(self)@ == old(self)@,
            },
    {
        let pos = match self.pending {
            Some(pos) => pos,
            None => ChunkPos { x: 0, y: 0, z: 0 },
        };
        let decoded = match blob {
            Some(bytes) => Chunk::deserialize(bytes),
            None => None,
        };
        match decoded {
            Some(chunk) => FetchStep::Ready(self.chunk_generated(chunk)),
            None => FetchStep::Generate(pos),
        }
    }

    /// Reports that the pending chunk was generated as `chunk`, which
    /// becomes resident. A copy is returned.
    pub fn chunk_generated(&mut self, chunk: Chunk) -> (copy: Chunk)
        requires
            old(self).wf(),
            old(self)@.pending.is_some(),
        ensures
            final(self).wf(),
            final(self)@ == old(self)@.finish_load(chunk),
            same_loaders(old(self)@, final(self)@),
            copy == chunk,
    {
        let pos = match self.pending {
            Some(pos) => pos,
            None => ChunkPos { x: 0, y: 0, z: 0 },
        };
        let copy = chunk.clone();
        self.world.insert_chunk(pos, chunk);
        self.pending = None;
        proof {
            assert(self@.loaders =~= old(self)@.loaders);
            assert(self@.counts =~= old(self)@.counts);
            lemma_finish_load_inv(old(self)@, chunk);
            lemma_same_loaders(old(self)@, self@);
        }
        copy
    }

    /// The loader `loader` lets go of the chunk at `pos`. Nothing happens
    /// where it did not hold the chunk. Else the chunk's reference count
    /// goes down by one; at zero the chunk leaves memory and is returned
    /// for writing to the store.
    pub fn unload_chunk(&mut self, loader: LoaderId, pos: ChunkPos) -> (write: Option<StoreWrite>)
        requires
            old(self).wf(),
            old(self)@.is_connected(loader),
            old(self)@.pending.is_none(),
        ensures
            final(self).wf(),
            final(self)@ == old(self)@.unload(loader, pos),
            final(self)@.pending.is_none(),
            same_loaders(old(self)@, final(self)@),
            match write {
                Some(w) => old(self)@.evicts(loader, pos) && w.is_write_of(
                    pos,
                    old(self)@.chunks[pos],
                ),
                None => !old(self)@.evicts(loader, pos),
            },
    {
        let i = match self.find_loader(loader) {
            Some(i) => i,
            None => { return None; },
        };
        let ghost before = self@;
        proof {
            lemma_index_of(before, i as int);
            lemma_unload_inv(before, loader, pos);
            self.loaders@[i as int].chunks.lemma_keys();
        }
        let count = self.ref_count(pos);
        let was_loaded = self.loaders[i].chunks.remove(pos).is_some();
        if !was_loaded {
            proof {
                assert(self@.loaders =~= before.loaders);
                assert(self@.counts =~= before.counts);
            }
            return None;
        }
        if count == 1 {
            let _ = self.loaded_chunks.remove(pos);
            let evicted = self.world.take_chunk(pos);
            proof {
                assert(self@.loaders =~= before.unload(loader, pos).loaders);
                assert(self@.counts =~= before.unload(loader, pos).counts);
            }
            match evicted {
                Some(chunk) => Some(
                    StoreWrite { pos, key: pos.to_key(), blob: chunk.serialize() },
                ),
                None => None,
            }
        } else {
            self.loaded_chunks.insert(pos, count - 1);
            proof {
                assert(self@.loaders =~= before.unload(loader, pos).loaders);
                assert(self@.counts =~= before.unload(loader, pos).counts);
            }
            None
        }
    }

    /// The loader `loader` lets go of the chunks at `positions`, one after
    /// the other. The chunks that leave memory on that account are returned
    /// for writing to the store, in the order in which they left.
    pub fn unload_chunks(&mut self, loader: LoaderId, positions: &Vec<ChunkPos>) -> (writes: Vec<
        StoreWrite,
    >)
        requires
            old(self).wf(),
            old(self)@.is_connected(loader),
            old(self)@.pending.is_none(),
        ensures
            final(self).wf(),
            final(self)@ == old(self)@.unload_all(loader, positions@, positions@.len()),
            final(self)@.pending.is_none(),
            same_loaders(old(self)@, final(self)@),
            writes@.len() == old(self)@.evicted_by_all(loader, positions@, positions@.len()).len(),
            forall|k: int|
                0 <= k < writes@.len() ==> {
                    let gone = old(self)@.evicted_by_all(loader, positions@, positions@.len())[k];
                    (#[trigger] writes@[k]).is_write_of(gone.0, gone.1)
                },
    {
        let mut writes: Vec<StoreWrite> = Vec::new();
        let ghost before = self@;
        for k in 0..positions.len()
            invariant
                self.wf(),
                before.inv(),
                before.is_connected(loader),
                before.pending.is_none(),
                self@ == before.unload_all(loader, positions@, k as nat),
                writes@.len() == before.evicted_by_all(loader, positions@, k as nat).len(),
                forall|j: int|
                    0 <= j < writes@.len() ==> (#[trigger] writes@[j]).is_write_of(
                        before.evicted_by_all(loader, positions@, k as nat)[j].0,
                        before.evicted_by_all(loader, positions@, k as nat)[j].1,
                    ),
        {
            proof {
                lemma_unload_each_inv(before, loader, positions@, k as nat);
            }
            match self.unload_chunk(loader, positions[k]) {
                Some(w) => {
                    writes.push(w);
                },
                None => {},
            }
        }
        proof {
            lemma_unload_each_inv(before, loader, positions@, positions@.len());
        }
        writes
    }

    /// The loader `player` has disconnected: it lets go of every chunk it
    /// held, in the order in which it took them, and is forgotten. The
    /// chunks that leave memory on that account are returned for writing
    /// to the store, in the order in which they left. Nothing happens for a
    /// loader that is not connected.
    pub fn clean_up_disconnected_player(&mut self, player: LoaderId) -> (writes: Vec<StoreWrite>)
        requires
            old(self).wf(),
            old(self)@.pending.is_none(),
        ensures
            final(self).wf(),
            !final(self)@.is_connected(player),
            final(self)@.pending.is_none(),
            forall|other: LoaderId|
                other != player ==> (#[trigger] final(self)@.is_connected(other) <==> old(
                    self,
                )@.is_connected(other)),
            final(self)@ == (if old(self)@.is_connected(player) {
                old(self)@.disconnect(player)
            } else {
                old(self)@
            }),
            writes@.len() == (if old(self)@.is_connected(player) {
                old(self)@.evicted_by_all(
                    player,
                    old(self)@.loaded_by(player),
                    old(self)@.loaded_by(player).len(),
                ).len()
            } else {
                0
            }),
            forall|k: int|
                0 <= k < writes@.len() ==> {
                    let gone = old(self)@.evicted_by_all(
                        player,
                        old(self)@.loaded_by(player),
                        old(self)@.loaded_by(player).len(),
                    )[k];
                    (#[trigger] writes@[k]).is_write_of(gone.0, gone.1)
                },
    {
        let i = match self.find_loader(player) {
            Some(i) => i,
            None => { return Vec::new(); },
        };
        let ghost before = self@;
        let ghost held = before.loaded_by(player);
        proof {
            lemma_index_of(before, i as int);
        }
        let positions = self.loaders[i].chunks.keys();
        let writes = self.unload_chunks(player, &positions);
        proof {
            lemma_unload_all_inv(before, player, held.len());
            lemma_disconnect_inv(before, player);
            lemma_index_of(self@, i as int);
        }
        let ghost released = self@;
        let _ = self.loaders.remove(i);
        proof {
            assert(self@.loaders =~= released.loaders.remove(i as int));
            assert(self@.counts =~= released.counts);
        }
        writes
    }

    /// Stops the server: every resident chunk is returned for writing to
    /// the store, each once, and the server forgets all chunks and loaders.
    pub fn shutdown(&mut self) -> (writes: Vec<StoreWrite>)
        requires
            old(self).wf(),
            old(self)@.pending.is_none(),
        ensures
            final(self).wf(),
            final(self)@ == ServerModel::empty(),
            forall|k: int|
                0 <= k < writes@.len() ==> old(self)@.chunks.contains_key(
                    (#[trigger] writes@[k]).pos,
                ) && writes@[k].is_write_of(writes@[k].pos, old(self)@.chunks[writes@[k].pos]),
            forall|j: int, k: int| 0 <= j < k < writes@.len() ==> writes@[j].pos != writes@[k].pos,
            forall|pos: ChunkPos|
                old(self)@.chunks.contains_key(pos) ==> exists|k: int|
                    0 <= k < writes@.len() && (#[trigger] writes@[k]).pos == pos,
    {
        let mut writes: Vec<StoreWrite> = Vec::new();
        let positions = self.loaded_chunks.keys();
        proof {
            assert forall|pos: ChunkPos| #[trigger]
                self@.chunks.contains_key(pos) <==> positions@.contains(pos) by {
                assert(self@.chunks.contains_key(pos) <==> (self@.counts.contains_key(pos)
                    && self@.pending != Some(pos)));
            }
        }
        for k in 0..positions.len()
            invariant
                self.wf(),
                *self == *old(self),
                positions@.no_duplicates(),
                forall|pos: ChunkPos| #[trigger]
                    self@.chunks.contains_key(pos) <==> positions@.contains(pos),
                writes@.len() == k,
                forall|j: int| 0 <= j < k ==> (#[trigger] writes@[j]).pos == positions@[j],
                forall|j: int|
                    0 <= j < k ==> (#[trigger] writes@[j]).is_write_of(
                        positions@[j],
                        self@.chunks[positions@[j]],
                    ),
        {
            let pos = positions[k];
            assert(positions@.contains(pos));
            assert(self@.chunks.contains_key(pos));
            match self.world.chunk(pos) {
                Some(chunk) => {
                    writes.push(StoreWrite { pos, key: pos.to_key(), blob: chunk.serialize() });
                },
                None => {},
            }
        }
        proof {
            assert forall|pos: ChunkPos| old(self)@.chunks.contains_key(pos) implies exists|k: int|
                0 <= k < writes@.len() && (#[trigger] writes@[k]).pos == pos by {
                assert(positions@.contains(pos));
                let k = choose|k: int| 0 <= k < positions@.len() && positions@[k] == pos;
                assert(writes@[k].pos == pos);
            }
        }
        self.world = World::new();
        self.loaded_chunks = PosMap::new();
        self.loaders = Vec::new();
        proof {
            assert(self@.counts =~= Map::<ChunkPos, nat>::empty());
            assert(self@.loaders =~= Seq::<LoaderModel>::empty());
            assert forall|pos: ChunkPos| #[trigger] self@.ref_count(pos) == count_holders(
                self@.loaders,
                pos,
            ) by {}
        }
        writes
    }

    /// Replaces the block at the world position `pos` by `new_block` where
    /// the chunk that holds the position is resident, and says whether it
    /// was. Only that block changes.
    pub fn replace_block(&mut self, pos: BlockPos, new_block: Block) -> (applied: bool)
        requires
            old(self).wf(),
        ensures
            final(self).wf(),
            applied == old(self)@.chunks.contains_key(pos.spec_chunk_pos()),
            !applied ==> final(self)@ == old(self)@,
            applied ==> is_edit_of(final(self)@, old(self)@, pos, new_block),
    {
        let chunk_pos = pos.chunk_pos();
        let rel_pos = pos.rel_pos();
        let ghost before = self@;
        let applied = match self.world.chunk_mut(chunk_pos) {
            Some(chunk) => {
                chunk.set_block(rel_pos, new_block);
                true
            },
            None => false,
        };
        proof {
            assert(self@.counts =~= before.counts);
            assert(self@.loaders =~= before.loaders);
            assert(self@.chunks.dom() =~= before.chunks.dom());
            assert forall|q: ChunkPos| #[trigger]
                self@.chunks.contains_key(q) <==> (self@.counts.contains_key(q) && self@.pending
                    != Some(q)) by {
                assert(before.chunks.contains_key(q) <==> (before.counts.contains_key(q)
                    && before.pending != Some(q)));
            }
            assert forall|q: ChunkPos| #[trigger] self@.ref_count(q) == count_holders(
                self@.loaders,
                q,
            ) by {
                assert(before.ref_count(q) == count_holders(before.loaders, q));
            }
        }
        applied
    }

    /// The loader `loader` replaces the block at the world position `pos`
    /// by `new_block`. Where the chunk that holds the position is resident,
    /// the block is replaced at once. Else the chunk is loaded for the
    /// loader first: it becomes pending, and the edit is finished by
    /// `finish_edit` once the chunk has arrived.
    pub fn edit_block(&mut self, loader: LoaderId, pos: BlockPos, new_block: Block) -> (step:
        EditStep)
        requires
            old(self).wf(),
            old(self)@.is_connected(loader),
            old(self)@.pending.is_none(),
        ensures
            final(self).wf(),
            same_loaders(old(self)@, final(self)@),
            match step {
                EditStep::Applied => is_edit_of(final(self)@, old(self)@, pos, new_block),
                EditStep::Fetch(at) => !old(self)@.chunks.contains_key(pos.spec_chunk_pos())
                    && at == pos.spec_chunk_pos() && final(self)@ == old(self)@.begin_load(
                    loader,
                    at,
                ) && final(self)@.pending == Some(at),
            },
    {
        if self.replace_block(pos, new_block) {
            proof {
                lemma_same_loaders(old(self)@, self@);
            }
            EditStep::Applied
        } else {
            let at = pos.chunk_pos();
            let _ = self.load_chunk(loader, at);
            EditStep::Fetch(at)
        }
    }

    /// Finishes an edit for which the chunk had to be loaded: replaces the
    /// block at `pos` by `new_block`, and then the loader lets go of the
    /// chunk again. Where no other loader holds the chunk, it leaves memory
    /// with the edit in it and is returned for writing to the store.
    pub fn finish_edit(&mut self, loader: LoaderId, pos: BlockPos, new_block: Block) -> (write:
        Option<StoreWrite>)
        requires
            old(self).wf(),
            old(self)@.is_connected(loader),
            old(self)@.pending.is_none(),
            old(self)@.chunks.contains_key(pos.spec_chunk_pos()),
        ensures
            final(self).wf(),
            final(self)@.pending.is_none(),
            same_loaders(old(self)@, final(self)@),
            exists|edited: ServerModel| #[trigger]
                is_edit_of(edited, old(self)@, pos, new_block) && final(self)@ == edited.unload(
                    loader,
                    pos.spec_chunk_pos(),
                ) && match write {
                    Some(w) => edited.evicts(loader, pos.spec_chunk_pos()) && w.is_write_of(
                        pos.spec_chunk_pos(),
                        edited.chunks[pos.spec_chunk_pos()],
                    ),
                    None => !edited.evicts(loader, pos.spec_chunk_pos()),
                },
    {
        let _ = self.replace_block(pos, new_block);
        let ghost edited = self@;
        proof {
            lemma_same_loaders(old(self)@, edited);
        }
        let write = self.unload_chunk(loader, pos.chunk_pos());
        proof {
            assert(is_edit_of(edited, old(self)@, pos, new_block));
        }
        write
    }

    /// The connected loaders but for `sender`, in the order in which they
    /// connected: those that are told of an edit that `sender` made.
    pub fn other_loaders(&self, sender: LoaderId) -> (ids: Vec<LoaderId>)
        requires
            self.wf(),
        ensures
            ids@ == others(self@.loaders, sender),
    {
        let mut ids: Vec<LoaderId> = Vec::new();
        for i in 0..self.loaders.len()
            invariant
                ids@ == others(self@.loaders.take(i as int), sender),
        {
            proof {
                let upto = self@.loaders.take(i + 1);
                assert(upto.drop_last() =~= self@.loaders.take(i as int));
                assert(upto.last().id == self.loaders@[i as int].id);
            }
            if self.loaders[i].id != sender {
                ids.push(self.loaders[i].id);
            }
        }
        assert(self@.loaders.take(self.loaders@.len() as int) =~= self@.loaders);
        ids
    }
}

/// Takes the first `size` items of `queue`, or all where it holds fewer,
/// and leaves the rest: one batch of a reply that is sent piece by piece.
pub fn take_batch<T>(queue: &mut Vec<T>, size: usize) -> (batch: Vec<T>)
    ensures
        batch@ == old(queue)@.take(if size < old(queue)@.len() { size as int } else { old(queue)@.len() as int }),
        final(queue)@ == old(queue)@.skip(if size < old(queue)@.len() { size as int } else { old(queue)@.len() as int }),
        batch@ + final(queue)@ == old(queue)@,
{
    let n = if size < queue.len() { size } else { queue.len() };
    let mut other = queue.split_off(n);
    core::mem::swap(queue, &mut other);
    assert(other@ + queue@ =~= old(queue)@);
    assert(other@ =~= old(queue)@.take(n as int));
    assert(queue@ =~= old(queue)@.skip(n as int));
    other
}

} // verus!
