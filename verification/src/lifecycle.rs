//! The chunk lifecycle: which loader holds which chunk, how many loaders
//! hold each chunk, and when a chunk is resident, as a state machine with
//! its invariant.

use vstd::prelude::*;
use crate::chunk::Chunk;
use crate::position::ChunkPos;

verus! {

/// Identifies a loader: a connected client that keeps chunks resident.
#[derive(Debug, Clone, Copy, PartialEq, Eq, Hash, Structural)]
pub struct LoaderId(pub u128);

/// A connected loader and the chunks it holds, in the order in which it
/// took them.
pub struct LoaderModel {
    pub id: LoaderId,
    pub chunks: Seq<ChunkPos>,
}

/// The number of loaders among `loaders` that hold `pos`.
pub open spec fn count_holders(loaders: Seq<LoaderModel>, pos: ChunkPos) -> nat
    decreases loaders.len(),
{
    if loaders.len() == 0 {
        0
    } else {
        count_holders(loaders.drop_last(), pos) + (if loaders.last().chunks.contains(pos) {
            1nat
        } else {
            0nat
        })
    }
}

/// The ids of `loaders` but for `sender`, in their order.
pub open spec fn others(loaders: Seq<LoaderModel>, sender: LoaderId) -> Seq<LoaderId>
    decreases loaders.len(),
{
    if loaders.len() == 0 {
        Seq::empty()
    } else if loaders.last().id == sender {
        others(loaders.drop_last(), sender)
    } else {
        others(loaders.drop_last(), sender).push(loaders.last().id)
    }
}

/// The state of the server.
pub struct ServerModel {
    /// The chunks resident in memory.
    pub chunks: Map<ChunkPos, Chunk>,
    /// The reference count of each chunk that some loader holds.
    pub counts: Map<ChunkPos, nat>,
    /// The connected loaders, in the order in which they connected.
    pub loaders: Seq<LoaderModel>,
    /// The chunk that a loader has asked for and that is being fetched from
    /// the store or generated.
    pub pending: Option<ChunkPos>,
}

impl ServerModel {
    /// The state of a server that has just started.
    pub open spec fn empty() -> ServerModel {
        ServerModel {
            chunks: Map::empty(),
            counts: Map::empty(),
            loaders: Seq::empty(),
            pending: None,
        }
    }

    pub open spec fn is_connected(self, id: LoaderId) -> bool {
        exists|i: int| 0 <= i < self.loaders.len() && self.loaders[i].id == id
    }

    /// The place of the loader `id` among the connected loaders.
    pub open spec fn index_of(self, id: LoaderId) -> int {
        choose|i: int| 0 <= i < self.loaders.len() && self.loaders[i].id == id
    }

    /// The chunks that the loader `id` holds.
    pub open spec fn loaded_by(self, id: LoaderId) -> Seq<ChunkPos> {
        self.loaders[self.index_of(id)].chunks
    }

    /// The reference count of `pos`: 0 where it has none.
    pub open spec fn ref_count(self, pos: ChunkPos) -> nat {
        if self.counts.contains_key(pos) {
            self.counts[pos]
        } else {
            0
        }
    }

    /// What holds of the state at all times: no loader is connected twice
    /// or holds a chunk twice; the reference count of a chunk is the number
    /// of loaders that hold it; and a chunk is resident exactly while its
    /// reference count is above zero, but for the one chunk that is being
    /// loaded.
    pub open spec fn inv(self) -> bool {
        &&& forall|i: int, j: int|
            0 <= i < j < self.loaders.len() ==> self.loaders[i].id != self.loaders[j].id
        &&& forall|i: int| 0 <= i < self.loaders.len() ==> (#[trigger] self.loaders[i]).chunks.no_duplicates()
        &&& forall|pos: ChunkPos| #[trigger] self.counts.contains_key(pos) ==> self.counts[pos] > 0
        &&& forall|pos: ChunkPos| #[trigger] self.ref_count(pos) == count_holders(self.loaders, pos)
        &&& forall|pos: ChunkPos| #[trigger]
            self.chunks.contains_key(pos) <==> (self.counts.contains_key(pos) && self.pending
                != Some(pos))
        &&& (self.pending matches Some(p) ==> self.counts.contains_key(p))
    }

    /// The state after the loader `id` has connected. A loader that is
    /// connected already stays as it is.
    pub open spec fn connect(self, id: LoaderId) -> ServerModel {
        if self.is_connected(id) {
            self
        } else {
            ServerModel {
                loaders: self.loaders.push(LoaderModel { id, chunks: Seq::empty() }),
                ..self
            }
        }
    }

    /// The state after the loader `id` has taken hold of `pos`: the loader
    /// holds it, and where it did not before, the reference count has gone
    /// up by one.
    pub open spec fn hold(self, id: LoaderId, pos: ChunkPos) -> ServerModel {
        let i = self.index_of(id);
        if self.loaders[i].chunks.contains(pos) {
            self
        } else {
            ServerModel {
                loaders: self.loaders.update(
                    i,
                    LoaderModel { id, chunks: self.loaders[i].chunks.push(pos) },
                ),
                counts: self.counts.insert(pos, self.ref_count(pos) + 1),
                ..self
            }
        }
    }

    /// The state after the loader `id` has asked for `pos`: it holds the
    /// chunk, and where the chunk is not resident, the chunk is pending.
    pub open spec fn begin_load(self, id: LoaderId, pos: ChunkPos) -> ServerModel {
        let held = self.hold(id, pos);
        if self.chunks.contains_key(pos) {
            held
        } else {
            ServerModel { pending: Some(pos), ..held }
        }
    }

    /// The state after the pending chunk has arrived as `chunk`.
    pub open spec fn finish_load(self, chunk: Chunk) -> ServerModel {
        ServerModel {
            chunks: self.chunks.insert(self.pending.unwrap(), chunk),
            pending: None,
            ..self
        }
    }

    /// Whether the loader `id` letting go of `pos` evicts the chunk: the
    /// loader holds it and is the only one to do so.
    pub open spec fn evicts(self, id: LoaderId, pos: ChunkPos) -> bool {
        self.loaded_by(id).contains(pos) && self.ref_count(pos) == 1
    }

    /// The state after the loader `id` has let go of `pos`. Nothing changes
    /// where it did not hold the chunk. Else the reference count goes down
    /// by one, and at zero the chunk leaves memory.
    pub open spec fn unload(self, id: LoaderId, pos: ChunkPos) -> ServerModel {
        let i = self.index_of(id);
        let held = self.loaders[i].chunks;
        if !held.contains(pos) {
            self
        } else {
            let loaders = self.loaders.update(
                i,
                LoaderModel { id, chunks: held.remove(held.index_of(pos)) },
            );
            if self.ref_count(pos) == 1 {
                ServerModel {
                    loaders,
                    counts: self.counts.remove(pos),
                    chunks: self.chunks.remove(pos),
                    ..self
                }
            } else {
                ServerModel {
                    loaders,
                    counts: self.counts.insert(pos, (self.ref_count(pos) - 1) as nat),
                    ..self
                }
            }
        }
    }

    /// The state after the loader `id` has let go of the first `n` of the
    /// chunks `order`, one after the other.
    pub open spec fn unload_all(self, id: LoaderId, order: Seq<ChunkPos>, n: nat) -> ServerModel
        decreases n,
    {
        if n == 0 {
            self
        } else {
            self.unload_all(id, order, (n - 1) as nat).unload(id, order[n - 1])
        }
    }

    /// The chunks that leave memory while the loader `id` lets go of the
    /// first `n` of the chunks `order`, in the order in which they leave.
    pub open spec fn evicted_by_all(self, id: LoaderId, order: Seq<ChunkPos>, n: nat) -> Seq<
        (ChunkPos, Chunk),
    >
        decreases n,
    {
        if n == 0 {
            Seq::empty()
        } else {
            let before = self.unload_all(id, order, (n - 1) as nat);
            let earlier = self.evicted_by_all(id, order, (n - 1) as nat);
            if before.evicts(id, order[n - 1]) {
                earlier.push((order[n - 1], before.chunks[order[n - 1]]))
            } else {
                earlier
            }
        }
    }

    /// The state after the loader `id` has disconnected: it has let go of
    /// every chunk it held, in the order in which it took them, and is
    /// gone.
    pub open spec fn disconnect(self, id: LoaderId) -> ServerModel {
        let held = self.loaded_by(id);
        let released = self.unload_all(id, held, held.len());
        ServerModel { loaders: released.loaders.remove(released.index_of(id)), ..released }
    }
}

/// Replacing one loader changes the number of holders of a chunk by what
/// the new loader holds more or less than the old.
pub proof fn lemma_count_update(loaders: Seq<LoaderModel>, i: int, with: LoaderModel, pos: ChunkPos)
    requires
        0 <= i < loaders.len(),
    ensures
        count_holders(loaders.update(i, with), pos) + (if loaders[i].chunks.contains(pos) {
            1nat
        } else {
            0nat
        }) == count_holders(loaders, pos) + (if with.chunks.contains(pos) {
            1nat
        } else {
            0nat
        }),
    decreases loaders.len(),
{
    let updated = loaders.update(i, with);
    if i == loaders.len() - 1 {
        assert(updated.drop_last() =~= loaders.drop_last());
    } else {
        assert(updated.drop_last() =~= loaders.drop_last().update(i, with));
        lemma_count_update(loaders.drop_last(), i, with, pos);
    }
}

/// Taking one loader away takes it out of the number of holders of each
/// chunk that it holds.
pub proof fn lemma_count_remove(loaders: Seq<LoaderModel>, i: int, pos: ChunkPos)
    requires
        0 <= i < loaders.len(),
    ensures
        count_holders(loaders.remove(i), pos) + (if loaders[i].chunks.contains(pos) {
            1nat
        } else {
            0nat
        }) == count_holders(loaders, pos),
    decreases loaders.len(),
{
    let removed = loaders.remove(i);
    if i == loaders.len() - 1 {
        assert(removed =~= loaders.drop_last());
    } else {
        assert(removed.drop_last() =~= loaders.drop_last().remove(i));
        assert(removed.last() == loaders.last());
        lemma_count_remove(loaders.drop_last(), i, pos);
    }
}

/// A chunk has a holder exactly where some loader holds it, and never more
/// holders than there are loaders.
pub proof fn lemma_count_positive(loaders: Seq<LoaderModel>, pos: ChunkPos)
    ensures
        count_holders(loaders, pos) <= loaders.len(),
        count_holders(loaders, pos) > 0 <==> exists|i: int|
            0 <= i < loaders.len() && (#[trigger] loaders[i]).chunks.contains(pos),
    decreases loaders.len(),
{
    if loaders.len() > 0 {
        lemma_count_positive(loaders.drop_last(), pos);
        if count_holders(loaders, pos) > 0 {
            if loaders.last().chunks.contains(pos) {
                assert(loaders[loaders.len() - 1].chunks.contains(pos));
            } else {
                let i = choose|i: int|
                    0 <= i < loaders.drop_last().len() && (#[trigger] loaders.drop_last()[i]).chunks.contains(
                        pos,
                    );
                assert(loaders[i].chunks.contains(pos));
            }
        }
        if exists|i: int| 0 <= i < loaders.len() && (#[trigger] loaders[i]).chunks.contains(pos) {
            let i = choose|i: int|
                0 <= i < loaders.len() && (#[trigger] loaders[i]).chunks.contains(pos);
            if i < loaders.len() - 1 {
                assert(loaders.drop_last()[i].chunks.contains(pos));
            }
        }
    }
}

/// Whether the same loaders are connected in `a` and in `b`.
pub open spec fn same_loaders(a: ServerModel, b: ServerModel) -> bool {
    forall|id: LoaderId| #[trigger] a.is_connected(id) <==> b.is_connected(id)
}

/// Two states whose loaders have the same ids at the same places have the
/// same loaders connected.
pub proof fn lemma_same_loaders(a: ServerModel, b: ServerModel)
    requires
        a.loaders.len() == b.loaders.len(),
        forall|i: int| 0 <= i < a.loaders.len() ==> a.loaders[i].id == b.loaders[i].id,
    ensures
        same_loaders(a, b),
{
    assert forall|id: LoaderId| #[trigger] a.is_connected(id) <==> b.is_connected(id) by {
        if a.is_connected(id) {
            let i = choose|i: int| 0 <= i < a.loaders.len() && a.loaders[i].id == id;
            assert(b.loaders[i].id == id);
        }
        if b.is_connected(id) {
            let i = choose|i: int| 0 <= i < b.loaders.len() && b.loaders[i].id == id;
            assert(a.loaders[i].id == id);
        }
    }
}

/// A connected loader is found at its place: the one place with its id.
pub proof fn lemma_index_of(m: ServerModel, i: int)
    requires
        m.inv(),
        0 <= i < m.loaders.len(),
    ensures
        m.is_connected(m.loaders[i].id),
        m.index_of(m.loaders[i].id) == i,
        m.loaded_by(m.loaders[i].id) == m.loaders[i].chunks,
{
    let j = m.index_of(m.loaders[i].id);
    assert(0 <= j < m.loaders.len() && m.loaders[j].id == m.loaders[i].id);
}

/// Connecting a loader keeps the state consistent.
pub proof fn lemma_connect_inv(m: ServerModel, id: LoaderId)
    requires
        m.inv(),
    ensures
        m.connect(id).inv(),
        m.connect(id).is_connected(id),
        forall|other: LoaderId|
            other != id ==> (#[trigger] m.connect(id).is_connected(other) <==> m.is_connected(
                other,
            )),
        !m.is_connected(id) ==> m.connect(id).loaded_by(id) == Seq::<ChunkPos>::empty(),
{
    let after = m.connect(id);
    assert forall|other: LoaderId| other != id implies (#[trigger] after.is_connected(other)
        <==> m.is_connected(other)) by {
        if after.is_connected(other) {
            let i = choose|i: int| 0 <= i < after.loaders.len() && after.loaders[i].id == other;
            if !m.is_connected(id) {
                assert(m.loaders[i].id == other);
            }
        }
        if m.is_connected(other) {
            let i = choose|i: int| 0 <= i < m.loaders.len() && m.loaders[i].id == other;
            assert(after.loaders[i].id == other);
        }
    }
    if !m.is_connected(id) {
        let added = LoaderModel { id, chunks: Seq::empty() };
        assert(after.loaders.drop_last() =~= m.loaders);
        assert(after.loaders.last() == added);
        assert forall|pos: ChunkPos| #[trigger] after.ref_count(pos) == count_holders(
            after.loaders,
            pos,
        ) by {
            assert(m.ref_count(pos) == count_holders(m.loaders, pos));
        }
        assert(after.loaders[m.loaders.len() as int].id == id);
        assert forall|i: int| 0 <= i < after.loaders.len() implies (#[trigger] after.loaders[i]).chunks.no_duplicates() by {
            if i < m.loaders.len() {
                assert(after.loaders[i] == m.loaders[i]);
            }
        }
        assert(after.inv());
        lemma_index_of(after, m.loaders.len() as int);
    }
}

/// Asking for a chunk keeps the state consistent.
pub proof fn lemma_begin_load_inv(m: ServerModel, id: LoaderId, pos: ChunkPos)
    requires
        m.inv(),
        m.is_connected(id),
        m.pending.is_none(),
    ensures
        m.begin_load(id, pos).inv(),
        m.begin_load(id, pos).is_connected(id),
        same_loaders(m, m.begin_load(id, pos)),
        m.begin_load(id, pos).loaded_by(id).contains(pos),
        m.begin_load(id, pos).ref_count(pos) == m.ref_count(pos) + (if m.loaded_by(id).contains(
            pos,
        ) {
            0nat
        } else {
            1nat
        }),
        m.begin_load(id, pos).pending.is_none() <==> m.chunks.contains_key(pos),
{
    let i = m.index_of(id);
    lemma_index_of(m, i);
    let after = m.begin_load(id, pos);
    lemma_same_loaders(m, after);
    if !m.loaders[i].chunks.contains(pos) {
        let with = LoaderModel { id, chunks: m.loaders[i].chunks.push(pos) };
        assert(with.chunks.contains(pos)) by {
            assert(with.chunks[with.chunks.len() - 1] == pos);
        }
        assert forall|q: ChunkPos| #[trigger] after.ref_count(q) == count_holders(
            after.loaders,
            q,
        ) by {
            lemma_count_update(m.loaders, i, with, q);
            assert(m.ref_count(q) == count_holders(m.loaders, q));
            if q != pos {
                assert(with.chunks.contains(q) <==> m.loaders[i].chunks.contains(q)) by {
                    if with.chunks.contains(q) {
                        let k = choose|k: int| 0 <= k < with.chunks.len() && with.chunks[k] == q;
                        assert(m.loaders[i].chunks[k] == q);
                    }
                    if m.loaders[i].chunks.contains(q) {
                        let k = choose|k: int|
                            0 <= k < m.loaders[i].chunks.len() && m.loaders[i].chunks[k] == q;
                        assert(with.chunks[k] == q);
                    }
                }
            }
        }
        assert forall|k: int| 0 <= k < after.loaders.len() implies (#[trigger] after.loaders[k]).chunks.no_duplicates() by {
            if k != i {
                assert(after.loaders[k] == m.loaders[k]);
            } else {
                assert(m.loaders[i].chunks.no_duplicates());
            }
        }
        assert forall|q: ChunkPos| #[trigger]
            after.chunks.contains_key(q) <==> (after.counts.contains_key(q) && after.pending
                != Some(q)) by {
            assert(m.chunks.contains_key(q) <==> (m.counts.contains_key(q) && m.pending != Some(
                q,
            )));
        }
        assert(after.loaders[i].id == id);
        assert(after.inv());
        lemma_index_of(after, i);
    } else {
        assert(m.ref_count(pos) == count_holders(m.loaders, pos));
        lemma_count_positive(m.loaders, pos);
        assert(m.counts.contains_key(pos));
        assert(m.chunks.contains_key(pos) <==> (m.counts.contains_key(pos) && m.pending != Some(
            pos,
        )));
    }
}

/// The arrival of the pending chunk keeps the state consistent.
pub proof fn lemma_finish_load_inv(m: ServerModel, chunk: Chunk)
    requires
        m.inv(),
        m.pending.is_some(),
    ensures
        m.finish_load(chunk).inv(),
{
    let after = m.finish_load(chunk);
    assert forall|q: ChunkPos| #[trigger]
        after.chunks.contains_key(q) <==> (after.counts.contains_key(q) && after.pending != Some(
            q,
        )) by {
        assert(m.chunks.contains_key(q) <==> (m.counts.contains_key(q) && m.pending != Some(q)));
    }
    assert forall|q: ChunkPos| #[trigger] after.ref_count(q) == count_holders(after.loaders, q) by {
        assert(m.ref_count(q) == count_holders(m.loaders, q));
    }
}

/// Letting go of a chunk keeps the state consistent, and leaves the loader
/// with what it held but for that chunk.
pub proof fn lemma_unload_inv(m: ServerModel, id: LoaderId, pos: ChunkPos)
    requires
        m.inv(),
        m.is_connected(id),
        m.pending.is_none(),
    ensures
        m.unload(id, pos).inv(),
        m.unload(id, pos).pending.is_none(),
        m.unload(id, pos).is_connected(id),
        same_loaders(m, m.unload(id, pos)),
        m.unload(id, pos).index_of(id) == m.index_of(id),
        m.unload(id, pos).loaders.len() == m.loaders.len(),
        m.unload(id, pos).loaded_by(id) == (if m.loaded_by(id).contains(pos) {
            m.loaded_by(id).remove(m.loaded_by(id).index_of(pos))
        } else {
            m.loaded_by(id)
        }),
        !m.unload(id, pos).loaded_by(id).contains(pos),
        m.loaded_by(id).contains(pos) ==> m.chunks.contains_key(pos) && m.ref_count(pos) >= 1,
{
    let i = m.index_of(id);
    lemma_index_of(m, i);
    let after = m.unload(id, pos);
    lemma_same_loaders(m, after);
    let held = m.loaders[i].chunks;
    if held.contains(pos) {
        let at = held.index_of(pos);
        let with = LoaderModel { id, chunks: held.remove(at) };
        assert(held.no_duplicates());
        assert forall|q: ChunkPos| with.chunks.contains(q) <==> (held.contains(q) && q != pos) by {
            if with.chunks.contains(q) {
                let k = choose|k: int| 0 <= k < with.chunks.len() && with.chunks[k] == q;
                if k < at {
                    assert(held[k] == q);
                } else {
                    assert(held[k + 1] == q);
                }
            }
            if held.contains(q) && q != pos {
                let k = choose|k: int| 0 <= k < held.len() && held[k] == q;
                if k < at {
                    assert(with.chunks[k] == q);
                } else {
                    assert(with.chunks[k - 1] == q);
                }
            }
        }
        assert(m.ref_count(pos) == count_holders(m.loaders, pos));
        lemma_count_positive(m.loaders, pos);
        assert(m.counts.contains_key(pos));
        assert(m.chunks.contains_key(pos) <==> (m.counts.contains_key(pos) && m.pending != Some(
            pos,
        )));
        assert forall|q: ChunkPos| #[trigger] after.ref_count(q) == count_holders(
            after.loaders,
            q,
        ) by {
            lemma_count_update(m.loaders, i, with, q);
            assert(m.ref_count(q) == count_holders(m.loaders, q));
        }
        assert forall|k: int| 0 <= k < after.loaders.len() implies (#[trigger] after.loaders[k]).chunks.no_duplicates() by {
            if k != i {
                assert(after.loaders[k] == m.loaders[k]);
            }
        }
        assert forall|q: ChunkPos| #[trigger]
            after.chunks.contains_key(q) <==> (after.counts.contains_key(q) && after.pending
                != Some(q)) by {
            assert(m.chunks.contains_key(q) <==> (m.counts.contains_key(q) && m.pending != Some(
                q,
            )));
        }
        assert forall|q: ChunkPos| #[trigger] after.counts.contains_key(q) implies after.counts[q]
            > 0 by {
            assert(m.counts.contains_key(q) ==> m.counts[q] > 0);
        }
        assert(after.loaders[i].id == id);
        assert(after.inv());
        lemma_index_of(after, i);
    }
}

/// Letting go of any chunks one after the other keeps the state
/// consistent.
pub proof fn lemma_unload_each_inv(m: ServerModel, id: LoaderId, order: Seq<ChunkPos>, n: nat)
    requires
        m.inv(),
        m.is_connected(id),
        m.pending.is_none(),
        n <= order.len(),
    ensures
        m.unload_all(id, order, n).inv(),
        m.unload_all(id, order, n).pending.is_none(),
        m.unload_all(id, order, n).is_connected(id),
        same_loaders(m, m.unload_all(id, order, n)),
    decreases n,
{
    if n > 0 {
        lemma_unload_each_inv(m, id, order, (n - 1) as nat);
        lemma_unload_inv(m.unload_all(id, order, (n - 1) as nat), id, order[n - 1]);
    }
}

/// Letting go of chunks one after the other keeps the state consistent.
/// After the first `n` chunks that a loader holds, it holds the rest.
pub proof fn lemma_unload_all_inv(m: ServerModel, id: LoaderId, n: nat)
    requires
        m.inv(),
        m.is_connected(id),
        m.pending.is_none(),
        n <= m.loaded_by(id).len(),
    ensures
        m.unload_all(id, m.loaded_by(id), n).inv(),
        m.unload_all(id, m.loaded_by(id), n).pending.is_none(),
        m.unload_all(id, m.loaded_by(id), n).is_connected(id),
        m.unload_all(id, m.loaded_by(id), n).index_of(id) == m.index_of(id),
        m.unload_all(id, m.loaded_by(id), n).loaders.len() == m.loaders.len(),
        m.unload_all(id, m.loaded_by(id), n).loaded_by(id) == m.loaded_by(id).skip(n as int),
    decreases n,
{
    let held = m.loaded_by(id);
    lemma_index_of(m, m.index_of(id));
    if n == 0 {
        assert(held.skip(0) =~= held);
    } else {
        lemma_unload_all_inv(m, id, (n - 1) as nat);
        let before = m.unload_all(id, held, (n - 1) as nat);
        let pos = held[n - 1];
        let rest = held.skip(n - 1);
        assert(rest[0] == pos);
        assert(rest.contains(pos));
        assert(rest.no_duplicates()) by {
            assert(m.loaders[m.index_of(id)].chunks.no_duplicates());
        }
        let at = rest.index_of(pos);
        assert(at == 0) by {
            if at != 0 {
                assert(rest[at] == rest[0]);
            }
        }
        lemma_unload_inv(before, id, pos);
        assert(rest.remove(0) =~= held.skip(n as int));
    }
}

/// A disconnect keeps the state consistent.
pub proof fn lemma_disconnect_inv(m: ServerModel, id: LoaderId)
    requires
        m.inv(),
        m.is_connected(id),
        m.pending.is_none(),
    ensures
        m.disconnect(id).inv(),
        m.disconnect(id).pending.is_none(),
        !m.disconnect(id).is_connected(id),
        forall|other: LoaderId|
            other != id ==> (#[trigger] m.disconnect(id).is_connected(other) <==> m.is_connected(
                other,
            )),
{
    let held = m.loaded_by(id);
    lemma_unload_all_inv(m, id, held.len());
    let released = m.unload_all(id, held, held.len());
    let i = released.index_of(id);
    lemma_index_of(released, i);
    assert(released.loaders[i].chunks =~= Seq::<ChunkPos>::empty());
    let after = m.disconnect(id);
    assert forall|q: ChunkPos| #[trigger] after.ref_count(q) == count_holders(after.loaders, q) by {
        lemma_count_remove(released.loaders, i, q);
        assert(released.ref_count(q) == count_holders(released.loaders, q));
    }
    assert forall|k: int| 0 <= k < after.loaders.len() implies (#[trigger] after.loaders[k]).chunks.no_duplicates() by {
        if k < i {
            assert(after.loaders[k] == released.loaders[k]);
        } else {
            assert(after.loaders[k] == released.loaders[k + 1]);
        }
    }
    assert forall|q: ChunkPos| #[trigger]
        after.chunks.contains_key(q) <==> (after.counts.contains_key(q) && after.pending != Some(
            q,
        )) by {
        assert(released.chunks.contains_key(q) <==> (released.counts.contains_key(q)
            && released.pending != Some(q)));
    }
    assert forall|q: ChunkPos| #[trigger] after.counts.contains_key(q) implies after.counts[q]
        > 0 by {
        assert(released.counts.contains_key(q) ==> released.counts[q] > 0);
    }
    assert forall|a: int, b: int| 0 <= a < b < after.loaders.len() implies after.loaders[a].id
        != after.loaders[b].id by {
        let a0 = if a < i { a } else { a + 1 };
        let b0 = if b < i { b } else { b + 1 };
        assert(after.loaders[a] == released.loaders[a0]);
        assert(after.loaders[b] == released.loaders[b0]);
    }
    assert(after.inv());
    if after.is_connected(id) {
        let k = choose|k: int| 0 <= k < after.loaders.len() && after.loaders[k].id == id;
        let k0 = if k < i { k } else { k + 1 };
        assert(after.loaders[k] == released.loaders[k0]);
        assert(released.loaders[k0].id == released.loaders[i].id);
    }
    lemma_unload_each_inv(m, id, held, held.len());
    assert forall|other: LoaderId| other != id implies (#[trigger] after.is_connected(other)
        <==> m.is_connected(other)) by {
        assert(m.is_connected(other) <==> released.is_connected(other));
        if after.is_connected(other) {
            let k = choose|k: int| 0 <= k < after.loaders.len() && after.loaders[k].id == other;
            let k0 = if k < i { k } else { k + 1 };
            assert(released.loaders[k0].id == other);
        }
        if released.is_connected(other) {
            let k0 = choose|k: int|
                0 <= k < released.loaders.len() && released.loaders[k].id == other;
            let k = if k0 < i { k0 } else { k0 - 1 };
            assert(after.loaders[k].id == other);
        }
    }
}

/// A chunk that was not resident when a loader asked for it is resident
/// once it has arrived, as the chunk that the store or the generator gave,
/// with the loader as its one holder. No other chunk changes.
pub proof fn lemma_load_makes_resident(m: ServerModel, id: LoaderId, pos: ChunkPos, chunk: Chunk)
    requires
        m.inv(),
        m.pending.is_none(),
        m.is_connected(id),
        !m.chunks.contains_key(pos),
    ensures
        m.begin_load(id, pos).pending == Some(pos),
        m.begin_load(id, pos).finish_load(chunk).inv(),
        m.begin_load(id, pos).finish_load(chunk).pending.is_none(),
        m.begin_load(id, pos).finish_load(chunk).chunks == m.chunks.insert(pos, chunk),
        m.begin_load(id, pos).finish_load(chunk).ref_count(pos) == 1,
        m.begin_load(id, pos).finish_load(chunk).loaded_by(id).contains(pos),
{
    lemma_begin_load_inv(m, id, pos);
    lemma_finish_load_inv(m.begin_load(id, pos), chunk);
    lemma_index_of(m, m.index_of(id));
    assert(m.chunks.contains_key(pos) <==> (m.counts.contains_key(pos) && m.pending != Some(pos)));
    assert(m.ref_count(pos) == count_holders(m.loaders, pos));
    lemma_count_positive(m.loaders, pos);
    let after = m.begin_load(id, pos).finish_load(chunk);
    lemma_index_of(m.begin_load(id, pos), m.index_of(id));
    assert(after.loaders == m.begin_load(id, pos).loaders);
}

/// A chunk is resident exactly while some loader holds it, and its
/// reference count is the number of loaders that do. So the chunk leaves
/// memory when a loader lets go of it if and only if no other loader holds
/// it, and stays resident otherwise.
pub proof fn lemma_reference_counting(m: ServerModel, id: LoaderId, pos: ChunkPos)
    requires
        m.inv(),
        m.pending.is_none(),
        m.is_connected(id),
    ensures
        m.chunks.contains_key(pos) <==> m.ref_count(pos) > 0,
        m.ref_count(pos) == count_holders(m.loaders, pos),
        m.ref_count(pos) > 0 <==> exists|i: int|
            0 <= i < m.loaders.len() && (#[trigger] m.loaders[i]).chunks.contains(pos),
        m.loaded_by(id).contains(pos) ==> (m.evicts(id, pos) <==> forall|i: int|
            0 <= i < m.loaders.len() && (#[trigger] m.loaders[i]).chunks.contains(pos)
                ==> m.loaders[i].id == id),
        m.unload(id, pos).chunks.contains_key(pos) <==> m.chunks.contains_key(pos) && !m.evicts(
            id,
            pos,
        ),
        m.evicts(id, pos) ==> m.unload(id, pos).ref_count(pos) == 0,
        m.loaded_by(id).contains(pos) ==> m.unload(id, pos).ref_count(pos) == m.ref_count(pos) - 1,
{
    assert(m.ref_count(pos) == count_holders(m.loaders, pos));
    assert(m.chunks.contains_key(pos) <==> (m.counts.contains_key(pos) && m.pending != Some(pos)));
    assert(m.counts.contains_key(pos) ==> m.counts[pos] > 0);
    lemma_count_positive(m.loaders, pos);
    let i = m.index_of(id);
    lemma_index_of(m, i);
    lemma_unload_inv(m, id, pos);
    if m.loaded_by(id).contains(pos) {
        let held = m.loaders[i].chunks;
        let with = LoaderModel { id, chunks: held.remove(held.index_of(pos)) };
        let others = m.loaders.update(i, with);
        lemma_count_update(m.loaders, i, with, pos);
        lemma_count_positive(others, pos);
        assert(!with.chunks.contains(pos)) by {
            assert(m.unload(id, pos).loaded_by(id) == with.chunks);
        }
        if m.ref_count(pos) == 1 {
            assert forall|k: int|
                0 <= k < m.loaders.len() && (#[trigger] m.loaders[k]).chunks.contains(
                    pos,
                ) implies m.loaders[k].id == id by {
                if k != i {
                    assert(others[k].chunks.contains(pos));
                }
            }
        } else {
            let k = choose|k: int| 0 <= k < others.len() && (#[trigger] others[k]).chunks.contains(pos);
            assert(k != i);
            assert(m.loaders[k].chunks.contains(pos));
            assert(m.loaders[k].id != id);
        }
    }
}

} // verus!
