//! The world: the set of loaded chunks, by position.

use vstd::prelude::*;
use crate::block::{Block, BlockRegistry};
use crate::chunk::{cell_index, is_registered, lemma_cell_index, registered, Chunk};
use crate::direction::{lemma_direction_geometry, Direction, Vector3};
use crate::pos_map::PosMap;
use crate::position::{BlockPos, ChunkPos, ChunkRelativeBlockPos};

verus! {

/// The chunks among `at` marked dirty, the others as they are.
pub open spec fn mark_dirty(chunks: Map<ChunkPos, Chunk>, at: Set<ChunkPos>) -> Map<
    ChunkPos,
    Chunk,
> {
    Map::new(
        |p: ChunkPos| chunks.contains_key(p),
        |p: ChunkPos|
            if at.contains(p) {
                Chunk { dirty: true, ..chunks[p] }
            } else {
                chunks[p]
            },
    )
}

/// The up to six positions of the chunks that share a face with the chunk
/// at `pos`.
pub open spec fn face_neighbours(pos: ChunkPos) -> Set<ChunkPos> {
    Set::new(|q: ChunkPos| exists|d: Direction| pos.spec_neighbour(d) == Some(q))
}

/// The positions of the chunks that share with the chunk at `pos` a face
/// that its cell `rel` touches.
pub open spec fn touched_neighbours(pos: ChunkPos, rel: ChunkRelativeBlockPos) -> Set<ChunkPos> {
    Set::new(
        |q: ChunkPos| exists|d: Direction| rel.touches(d) && pos.spec_neighbour(d) == Some(q),
    )
}

/// Whether `after` is `before` with the block at `rel` replaced by `block`
/// and the dirty flag set.
pub open spec fn is_edit_of(
    after: Chunk,
    before: Chunk,
    rel: ChunkRelativeBlockPos,
    block: Block,
) -> bool {
    &&& after.dirty
    &&& after.pos == before.pos
    &&& after.grid() == before.grid().update(cell_index(rel), block)
}

/// The neighbours that the first `n` directions of the canonical order
/// lead to, of those that `wanted` admits.
spec fn neighbours_upto(pos: ChunkPos, wanted: spec_fn(Direction) -> bool, n: int) -> Set<
    ChunkPos,
> {
    Set::new(
        |q: ChunkPos|
            exists|i: int|
                0 <= i < n && wanted(Direction::spec_all()[i]) && pos.spec_neighbour(
                    Direction::spec_all()[i],
                ) == Some(q),
    )
}

proof fn lemma_neighbours_upto_all(pos: ChunkPos, wanted: spec_fn(Direction) -> bool)
    ensures
        neighbours_upto(pos, wanted, 6) == Set::new(
            |q: ChunkPos| exists|d: Direction| wanted(d) && pos.spec_neighbour(d) == Some(q),
        ),
        neighbours_upto(pos, wanted, 0) == Set::<ChunkPos>::empty(),
{
    let all = Set::new(
        |q: ChunkPos| exists|d: Direction| wanted(d) && pos.spec_neighbour(d) == Some(q),
    );
    assert forall|q: ChunkPos| all.contains(q) implies neighbours_upto(pos, wanted, 6).contains(
        q,
    ) by {
        let d = choose|d: Direction| wanted(d) && pos.spec_neighbour(d) == Some(q);
        lemma_direction_geometry(d);
        let i = d.spec_index();
        assert(0 <= i < 6 && wanted(Direction::spec_all()[i]) && pos.spec_neighbour(
            Direction::spec_all()[i],
        ) == Some(q));
    }
    assert(neighbours_upto(pos, wanted, 6) =~= all);
    assert(neighbours_upto(pos, wanted, 0) =~= Set::<ChunkPos>::empty());
}

/// A place where a ray crosses into a cell of a chunk.
#[derive(Debug, Clone, Copy, PartialEq, Eq, Structural)]
pub struct Crossing {
    /// The cell that the ray enters, counted from the chunk's origin. It is
    /// taken modulo 16 on each axis.
    pub cell: BlockPos,
    /// The normal of the face through which the ray enters.
    pub normal: Vector3,
    /// How far along the ray the crossing lies, as a number that is ordered
    /// as the distances are.
    pub distance: u32,
}

/// The block that a ray hits first, and the face through which it enters
/// the block.
#[derive(Debug, Clone, Copy, PartialEq, Eq, Structural)]
pub struct HitInfo {
    pub position: BlockPos,
    pub normal: Vector3,
}

impl HitInfo {
    /// The cell in front of the face that was hit: where a block goes that
    /// is put against that face. `None` where that cell lies beyond the
    /// range of block coordinates.
    pub fn adjacent(&self) -> (r: Option<BlockPos>)
        ensures
            r == (if self.position.can_add(self.normal) {
                Some(self.position.spec_add(self.normal))
            } else {
                None
            }),
    {
        self.position.checked_add(self.normal)
    }
}

/// Whether crossing `k` of `crossings` enters a block of `chunk` that
/// stops rays.
pub open spec fn stops_ray(
    chunk: Chunk,
    registry: &BlockRegistry,
    crossings: Seq<Crossing>,
    k: int,
) -> bool {
    registry.is_visible(chunk.spec_block(crossings[k].cell.spec_rel_pos()).id)
}

/// Whether crossing `k` is the nearest of the first `n` crossings that stop
/// the ray: none that stops it is nearer, and none that is as near comes
/// earlier.
pub open spec fn is_nearest_of(
    chunk: Chunk,
    registry: &BlockRegistry,
    crossings: Seq<Crossing>,
    n: int,
    k: int,
) -> bool {
    &&& 0 <= k < n
    &&& stops_ray(chunk, registry, crossings, k)
    &&& forall|j: int|
        0 <= j < n && #[trigger] stops_ray(chunk, registry, crossings, j) ==> {
            ||| crossings[k].distance < crossings[j].distance
            ||| (crossings[k].distance == crossings[j].distance && k <= j)
        }
}

/// Whether crossing `k` is the nearest of all crossings that stop the ray.
pub open spec fn is_nearest_stop(
    chunk: Chunk,
    registry: &BlockRegistry,
    crossings: Seq<Crossing>,
    k: int,
) -> bool {
    is_nearest_of(chunk, registry, crossings, crossings.len() as int, k)
}

/// The loaded chunks, each under its position.
pub struct World {
    chunks: PosMap<Chunk>,
}

impl World {
    /// Whether the world's storage is consistent. Holds of every world that
    /// `new` made and these methods changed.
    pub closed spec fn wf(&self) -> bool {
        self.chunks.wf()
    }

    /// The loaded chunks by position.
    pub closed spec fn view(&self) -> Map<ChunkPos, Chunk> {
        self.chunks@
    }

    /// A world with no chunk loaded.
    pub fn new() -> (w: Self)
        ensures
            w.wf(),
            w@ == Map::<ChunkPos, Chunk>::empty(),
    {
        World { chunks: PosMap::new() }
    }

    /// The chunk loaded at `pos`. Never loads one.
    pub fn chunk(&self, pos: ChunkPos) -> (r: Option<&Chunk>)
        requires
            self.wf(),
        ensures
            match r {
                Some(c) => self@.contains_key(pos) && *c == self@[pos],
                None => !self@.contains_key(pos),
            },
    {
        self.chunks.get(pos)
    }

    /// The chunk loaded at `pos`, for writing.
    pub fn chunk_mut(&mut self, pos: ChunkPos) -> (r: Option<&mut Chunk>)
        requires
            old(self).wf(),
        ensures
            final(self).wf(),
            match r {
                Some(c) => old(self)@.contains_key(pos) && *c == old(self)@[pos] && final(self)@
                    == old(self)@.insert(pos, *final(c)),
                None => !old(self)@.contains_key(pos) && final(self)@ == old(self)@,
            },
    {
        self.chunks.get_mut(pos)
    }

    /// The positions of the loaded chunks: each loaded position once.
    pub fn positions(&self) -> (r: Vec<ChunkPos>)
        requires
            self.wf(),
        ensures
            r@.no_duplicates(),
            forall|p: ChunkPos| r@.contains(p) <==> self@.contains_key(p),
    {
        self.chunks.keys()
    }

    /// Marks dirty the loaded chunks among the neighbours of `pos` in the
    /// directions that `wanted` admits.
    fn dirty_neighbours(&mut self, pos: ChunkPos, rel: Option<ChunkRelativeBlockPos>)
        requires
            old(self).wf(),
        ensures
            final(self).wf(),
            final(self)@ == mark_dirty(
                old(self)@,
                match rel {
                    Some(r) => touched_neighbours(pos, r),
                    None => face_neighbours(pos),
                },
            ),
    {
        let ghost wanted = |d: Direction|
            match rel {
                Some(r) => r.touches(d),
                None => true,
            };
        let ghost before = self@;
        let dirs = Direction::all();
        proof {
            lemma_neighbours_upto_all(pos, wanted);
            assert(self@ =~= mark_dirty(before, neighbours_upto(pos, wanted, 0)));
        }
        for i in 0..6usize
            invariant
                self.wf(),
                dirs@ == Direction::spec_all(),
                wanted == (|d: Direction|
                    match rel {
                        Some(r) => r.touches(d),
                        None => true,
                    }),
                self@ == mark_dirty(before, neighbours_upto(pos, wanted, i as int)),
        {
            let dir = dirs[i];
            let ghost current = self@;
            let applies = match rel {
                Some(r) => r.is_touching(dir),
                None => true,
            };
            let target = if applies {
                pos.neighbour(dir)
            } else {
                None
            };
            match target {
                Some(q) => {
                    match self.chunks.get_mut(q) {
                        Some(chunk) => {
                            chunk.set_dirty(true);
                        },
                        None => {},
                    }
                },
                None => {},
            }
            proof {
                let upto = neighbours_upto(pos, wanted, i as int);
                let next = neighbours_upto(pos, wanted, i + 1);
                assert forall|p: ChunkPos| next.contains(p) <==> (upto.contains(p) || target
                    == Some(p)) by {
                    if next.contains(p) {
                        let j = choose|j: int|
                            0 <= j < i + 1 && wanted(Direction::spec_all()[j])
                                && pos.spec_neighbour(Direction::spec_all()[j]) == Some(p);
                        if j < i {
                            assert(upto.contains(p));
                        }
                    }
                    if target == Some(p) {
                        assert(wanted(Direction::spec_all()[i as int]) && pos.spec_neighbour(
                            Direction::spec_all()[i as int],
                        ) == Some(p));
                    }
                    if upto.contains(p) {
                        let j = choose|j: int|
                            0 <= j < i && wanted(Direction::spec_all()[j]) && pos.spec_neighbour(
                                Direction::spec_all()[j],
                            ) == Some(p);
                        assert(0 <= j < i + 1);
                    }
                }
                assert(self@ =~= mark_dirty(before, next));
            }
        }
        proof {
            match rel {
                Some(r) => {
                    assert(neighbours_upto(pos, wanted, 6) =~= touched_neighbours(pos, r));
                },
                None => {
                    assert(neighbours_upto(pos, wanted, 6) =~= face_neighbours(pos));
                },
            }
        }
    }

    /// Loads `chunk`, which the chunk generator made, under its position,
    /// and marks the loaded chunks that share a face with it dirty, since
    /// their surfaces may change where they meet the new chunk.
    pub fn generate_chunk(&mut self, chunk: Chunk)
        requires
            old(self).wf(),
        ensures
            final(self).wf(),
            final(self)@ == mark_dirty(old(self)@, face_neighbours(chunk.pos)).insert(
                chunk.pos,
                chunk,
            ),
    {
        self.dirty_neighbours(chunk.pos, None);
        self.chunks.insert(chunk.pos, chunk);
    }

    /// Loads an all-air chunk at `pos`, replacing what was loaded there.
    pub fn create_empty_chunk(&mut self, pos: ChunkPos)
        requires
            old(self).wf(),
        ensures
            final(self).wf(),
            final(self)@.dom() == old(self)@.dom().insert(pos),
            final(self)@[pos].dirty,
            final(self)@[pos].pos == pos,
            final(self)@[pos].grid() == Seq::new(4096, |i: int| Block::air()),
            forall|p: ChunkPos| p != pos && old(self)@.contains_key(p) ==> final(self)@[p] == old(self)@[p],
    {
        let chunk = Chunk::new(pos);
        assert(chunk.grid() =~= Seq::new(4096, |i: int| Block::air())) by {
            assert forall|i: int| 0 <= i < 4096 implies chunk.grid()[i] == Block::air() by {
                lemma_cell_index(ChunkRelativeBlockPos { x: 0, y: 0, z: 0 }, i);
            }
        }
        self.chunks.insert(pos, chunk);
        assert(self@.dom() =~= old(self)@.dom().insert(pos));
    }

    /// Puts `block` at the world position `pos`. The chunk that holds the
    /// position is loaded as an all-air chunk first if it was not loaded. It
    /// is marked dirty, and so is every loaded chunk that shares with it a
    /// face that the position touches. All else stays as it was.
    pub fn place_block(&mut self, block: Block, pos: BlockPos)
        requires
            old(self).wf(),
        ensures
            final(self).wf(),
            final(self)@.dom() == old(self)@.dom().insert(pos.spec_chunk_pos()),
            old(self)@.contains_key(pos.spec_chunk_pos()) ==> is_edit_of(
                final(self)@[pos.spec_chunk_pos()],
                old(self)@[pos.spec_chunk_pos()],
                pos.spec_rel_pos(),
                block,
            ),
            !old(self)@.contains_key(pos.spec_chunk_pos()) ==> {
                let made = final(self)@[pos.spec_chunk_pos()];
                &&& made.dirty
                &&& made.pos == pos.spec_chunk_pos()
                &&& made.grid() == Seq::new(4096, |i: int| Block::air()).update(
                    cell_index(pos.spec_rel_pos()),
                    block,
                )
            },
            forall|q: ChunkPos|
                q != pos.spec_chunk_pos() && old(self)@.contains_key(q) ==> #[trigger] final(self)@[q]
                    == mark_dirty(
                    old(self)@,
                    touched_neighbours(pos.spec_chunk_pos(), pos.spec_rel_pos()),
                )[q],
    {
        let chunk_pos = pos.chunk_pos();
        let rel_pos = pos.rel_pos();
        if !self.chunks.contains_key(chunk_pos) {
            self.create_empty_chunk(chunk_pos);
        }
        let ghost loaded = self@;
        match self.chunks.get_mut(chunk_pos) {
            Some(chunk) => {
                let ghost before = *chunk;
                *chunk.block_mut(rel_pos) = block;
                chunk.set_dirty(true);
                proof {
                    assert(chunk.grid() =~= before.grid().update(cell_index(rel_pos), block)) by {
                        assert forall|i: int| 0 <= i < 4096 implies chunk.grid()[i]
                            == before.grid().update(cell_index(rel_pos), block)[i] by {
                            lemma_cell_index(rel_pos, i);
                        }
                    }
                }
            },
            None => {},
        }
        let ghost edited = self@;
        self.dirty_neighbours(chunk_pos, Some(rel_pos));
        proof {
            let touched = touched_neighbours(chunk_pos, rel_pos);
            assert(!touched.contains(chunk_pos)) by {
                assert forall|d: Direction| chunk_pos.spec_neighbour(d) != Some(chunk_pos) by {
                    lemma_direction_geometry(d);
                }
            }
            assert(self@.dom() =~= old(self)@.dom().insert(chunk_pos));
            assert(self@[chunk_pos] == edited[chunk_pos]);
        }
    }

    /// Loads `chunk` under `pos`, replacing what was loaded there. No other
    /// chunk changes.
    pub fn insert_chunk(&mut self, pos: ChunkPos, chunk: Chunk)
        requires
            old(self).wf(),
        ensures
            final(self).wf(),
            final(self)@ == old(self)@.insert(pos, chunk),
    {
        self.chunks.insert(pos, chunk);
    }

    /// The first block that a ray hits in the chunk at `chunk_pos`, given
    /// the places where the ray crosses into cells of that chunk: the
    /// nearest crossing into a block that stops rays, and of several that
    /// are equally near the earliest. `None` where the chunk is not loaded,
    /// where it lies so far out that its blocks have no world coordinates,
    /// and where no crossing enters such a block.
    pub fn first_hit(
        &self,
        chunk_pos: ChunkPos,
        crossings: &Vec<Crossing>,
        registry: &BlockRegistry,
    ) -> (hit: Option<HitInfo>)
        requires
            self.wf(),
            self@.contains_key(chunk_pos) ==> registered(registry, self@[chunk_pos]),
        ensures
            hit.is_some() <==> self@.contains_key(chunk_pos) && chunk_pos.in_block_range()
                && exists|k: int|
                0 <= k < crossings@.len() && #[trigger] stops_ray(
                    self@[chunk_pos],
                    registry,
                    crossings@,
                    k,
                ),
            hit matches Some(h) ==> exists|k: int|
                #[trigger] is_nearest_stop(self@[chunk_pos], registry, crossings@, k) && h == (
                HitInfo {
                    position: chunk_pos.spec_block_pos(crossings@[k].cell.spec_rel_pos()),
                    normal: crossings@[k].normal,
                }),
    {
        let chunk = match self.chunk(chunk_pos) {
            Some(chunk) => chunk,
            None => { return None; },
        };
        if !chunk_pos.is_in_block_range() {
            return None;
        }
        let mut best: Option<usize> = None;
        for i in 0..crossings.len()
            invariant
                self.wf(),
                self@.contains_key(chunk_pos),
                *chunk == self@[chunk_pos],
                registered(registry, *chunk),
                match best {
                    Some(k) => is_nearest_of(*chunk, registry, crossings@, i as int, k as int),
                    None => forall|j: int|
                        0 <= j < i ==> !#[trigger] stops_ray(*chunk, registry, crossings@, j),
                },
        {
            let crossing = crossings[i];
            let stops = match registry.get(chunk.block(crossing.cell.rel_pos()).id) {
                Some(attr) => !attr.invisible,
                None => false,
            };
            assert(stops == stops_ray(*chunk, registry, crossings@, i as int));
            let nearer = match best {
                Some(k) => crossing.distance < crossings[k].distance,
                None => true,
            };
            if stops && nearer {
                best = Some(i);
            }
        }
        match best {
            Some(k) => {
                let crossing = crossings[k];
                match chunk_pos.block_pos(crossing.cell.rel_pos()) {
                    Some(position) => {
                        assert(is_nearest_stop(*chunk, registry, crossings@, k as int));
                        Some(HitInfo { position, normal: crossing.normal })
                    },
                    None => None,
                }
            },
            None => None,
        }
    }

    /// Unloads the chunk at `pos` and hands it out.
    pub fn take_chunk(&mut self, pos: ChunkPos) -> (r: Option<Chunk>)
        requires
            old(self).wf(),
        ensures
            final(self).wf(),
            final(self)@ == old(self)@.remove(pos),
            r == (if old(self)@.contains_key(pos) { Some(old(self)@[pos]) } else { None }),
    {
        self.chunks.remove(pos)
    }

    /// Unloads the chunk at `pos`. Nothing is saved.
    pub fn delete_chunk(&mut self, pos: ChunkPos)
        requires
            old(self).wf(),
        ensures
            final(self).wf(),
            final(self)@ == old(self)@.remove(pos),
    {
        let _ = self.chunks.remove(pos);
    }
}

/// Whether every block of every chunk in `chunks` has a registered id.
pub open spec fn all_registered(registry: &BlockRegistry, chunks: Map<ChunkPos, Chunk>) -> bool {
    forall|q: ChunkPos| chunks.contains_key(q) ==> registered(registry, #[trigger] chunks[q])
}

/// Tests whether every block of every loaded chunk has a registered id.
pub fn is_all_registered(registry: &BlockRegistry, world: &World) -> (b: bool)
    requires
        world.wf(),
    ensures
        b == all_registered(registry, world@),
{
    let positions = world.positions();
    for i in 0..positions.len()
        invariant
            world.wf(),
            forall|p: ChunkPos| positions@.contains(p) <==> world@.contains_key(p),
            forall|j: int| 0 <= j < i ==> registered(registry, world@[#[trigger] positions@[j]]),
    {
        assert(positions@.contains(positions@[i as int]));
        match world.chunk(positions[i]) {
            Some(chunk) => {
                if !is_registered(registry, chunk) {
                    return false;
                }
            },
            None => {},
        }
    }
    assert forall|q: ChunkPos| world@.contains_key(q) implies registered(
        registry,
        #[trigger] world@[q],
    ) by {
        assert(positions@.contains(q));
        let j = choose|j: int| 0 <= j < positions@.len() && positions@[j] == q;
        assert(registered(registry, world@[positions@[j]]));
    }
    true
}

/// Which neighbours an edit dirties: none for a cell in the interior of its
/// chunk, and for a cell that touches exactly one face of its chunk the one
/// chunk beyond that face.
pub proof fn lemma_touched_neighbours(pos: ChunkPos, rel: ChunkRelativeBlockPos, d: Direction)
    requires
        rel.in_chunk(),
    ensures
        0 < rel.x < 15 && 0 < rel.y < 15 && 0 < rel.z < 15 ==> touched_neighbours(pos, rel)
            == Set::<ChunkPos>::empty(),
        rel.touches(d) && (forall|e: Direction| e != d ==> !rel.touches(e)) ==> touched_neighbours(
            pos,
            rel,
        ) == (match pos.spec_neighbour(d) {
            Some(q) => Set::<ChunkPos>::empty().insert(q),
            None => Set::<ChunkPos>::empty(),
        }),
        rel.touches(d) <==> rel.spec_get(d.spec_axle()) == (if d.spec_chunk_limit() == 15 {
            15usize
        } else {
            0usize
        }),
{
    if 0 < rel.x < 15 && 0 < rel.y < 15 && 0 < rel.z < 15 {
        assert forall|e: Direction| !rel.touches(e) by {
            lemma_direction_geometry(e);
        }
        assert(touched_neighbours(pos, rel) =~= Set::<ChunkPos>::empty());
    }
    if rel.touches(d) && (forall|e: Direction| e != d ==> !rel.touches(e)) {
        match pos.spec_neighbour(d) {
            Some(q) => {
                assert(touched_neighbours(pos, rel) =~= Set::<ChunkPos>::empty().insert(q));
            },
            None => {
                assert(touched_neighbours(pos, rel) =~= Set::<ChunkPos>::empty());
            },
        }
    }
}

} // verus!
