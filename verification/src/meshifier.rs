//! Builds the surface mesh of a chunk from its blocks and those around it,
//! and keeps the last mesh built for each chunk.

use vstd::prelude::*;
use crate::block::{AtlasCell, BlockRegistry};
use crate::chunk::{cell_at, registered, Chunk};
use crate::direction::{Direction, Vector3};
use crate::mesh::{
    make_quad, quad_indices, quad_vertices, quad_winding, Mesh, MeshBuilder, MeshContents,
    MeshVertex,
};
use crate::pos_map::PosMap;
use crate::position::{ChunkPos, ChunkRelativeBlockPos};
use crate::world::{all_registered, World};

verus! {

/// What a mesh is built from: the loaded chunks, the block registry, the
/// position of the chunk to mesh, and whether vertices are darkened.
pub struct Scene {
    pub chunks: Map<ChunkPos, Chunk>,
    pub registry: BlockRegistry,
    pub pos: ChunkPos,
    pub enable_ao: bool,
}

impl Scene {
    /// The chunk to mesh.
    pub open spec fn chunk(self) -> Chunk {
        self.chunks[self.pos]
    }

    /// Whether the cell at `(x, y, z)`, counted from the origin of the chunk
    /// to mesh and possibly outside it, holds a block that hides faces. A
    /// cell of a chunk that is not loaded hides nothing.
    pub open spec fn opaque_at(self, x: int, y: int, z: int) -> bool {
        let shift = Vector3 { x: (x / 16) as isize, y: (y / 16) as isize, z: (z / 16) as isize };
        let rel = ChunkRelativeBlockPos {
            x: (x % 16) as usize,
            y: (y % 16) as usize,
            z: (z % 16) as usize,
        };
        let at = self.pos.spec_add(shift);
        self.pos.can_add(shift) && self.chunks.contains_key(at) && self.registry.is_opaque(
            self.chunks[at].spec_block(rel).id,
        )
    }

    /// Whether the block at `cell` renders at all.
    pub open spec fn visible(self, cell: ChunkRelativeBlockPos) -> bool {
        self.registry.is_visible(self.chunk().spec_block(cell).id)
    }

    /// Whether the face `dir` of the block at `cell` can be seen: the cell
    /// beyond it holds no block that hides it.
    pub open spec fn exposed(self, cell: ChunkRelativeBlockPos, dir: Direction) -> bool {
        let n = dir.spec_normal();
        !self.opaque_at(cell.x + n.x, cell.y + n.y, cell.z + n.z)
    }

    /// Whether sample `k` of the eight cells around the face `dir` of `cell`
    /// holds a block that hides faces. The samples lie one cell out along
    /// the face's normal.
    pub open spec fn blocked(self, cell: ChunkRelativeBlockPos, dir: Direction, k: int) -> bool {
        let offset = sample_offset(k);
        let in_plane = dir.spec_on_plane(offset.0, offset.1);
        let n = dir.spec_normal();
        self.opaque_at(
            cell.x + in_plane.0 + n.x,
            cell.y + in_plane.1 + n.y,
            cell.z + in_plane.2 + n.z,
        )
    }

    /// The darkness of corner `i` of the face `dir` of `cell`.
    pub open spec fn vertex_ao(self, cell: ChunkRelativeBlockPos, dir: Direction, i: int) -> u8 {
        if self.enable_ao {
            ao_level(
                self.blocked(cell, dir, 2 * i),
                self.blocked(cell, dir, 2 * i + 1),
                self.blocked(cell, dir, (2 * i + 2) % 8),
            )
        } else {
            0
        }
    }

    /// The darkness of the four corners of a face.
    pub open spec fn face_ao(self, cell: ChunkRelativeBlockPos, dir: Direction) -> Seq<u8> {
        Seq::new(4, |i: int| self.vertex_ao(cell, dir, i))
    }

    /// The cell that face slot `s` belongs to.
    pub open spec fn slot_cell(s: int) -> ChunkRelativeBlockPos {
        cell_at(s / 6)
    }

    /// The direction of face slot `s`.
    pub open spec fn slot_dir(s: int) -> Direction {
        Direction::spec_all()[s % 6]
    }

    /// Whether face slot `s` contributes a quad: its block renders and the
    /// face can be seen.
    pub open spec fn slot_has_face(self, s: int) -> bool {
        self.visible(Self::slot_cell(s)) && self.exposed(Self::slot_cell(s), Self::slot_dir(s))
    }

    /// The vertices that face slot `s` contributes.
    pub open spec fn slot_vertices(self, s: int) -> Seq<MeshVertex> {
        if self.slot_has_face(s) {
            let cell = Self::slot_cell(s);
            quad_vertices(
                cell,
                Self::slot_dir(s),
                self.registry.spec_get(self.chunk().spec_block(cell).id).unwrap().uv_coords,
                self.face_ao(cell, Self::slot_dir(s)),
            )
        } else {
            Seq::empty()
        }
    }

    /// The vertices of the first `n` face slots. Slots go by cell, x
    /// outermost and z innermost, and within a cell by direction.
    pub open spec fn vertices(self, n: nat) -> Seq<MeshVertex>
        decreases n,
    {
        if n == 0 {
            Seq::empty()
        } else {
            self.vertices((n - 1) as nat) + self.slot_vertices(n - 1)
        }
    }

    /// The indices of the first `n` face slots: for each quad two triangles
    /// over its own four vertices.
    pub open spec fn indices(self, n: nat) -> Seq<u32>
        decreases n,
    {
        if n == 0 {
            Seq::empty()
        } else if self.slot_has_face(n - 1) {
            self.indices((n - 1) as nat) + quad_indices(
                self.vertices((n - 1) as nat).len() as int,
            )
        } else {
            self.indices((n - 1) as nat)
        }
    }

    /// The mesh of the chunk.
    pub open spec fn mesh(self) -> MeshContents {
        MeshContents { vertices: self.vertices(24576), indices: self.indices(24576) }
    }
}

/// Where sample `k` lies in the plane of a face, relative to the face's
/// cell: the eight cells around it, clockwise from the left.
pub open spec fn sample_offset(k: int) -> (int, int) {
    if k == 0 {
        (-1, 0)
    } else if k == 1 {
        (-1, 1)
    } else if k == 2 {
        (0, 1)
    } else if k == 3 {
        (1, 1)
    } else if k == 4 {
        (1, 0)
    } else if k == 5 {
        (1, -1)
    } else if k == 6 {
        (0, -1)
    } else {
        (-1, -1)
    }
}

/// The darkness of a vertex, in sixths, from the three samples around it:
/// the two edge samples and the corner sample between them. One for each
/// blocked sample, but the most where both edges are blocked, whatever the
/// corner holds.
pub open spec fn ao_level(edge_a: bool, corner: bool, edge_b: bool) -> u8 {
    if edge_a && edge_b {
        3
    } else {
        ((if edge_a { 1int } else { 0int }) + (if corner { 1int } else { 0int }) + (if edge_b {
            1int
        } else {
            0int
        })) as u8
    }
}

/// A vertex whose two edge samples are both blocked is as dark as a vertex
/// gets, whatever its corner sample holds, and no vertex is darker than
/// that.
pub proof fn lemma_occluded_corner(
    scene: Scene,
    cell: ChunkRelativeBlockPos,
    dir: Direction,
    i: int,
    corner: bool,
)
    requires
        0 <= i < 4,
    ensures
        ao_level(true, corner, true) == 3,
        forall|a: bool, c: bool, b: bool| ao_level(a, c, b) <= 3,
        scene.vertex_ao(cell, dir, i) <= 3,
        scene.enable_ao && scene.blocked(cell, dir, 2 * i) && scene.blocked(
            cell,
            dir,
            (2 * i + 2) % 8,
        ) ==> scene.vertex_ao(cell, dir, i) == 3,
{
}

/// The darkness table, indexed by the three samples as bits: bit 0 and bit
/// 2 the edges, bit 1 the corner.
pub fn get_ao(blocks: u8) -> (level: u8)
    requires
        blocks < 8,
    ensures
        level == ao_level(blocks % 2 == 1, (blocks / 2) % 2 == 1, blocks / 4 == 1),
{
    let table: [u8; 8] = [0, 1, 1, 2, 1, 3, 2, 3];
    table[blocks as usize]
}

/// Each face slot adds to the vertices at most one quad, and to the
/// indices as many triangles as the quad has.
pub proof fn lemma_mesh_size(scene: Scene, n: nat)
    ensures
        scene.vertices(n).len() <= 4 * n,
        2 * scene.indices(n).len() == 3 * scene.vertices(n).len(),
    decreases n,
{
    if n > 0 {
        lemma_mesh_size(scene, (n - 1) as nat);
    }
}

/// The slots of a block that does not render add nothing.
proof fn lemma_skip_cell(scene: Scene, i: int, d: nat)
    requires
        0 <= i < 4096,
        d <= 6,
        !scene.visible(cell_at(i)),
    ensures
        scene.vertices((6 * i + d) as nat) == scene.vertices((6 * i) as nat),
        scene.indices((6 * i + d) as nat) == scene.indices((6 * i) as nat),
    decreases d,
{
    if d > 0 {
        lemma_skip_cell(scene, i, (d - 1) as nat);
        assert((6 * i + d - 1) / 6 == i);
        assert(!scene.slot_has_face(6 * i + d - 1));
        assert(scene.vertices((6 * i + d) as nat) =~= scene.vertices((6 * i + d - 1) as nat));
    }
}

/// The offsets of the eight samples around a face.
fn sample_offsets() -> (offsets: [(isize, isize); 8])
    ensures
        forall|k: int|
            0 <= k < 8 ==> (#[trigger] offsets@[k].0 as int, offsets@[k].1 as int) == sample_offset(
                k,
            ),
{
    [(-1, 0), (-1, 1), (0, 1), (1, 1), (1, 0), (1, -1), (0, -1), (-1, -1)]
}

/// Tests whether the cell at `(x, y, z)`, counted from the origin of the
/// chunk at `pos`, holds a block that hides faces.
fn is_opaque_at(
    world: &World,
    chunk: &Chunk,
    pos: ChunkPos,
    registry: &BlockRegistry,
    x: isize,
    y: isize,
    z: isize,
) -> (b: bool)
    requires
        world.wf(),
        world@.contains_key(pos),
        *chunk == world@[pos],
        all_registered(registry, world@),
        -1 <= x <= 16,
        -1 <= y <= 16,
        -1 <= z <= 16,
    ensures
        forall|ao: bool|
            b == (Scene { chunks: world@, registry: *registry, pos, enable_ao: ao }).opaque_at(
                x as int,
                y as int,
                z as int,
            ),
{
    let shift = Vector3 { x: chunk_step(x), y: chunk_step(y), z: chunk_step(z) };
    let rel = ChunkRelativeBlockPos { x: wrap_cell(x), y: wrap_cell(y), z: wrap_cell(z) };
    if shift.x == 0 && shift.y == 0 && shift.z == 0 {
        assert(pos.spec_add(shift) == pos);
        block_is_opaque(chunk, rel, registry)
    } else {
        match pos.checked_add(shift) {
            Some(at) => match world.chunk(at) {
                Some(other) => block_is_opaque(other, rel, registry),
                None => false,
            },
            None => false,
        }
    }
}

/// The step to the chunk that holds the coordinate `c`: -1, 0 or 1.
fn chunk_step(c: isize) -> (step: isize)
    requires
        -1 <= c <= 16,
    ensures
        step == c / 16,
{
    if c < 0 {
        -1
    } else if c > 15 {
        1
    } else {
        0
    }
}

/// The coordinate `c` within the chunk that holds it.
fn wrap_cell(c: isize) -> (r: usize)
    requires
        -1 <= c <= 16,
    ensures
        r == c % 16,
        r < 16,
{
    if c < 0 {
        15
    } else if c > 15 {
        0
    } else {
        c as usize
    }
}

/// Tests whether the block at `rel` hides faces.
fn block_is_opaque(chunk: &Chunk, rel: ChunkRelativeBlockPos, registry: &BlockRegistry) -> (b:
    bool)
    requires
        rel.in_chunk(),
        registered(registry, *chunk),
    ensures
        b == registry.is_opaque(chunk.spec_block(rel).id),
{
    match registry.get(chunk.block(rel).id) {
        Some(attr) => !attr.transparent,
        None => false,
    }
}

/// Builds and caches the surface meshes of chunks.
pub struct ChunkMeshifier {
    cache: PosMap<Mesh>,
    enable_ao: bool,
}

impl ChunkMeshifier {
    /// Whether the cache is consistent. Holds of every meshifier that `new`
    /// made and `meshify` changed.
    pub closed spec fn wf(&self) -> bool {
        self.cache.wf()
    }

    /// The cached meshes by chunk position.
    pub closed spec fn view(&self) -> Map<ChunkPos, MeshContents> {
        self.cache@.map_values(|m: Mesh| m@)
    }

    /// Whether vertices are darkened by the blocks around them.
    pub closed spec fn spec_enable_ao(&self) -> bool {
        self.enable_ao
    }

    /// Whether vertices are darkened by the blocks around them.
    pub fn enable_ao(&self) -> (on: bool)
        ensures
            on == self.spec_enable_ao(),
    {
        self.enable_ao
    }

    /// Turns the darkening of vertices on or off. Cached meshes stay as
    /// they are until their chunks are meshed again.
    pub fn set_enable_ao(&mut self, on: bool)
        requires
            old(self).wf(),
        ensures
            final(self).wf(),
            final(self).spec_enable_ao() == on,
            final(self)@ == old(self)@,
    {
        self.enable_ao = on;
    }

    /// A meshifier with an empty cache, with darkening on.
    pub fn new() -> (m: Self)
        ensures
            m.wf(),
            m@ == Map::<ChunkPos, MeshContents>::empty(),
            m.spec_enable_ao(),
    {
        let m = ChunkMeshifier { cache: PosMap::new(), enable_ao: true };
        assert(m@ =~= Map::<ChunkPos, MeshContents>::empty());
        m
    }

    /// The mesh of the chunk loaded at `pos`. Where the chunk is not dirty
    /// and a mesh of it is cached, that mesh is returned and nothing
    /// changes. Else the mesh is built, cached in place of any earlier one,
    /// and the chunk's dirty flag is cleared.
    pub fn meshify(&mut self, world: &mut World, pos: ChunkPos, registry: &BlockRegistry) -> (mesh:
        &Mesh)
        requires
            old(self).wf(),
            old(world).wf(),
            old(world)@.contains_key(pos),
            all_registered(registry, old(world)@),
        ensures
            final(self).wf(),
            final(world).wf(),
            final(self).spec_enable_ao() == old(self).spec_enable_ao(),
            (final(self)@, final(world)@) == spec_meshify(
                old(self)@,
                old(world)@,
                pos,
                *registry,
                old(self).spec_enable_ao(),
            ),
            final(self)@.contains_key(pos),
            mesh@ == final(self)@[pos],
    {
        let dirty = match world.chunk(pos) {
            Some(chunk) => chunk.get_dirty(),
            None => true,
        };
        let cached = self.cache.contains_key(pos);
        if dirty || !cached {
            let ghost scene = Scene {
                chunks: world@,
                registry: *registry,
                pos,
                enable_ao: self.enable_ao,
            };
            let builder = self.build_chunk(world, pos, registry);
            proof {
                lemma_mesh_size(scene, 24576);
            }
            let mesh = builder.build();
            let ghost old_cache = self.cache@;
            self.cache.insert(pos, mesh);
            match world.chunk_mut(pos) {
                Some(chunk) => {
                    chunk.set_dirty(false);
                },
                None => {},
            }
            proof {
                assert(self@ =~= old(self)@.insert(pos, scene.mesh()));
            }
        }
        self.cache.get(pos).unwrap()
    }

    /// Collects the faces of the chunk at `pos`.
    fn build_chunk(&self, world: &World, pos: ChunkPos, registry: &BlockRegistry) -> (builder:
        MeshBuilder)
        requires
            world.wf(),
            world@.contains_key(pos),
            all_registered(registry, world@),
        ensures
            builder.spec_vertices() == (Scene {
                chunks: world@,
                registry: *registry,
                pos,
                enable_ao: self.enable_ao,
            }).vertices(24576),
            builder.spec_indices() == (Scene {
                chunks: world@,
                registry: *registry,
                pos,
                enable_ao: self.enable_ao,
            }).indices(24576),
    {
        let ghost scene = Scene { chunks: world@, registry: *registry, pos, enable_ao: self.enable_ao };
        let mut builder = MeshBuilder::new();
        let chunk = world.chunk(pos).unwrap();
        let dirs = Direction::all();
        for i in 0..4096usize
            invariant
                world.wf(),
                world@.contains_key(pos),
                all_registered(registry, world@),
                *chunk == world@[pos],
                dirs@ == Direction::spec_all(),
                scene == (Scene {
                    chunks: world@,
                    registry: *registry,
                    pos,
                    enable_ao: self.enable_ao,
                }),
                builder.spec_vertices() == scene.vertices((6 * i) as nat),
                builder.spec_indices() == scene.indices((6 * i) as nat),
        {
            let cell = ChunkRelativeBlockPos { x: i / 256, y: (i / 16) % 16, z: i % 16 };
            assert(cell == cell_at(i as int));
            let block = chunk.block(cell);
            let attr = registry.get(block.id).unwrap();
            if attr.invisible {
                proof {
                    lemma_skip_cell(scene, i as int, 6);
                }
            } else {
                let uv = attr.uv_coords;
                for d in 0..6usize
                    invariant
                        world.wf(),
                        world@.contains_key(pos),
                        all_registered(registry, world@),
                        *chunk == world@[pos],
                        dirs@ == Direction::spec_all(),
                        scene == (Scene {
                            chunks: world@,
                            registry: *registry,
                            pos,
                            enable_ao: self.enable_ao,
                        }),
                        i < 4096,
                        cell == cell_at(i as int),
                        cell.in_chunk(),
                        scene.visible(cell),
                        uv == registry.spec_get(chunk.spec_block(cell).id).unwrap().uv_coords,
                        builder.spec_vertices() == scene.vertices((6 * i + d) as nat),
                        builder.spec_indices() == scene.indices((6 * i + d) as nat),
                {
                    let dir = dirs[d];
                    let n = dir.normal();
                    let hidden = is_opaque_at(
                        world,
                        chunk,
                        pos,
                        registry,
                        cell.x as isize + n.x,
                        cell.y as isize + n.y,
                        cell.z as isize + n.z,
                    );
                    proof {
                        let s = 6 * i + d;
                        assert(s / 6 == i && s % 6 == d);
                        assert(Scene::slot_cell(s as int) == cell);
                        assert(Scene::slot_dir(s as int) == dir);
                        assert(scene.slot_has_face(s as int) == !hidden);
                        lemma_mesh_size(scene, s as nat);
                    }
                    if !hidden {
                        self.build_face(&mut builder, chunk, world, pos, cell, dir, uv, registry);
                    } else {
                        assert(scene.vertices((6 * i + d + 1) as nat) =~= scene.vertices(
                            (6 * i + d) as nat,
                        ));
                    }
                }
            }
        }
        builder
    }

    /// Appends the face `direction` of the block at `position` to `builder`,
    /// with the darkness of its four corners taken from the eight cells
    /// around the face.
    fn build_face(
        &self,
        builder: &mut MeshBuilder,
        chunk: &Chunk,
        world: &World,
        pos: ChunkPos,
        position: ChunkRelativeBlockPos,
        direction: Direction,
        uv: AtlasCell,
        registry: &BlockRegistry,
    )
        requires
            world.wf(),
            world@.contains_key(pos),
            *chunk == world@[pos],
            all_registered(registry, world@),
            position.in_chunk(),
            old(builder).spec_vertices().len() + 3 <= u32::MAX,
        ensures
            final(builder).spec_vertices() == old(builder).spec_vertices() + quad_vertices(
                position,
                direction,
                uv,
                (Scene {
                    chunks: world@,
                    registry: *registry,
                    pos,
                    enable_ao: self.enable_ao,
                }).face_ao(position, direction),
            ),
            final(builder).spec_indices() == old(builder).spec_indices() + quad_indices(
                old(builder).spec_vertices().len() as int,
            ),
    {
        let blocking = sample_around(chunk, world, pos, position, direction, registry);
        let ao = self.darkness(&blocking);
        proof {
            let scene = Scene { chunks: world@, registry: *registry, pos, enable_ao: self.enable_ao };
            assert forall|i: int| 0 <= i < 4 implies ao@[i] == scene.vertex_ao(
                position,
                direction,
                i,
            ) by {
                let lit = Scene { chunks: world@, registry: *registry, pos, enable_ao: true };
                assert(scene.blocked(position, direction, 2 * i) == lit.blocked(
                    position,
                    direction,
                    2 * i,
                ));
                assert(scene.blocked(position, direction, 2 * i + 1) == lit.blocked(
                    position,
                    direction,
                    2 * i + 1,
                ));
                assert(scene.blocked(position, direction, (2 * i + 2) % 8) == lit.blocked(
                    position,
                    direction,
                    (2 * i + 2) % 8,
                ));
            }
            assert(ao@ =~= scene.face_ao(position, direction));
        }
        let quad = make_quad(position, direction, uv, ao);
        let winding = quad_winding();
        let ghost offset = builder.spec_vertices().len() as int;
        builder.add_vert_indices(quad.as_slice(), winding.as_slice());
        assert(Seq::new(6, |i: int| (winding@[i] + offset) as u32) =~= quad_indices(offset));
    }

    /// The darkness of the four corners of a face, from the eight samples
    /// around it: each corner reads the two edge samples next to it and the
    /// corner sample between them.
    fn darkness(&self, blocking: &[bool; 8]) -> (ao: [u8; 4])
        ensures
            forall|i: int|
                0 <= i < 4 ==> #[trigger] ao@[i] == (if self.enable_ao {
                    ao_level(blocking@[2 * i], blocking@[2 * i + 1], blocking@[(2 * i + 2) % 8])
                } else {
                    0u8
                }),
    {
        if self.enable_ao {
            [
                corner_ao(blocking[0], blocking[1], blocking[2]),
                corner_ao(blocking[2], blocking[3], blocking[4]),
                corner_ao(blocking[4], blocking[5], blocking[6]),
                corner_ao(blocking[6], blocking[7], blocking[0]),
            ]
        } else {
            [0, 0, 0, 0]
        }
    }
}

/// Samples the eight cells around the face `direction` of the block at
/// `position`, one cell out along the face's normal.
fn sample_around(
    chunk: &Chunk,
    world: &World,
    pos: ChunkPos,
    position: ChunkRelativeBlockPos,
    direction: Direction,
    registry: &BlockRegistry,
) -> (blocking: [bool; 8])
    requires
        world.wf(),
        world@.contains_key(pos),
        *chunk == world@[pos],
        all_registered(registry, world@),
        position.in_chunk(),
    ensures
        forall|k: int|
            0 <= k < 8 ==> #[trigger] blocking@[k] == (Scene {
                chunks: world@,
                registry: *registry,
                pos,
                enable_ao: true,
            }).blocked(position, direction, k),
{
    let ghost scene = Scene { chunks: world@, registry: *registry, pos, enable_ao: true };
    let offsets = sample_offsets();
    let n = direction.normal();
    let mut blocking: [bool; 8] = [false; 8];
    for k in 0..8usize
        invariant
            world.wf(),
            world@.contains_key(pos),
            *chunk == world@[pos],
            all_registered(registry, world@),
            position.in_chunk(),
            n == direction.spec_normal(),
            scene == (Scene { chunks: world@, registry: *registry, pos, enable_ao: true }),
            forall|j: int|
                0 <= j < 8 ==> (#[trigger] offsets@[j].0 as int, offsets@[j].1 as int)
                    == sample_offset(j),
            forall|j: int|
                0 <= j < k ==> #[trigger] blocking@[j] == scene.blocked(position, direction, j),
    {
        let offset = offsets[k];
        assert((offsets@[k as int].0 as int, offsets@[k as int].1 as int) == sample_offset(
            k as int,
        ));
        let in_plane = direction.on_plane(offset.0, offset.1);
        let b = is_opaque_at(
            world,
            chunk,
            pos,
            registry,
            position.x as isize + in_plane.x + n.x,
            position.y as isize + in_plane.y + n.y,
            position.z as isize + in_plane.z + n.z,
        );
        blocking[k] = b;
    }
    blocking
}

/// Looks up the darkness of a vertex from its three samples.
fn corner_ao(edge_a: bool, corner: bool, edge_b: bool) -> (level: u8)
    ensures
        level == ao_level(edge_a, corner, edge_b),
{
    let bits: u8 = (if edge_a { 1u8 } else { 0u8 }) + (if corner { 2u8 } else { 0u8 }) + (if edge_b {
        4u8
    } else {
        0u8
    });
    get_ao(bits)
}

/// What `meshify` does to the cache and to the loaded chunks: nothing where
/// the chunk at `pos` is clean and has a cached mesh; else the chunk's mesh
/// enters the cache and the chunk becomes clean.
pub open spec fn spec_meshify(
    cache: Map<ChunkPos, MeshContents>,
    chunks: Map<ChunkPos, Chunk>,
    pos: ChunkPos,
    registry: BlockRegistry,
    enable_ao: bool,
) -> (Map<ChunkPos, MeshContents>, Map<ChunkPos, Chunk>) {
    if !chunks[pos].dirty && cache.contains_key(pos) {
        (cache, chunks)
    } else {
        (
            cache.insert(pos, (Scene { chunks, registry, pos, enable_ao }).mesh()),
            chunks.insert(pos, Chunk { dirty: false, ..chunks[pos] }),
        )
    }
}

/// Meshing a chunk a second time, with nothing changed in between, changes
/// nothing: the first call leaves the chunk clean and its mesh cached, and
/// the second returns that mesh.
pub proof fn lemma_meshify_idempotent(
    cache: Map<ChunkPos, MeshContents>,
    chunks: Map<ChunkPos, Chunk>,
    pos: ChunkPos,
    registry: BlockRegistry,
    enable_ao: bool,
)
    requires
        chunks.contains_key(pos),
    ensures
        ({
            let once = spec_meshify(cache, chunks, pos, registry, enable_ao);
            &&& !once.1[pos].dirty
            &&& once.0.contains_key(pos)
            &&& spec_meshify(once.0, once.1, pos, registry, enable_ao) == once
        }),
{
}

} // verus!
