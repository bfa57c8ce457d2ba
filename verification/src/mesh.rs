//! Surface meshes in grid units: vertices on the corners of the block grid,
//! texture coordinates as corners of atlas cells, and darkness in sixths.

use vstd::prelude::*;
use crate::block::AtlasCell;
use crate::direction::{Direction, Vector3};
use crate::position::ChunkRelativeBlockPos;

verus! {

/// A corner of a cell of the texture atlas. Corner 0 is the top left one,
/// then clockwise: top right, bottom right, bottom left.
#[derive(Debug, Clone, Copy, PartialEq, Eq, Structural)]
pub struct TexCoords {
    pub cell: AtlasCell,
    pub corner: u8,
}

/// A vertex of a chunk's surface.
#[derive(Debug, Clone, Copy, PartialEq, Eq, Structural)]
pub struct MeshVertex {
    /// The grid corner that the vertex sits on, in blocks from the chunk's
    /// origin.
    pub position: Vector3,
    pub tex_coords: TexCoords,
    /// The darkening of the vertex by the blocks around it, in sixths: 0 for
    /// none to 3 for the most.
    pub ambient_occlusion: u8,
    pub normal: Vector3,
}

/// A triangulated surface: vertices, and indices into them, three per
/// triangle.
#[derive(Debug)]
pub struct Mesh {
    pub vertices: Vec<MeshVertex>,
    pub indices: Vec<u32>,
    pub num_elements: u32,
}

/// What a mesh holds, as sequences.
pub struct MeshContents {
    pub vertices: Seq<MeshVertex>,
    pub indices: Seq<u32>,
}

impl View for Mesh {
    type V = MeshContents;

    open spec fn view(&self) -> MeshContents {
        MeshContents { vertices: self.vertices@, indices: self.indices@ }
    }
}

/// The two signs that place corner `i` of a quad in the plane of its face:
/// top left, top right, bottom right, bottom left.
pub open spec fn corner_signs(i: int) -> (int, int) {
    if i == 0 {
        (-1, 1)
    } else if i == 1 {
        (1, 1)
    } else if i == 2 {
        (1, -1)
    } else {
        (-1, -1)
    }
}

/// 1 for a step towards the far side of a cell, 0 for one towards the near
/// side.
pub open spec fn far_side(step: int) -> int {
    if step > 0 {
        1
    } else {
        0
    }
}

/// The grid corner on which corner `i` of the face `dir` of the cell `cell`
/// lies: the cell's centre, moved half a block along the face's normal and
/// half a block each way within the face's plane.
pub open spec fn corner_position(cell: ChunkRelativeBlockPos, dir: Direction, i: int) -> Vector3 {
    let signs = corner_signs(i);
    let in_plane = dir.spec_on_plane(signs.0, signs.1);
    let n = dir.spec_normal();
    Vector3 {
        x: (cell.x + far_side(in_plane.0 + n.x)) as isize,
        y: (cell.y + far_side(in_plane.1 + n.y)) as isize,
        z: (cell.z + far_side(in_plane.2 + n.z)) as isize,
    }
}

/// The four vertices of the face `dir` of the cell `cell`, showing the atlas
/// cell `uv`, with the darkness `ao[i]` at corner `i`.
pub open spec fn quad_vertices(
    cell: ChunkRelativeBlockPos,
    dir: Direction,
    uv: AtlasCell,
    ao: Seq<u8>,
) -> Seq<MeshVertex> {
    Seq::new(
        4,
        |i: int|
            MeshVertex {
                position: corner_position(cell, dir, i),
                tex_coords: TexCoords { cell: uv, corner: i as u8 },
                ambient_occlusion: ao[i],
                normal: dir.spec_normal(),
            },
    )
}

/// The indices of the two triangles of a quad whose first vertex has index
/// `offset`: corners 0, 3, 1 and 1, 3, 2.
pub open spec fn quad_indices(offset: int) -> Seq<u32> {
    seq![
        offset as u32,
        (offset + 3) as u32,
        (offset + 1) as u32,
        (offset + 1) as u32,
        (offset + 3) as u32,
        (offset + 2) as u32,
    ]
}

/// The winding of a quad, relative to its first vertex.
pub fn quad_winding() -> (w: [u32; 6])
    ensures
        w@ == quad_indices(0),
{
    let w: [u32; 6] = [0, 3, 1, 1, 3, 2];
    assert(w@ =~= quad_indices(0));
    w
}

/// Builds the four vertices of one face.
pub fn make_quad(cell: ChunkRelativeBlockPos, dir: Direction, uv: AtlasCell, ao: [u8; 4]) -> (quad:
    [MeshVertex; 4])
    requires
        cell.in_chunk(),
    ensures
        quad@ == quad_vertices(cell, dir, uv, ao@),
{
    let n = dir.normal();
    let v0 = make_corner(cell, dir, n, uv, 0, -1, 1, ao[0]);
    let v1 = make_corner(cell, dir, n, uv, 1, 1, 1, ao[1]);
    let v2 = make_corner(cell, dir, n, uv, 2, 1, -1, ao[2]);
    let v3 = make_corner(cell, dir, n, uv, 3, -1, -1, ao[3]);
    let quad = [v0, v1, v2, v3];
    assert(quad@ =~= quad_vertices(cell, dir, uv, ao@));
    quad
}

fn make_corner(
    cell: ChunkRelativeBlockPos,
    dir: Direction,
    n: Vector3,
    uv: AtlasCell,
    i: u8,
    sx: isize,
    sy: isize,
    ao: u8,
) -> (v: MeshVertex)
    requires
        cell.in_chunk(),
        n == dir.spec_normal(),
        0 <= i < 4,
        (sx as int, sy as int) == corner_signs(i as int),
    ensures
        v == (MeshVertex {
            position: corner_position(cell, dir, i as int),
            tex_coords: TexCoords { cell: uv, corner: i },
            ambient_occlusion: ao,
            normal: dir.spec_normal(),
        }),
{
    let p = dir.on_plane(sx, sy);
    let fx: isize = if p.x + n.x > 0 { 1 } else { 0 };
    let fy: isize = if p.y + n.y > 0 { 1 } else { 0 };
    let fz: isize = if p.z + n.z > 0 { 1 } else { 0 };
    MeshVertex {
        position: Vector3 {
            x: cell.x as isize + fx,
            y: cell.y as isize + fy,
            z: cell.z as isize + fz,
        },
        tex_coords: TexCoords { cell: uv, corner: i },
        ambient_occlusion: ao,
        normal: n,
    }
}

/// Collects vertices and indices into a mesh.
pub struct MeshBuilder {
    vertices: Vec<MeshVertex>,
    indices: Vec<u32>,
}

impl MeshBuilder {
    /// The vertices collected so far.
    pub closed spec fn spec_vertices(&self) -> Seq<MeshVertex> {
        self.vertices@
    }

    /// The indices collected so far.
    pub closed spec fn spec_indices(&self) -> Seq<u32> {
        self.indices@
    }

    /// A builder that holds nothing.
    pub fn new() -> (b: Self)
        ensures
            b.spec_vertices() == Seq::<MeshVertex>::empty(),
            b.spec_indices() == Seq::<u32>::empty(),
    {
        MeshBuilder { vertices: Vec::new(), indices: Vec::new() }
    }

    /// The number of vertices collected so far.
    pub fn vertex_count(&self) -> (n: usize)
        ensures
            n == self.spec_vertices().len(),
    {
        self.vertices.len()
    }

    /// The number of indices collected so far.
    pub fn index_count(&self) -> (n: usize)
        ensures
            n == self.spec_indices().len(),
    {
        self.indices.len()
    }

    /// Appends `vertices`, and `local_indices` moved by the number of
    /// vertices that were there before, so that they point into the new
    /// ones.
    pub fn add_vert_indices(&mut self, vertices: &[MeshVertex], local_indices: &[u32])
        requires
            forall|i: int|
                0 <= i < local_indices@.len() ==> local_indices@[i] + old(self).spec_vertices().len()
                    <= u32::MAX,
        ensures
            final(self).spec_vertices() == old(self).spec_vertices() + vertices@,
            final(self).spec_indices() == old(self).spec_indices() + Seq::new(
                local_indices@.len(),
                |i: int| (local_indices@[i] + old(self).spec_vertices().len()) as u32,
            ),
    {
        let offset = self.vertices.len();
        let ghost old_vertices = self.vertices@;
        let ghost old_indices = self.indices@;
        let ghost moved = Seq::new(
            local_indices@.len(),
            |i: int| (local_indices@[i] + old_vertices.len()) as u32,
        );
        for i in 0..vertices.len()
            invariant
                self.vertices@ == old_vertices + vertices@.take(i as int),
                self.indices@ == old_indices,
        {
            self.vertices.push(vertices[i]);
            assert(self.vertices@ =~= old_vertices + vertices@.take(i + 1));
        }
        assert(vertices@.take(vertices@.len() as int) =~= vertices@);
        for i in 0..local_indices.len()
            invariant
                offset == old_vertices.len(),
                self.vertices@ == old_vertices + vertices@,
                self.indices@ == old_indices + moved.take(i as int),
                moved == Seq::new(
                    local_indices@.len(),
                    |i: int| (local_indices@[i] + old_vertices.len()) as u32,
                ),
                forall|i: int|
                    0 <= i < local_indices@.len() ==> local_indices@[i] + old_vertices.len()
                        <= u32::MAX,
        {
            self.indices.push(local_indices[i] + offset as u32);
            assert(self.indices@ =~= old_indices + moved.take(i + 1));
        }
        assert(moved.take(moved.len() as int) =~= moved);
    }

    /// Appends the face `direction` of the cell `cell` as a quad without
    /// darkening.
    pub fn add_face(&mut self, cell: ChunkRelativeBlockPos, direction: Direction, uv: AtlasCell)
        requires
            cell.in_chunk(),
            old(self).spec_vertices().len() + 3 <= u32::MAX,
        ensures
            final(self).spec_vertices() == old(self).spec_vertices() + quad_vertices(
                cell,
                direction,
                uv,
                seq![0u8, 0u8, 0u8, 0u8],
            ),
            final(self).spec_indices() == old(self).spec_indices() + quad_indices(
                old(self).spec_vertices().len() as int,
            ),
    {
        let ao: [u8; 4] = [0, 0, 0, 0];
        assert(ao@ =~= seq![0u8, 0u8, 0u8, 0u8]);
        let quad = make_quad(cell, direction, uv, ao);
        let winding = quad_winding();
        let ghost offset = self.vertices@.len() as int;
        self.add_vert_indices(quad.as_slice(), winding.as_slice());
        assert(Seq::new(6, |i: int| (winding@[i] + offset) as u32) =~= quad_indices(offset));
    }

    /// The mesh of what was collected.
    pub fn build(self) -> (mesh: Mesh)
        requires
            self.spec_indices().len() <= u32::MAX,
        ensures
            mesh.vertices@ == self.spec_vertices(),
            mesh.indices@ == self.spec_indices(),
            mesh.num_elements == self.spec_indices().len(),
    {
        let num_elements = self.indices.len() as u32;
        Mesh { vertices: self.vertices, indices: self.indices, num_elements }
    }
}

} // verus!
