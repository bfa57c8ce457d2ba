use voxel_world::block::{
    AtlasCell, Block, BlockAttributes, BlockId, BlockMetadata, BlockRegistry,
};
use voxel_world::chunk::Chunk;
use voxel_world::direction::{Direction, Vector3};
use voxel_world::mesh::{make_quad, quad_winding, MeshBuilder, MeshVertex, TexCoords};
use voxel_world::meshifier::{get_ao, ChunkMeshifier};
use voxel_world::position::{BlockPos, ChunkPos, ChunkRelativeBlockPos};
use voxel_world::world::World;

fn stone() -> Block {
    Block { id: BlockId(2), metadata: BlockMetadata(0) }
}

fn glass() -> Block {
    Block { id: BlockId(3), metadata: BlockMetadata(0) }
}

fn registry() -> BlockRegistry {
    let mut r = BlockRegistry::new();
    r.register(
        BlockId(0),
        BlockAttributes { transparent: true, invisible: true, uv_coords: AtlasCell { x: 0, y: 0 } },
    );
    r.register(
        BlockId(2),
        BlockAttributes {
            transparent: false,
            invisible: false,
            uv_coords: AtlasCell { x: 1, y: 0 },
        },
    );
    r.register(
        BlockId(3),
        BlockAttributes {
            transparent: true,
            invisible: false,
            uv_coords: AtlasCell { x: 2, y: 5 },
        },
    );
    r
}

fn v(x: isize, y: isize, z: isize) -> Vector3 {
    Vector3 { x, y, z }
}

fn positions(vertices: &[MeshVertex]) -> Vec<Vector3> {
    vertices.iter().map(|m| m.position).collect()
}

fn origin() -> ChunkPos {
    ChunkPos::new(0, 0, 0)
}

/// The vertices of the face `dir` of the block at `cell`.
fn face_of(vertices: &[MeshVertex], cell: (isize, isize, isize), dir: Direction) -> Vec<MeshVertex> {
    let n = dir.normal();
    let plane = match dir {
        Direction::North => cell.2 + 1,
        Direction::South => cell.2,
        Direction::West => cell.0 + 1,
        Direction::East => cell.0,
        Direction::Up => cell.1 + 1,
        Direction::Down => cell.1,
    };
    vertices
        .chunks(4)
        .filter(|q| {
            q[0].normal == n
                && q.iter().all(|m| dir.axle().of(m.position) == plane)
                && q.iter().all(|m| {
                    (cell.0..=cell.0 + 1).contains(&m.position.x)
                        && (cell.1..=cell.1 + 1).contains(&m.position.y)
                        && (cell.2..=cell.2 + 1).contains(&m.position.z)
                })
        })
        .flat_map(|q| q.to_vec())
        .collect()
}

#[test]
fn quad_corners_by_direction() {
    let cell = ChunkRelativeBlockPos::new(8, 8, 8);
    let uv = AtlasCell { x: 1, y: 0 };
    let at = |d: Direction| positions(&make_quad(cell, d, uv, [0, 0, 0, 0]));
    assert_eq!(at(Direction::North), vec![v(8, 9, 9), v(9, 9, 9), v(9, 8, 9), v(8, 8, 9)]);
    assert_eq!(at(Direction::East), vec![v(8, 9, 8), v(8, 9, 9), v(8, 8, 9), v(8, 8, 8)]);
    assert_eq!(at(Direction::South), vec![v(9, 9, 8), v(8, 9, 8), v(8, 8, 8), v(9, 8, 8)]);
    assert_eq!(at(Direction::West), vec![v(9, 9, 9), v(9, 9, 8), v(9, 8, 8), v(9, 8, 9)]);
    assert_eq!(at(Direction::Up), vec![v(9, 9, 9), v(8, 9, 9), v(8, 9, 8), v(9, 9, 8)]);
    assert_eq!(at(Direction::Down), vec![v(8, 8, 9), v(9, 8, 9), v(9, 8, 8), v(8, 8, 8)]);
}

#[test]
fn quad_carries_texture_darkness_and_normal() {
    let quad = make_quad(
        ChunkRelativeBlockPos::new(0, 15, 3),
        Direction::Down,
        AtlasCell { x: 4, y: 2 },
        [0, 1, 2, 3],
    );
    for (i, m) in quad.iter().enumerate() {
        assert_eq!(m.tex_coords, TexCoords { cell: AtlasCell { x: 4, y: 2 }, corner: i as u8 });
        assert_eq!(m.ambient_occlusion, i as u8);
        assert_eq!(m.normal, v(0, -1, 0));
    }
    assert_eq!(quad_winding(), [0, 3, 1, 1, 3, 2]);
}

#[test]
fn builder_moves_indices_behind_earlier_vertices() {
    let uv = AtlasCell { x: 0, y: 0 };
    let a = make_quad(ChunkRelativeBlockPos::new(1, 1, 1), Direction::Up, uv, [0; 4]);
    let b = make_quad(ChunkRelativeBlockPos::new(2, 2, 2), Direction::Down, uv, [1; 4]);
    let mut builder = MeshBuilder::new();
    builder.add_vert_indices(&a, &[0, 3, 1, 1, 3, 2]);
    builder.add_vert_indices(&b, &[0, 1, 2]);
    let mesh = builder.build();
    assert_eq!(mesh.vertices.len(), 8);
    assert_eq!(&mesh.vertices[..4], &a);
    assert_eq!(&mesh.vertices[4..], &b);
    assert_eq!(mesh.indices, vec![0, 3, 1, 1, 3, 2, 4, 5, 6]);
    assert_eq!(mesh.num_elements, 9);
}

#[test]
fn add_face_appends_an_undarkened_quad() {
    let uv = AtlasCell { x: 3, y: 1 };
    let mut builder = MeshBuilder::new();
    builder.add_face(ChunkRelativeBlockPos::new(0, 0, 0), Direction::North, uv);
    builder.add_face(ChunkRelativeBlockPos::new(0, 0, 0), Direction::West, uv);
    let mesh = builder.build();
    assert_eq!(
        mesh.vertices[..4].to_vec(),
        make_quad(ChunkRelativeBlockPos::new(0, 0, 0), Direction::North, uv, [0; 4]).to_vec()
    );
    assert_eq!(
        mesh.vertices[4..].to_vec(),
        make_quad(ChunkRelativeBlockPos::new(0, 0, 0), Direction::West, uv, [0; 4]).to_vec()
    );
    assert_eq!(mesh.indices, vec![0, 3, 1, 1, 3, 2, 4, 7, 5, 5, 7, 6]);
}

#[test]
fn empty_builder_builds_an_empty_mesh() {
    let mesh = MeshBuilder::new().build();
    assert!(mesh.vertices.is_empty());
    assert!(mesh.indices.is_empty());
    assert_eq!(mesh.num_elements, 0);
}

#[test]
fn darkness_table() {
    let expected = [0u8, 1, 1, 2, 1, 3, 2, 3];
    for bits in 0..8u8 {
        assert_eq!(get_ao(bits), expected[bits as usize]);
    }
}

#[test]
fn both_edges_blocked_is_darkest_whatever_the_corner() {
    assert_eq!(get_ao(0b101), 3);
    assert_eq!(get_ao(0b111), 3);
    assert!((0..8u8).all(|bits| get_ao(bits) <= 3));
}

#[test]
fn air_chunk_has_an_empty_mesh() {
    let mut w = World::new();
    w.create_empty_chunk(origin());
    let mut m = ChunkMeshifier::new();
    let mesh = m.meshify(&mut w, origin(), &registry());
    assert!(mesh.vertices.is_empty());
    assert!(mesh.indices.is_empty());
    assert!(!w.chunk(origin()).unwrap().get_dirty());
}

#[test]
fn single_block_has_six_faces() {
    let mut w = World::new();
    w.place_block(stone(), BlockPos::new(8, 8, 8));
    let mut m = ChunkMeshifier::new();
    let mesh = m.meshify(&mut w, origin(), &registry());
    assert_eq!(mesh.vertices.len(), 24);
    assert_eq!(mesh.indices.len(), 36);
    assert_eq!(mesh.num_elements, 36);
    let uv = AtlasCell { x: 1, y: 0 };
    let cell = ChunkRelativeBlockPos::new(8, 8, 8);
    for (k, d) in Direction::all().into_iter().enumerate() {
        assert_eq!(mesh.vertices[4 * k..4 * k + 4].to_vec(), make_quad(cell, d, uv, [0; 4]).to_vec());
        let base = 4 * k as u32;
        assert_eq!(
            mesh.indices[6 * k..6 * k + 6].to_vec(),
            vec![base, base + 3, base + 1, base + 1, base + 3, base + 2]
        );
    }
}

#[test]
fn faces_between_opaque_blocks_are_left_out() {
    let mut w = World::new();
    w.place_block(stone(), BlockPos::new(8, 8, 8));
    w.place_block(stone(), BlockPos::new(9, 8, 8));
    let mut m = ChunkMeshifier::new();
    let mesh = m.meshify(&mut w, origin(), &registry());
    assert_eq!(mesh.vertices.len(), 40);
    assert!(face_of(&mesh.vertices, (8, 8, 8), Direction::West).is_empty());
    assert!(face_of(&mesh.vertices, (9, 8, 8), Direction::East).is_empty());
    assert_eq!(face_of(&mesh.vertices, (8, 8, 8), Direction::East).len(), 4);
    assert_eq!(face_of(&mesh.vertices, (9, 8, 8), Direction::West).len(), 4);
}

#[test]
fn faces_against_transparent_blocks_are_built() {
    let mut w = World::new();
    w.place_block(stone(), BlockPos::new(8, 8, 8));
    w.place_block(glass(), BlockPos::new(9, 8, 8));
    let mut m = ChunkMeshifier::new();
    let mesh = m.meshify(&mut w, origin(), &registry());
    assert_eq!(mesh.vertices.len(), 44);
    assert_eq!(face_of(&mesh.vertices, (8, 8, 8), Direction::West).len(), 4);
    assert!(face_of(&mesh.vertices, (9, 8, 8), Direction::East).is_empty());
    let glass_up = face_of(&mesh.vertices, (9, 8, 8), Direction::Up);
    assert_eq!(glass_up[0].tex_coords.cell, AtlasCell { x: 2, y: 5 });
    assert!(mesh.vertices.iter().all(|m| m.ambient_occlusion == 0));
}

#[test]
fn face_on_the_chunk_boundary_looks_into_the_neighbour() {
    let mut w = World::new();
    w.place_block(stone(), BlockPos::new(15, 8, 8));
    let mut m = ChunkMeshifier::new();
    assert_eq!(m.meshify(&mut w, origin(), &registry()).vertices.len(), 24);
    w.place_block(glass(), BlockPos::new(16, 8, 8));
    assert_eq!(m.meshify(&mut w, origin(), &registry()).vertices.len(), 24);
    w.place_block(stone(), BlockPos::new(16, 8, 8));
    let mesh = m.meshify(&mut w, origin(), &registry());
    assert_eq!(mesh.vertices.len(), 20);
    assert!(face_of(&mesh.vertices, (15, 8, 8), Direction::West).is_empty());
}

#[test]
fn both_edges_blocked_darkens_the_corner_fully() {
    for corner_filled in [false, true] {
        let mut w = World::new();
        w.place_block(stone(), BlockPos::new(8, 8, 8));
        w.place_block(stone(), BlockPos::new(9, 9, 8));
        w.place_block(stone(), BlockPos::new(8, 9, 9));
        if corner_filled {
            w.place_block(stone(), BlockPos::new(9, 9, 9));
        }
        let mut m = ChunkMeshifier::new();
        let mesh = m.meshify(&mut w, origin(), &registry());
        let up = face_of(&mesh.vertices, (8, 8, 8), Direction::Up);
        assert_eq!(up.len(), 4);
        assert_eq!(up[0].position, v(9, 9, 9));
        assert_eq!(up[0].ambient_occlusion, 3);
        assert_eq!(up[2].position, v(8, 9, 8));
        assert_eq!(up[2].ambient_occlusion, 0);
    }
}

#[test]
fn darkness_counts_the_blocked_samples() {
    let mut w = World::new();
    w.place_block(stone(), BlockPos::new(8, 8, 8));
    w.place_block(stone(), BlockPos::new(9, 9, 9));
    let mut m = ChunkMeshifier::new();
    let mesh = m.meshify(&mut w, origin(), &registry());
    let up = face_of(&mesh.vertices, (8, 8, 8), Direction::Up);
    let levels: Vec<u8> = up.iter().map(|m| m.ambient_occlusion).collect();
    assert_eq!(levels, vec![1, 0, 0, 0]);
    w.place_block(stone(), BlockPos::new(9, 9, 8));
    let mesh = m.meshify(&mut w, origin(), &registry());
    let up = face_of(&mesh.vertices, (8, 8, 8), Direction::Up);
    let levels: Vec<u8> = up.iter().map(|m| m.ambient_occlusion).collect();
    assert_eq!(levels, vec![2, 0, 0, 1]);
}

#[test]
fn darkness_reads_the_chunks_around() {
    let mut w = World::new();
    w.place_block(stone(), BlockPos::new(15, 15, 8));
    let mut m = ChunkMeshifier::new();
    let flat = |mesh: &[MeshVertex]| -> Vec<u8> {
        face_of(mesh, (15, 15, 8), Direction::Up).iter().map(|m| m.ambient_occlusion).collect()
    };
    assert_eq!(flat(&m.meshify(&mut w, origin(), &registry()).vertices), vec![0, 0, 0, 0]);
    // One cell up and one towards +X: in the chunk diagonally above.
    w.place_block(stone(), BlockPos::new(16, 16, 8));
    w.chunk_mut(origin()).unwrap().set_dirty(true);
    assert_eq!(flat(&m.meshify(&mut w, origin(), &registry()).vertices), vec![1, 0, 0, 1]);
}

#[test]
fn darkening_can_be_turned_off() {
    let mut w = World::new();
    w.place_block(stone(), BlockPos::new(8, 8, 8));
    w.place_block(stone(), BlockPos::new(9, 9, 8));
    w.place_block(stone(), BlockPos::new(8, 9, 9));
    let mut m = ChunkMeshifier::new();
    assert!(m.enable_ao());
    m.set_enable_ao(false);
    assert!(!m.enable_ao());
    let mesh = m.meshify(&mut w, origin(), &registry());
    assert!(mesh.vertices.iter().all(|m| m.ambient_occlusion == 0));
}

#[test]
fn meshing_a_clean_chunk_returns_the_cached_mesh() {
    let mut w = World::new();
    w.place_block(stone(), BlockPos::new(8, 8, 8));
    let mut m = ChunkMeshifier::new();
    let first = m.meshify(&mut w, origin(), &registry()).vertices.clone();
    assert!(!w.chunk(origin()).unwrap().get_dirty());
    // A change behind the cache's back that leaves the chunk clean is not seen.
    w.chunk_mut(origin()).unwrap().set_block(ChunkRelativeBlockPos::new(1, 1, 1), stone());
    m.set_enable_ao(false);
    let second = m.meshify(&mut w, origin(), &registry());
    assert_eq!(second.vertices, first);
    assert_eq!(second.vertices.len(), 24);
    assert!(!w.chunk(origin()).unwrap().get_dirty());
}

#[test]
fn meshing_a_dirty_chunk_rebuilds() {
    let mut w = World::new();
    w.place_block(stone(), BlockPos::new(8, 8, 8));
    let mut m = ChunkMeshifier::new();
    assert_eq!(m.meshify(&mut w, origin(), &registry()).vertices.len(), 24);
    w.place_block(stone(), BlockPos::new(1, 1, 1));
    assert!(w.chunk(origin()).unwrap().get_dirty());
    assert_eq!(m.meshify(&mut w, origin(), &registry()).vertices.len(), 48);
    assert!(!w.chunk(origin()).unwrap().get_dirty());
}

#[test]
fn full_chunk_shows_only_its_hull() {
    let mut w = World::new();
    let mut c = Chunk::new(origin());
    for (p, _) in Chunk::new(origin()).block_iter() {
        c.set_block(p, stone());
    }
    w.insert_chunk(origin(), c);
    let mut m = ChunkMeshifier::new();
    let mesh = m.meshify(&mut w, origin(), &registry());
    assert_eq!(mesh.vertices.len(), 6 * 256 * 4);
    assert_eq!(mesh.indices.len(), 6 * 256 * 6);
    assert!(mesh.indices.iter().all(|i| (*i as usize) < mesh.vertices.len()));
}
