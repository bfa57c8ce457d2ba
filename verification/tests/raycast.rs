use voxel_world::block::{
    AtlasCell, Block, BlockAttributes, BlockId, BlockMetadata, BlockRegistry,
};
use voxel_world::direction::Vector3;
use voxel_world::position::{BlockPos, ChunkPos};
use voxel_world::world::{Crossing, HitInfo, World};

fn stone() -> Block {
    Block { id: BlockId(2), metadata: BlockMetadata(0) }
}

fn registry() -> BlockRegistry {
    let mut r = BlockRegistry::new();
    r.register(
        BlockId(0),
        BlockAttributes { transparent: true, invisible: true, uv_coords: AtlasCell { x: 0, y: 0 } },
    );
    r.register(
        BlockId(2),
        BlockAttributes {
            transparent: false,
            invisible: false,
            uv_coords: AtlasCell { x: 1, y: 0 },
        },
    );
    r
}

fn crossing(x: isize, y: isize, z: isize, normal: (isize, isize, isize), distance: u32) -> Crossing {
    Crossing {
        cell: BlockPos::new(x, y, z),
        normal: Vector3 { x: normal.0, y: normal.1, z: normal.2 },
        distance,
    }
}

/// A number that is ordered as the finite distances are.
fn order_key(t: f32) -> u32 {
    let bits = t.to_bits();
    if bits & 0x8000_0000 != 0 {
        !bits
    } else {
        bits | 0x8000_0000
    }
}

fn in_range(p: [f32; 3]) -> bool {
    p.iter().all(|v| *v >= -0.001 && *v <= 16.0 + 0.001)
}

fn fix_inside(v: f32) -> f32 {
    if v < 0.0 {
        0.0
    } else if v >= 16.0 {
        16.0 - 0.001
    } else {
        v
    }
}

fn fix_on_side(v: f32) -> f32 {
    if v < 0.0 {
        0.0
    } else if v > 16.0 {
        16.0
    } else {
        v
    }
}

/// Walks the ray chunk by chunk. The arithmetic on the ray is done here;
/// which crossing is the hit, the world decides.
fn raycast(
    world: &World,
    origin: [f32; 3],
    dir: [f32; 3],
    range: f32,
    registry: &BlockRegistry,
) -> Option<HitInfo> {
    let start = BlockPos::new(
        origin[0].floor() as isize,
        origin[1].floor() as isize,
        origin[2].floor() as isize,
    );
    let mut chunk_pos = start.chunk_pos();
    let mut rel = [
        origin[0] - chunk_pos.x as f32 * 16.0,
        origin[1] - chunk_pos.y as f32 * 16.0,
        origin[2] - chunk_pos.z as f32 * 16.0,
    ];
    let mut remaining = range;
    loop {
        if world.chunk(chunk_pos).is_some() {
            let mut crossings = Vec::new();
            for axis in 0..3 {
                for plane in 0..=16 {
                    let t = (plane as f32 - rel[axis]) / dir[axis];
                    if t < -0.001 || t > remaining {
                        continue;
                    }
                    let mut p = [rel[0] + dir[0] * t, rel[1] + dir[1] * t, rel[2] + dir[2] * t];
                    p[axis] += 0.001 * dir[axis].signum();
                    if in_range(p) {
                        let mut normal = [0isize; 3];
                        normal[axis] = -dir[axis].signum() as isize;
                        crossings.push(Crossing {
                            cell: BlockPos::new(
                                fix_inside(p[0]).floor() as isize,
                                fix_inside(p[1]).floor() as isize,
                                fix_inside(p[2]).floor() as isize,
                            ),
                            normal: Vector3 { x: normal[0], y: normal[1], z: normal[2] },
                            distance: order_key(t),
                        });
                    }
                }
            }
            if let Some(hit) = world.first_hit(chunk_pos, &crossings, registry) {
                return Some(hit);
            }
        }
        let mut stepped = false;
        for axis in 0..3 {
            let next = if dir[axis] >= 0.0 { 16.0 } else { 0.0 };
            let t = (next - rel[axis]) / dir[axis];
            let p = [rel[0] + dir[0] * t, rel[1] + dir[1] * t, rel[2] + dir[2] * t];
            if t <= remaining && in_range(p) {
                let mut step = [0isize; 3];
                step[axis] = dir[axis].signum() as isize;
                chunk_pos = match chunk_pos.checked_add(Vector3 {
                    x: step[0],
                    y: step[1],
                    z: step[2],
                }) {
                    Some(next_chunk) => next_chunk,
                    None => return None,
                };
                let mut q = p;
                q[axis] += 16.0 * -dir[axis].signum();
                rel = [fix_on_side(q[0]), fix_on_side(q[1]), fix_on_side(q[2])];
                remaining -= t;
                stepped = true;
                break;
            }
        }
        if !stepped {
            return None;
        }
    }
}

fn single_block_world() -> World {
    let mut w = World::new();
    w.create_empty_chunk(ChunkPos::new(0, 0, 0));
    w.place_block(stone(), BlockPos::new(8, 8, 8));
    w
}

#[test]
fn ray_from_above_hits_the_top_face() {
    let w = single_block_world();
    let hit = raycast(&w, [8.5, 20.0, 8.5], [0.0, -1.0, 0.0], 100.0, &registry());
    assert_eq!(
        hit,
        Some(HitInfo { position: BlockPos::new(8, 8, 8), normal: Vector3 { x: 0, y: 1, z: 0 } })
    );
}

#[test]
fn ray_that_falls_short_hits_nothing() {
    let w = single_block_world();
    assert_eq!(raycast(&w, [8.5, 20.0, 8.5], [0.0, -1.0, 0.0], 5.0, &registry()), None);
    assert_eq!(raycast(&w, [8.5, 20.0, 8.5], [0.0, 1.0, 0.0], 100.0, &registry()), None);
}

#[test]
fn ray_along_x_hits_the_side_face() {
    let w = single_block_world();
    let hit = raycast(&w, [-3.0, 8.5, 8.5], [1.0, 0.0, 0.0], 50.0, &registry());
    assert_eq!(
        hit,
        Some(HitInfo { position: BlockPos::new(8, 8, 8), normal: Vector3 { x: -1, y: 0, z: 0 } })
    );
}

#[test]
fn ray_hits_a_block_in_a_chunk_at_negative_coordinates() {
    let mut w = World::new();
    w.place_block(stone(), BlockPos::new(-5, -20, 3));
    let hit = raycast(&w, [-4.5, -2.5, 3.5], [0.0, -1.0, 0.0], 40.0, &registry());
    assert_eq!(
        hit,
        Some(HitInfo { position: BlockPos::new(-5, -20, 3), normal: Vector3 { x: 0, y: 1, z: 0 } })
    );
}

#[test]
fn ray_that_starts_on_a_chunk_boundary_crosses_it() {
    let w = single_block_world();
    let hit = raycast(&w, [16.0, 8.5, 8.5], [-1.0, 0.0, 0.0], 50.0, &registry());
    assert_eq!(
        hit,
        Some(HitInfo { position: BlockPos::new(8, 8, 8), normal: Vector3 { x: 1, y: 0, z: 0 } })
    );
}

#[test]
fn ray_through_the_nearer_of_two_blocks_stops_there() {
    let mut w = single_block_world();
    w.place_block(stone(), BlockPos::new(8, 3, 8));
    w.place_block(stone(), BlockPos::new(8, 12, 8));
    let hit = raycast(&w, [8.5, 20.0, 8.5], [0.0, -1.0, 0.0], 100.0, &registry());
    assert_eq!(hit.map(|h| h.position), Some(BlockPos::new(8, 12, 8)));
    let hit = raycast(&w, [8.5, -20.0, 8.5], [0.0, 1.0, 0.0], 100.0, &registry());
    assert_eq!(
        hit,
        Some(HitInfo { position: BlockPos::new(8, 3, 8), normal: Vector3 { x: 0, y: -1, z: 0 } })
    );
}

#[test]
fn a_block_is_put_against_the_face_that_was_hit() {
    let hit = HitInfo { position: BlockPos::new(8, 8, 8), normal: Vector3 { x: 0, y: 1, z: 0 } };
    assert_eq!(hit.adjacent(), Some(BlockPos::new(8, 9, 8)));
    let hit = HitInfo { position: BlockPos::new(-1, 0, 0), normal: Vector3 { x: -1, y: 0, z: 0 } };
    assert_eq!(hit.adjacent(), Some(BlockPos::new(-2, 0, 0)));
    let edge =
        HitInfo { position: BlockPos::new(0, isize::MAX, 0), normal: Vector3 { x: 0, y: 1, z: 0 } };
    assert_eq!(edge.adjacent(), None);
    assert_eq!(
        BlockPos::new(1, 2, 3).checked_add(Vector3 { x: -1, y: -2, z: -3 }),
        Some(BlockPos::new(0, 0, 0))
    );
    assert_eq!(BlockPos::new(isize::MIN, 0, 0).checked_add(Vector3 { x: -1, y: 0, z: 0 }), None);
}

#[test]
fn nearest_crossing_wins() {
    let mut w = World::new();
    w.place_block(stone(), BlockPos::new(16 + 3, 0, 0));
    w.place_block(stone(), BlockPos::new(16 + 5, 0, 0));
    let crossings = vec![
        crossing(5, 0, 0, (-1, 0, 0), 50),
        crossing(4, 0, 0, (-1, 0, 0), 40),
        crossing(3, 0, 0, (-1, 0, 0), 30),
        crossing(2, 0, 0, (-1, 0, 0), 20),
    ];
    assert_eq!(
        w.first_hit(ChunkPos::new(1, 0, 0), &crossings, &registry()),
        Some(HitInfo { position: BlockPos::new(19, 0, 0), normal: Vector3 { x: -1, y: 0, z: 0 } })
    );
}

#[test]
fn earliest_of_equally_near_crossings_wins() {
    let mut w = World::new();
    w.place_block(stone(), BlockPos::new(1, 1, 1));
    w.place_block(stone(), BlockPos::new(2, 1, 1));
    let crossings = vec![
        crossing(7, 7, 7, (0, 0, 1), 1),
        crossing(2, 1, 1, (0, 1, 0), 9),
        crossing(1, 1, 1, (1, 0, 0), 9),
    ];
    assert_eq!(
        w.first_hit(ChunkPos::new(0, 0, 0), &crossings, &registry()),
        Some(HitInfo { position: BlockPos::new(2, 1, 1), normal: Vector3 { x: 0, y: 1, z: 0 } })
    );
}

#[test]
fn crossing_cells_are_taken_within_the_chunk() {
    let mut w = World::new();
    w.place_block(stone(), BlockPos::new(-16 + 15, 0, 0));
    let crossings = vec![crossing(-1, 16, 32, (0, 0, -1), 0)];
    assert_eq!(
        w.first_hit(ChunkPos::new(-1, 0, 0), &crossings, &registry()),
        Some(HitInfo { position: BlockPos::new(-1, 0, 0), normal: Vector3 { x: 0, y: 0, z: -1 } })
    );
}

#[test]
fn no_hit_without_chunk_or_block() {
    let w = single_block_world();
    let r = registry();
    assert_eq!(w.first_hit(ChunkPos::new(0, 0, 0), &vec![], &r), None);
    assert_eq!(
        w.first_hit(ChunkPos::new(0, 0, 0), &vec![crossing(8, 9, 8, (0, 1, 0), 3)], &r),
        None
    );
    assert_eq!(
        w.first_hit(ChunkPos::new(0, 1, 0), &vec![crossing(8, 8, 8, (0, 1, 0), 3)], &r),
        None
    );
}

#[test]
fn no_hit_in_a_chunk_beyond_the_block_range() {
    let mut w = World::new();
    let far = ChunkPos::new(isize::MAX, 0, 0);
    let mut c = voxel_world::chunk::Chunk::new(far);
    c.set_block(voxel_world::position::ChunkRelativeBlockPos::new(0, 0, 0), stone());
    w.insert_chunk(far, c);
    assert_eq!(w.first_hit(far, &vec![crossing(0, 0, 0, (0, 1, 0), 3)], &registry()), None);
}
