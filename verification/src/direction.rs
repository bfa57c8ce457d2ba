//! The three axes and the six face directions of the block grid.

use vstd::prelude::*;

verus! {

/// An integer 3-vector: an offset between grid cells or between chunks.
#[derive(Debug, Clone, Copy, PartialEq, Eq, Structural)]
pub struct Vector3 {
    pub x: isize,
    pub y: isize,
    pub z: isize,
}

/// Selects one coordinate of a 3-vector.
#[derive(Debug, Clone, Copy, PartialEq, Eq, Structural)]
pub enum Vector3Accessor {
    X,
    Y,
    Z,
}

impl Vector3Accessor {
    /// The coordinate of `v` that this accessor selects.
    pub open spec fn spec_of(self, v: Vector3) -> isize {
        match self {
            Vector3Accessor::X => v.x,
            Vector3Accessor::Y => v.y,
            Vector3Accessor::Z => v.z,
        }
    }

    /// Reads the selected coordinate of `v`.
    pub fn of(self, v: Vector3) -> (e: isize)
        ensures
            e == self.spec_of(v),
    {
        match self {
            Vector3Accessor::X => v.x,
            Vector3Accessor::Y => v.y,
            Vector3Accessor::Z => v.z,
        }
    }
}

/// One of the six faces of a cube, named by compass convention.
#[derive(Debug, Clone, Copy, PartialEq, Eq, Structural)]
pub enum Direction {
    /// +Z
    North,
    /// -X
    East,
    /// -Z
    South,
    /// +X
    West,
    /// +Y
    Up,
    /// -Y
    Down,
}

impl Direction {
    /// The six directions in their canonical order.
    pub const ALL: [Direction; 6] = [
        Direction::North,
        Direction::East,
        Direction::South,
        Direction::West,
        Direction::Up,
        Direction::Down,
    ];

    /// The six directions in their canonical order.
    pub open spec fn spec_all() -> Seq<Direction> {
        seq![
            Direction::North,
            Direction::East,
            Direction::South,
            Direction::West,
            Direction::Up,
            Direction::Down,
        ]
    }

    /// The position of this direction in the canonical order.
    pub open spec fn spec_index(self) -> int {
        match self {
            Direction::North => 0,
            Direction::East => 1,
            Direction::South => 2,
            Direction::West => 3,
            Direction::Up => 4,
            Direction::Down => 5,
        }
    }

    /// The unit vector pointing out of this face.
    pub open spec fn spec_normal(self) -> Vector3 {
        match self {
            Direction::North => Vector3 { x: 0, y: 0, z: 1 },
            Direction::East => Vector3 { x: -1isize, y: 0, z: 0 },
            Direction::South => Vector3 { x: 0, y: 0, z: -1isize },
            Direction::West => Vector3 { x: 1, y: 0, z: 0 },
            Direction::Up => Vector3 { x: 0, y: 1, z: 0 },
            Direction::Down => Vector3 { x: 0, y: -1isize, z: 0 },
        }
    }

    /// Embeds the 2D coordinates `(cx, cy)` into the plane of this face. The
    /// coordinate along the normal is 0.
    pub open spec fn spec_on_plane(self, cx: int, cy: int) -> (int, int, int) {
        match self {
            Direction::North => (cx, cy, 0),
            Direction::East => (0, cy, cx),
            Direction::South => (-cx, cy, 0),
            Direction::West => (0, cy, -cx),
            Direction::Up => (-cx, 0, cy),
            Direction::Down => (cx, 0, cy),
        }
    }

    /// The axis along which this direction points.
    pub open spec fn spec_axle(self) -> Vector3Accessor {
        match self {
            Direction::North | Direction::South => Vector3Accessor::Z,
            Direction::East | Direction::West => Vector3Accessor::X,
            Direction::Up | Direction::Down => Vector3Accessor::Y,
        }
    }

    /// The chunk-relative coordinate, on this direction's axis, of the cells
    /// that touch this face of their chunk: 15 for a positive direction, 0
    /// for a negative one.
    pub open spec fn spec_chunk_limit(self) -> usize {
        match self {
            Direction::North | Direction::West | Direction::Up => 15,
            Direction::East | Direction::South | Direction::Down => 0,
        }
    }

    /// The opposite direction.
    pub open spec fn spec_inverse(self) -> Direction {
        match self {
            Direction::North => Direction::South,
            Direction::East => Direction::West,
            Direction::South => Direction::North,
            Direction::West => Direction::East,
            Direction::Up => Direction::Down,
            Direction::Down => Direction::Up,
        }
    }

    /// All six directions, in canonical order.
    pub fn all() -> (dirs: [Direction; 6])
        ensures
            dirs@ == Direction::spec_all(),
    {
        let dirs = Direction::ALL;
        assert(dirs@ =~= Direction::spec_all());
        dirs
    }

    /// The unit vector pointing out of this face.
    pub fn normal(&self) -> (n: Vector3)
        ensures
            n == self.spec_normal(),
    {
        match self {
            Direction::North => Vector3 { x: 0, y: 0, z: 1 },
            Direction::East => Vector3 { x: -1, y: 0, z: 0 },
            Direction::South => Vector3 { x: 0, y: 0, z: -1 },
            Direction::West => Vector3 { x: 1, y: 0, z: 0 },
            Direction::Up => Vector3 { x: 0, y: 1, z: 0 },
            Direction::Down => Vector3 { x: 0, y: -1, z: 0 },
        }
    }

    /// Embeds the 2D coordinates `(cx, cy)` into the plane of this face.
    pub fn on_plane(&self, cx: isize, cy: isize) -> (p: Vector3)
        requires
            cx > isize::MIN,
        ensures
            (p.x as int, p.y as int, p.z as int) == self.spec_on_plane(cx as int, cy as int),
    {
        match self {
            Direction::North => Vector3 { x: cx, y: cy, z: 0 },
            Direction::East => Vector3 { x: 0, y: cy, z: cx },
            Direction::South => Vector3 { x: -cx, y: cy, z: 0 },
            Direction::West => Vector3 { x: 0, y: cy, z: -cx },
            Direction::Up => Vector3 { x: -cx, y: 0, z: cy },
            Direction::Down => Vector3 { x: cx, y: 0, z: cy },
        }
    }

    /// The axis along which this direction points.
    pub fn axle(&self) -> (a: Vector3Accessor)
        ensures
            a == self.spec_axle(),
    {
        match self {
            Direction::North | Direction::South => Vector3Accessor::Z,
            Direction::East | Direction::West => Vector3Accessor::X,
            Direction::Up | Direction::Down => Vector3Accessor::Y,
        }
    }

    /// The chunk-relative coordinate of the cells touching this face.
    pub fn chunk_limit(&self) -> (l: usize)
        ensures
            l == self.spec_chunk_limit(),
    {
        match self {
            Direction::North | Direction::West | Direction::Up => 15,
            Direction::East | Direction::South | Direction::Down => 0,
        }
    }

    /// The opposite direction.
    pub fn inverse(&self) -> (d: Direction)
        ensures
            d == self.spec_inverse(),
    {
        match self {
            Direction::North => Direction::South,
            Direction::East => Direction::West,
            Direction::South => Direction::North,
            Direction::West => Direction::East,
            Direction::Up => Direction::Down,
            Direction::Down => Direction::Up,
        }
    }
}

/// A direction's normal is a unit step along its own axis, towards the face
/// that `chunk_limit` names, and the inverse direction points the other way
/// along the same axis.
pub proof fn lemma_direction_geometry(d: Direction)
    ensures
        d.spec_inverse().spec_inverse() == d,
        d.spec_inverse().spec_axle() == d.spec_axle(),
        d.spec_axle().spec_of(d.spec_normal()) == (if d.spec_chunk_limit() == 15 { 1isize } else { -1isize }),
        d.spec_inverse().spec_chunk_limit() == 15 - d.spec_chunk_limit(),
        d.spec_normal().x + d.spec_inverse().spec_normal().x == 0,
        d.spec_normal().y + d.spec_inverse().spec_normal().y == 0,
        d.spec_normal().z + d.spec_inverse().spec_normal().z == 0,
        Direction::spec_all()[d.spec_index()] == d,
{
}

} // verus!
