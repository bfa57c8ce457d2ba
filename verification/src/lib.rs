//! A chunked voxel world: coordinate algebra, chunk storage, surface meshing
//! and the server-side chunk lifecycle, with machine-checked contracts.

pub mod block;
pub mod chunk;
pub mod codec;
pub mod direction;
pub mod entity;
pub mod lifecycle;
pub mod mesh;
pub mod meshifier;
pub mod message;
pub mod pos_map;
pub mod position;
pub mod server;
pub mod world;
pub mod worldgen;
