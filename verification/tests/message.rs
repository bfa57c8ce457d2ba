use voxel_world::block::{Block, BlockId, BlockMetadata};
use voxel_world::chunk::Chunk;
use voxel_world::message::{
    frame, frame_length, unframe, FloatBits3, MessageToClient, MessageToServer,
};
use voxel_world::position::{BlockPos, ChunkPos};

fn bits(x: f32, y: f32, z: f32) -> FloatBits3 {
    FloatBits3 { x: x.to_bits(), y: y.to_bits(), z: z.to_bits() }
}

#[test]
fn names_of_messages_to_the_server() {
    let block = Block { id: BlockId(1), metadata: BlockMetadata(0) };
    assert_eq!(MessageToServer::Connect.name(), "MessageToServer::Connect");
    assert_eq!(
        MessageToServer::UpdatePlayerPosition { new_position: bits(1.0, 2.0, 3.0) }.name(),
        "MessageToServer::UpdatePlayerPosition"
    );
    assert_eq!(
        MessageToServer::GetChunk(ChunkPos::new(0, 0, 0)).name(),
        "MessageToServer::GetChunk"
    );
    assert_eq!(MessageToServer::GetChunks(vec![]).name(), "MessageToServer::GetChunks");
    assert_eq!(MessageToServer::UnloadChunks(vec![]).name(), "MessageToServer::UnloadChunks");
    assert_eq!(
        MessageToServer::ReplaceBlock { pos: BlockPos::new(0, 0, 0), new_block: block }.name(),
        "MessageToServer::ReplaceBlock"
    );
}

#[test]
fn names_of_messages_to_the_client() {
    let block = Block { id: BlockId(1), metadata: BlockMetadata(0) };
    assert_eq!(MessageToClient::Okay.name(), "MessageToClient::Ok");
    assert_eq!(
        MessageToClient::EntitiesPositionUpdate { entity: 3, new_position: bits(0.0, 0.0, 0.0) }
            .name(),
        "MessageToClient::EntitiesPositionUpdate"
    );
    assert_eq!(
        MessageToClient::Chunk(Chunk::new(ChunkPos::new(0, 0, 0))).name(),
        "MessageToClient::Chunk"
    );
    assert_eq!(MessageToClient::Chunks(vec![]).name(), "MessageToClient::Chunks");
    assert_eq!(
        MessageToClient::BlockPlaced { pos: BlockPos::new(0, 0, 0), new_block: block }.name(),
        "MessageToClient::BlockPlaced"
    );
}

#[test]
fn frame_puts_the_length_first() {
    assert_eq!(frame(&[]), Some(vec![0, 0, 0, 0]));
    assert_eq!(frame(&[7, 8, 9]), Some(vec![0, 0, 0, 3, 7, 8, 9]));
    let payload = vec![0xabu8; 0x0102_03];
    let framed = frame(&payload).unwrap();
    assert_eq!(&framed[..4], &[0, 1, 2, 3]);
    assert_eq!(&framed[4..], &payload[..]);
    assert_eq!(&framed[..4], &(payload.len() as u32).to_be_bytes());
}

#[test]
fn frame_length_is_big_endian() {
    assert_eq!(frame_length(&[0, 0, 0, 0]), 0);
    assert_eq!(frame_length(&[0, 0, 1, 2]), 258);
    assert_eq!(frame_length(&[1, 2, 3, 4]), 0x0102_0304);
    assert_eq!(frame_length(&[0xff, 0xff, 0xff, 0xff]), u32::MAX as usize);
}

#[test]
fn unframe_finds_the_payload() {
    let mut data = frame(&[5, 6, 7]).unwrap();
    assert_eq!(unframe(&data), Some((4, 7)));
    data.extend_from_slice(&[0, 0, 0, 1, 9]);
    assert_eq!(unframe(&data), Some((4, 7)));
    assert_eq!(&data[4..7], &[5, 6, 7]);
    assert_eq!(unframe(&data[7..]), Some((4, 5)));
}

#[test]
fn unframe_waits_for_the_whole_frame() {
    let data = frame(&[5, 6, 7]).unwrap();
    assert_eq!(unframe(&[]), None);
    assert_eq!(unframe(&data[..3]), None);
    assert_eq!(unframe(&data[..4]), None);
    assert_eq!(unframe(&data[..6]), None);
    assert_eq!(unframe(&[0, 0, 0, 0]), Some((4, 4)));
}
