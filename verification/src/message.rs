//! The messages that clients and the server exchange, and the framing of
//! their encodings on a stream.

use vstd::prelude::*;
use crate::block::Block;
use crate::chunk::Chunk;
use crate::position::{BlockPos, ChunkPos};

verus! {

/// A point or vector of three 32-bit floating-point numbers, each held as
/// its bits.
#[derive(Debug, Clone, Copy, PartialEq, Eq, Structural)]
pub struct FloatBits3 {
    pub x: u32,
    pub y: u32,
    pub z: u32,
}

/// What a client sends to the server.
#[derive(Debug)]
pub enum MessageToServer {
    Connect,
    UpdatePlayerPosition { new_position: FloatBits3 },
    GetChunk(ChunkPos),
    GetChunks(Vec<ChunkPos>),
    UnloadChunks(Vec<ChunkPos>),
    ReplaceBlock { pos: BlockPos, new_block: Block },
}

impl MessageToServer {
    /// The name of the message's kind.
    pub open spec fn spec_name(&self) -> Seq<char> {
        match self {
            MessageToServer::Connect => "MessageToServer::Connect"@,
            MessageToServer::UpdatePlayerPosition { .. } => "MessageToServer::UpdatePlayerPosition"@,
            MessageToServer::GetChunk(_) => "MessageToServer::GetChunk"@,
            MessageToServer::GetChunks(_) => "MessageToServer::GetChunks"@,
            MessageToServer::UnloadChunks(_) => "MessageToServer::UnloadChunks"@,
            MessageToServer::ReplaceBlock { .. } => "MessageToServer::ReplaceBlock"@,
        }
    }

    /// The name of the message's kind.
    pub fn name(&self) -> (n: &'static str)
        ensures
            n@ == self.spec_name(),
    {
        match self {
            MessageToServer::Connect => "MessageToServer::Connect",
            MessageToServer::UpdatePlayerPosition { .. } => "MessageToServer::UpdatePlayerPosition",
            MessageToServer::GetChunk(_) => "MessageToServer::GetChunk",
            MessageToServer::GetChunks(_) => "MessageToServer::GetChunks",
            MessageToServer::UnloadChunks(_) => "MessageToServer::UnloadChunks",
            MessageToServer::ReplaceBlock { .. } => "MessageToServer::ReplaceBlock",
        }
    }
}

/// What the server sends to a client.
#[derive(Debug)]
pub enum MessageToClient {
    /// The request was carried out and has no other answer.
    Okay,
    EntitiesPositionUpdate { entity: usize, new_position: FloatBits3 },
    Chunk(Chunk),
    Chunks(Vec<Chunk>),
    BlockPlaced { pos: BlockPos, new_block: Block },
}

impl MessageToClient {
    /// The name of the message's kind.
    pub open spec fn spec_name(&self) -> Seq<char> {
        match self {
            MessageToClient::Okay => "MessageToClient::Ok"@,
            MessageToClient::EntitiesPositionUpdate { .. } => "MessageToClient::EntitiesPositionUpdate"@,
            MessageToClient::Chunk(_) => "MessageToClient::Chunk"@,
            MessageToClient::Chunks(_) => "MessageToClient::Chunks"@,
            MessageToClient::BlockPlaced { .. } => "MessageToClient::BlockPlaced"@,
        }
    }

    /// The name of the message's kind.
    pub fn name(&self) -> (n: &'static str)
        ensures
            n@ == self.spec_name(),
    {
        match self {
            MessageToClient::Okay => "MessageToClient::Ok",
            MessageToClient::EntitiesPositionUpdate { .. } => "MessageToClient::EntitiesPositionUpdate",
            MessageToClient::Chunk(_) => "MessageToClient::Chunk",
            MessageToClient::Chunks(_) => "MessageToClient::Chunks",
            MessageToClient::BlockPlaced { .. } => "MessageToClient::BlockPlaced",
        }
    }
}

/// The length prefix of a frame: `len` as four bytes, most significant
/// first.
pub open spec fn length_prefix(len: nat) -> Seq<u8> {
    seq![
        (len / 0x100_0000) as u8,
        ((len / 0x1_0000) % 0x100) as u8,
        ((len / 0x100) % 0x100) as u8,
        (len % 0x100) as u8,
    ]
}

/// The length that the first four bytes of `bytes` spell.
pub open spec fn prefixed_length(bytes: Seq<u8>) -> nat {
    (bytes[0] * 0x100_0000 + bytes[1] * 0x1_0000 + bytes[2] * 0x100 + bytes[3]) as nat
}

/// A message's encoding as it goes on a stream: its length, then itself.
pub open spec fn spec_frame(payload: Seq<u8>) -> Seq<u8> {
    length_prefix(payload.len()) + payload
}

/// Frames `payload` for a stream. Fails exactly where the payload is too
/// long for its length to fit the four bytes of the prefix.
pub fn frame(payload: &[u8]) -> (r: Option<Vec<u8>>)
    ensures
        r.is_some() <==> payload@.len() <= u32::MAX,
        r matches Some(framed) ==> framed@ == spec_frame(payload@),
{
    let len = payload.len();
    if len > u32::MAX as usize {
        return None;
    }
    let mut framed: Vec<u8> = Vec::new();
    framed.push((len / 0x100_0000) as u8);
    framed.push(((len / 0x1_0000) % 0x100) as u8);
    framed.push(((len / 0x100) % 0x100) as u8);
    framed.push((len % 0x100) as u8);
    assert(framed@ =~= length_prefix(len as nat));
    let ghost head = framed@;
    for i in 0..len
        invariant
            len == payload@.len(),
            framed@ == head + payload@.take(i as int),
    {
        framed.push(payload[i]);
        assert(framed@ =~= head + payload@.take(i + 1));
    }
    assert(payload@.take(len as int) =~= payload@);
    Some(framed)
}

/// The length of the payload that follows the length prefix `header`.
pub fn frame_length(header: &[u8; 4]) -> (len: usize)
    ensures
        len == prefixed_length(header@),
        len <= u32::MAX,
{
    let len: u32 = (header[0] as u32) * 0x100_0000 + (header[1] as u32) * 0x1_0000 + (
    header[2] as u32) * 0x100 + (header[3] as u32);
    len as usize
}

/// Where the payload of the frame at the start of `data` lies, as the
/// positions of its first byte and behind its last, or `None` where `data`
/// does not hold the whole frame yet.
pub fn unframe(data: &[u8]) -> (r: Option<(usize, usize)>)
    ensures
        r.is_some() <==> data@.len() >= 4 && data@.len() >= 4 + prefixed_length(data@),
        r matches Some((start, end)) ==> start == 4 && end == 4 + prefixed_length(data@),
{
    if data.len() < 4 {
        return None;
    }
    let header: [u8; 4] = [data[0], data[1], data[2], data[3]];
    let len = frame_length(&header);
    if data.len() - 4 < len {
        None
    } else {
        Some((4, 4 + len))
    }
}

/// A frame holds its payload: the prefix of a framed payload spells the
/// payload's length, and the payload follows it, whatever comes after the
/// frame.
pub proof fn lemma_frame_round_trip(payload: Seq<u8>, rest: Seq<u8>)
    requires
        payload.len() <= u32::MAX,
    ensures
        length_prefix(payload.len()).len() == 4,
        prefixed_length(spec_frame(payload) + rest) == payload.len(),
        (spec_frame(payload) + rest).subrange(4, 4 + payload.len() as int) == payload,
{
    let framed = spec_frame(payload) + rest;
    let prefix = length_prefix(payload.len());
    assert(framed[0] == prefix[0] && framed[1] == prefix[1] && framed[2] == prefix[2] && framed[3]
        == prefix[3]);
    assert(framed.subrange(4, 4 + payload.len() as int) =~= payload);
}

} // verus!
