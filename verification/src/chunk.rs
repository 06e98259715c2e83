//! One container record: a validated type code, a payload under the size
//! limit, and the checksum computed over type bytes and payload.

use crate::chunk_type::{ChunkType, valid_type_bytes};
use crate::error::PngError;
use crate::wire::{bytes_to_text, crc32_checksum_pair, crc32_of, lossy_text_of, push_u32_be,
    spec_u32_to_be_bytes};
use vstd::prelude::*;
use vstd::utf8::{decode_utf8, valid_utf8};

verus! {

/// The mathematical content of a chunk: its type bytes and its payload.
/// Length and checksum are functions of these two.
pub struct ChunkModel {
    pub type_bytes: Seq<u8>,
    pub data: Seq<u8>,
}

/// A model is well formed when its type bytes form a valid chunk type and
/// its payload is under the 2^31-byte limit.
pub open spec fn wf_model(m: ChunkModel) -> bool {
    &&& valid_type_bytes(m.type_bytes)
    &&& m.data.len() < 0x8000_0000
}

/// The serialized record of a chunk: the payload length as 4 big-endian
/// bytes, the 4 type bytes, the payload, and the checksum over type bytes
/// and payload as 4 big-endian bytes.
pub open spec fn spec_chunk_record(m: ChunkModel) -> Seq<u8> {
    spec_u32_to_be_bytes(m.data.len() as u32) + m.type_bytes + m.data + spec_u32_to_be_bytes(
        crc32_of(m.type_bytes + m.data),
    )
}

/// An immutable record: type code, payload, and derived length and checksum.
#[derive(Debug)]
pub struct Chunk {
    length: u32,
    chunk_type: ChunkType,
    data: Vec<u8>,
    crc: u32,
}

impl View for Chunk {
    type V = ChunkModel;

    closed spec fn view(&self) -> ChunkModel {
        ChunkModel { type_bytes: self.chunk_type@, data: self.data@ }
    }
}

impl Chunk {
    /// The stored length field.
    pub closed spec fn length_spec(self) -> u32 {
        self.length
    }

    /// The stored checksum field.
    pub closed spec fn crc_spec(self) -> u32 {
        self.crc
    }

    /// A constructed chunk always carries a valid type, a payload under the
    /// limit, the payload's length, and the checksum over type and payload.
    pub open spec fn wf(self) -> bool {
        &&& wf_model(self@)
        &&& self.length_spec() == self@.data.len()
        &&& self.crc_spec() == crc32_of(self@.type_bytes + self@.data)
    }

    /// Builds a chunk from a type code and a payload, computing the checksum;
    /// fails exactly when the payload is at or over the 2^31-byte limit.
    pub fn new(chunk_type: ChunkType, data: Vec<u8>) -> (r: Result<Chunk, PngError>)
        requires
            chunk_type.wf(),
        ensures
            match r {
                Ok(c) => ({
                    &&& data@.len() < 0x8000_0000
                    &&& c.wf()
                    &&& c@ == (ChunkModel { type_bytes: chunk_type@, data: data@ })
                }),
                Err(e) => e == PngError::Capacity && data@.len() >= 0x8000_0000,
            },
    {
        if data.len() >= 0x80000000 {
            Err(PngError::Capacity)
        } else {
            let crc = crc32_checksum_pair(chunk_type.bytes(), data.as_slice());
            Ok(Chunk { length: data.len() as u32, chunk_type, data, crc })
        }
    }

    /// The payload length in bytes.
    pub fn length(&self) -> (r: u32)
        ensures
            r == self.length_spec(),
    {
        self.length
    }

    /// The chunk's type code.
    pub fn chunk_type(&self) -> (r: &ChunkType)
        ensures
            r@ == self@.type_bytes,
    {
        &self.chunk_type
    }

    /// The raw payload bytes.
    pub fn data(&self) -> (r: &[u8])
        ensures
            r@ == self@.data,
    {
        self.data.as_slice()
    }

    /// The stored checksum.
    pub fn crc(&self) -> (r: u32)
        ensures
            r == self.crc_spec(),
    {
        self.crc
    }

    /// The payload interpreted as lossy UTF-8 text.
    pub fn data_as_string(&self) -> (r: String)
        ensures
            r@ == lossy_text_of(self@.data),
            valid_utf8(self@.data) ==> r@ == decode_utf8(self@.data),
    {
        bytes_to_text(self.data.as_slice())
    }

    /// Serializes the record: length, type bytes, payload, checksum.
    pub fn as_bytes(&self) -> (r: Vec<u8>)
        requires
            self.wf(),
        ensures
            r@ == spec_chunk_record(self@),
    {
        let mut bytes: Vec<u8> = Vec::new();
        push_u32_be(&mut bytes, self.length);
        bytes.extend_from_slice(self.chunk_type.bytes());
        bytes.extend_from_slice(self.data.as_slice());
        push_u32_be(&mut bytes, self.crc);
        proof {
            assert(bytes@ =~= spec_chunk_record(self@));
        }
        bytes
    }
}

/// Checksum determinism: two well-formed chunks that hold the same type
/// bytes and the same payload carry the same checksum.
pub proof fn lemma_checksum_deterministic(a: Chunk, b: Chunk)
    requires
        a.wf(),
        b.wf(),
        a@.type_bytes == b@.type_bytes,
        a@.data == b@.data,
    ensures
        a.crc_spec() == b.crc_spec(),
{
}

} // verus!
