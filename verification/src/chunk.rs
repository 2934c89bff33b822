//! Implements `Chunk` as described by the PNG specification: one
//! length-prefixed, type-tagged, CRC-checked data record.

use vstd::prelude::*;
use vstd::utf8::{decode_utf8, valid_utf8};

use crate::chunk_type::ChunkType;
use crate::error::{ProgramError, ProgramResult};
use crate::utils::{
    be32, be32_int, crc32_of, crc_checksum, lemma_be32_int_of_be32, push_u32_be, read_u32_be,
    string_from_utf8,
};

verus! {

/// The largest data length a chunk may declare: 2^31 - 1.
pub const MAX_CHUNK_LEN: u32 = 0x7FFF_FFFF;

/// The mathematical content of a chunk: its 4-byte type code and its data.
/// Length and CRC are functions of these two and carry no extra information.
pub struct ChunkModel {
    pub type_code: Seq<u8>,
    pub data: Seq<u8>,
}

impl ChunkModel {
    /// The type code is exactly four bytes and the data fits the format's
    /// length limit.
    pub open spec fn wf(self) -> bool {
        self.type_code.len() == 4 && self.data.len() <= MAX_CHUNK_LEN
    }

    /// The checksum a well-formed chunk stores: the CRC-32 of its type code
    /// followed by its data.
    pub open spec fn crc(self) -> u32 {
        crc32_of(self.type_code + self.data)
    }

    /// The chunk's frame: big-endian length, type code, data, big-endian CRC.
    pub open spec fn ser(self) -> Seq<u8> {
        be32(self.data.len() as u32) + self.type_code + self.data + be32(self.crc())
    }
}

/// A chunk's frame is its data plus twelve bytes of framing.
pub proof fn lemma_ser_len(m: ChunkModel)
    ensures
        m.wf() ==> m.ser().len() == 12 + m.data.len(),
{
}

/// The result of reading one chunk from the front of a byte stream, in the
/// order the format fixes: a 4-byte big-endian length, the 4-byte type, the
/// data, and a 4-byte big-endian CRC that must equal the CRC recomputed over
/// type and data. Bytes past the frame are ignored.
pub open spec fn chunk_parse_spec(b: Seq<u8>) -> Result<ChunkModel, ProgramError> {
    if b.len() < 4 {
        Err(ProgramError::Truncated)
    } else {
        let length = be32_int(b.subrange(0, 4));
        if length > MAX_CHUNK_LEN {
            Err(ProgramError::LengthLimitExceeded { length: length as u64 })
        } else if b.len() < 12 + length {
            Err(ProgramError::Truncated)
        } else {
            let type_code = b.subrange(4, 8);
            let data = b.subrange(8, 8 + length);
            let expected = crc32_of(type_code + data);
            let received = be32_int(b.subrange(8 + length, 12 + length)) as u32;
            if expected != received {
                Err(ProgramError::CrcMismatch { expected, received })
            } else {
                Ok(ChunkModel { type_code, data })
            }
        }
    }
}

/// A validated PNG chunk: its stored length always equals its data's length,
/// and its stored CRC always equals the CRC-32 of its type code and data.
#[derive(Debug)]
pub struct Chunk {
    length: u32,
    chunk_type: ChunkType,
    data: Vec<u8>,
    crc: u32,
}

impl View for Chunk {
    type V = ChunkModel;

    closed spec fn view(&self) -> ChunkModel {
        ChunkModel { type_code: self.chunk_type@, data: self.data@ }
    }
}

impl Chunk {
    #[verifier::type_invariant]
    spec fn inv(self) -> bool {
        &&& self.length == self.data@.len()
        &&& self.data@.len() <= MAX_CHUNK_LEN
        &&& self.crc == crc32_of(self.chunk_type@ + self.data@)
    }

    /// Creates a new `Chunk` from a `ChunkType` and chunk data, computing
    /// the length and the CRC-32 of type code and data.
    pub fn new(chunk_type: ChunkType, data: Vec<u8>) -> (c: Chunk)
        requires
            data@.len() <= MAX_CHUNK_LEN,
        ensures
            c@ == (ChunkModel { type_code: chunk_type@, data: data@ }),
    {
        let mut buf: Vec<u8> = Vec::new();
        let tb = chunk_type.bytes();
        buf.extend_from_slice(tb.as_slice());
        buf.extend_from_slice(data.as_slice());
        proof {
            assert(buf@ =~= chunk_type@ + data@);
        }
        let crc = crc_checksum(buf.as_slice());
        let length = data.len() as u32;
        Chunk { length, chunk_type, data, crc }
    }

    /// The length of the data portion of this chunk.
    pub fn length(&self) -> (r: u32)
        ensures
            r == self@.data.len(),
            self@.wf(),
    {
        proof {
            use_type_invariant(self);
            self.chunk_type.lemma_code_len();
        }
        self.length
    }

    /// The `ChunkType` of this chunk.
    pub fn chunk_type(&self) -> (r: &ChunkType)
        ensures
            r@ == self@.type_code,
    {
        &self.chunk_type
    }

    /// The raw data contained in this chunk in bytes.
    pub fn data(&self) -> (r: &[u8])
        ensures
            r@ == self@.data,
    {
        self.data.as_slice()
    }

    /// The CRC of this chunk: always the CRC-32 of type code and data.
    pub fn crc(&self) -> (r: u32)
        ensures
            r == self@.crc(),
            self@.wf(),
    {
        proof {
            use_type_invariant(self);
            self.chunk_type.lemma_code_len();
        }
        self.crc
    }

    /// Returns the data stored in this chunk as a `String`.
    ///
    /// This function returns an error if the stored data is not valid UTF-8.
    pub fn data_as_string(&self) -> (r: ProgramResult<String>)
        ensures
            r is Ok <==> valid_utf8(self@.data),
            r is Ok ==> r->Ok_0@ == decode_utf8(self@.data),
            r is Err ==> r->Err_0 == ProgramError::InvalidUtf8,
    {
        let v = vstd::slice::slice_to_vec(self.data.as_slice());
        match string_from_utf8(v) {
            Some(s) => Ok(s),
            None => Err(ProgramError::InvalidUtf8),
        }
    }

    /// Returns this chunk as the byte sequence described by the PNG spec:
    /// big-endian length, type code, data, big-endian CRC.
    pub fn as_bytes(&self) -> (r: Vec<u8>)
        ensures
            r@ == self@.ser(),
            self@.wf(),
    {
        proof {
            use_type_invariant(self);
            self.chunk_type.lemma_code_len();
        }
        let mut out: Vec<u8> = Vec::new();
        push_u32_be(&mut out, self.length);
        let tb = self.chunk_type.bytes();
        out.extend_from_slice(tb.as_slice());
        out.extend_from_slice(self.data.as_slice());
        push_u32_be(&mut out, self.crc);
        proof {
            assert(out@ =~= self@.ser());
        }
        out
    }

    /// Reads one chunk from the front of `bytes`, validating the length
    /// bound and the CRC; the outcome is exactly `chunk_parse_spec`.
    pub fn try_from_bytes(bytes: &[u8]) -> (r: ProgramResult<Chunk>)
        ensures
            r is Ok <==> chunk_parse_spec(bytes@) is Ok,
            r is Ok ==> r->Ok_0@ == chunk_parse_spec(bytes@)->Ok_0 && r->Ok_0@.wf(),
            r is Err ==> r->Err_0 == chunk_parse_spec(bytes@)->Err_0,
    {
        let n = bytes.len();
        if n < 4 {
            return Err(ProgramError::Truncated);
        }
        let length_u32 = read_u32_be(bytes, 0);
        if length_u32 > MAX_CHUNK_LEN {
            return Err(ProgramError::LengthLimitExceeded { length: length_u32 as u64 });
        }
        if (n as u64) < 12u64 + (length_u32 as u64) {
            return Err(ProgramError::Truncated);
        }
        let length = length_u32 as usize;
        let type_arr: [u8; 4] = [bytes[4], bytes[5], bytes[6], bytes[7]];
        proof {
            assert(type_arr@ =~= bytes@.subrange(4, 8));
        }
        let chunk_type = match ChunkType::try_from_bytes(type_arr) {
            Ok(ct) => ct,
            Err(e) => {
                return Err(e);
            },
        };
        let data: Vec<u8> = vstd::slice::slice_to_vec(
            vstd::slice::slice_subrange(bytes, 8, 8 + length),
        );
        let mut buf: Vec<u8> = Vec::new();
        buf.extend_from_slice(type_arr.as_slice());
        buf.extend_from_slice(data.as_slice());
        proof {
            assert(buf@ =~= bytes@.subrange(4, 8) + bytes@.subrange(8, 8 + length as int));
        }
        let expected = crc_checksum(buf.as_slice());
        let received = read_u32_be(bytes, 8 + length);
        proof {
            assert(bytes@.subrange(8 + length as int, 8 + length as int + 4) =~= bytes@.subrange(
                8 + length as int,
                12 + length as int,
            ));
        }
        if expected != received {
            return Err(ProgramError::CrcMismatch { expected, received });
        }
        let c = Chunk { length: length_u32, chunk_type, data, crc: expected };
        proof {
            assert(c@ == chunk_parse_spec(bytes@)->Ok_0);
        }
        Ok(c)
    }
}

/// A well-formed chunk's frame parses back to the chunk itself: the length
/// field matches the data, and the CRC recomputed during parsing equals the
/// CRC stored during construction.
pub proof fn lemma_chunk_round_trip(m: ChunkModel)
    requires
        m.wf(),
    ensures
        chunk_parse_spec(m.ser()) == Ok::<ChunkModel, ProgramError>(m),
{
    let b = m.ser();
    let len = m.data.len() as int;
    assert(b.subrange(0, 4) =~= be32(m.data.len() as u32));
    lemma_be32_int_of_be32(m.data.len() as u32);
    assert(be32_int(b.subrange(0, 4)) == len);
    assert(b.len() == 12 + len);
    assert(b.subrange(4, 8) =~= m.type_code);
    assert(b.subrange(8, 8 + len) =~= m.data);
    assert(b.subrange(8 + len, 12 + len) =~= be32(m.crc()));
    lemma_be32_int_of_be32(m.crc());
    assert(chunk_parse_spec(b)->Ok_0 == m);
}

/// Tampering with the type or data bytes of an encoded chunk, while leaving
/// the length field and the stored CRC untouched, is caught whenever the
/// checksum of the altered bytes differs from the stored one: parsing fails
/// with the integrity error carrying both values. That any particular
/// alteration — a single flipped bit, say — does change the checksum is a
/// property of CRC-32 itself and is not stated here; the tests witness it on
/// concrete inputs.
pub proof fn lemma_tamper_detected(m: ChunkModel, b: Seq<u8>)
    requires
        m.wf(),
        b.len() == m.ser().len(),
        b.subrange(0, 4) == m.ser().subrange(0, 4),
        b.subrange(b.len() - 4, b.len() as int) == m.ser().subrange(
            m.ser().len() - 4,
            m.ser().len() as int,
        ),
    ensures
        crc32_of(b.subrange(4, 8) + b.subrange(8, b.len() - 4)) != m.crc()
            ==> chunk_parse_spec(b) == Err::<ChunkModel, ProgramError>(
            ProgramError::CrcMismatch {
                expected: crc32_of(b.subrange(4, 8) + b.subrange(8, b.len() - 4)),
                received: m.crc(),
            },
        ),
{
    let len = m.data.len() as int;
    assert(m.ser().subrange(0, 4) =~= be32(m.data.len() as u32));
    assert(b.subrange(0, 4) == be32(m.data.len() as u32));
    lemma_be32_int_of_be32(m.data.len() as u32);
    assert(be32_int(b.subrange(0, 4)) == len);
    assert(b.len() == 12 + len);
    assert(m.ser().subrange(m.ser().len() - 4, m.ser().len() as int) =~= be32(m.crc()));
    assert(b.subrange(8 + len, 12 + len) == be32(m.crc()));
    lemma_be32_int_of_be32(m.crc());
    assert(be32_int(b.subrange(8 + len, 12 + len)) == m.crc());
}

} // verus!
