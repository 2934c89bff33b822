//! The operations the command-line layer invokes, over in-memory byte
//! buffers: encode a message into a custom chunk, decode it back, remove a
//! chunk, and list the chunks of a file.

use vstd::prelude::*;
use vstd::string::{StrSliceExecFns, StringSliceAdditionalSpecFns};
use vstd::utf8::{decode_utf8, valid_utf8};

use crate::chunk::{Chunk, ChunkModel, MAX_CHUNK_LEN};
use crate::chunk_type::{code_of_text, ChunkType};
use crate::error::{ProgramError, ProgramResult};
use crate::png::{
    chunks_parse_spec, find_first, has_chunk, png_parse_chunks, png_parse_ok, ser_chunks,
    spec_signature, Png,
};

verus! {

/// What `Png::try_from_bytes` reports of a byte buffer that does not parse:
/// a truncation error for a buffer shorter than the signature, the signature
/// error carrying the received bytes, and otherwise exactly the chunk
/// stream's error.
pub open spec fn parse_err_matches(b: Seq<u8>, e: ProgramError) -> bool {
    &&& (b.len() < 8 ==> e == ProgramError::Truncated)
    &&& (b.len() >= 8 && b.subrange(0, 8) != spec_signature() ==> (
    e matches ProgramError::SignatureMismatch { received } && received@ == b.subrange(0, 8)))
    &&& (b.len() >= 8 && b.subrange(0, 8) == spec_signature() ==> Err::<
        Seq<ChunkModel>,
        ProgramError,
    >(e) == chunks_parse_spec(b.subrange(8, b.len() as int)))
}

/// One record of the chunk listing: the type code and the sizes and checksum
/// that belong to it, in plain values.
#[derive(Debug, Clone, Copy, PartialEq, Eq)]
pub struct ChunkInfo {
    pub type_code: [u8; 4],
    pub length: u32,
    pub data_size: u32,
    pub crc: u32,
}

/// Encode a message into a PNG file held in memory: parse the buffer, append
/// a chunk built from the type text and the message bytes, and re-serialize.
pub fn encode(input: &[u8], chunk_type: &str, message: &str) -> (r: ProgramResult<Vec<u8>>)
    ensures
        r is Ok <==> (png_parse_ok(input@) && message.spec_bytes().len() <= MAX_CHUNK_LEN),
        r is Ok ==> r->Ok_0@ == spec_signature() + ser_chunks(
            png_parse_chunks(input@).push(
                (ChunkModel {
                    type_code: code_of_text(chunk_type.spec_bytes()),
                    data: message.spec_bytes(),
                }),
            ),
        ),
        png_parse_ok(input@) && message.spec_bytes().len() > MAX_CHUNK_LEN ==> r == Err::<
            Vec<u8>,
            ProgramError,
        >(ProgramError::LengthLimitExceeded { length: message.spec_bytes().len() as u64 }),
        !png_parse_ok(input@) ==> r is Err && parse_err_matches(input@, r->Err_0),
{
    let mut png = match Png::try_from_bytes(input) {
        Ok(p) => p,
        Err(e) => {
            return Err(e);
        },
    };
    let data = message.as_bytes_vec();
    if data.len() > MAX_CHUNK_LEN as usize {
        return Err(ProgramError::LengthLimitExceeded { length: data.len() as u64 });
    }
    let ct = ChunkType::from_text(chunk_type);
    let chunk = Chunk::new(ct, data);
    png.append_chunk(chunk);
    Ok(png.as_bytes())
}

/// Search for a message hidden in a PNG file held in memory: parse the
/// buffer, find the first chunk of the given type, and decode its data as
/// UTF-8 text; an absent type is a "no message" answer, not an error.
pub fn decode(input: &[u8], chunk_type: &str) -> (r: ProgramResult<Option<String>>)
    ensures
        png_parse_ok(input@) && !has_chunk(
            png_parse_chunks(input@),
            code_of_text(chunk_type.spec_bytes()),
        ) ==> r == Ok::<Option<String>, ProgramError>(None),
        png_parse_ok(input@) && has_chunk(
            png_parse_chunks(input@),
            code_of_text(chunk_type.spec_bytes()),
        ) && valid_utf8(
            png_parse_chunks(input@)[find_first(
                png_parse_chunks(input@),
                code_of_text(chunk_type.spec_bytes()),
            )].data,
        ) ==> (r is Ok && r->Ok_0 is Some && r->Ok_0->Some_0@ == decode_utf8(
            png_parse_chunks(input@)[find_first(
                png_parse_chunks(input@),
                code_of_text(chunk_type.spec_bytes()),
            )].data,
        )),
        png_parse_ok(input@) && has_chunk(
            png_parse_chunks(input@),
            code_of_text(chunk_type.spec_bytes()),
        ) && !valid_utf8(
            png_parse_chunks(input@)[find_first(
                png_parse_chunks(input@),
                code_of_text(chunk_type.spec_bytes()),
            )].data,
        ) ==> r == Err::<Option<String>, ProgramError>(ProgramError::InvalidUtf8),
        !png_parse_ok(input@) ==> r is Err && parse_err_matches(input@, r->Err_0),
{
    let png = match Png::try_from_bytes(input) {
        Ok(p) => p,
        Err(e) => {
            return Err(e);
        },
    };
    match png.chunk_by_type(chunk_type) {
        None => Ok(None),
        Some(c) => match c.data_as_string() {
            Ok(s) => Ok(Some(s)),
            Err(e) => Err(e),
        },
    }
}

/// Remove the first chunk of the given type from a PNG file held in memory:
/// parse the buffer, remove the chunk, and return the re-serialized buffer
/// together with the removed chunk; an absent type is a lookup error.
pub fn remove(input: &[u8], chunk_type: &str) -> (r: ProgramResult<(Vec<u8>, Chunk)>)
    ensures
        png_parse_ok(input@) && has_chunk(
            png_parse_chunks(input@),
            code_of_text(chunk_type.spec_bytes()),
        ) ==> (r is Ok && r->Ok_0.0@ == spec_signature() + ser_chunks(
            png_parse_chunks(input@).remove(
                find_first(png_parse_chunks(input@), code_of_text(chunk_type.spec_bytes())),
            ),
        ) && r->Ok_0.1@ == png_parse_chunks(input@)[find_first(
            png_parse_chunks(input@),
            code_of_text(chunk_type.spec_bytes()),
        )]),
        png_parse_ok(input@) && !has_chunk(
            png_parse_chunks(input@),
            code_of_text(chunk_type.spec_bytes()),
        ) ==> r == Err::<(Vec<u8>, Chunk), ProgramError>(ProgramError::ChunkNotFound),
        !png_parse_ok(input@) ==> r is Err && parse_err_matches(input@, r->Err_0),
{
    let mut png = match Png::try_from_bytes(input) {
        Ok(p) => p,
        Err(e) => {
            return Err(e);
        },
    };
    match png.remove_chunk(chunk_type) {
        Ok(c) => Ok((png.as_bytes(), c)),
        Err(e) => Err(e),
    }
}

/// List the chunks of a PNG file held in memory, in file order: for each
/// chunk its type code, declared length, data size and CRC.
pub fn print_chunks(input: &[u8]) -> (r: ProgramResult<Vec<ChunkInfo>>)
    ensures
        r is Ok <==> png_parse_ok(input@),
        r is Ok ==> r->Ok_0@.len() == png_parse_chunks(input@).len(),
        r is Ok ==> forall|i: int|
            0 <= i < r->Ok_0@.len() ==> (#[trigger] r->Ok_0@[i]).type_code@ == png_parse_chunks(
                input@,
            )[i].type_code && r->Ok_0@[i].length == png_parse_chunks(input@)[i].data.len()
                && r->Ok_0@[i].data_size == png_parse_chunks(input@)[i].data.len()
                && r->Ok_0@[i].crc == png_parse_chunks(input@)[i].crc(),
        !png_parse_ok(input@) ==> r is Err && parse_err_matches(input@, r->Err_0),
{
    let png = match Png::try_from_bytes(input) {
        Ok(p) => p,
        Err(e) => {
            return Err(e);
        },
    };
    let ghost ms = png@;
    let chunks = png.chunks();
    let n = chunks.len();
    let mut out: Vec<ChunkInfo> = Vec::new();
    let mut i: usize = 0;
    while i < n
        invariant
            i <= n,
            n == chunks@.len(),
            ms == png_parse_chunks(input@),
            crate::png::models_of(chunks@) == ms,
            out@.len() == i,
            forall|j: int|
                0 <= j < i ==> (#[trigger] out@[j]).type_code@ == ms[j].type_code
                    && out@[j].length == ms[j].data.len() && out@[j].data_size == ms[j].data.len()
                    && out@[j].crc == ms[j].crc(),
        decreases n - i,
    {
        proof {
            assert(ms[i as int] == chunks@[i as int]@);
        }
        let c = &chunks[i];
        let len = c.length();
        let info = ChunkInfo {
            type_code: c.chunk_type().bytes(),
            length: len,
            data_size: len,
            crc: c.crc(),
        };
        out.push(info);
        i += 1;
    }
    Ok(out)
}

} // verus!
