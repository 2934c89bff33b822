//! Implements `Png` as described by the PNG specification: the fixed 8-byte
//! signature followed by an ordered sequence of chunks, with parsing and
//! lossless re-encoding of the whole container.

use vstd::prelude::*;
use vstd::string::StringSliceAdditionalSpecFns;

use crate::chunk::{chunk_parse_spec, lemma_chunk_round_trip, Chunk, ChunkModel};
use crate::chunk_type::{code_of_text, ChunkType};
use crate::error::{ProgramError, ProgramResult};
use crate::utils::{be32, be32_int, lemma_be32_int_of_be32, lemma_be32_of_be32_int, read_u32_be};

verus! {

/// The first eight bytes of every PNG file.
pub open spec fn spec_signature() -> Seq<u8> {
    seq![137u8, 80u8, 78u8, 71u8, 13u8, 10u8, 26u8, 10u8]
}

/// The chunk models that a sequence of chunk values holds, in order.
pub open spec fn models_of(chunks: Seq<Chunk>) -> Seq<ChunkModel> {
    chunks.map_values(|c: Chunk| c@)
}

/// The concatenation of the frames of a chunk sequence, in order.
pub open spec fn ser_chunks(ms: Seq<ChunkModel>) -> Seq<u8>
    decreases ms.len(),
{
    if ms.len() == 0 {
        Seq::empty()
    } else {
        ms[0].ser() + ser_chunks(ms.drop_first())
    }
}

/// Serializing one more chunk appends its frame.
pub proof fn lemma_ser_chunks_push(ms: Seq<ChunkModel>, m: ChunkModel)
    ensures
        ser_chunks(ms.push(m)) == ser_chunks(ms) + m.ser(),
    decreases ms.len(),
{
    let s1 = ms.push(m);
    assert(s1[0] == if ms.len() == 0 { m } else { ms[0] });
    assert(ser_chunks(s1) == s1[0].ser() + ser_chunks(s1.drop_first()));
    if ms.len() == 0 {
        assert(s1.drop_first() =~= Seq::<ChunkModel>::empty());
        assert(ser_chunks(s1.drop_first()) == Seq::<u8>::empty());
        assert(ser_chunks(ms) == Seq::<u8>::empty());
        assert(ser_chunks(s1) =~= ser_chunks(ms) + m.ser());
    } else {
        assert(s1.drop_first() =~= ms.drop_first().push(m));
        lemma_ser_chunks_push(ms.drop_first(), m);
        assert(ser_chunks(ms) == ms[0].ser() + ser_chunks(ms.drop_first()));
        assert(ser_chunks(s1) =~= ser_chunks(ms) + m.ser());
    }
}

/// The result of reading a sequence of chunks until the end of the stream:
/// at the end of the bytes the read stops successfully; a length field or a
/// frame cut short is a truncation error; each frame is read by
/// `chunk_parse_spec`, whose failure aborts the whole read.
pub open spec fn chunks_parse_spec(b: Seq<u8>) -> Result<Seq<ChunkModel>, ProgramError>
    decreases b.len(),
{
    if b.len() == 0 {
        Ok(Seq::empty())
    } else if b.len() < 4 {
        Err(ProgramError::Truncated)
    } else {
        let length = be32_int(b.subrange(0, 4));
        if b.len() < 12 + length {
            Err(ProgramError::Truncated)
        } else {
            match chunk_parse_spec(b.subrange(0, 12 + length)) {
                Err(e) => Err(e),
                Ok(m) => match chunks_parse_spec(b.subrange(12 + length, b.len() as int)) {
                    Err(e) => Err(e),
                    Ok(rest) => Ok(seq![m] + rest),
                },
            }
        }
    }
}

/// A byte buffer parses as a PNG container: it starts with the standard
/// signature and the rest is a well-formed chunk stream.
pub open spec fn png_parse_ok(b: Seq<u8>) -> bool {
    b.len() >= 8 && b.subrange(0, 8) == spec_signature() && chunks_parse_spec(
        b.subrange(8, b.len() as int),
    ) is Ok
}

/// The chunks a parsable byte buffer holds, in file order.
pub open spec fn png_parse_chunks(b: Seq<u8>) -> Seq<ChunkModel> {
    chunks_parse_spec(b.subrange(8, b.len() as int))->Ok_0
}

/// There is a chunk of type `t` in the sequence.
pub open spec fn has_chunk(ms: Seq<ChunkModel>, t: Seq<u8>) -> bool {
    exists|i: int| 0 <= i < ms.len() && ms[i].type_code == t
}

/// The position of the first chunk of type `t`, or -1 when there is none.
pub open spec fn find_first(ms: Seq<ChunkModel>, t: Seq<u8>) -> int
    decreases ms.len(),
{
    if ms.len() == 0 {
        -1
    } else if ms[0].type_code == t {
        0
    } else {
        let r = find_first(ms.drop_first(), t);
        if r == -1 {
            -1
        } else {
            r + 1
        }
    }
}

/// `find_first` returns -1 exactly when no chunk matches; otherwise it
/// returns the position of a match that no earlier position shares.
pub proof fn lemma_find_first(ms: Seq<ChunkModel>, t: Seq<u8>)
    ensures
        has_chunk(ms, t) <==> find_first(ms, t) != -1,
        find_first(ms, t) != -1 ==> 0 <= find_first(ms, t) < ms.len() && ms[find_first(
            ms,
            t,
        )].type_code == t,
        forall|j: int| 0 <= j < find_first(ms, t) ==> (#[trigger] ms[j]).type_code != t,
    decreases ms.len(),
{
    if ms.len() == 0 {
    } else if ms[0].type_code == t {
    } else {
        let rest = ms.drop_first();
        lemma_find_first(rest, t);
        assert(forall|i: int| 0 <= i < rest.len() ==> rest[i] == ms[i + 1]);
        assert forall|j: int| 0 <= j < find_first(ms, t) implies (#[trigger] ms[j]).type_code
            != t by {
            if j >= 1 {
                assert(rest[j - 1] == ms[j]);
                assert(0 <= j - 1 < find_first(rest, t));
            }
        }
        if has_chunk(ms, t) {
            let i = choose|i: int| 0 <= i < ms.len() && ms[i].type_code == t;
            assert(i >= 1);
            assert(rest[i - 1].type_code == t);
            assert(has_chunk(rest, t));
        }
        if has_chunk(rest, t) {
            let i = choose|i: int| 0 <= i < rest.len() && rest[i].type_code == t;
            assert(ms[i + 1].type_code == t);
            assert(has_chunk(ms, t));
        }
    }
}

/// When position `i` holds the first match, `find_first` returns `i`.
pub proof fn lemma_find_first_at(ms: Seq<ChunkModel>, t: Seq<u8>, i: int)
    requires
        0 <= i < ms.len(),
        ms[i].type_code == t,
        forall|j: int| 0 <= j < i ==> (#[trigger] ms[j]).type_code != t,
    ensures
        find_first(ms, t) == i,
    decreases ms.len(),
{
    if i == 0 {
    } else {
        let rest = ms.drop_first();
        assert(forall|k: int| 0 <= k < rest.len() ==> rest[k] == ms[k + 1]);
        lemma_find_first_at(rest, t, i - 1);
    }
}

/// A PNG container: the standard signature followed by the chunk sequence
/// in on-disk order.
#[derive(Debug)]
pub struct Png {
    header: [u8; 8],
    chunks: Vec<Chunk>,
}

impl View for Png {
    type V = Seq<ChunkModel>;

    closed spec fn view(&self) -> Seq<ChunkModel> {
        models_of(self.chunks@)
    }
}

impl Png {
    /// The first eight bytes of a PNG file, which always contain the
    /// following (decimal) values.
    pub const STANDARD_HEADER: [u8; 8] = [137, 80, 78, 71, 13, 10, 26, 10];

    #[verifier::type_invariant]
    spec fn inv(self) -> bool {
        self.header@ == spec_signature()
    }

    /// Creates a `Png` from a list of chunks using the correct header.
    pub fn from_chunks(chunks: Vec<Chunk>) -> (p: Png)
        ensures
            p@ == models_of(chunks@),
    {
        let header: [u8; 8] = [137, 80, 78, 71, 13, 10, 26, 10];
        proof {
            assert(header@ =~= spec_signature());
        }
        Png { header, chunks }
    }

    /// The header of this PNG: always the standard signature.
    pub fn header(&self) -> (r: &[u8; 8])
        ensures
            r@ == spec_signature(),
    {
        proof {
            use_type_invariant(&*self);
        }
        &self.header
    }

    /// Lists the `Chunk`s stored in this `Png`, in order.
    pub fn chunks(&self) -> (r: &[Chunk])
        ensures
            models_of(r@) == self@,
            r@.len() == self@.len(),
    {
        self.chunks.as_slice()
    }

    /// Appends a chunk to the end of this `Png` file's `Chunk` list.
    pub fn append_chunk(&mut self, chunk: Chunk)
        ensures
            final(self)@ == old(self)@.push(chunk@),
    {
        proof {
            use_type_invariant(&*self);
        }
        let mut chunks: Vec<Chunk> = Vec::new();
        core::mem::swap(&mut self.chunks, &mut chunks);
        chunks.push(chunk);
        core::mem::swap(&mut self.chunks, &mut chunks);
        proof {
            assert(self@ =~= old(self)@.push(chunk@));
        }
    }

    /// Searches for a `Chunk` with the specified type and removes the first
    /// matching `Chunk` from this `Png`'s list of chunks; an absent type is
    /// a lookup error and leaves the container unchanged.
    pub fn remove_chunk(&mut self, chunk_type: &str) -> (r: ProgramResult<Chunk>)
        ensures
            has_chunk(old(self)@, code_of_text(chunk_type.spec_bytes())) ==> (r is Ok
                && r->Ok_0@ == old(self)@[find_first(
                old(self)@,
                code_of_text(chunk_type.spec_bytes()),
            )] && final(self)@ == old(self)@.remove(
                find_first(old(self)@, code_of_text(chunk_type.spec_bytes())),
            )),
            !has_chunk(old(self)@, code_of_text(chunk_type.spec_bytes())) ==> (r == Err::<
                Chunk,
                ProgramError,
            >(ProgramError::ChunkNotFound) && final(self)@ == old(self)@),
    {
        proof {
            use_type_invariant(&*self);
        }
        let ghost t = code_of_text(chunk_type.spec_bytes());
        let ct = ChunkType::from_text(chunk_type);
        let mut chunks: Vec<Chunk> = Vec::new();
        core::mem::swap(&mut self.chunks, &mut chunks);
        let ghost orig = chunks@;
        proof {
            assert(old(self)@ == orig.map_values(|c: Chunk| c@));
            assert(forall|j: int| 0 <= j < orig.len() ==> old(self)@[j] == (#[trigger] orig[j])@);
        }
        let n = chunks.len();
        let mut i: usize = 0;
        while i < n
            invariant
                i <= n,
                n == chunks@.len(),
                chunks@ == orig,
                orig == old(self).chunks@,
                self.header@ == spec_signature(),
                ct@ == t,
                t == code_of_text(chunk_type.spec_bytes()),
                forall|j: int| 0 <= j < i ==> (#[trigger] orig[j]@).type_code != t,
            decreases n - i,
        {
            if chunks[i].chunk_type().matches(&ct) {
                proof {
                    assert(old(self)@ == models_of(orig));
                    assert(forall|j: int|
                        0 <= j < orig.len() ==> old(self)@[j] == (#[trigger] orig[j])@);
                    assert(forall|j: int|
                        0 <= j < i ==> (#[trigger] old(self)@[j]).type_code != t);
                    assert(old(self)@[i as int].type_code == t);
                    lemma_find_first_at(old(self)@, t, i as int);
                    assert(has_chunk(old(self)@, t));
                }
                let c = chunks.remove(i);
                core::mem::swap(&mut self.chunks, &mut chunks);
                proof {
                    assert(self@ == models_of(orig.remove(i as int)));
                    assert(self@ =~= old(self)@.remove(i as int));
                }
                return Ok(c);
            }
            i += 1;
        }
        core::mem::swap(&mut self.chunks, &mut chunks);
        proof {
            assert(old(self)@ == models_of(orig));
            assert(forall|j: int| 0 <= j < orig.len() ==> old(self)@[j] == (#[trigger] orig[j])@);
            assert(forall|j: int|
                0 <= j < old(self)@.len() ==> (#[trigger] old(self)@[j]).type_code != t);
            assert(!has_chunk(old(self)@, t));
            assert(self@ =~= old(self)@);
        }
        Err(ProgramError::ChunkNotFound)
    }

    /// Searches for a `Chunk` with the specified type and returns the first
    /// matching `Chunk` from this `Png`, or nothing when none matches.
    pub fn chunk_by_type(&self, chunk_type: &str) -> (r: Option<&Chunk>)
        ensures
            has_chunk(self@, code_of_text(chunk_type.spec_bytes())) ==> (r is Some
                && r->Some_0@ == self@[find_first(
                self@,
                code_of_text(chunk_type.spec_bytes()),
            )]),
            !has_chunk(self@, code_of_text(chunk_type.spec_bytes())) ==> r is None,
    {
        let ghost t = code_of_text(chunk_type.spec_bytes());
        let ct = ChunkType::from_text(chunk_type);
        let n = self.chunks.len();
        let mut i: usize = 0;
        while i < n
            invariant
                i <= n,
                n == self.chunks@.len(),
                self@.len() == n,
                ct@ == t,
                t == code_of_text(chunk_type.spec_bytes()),
                forall|j: int| 0 <= j < i ==> (#[trigger] self@[j]).type_code != t,
            decreases n - i,
        {
            proof {
                assert(self@[i as int] == self.chunks@[i as int]@);
            }
            if self.chunks[i].chunk_type().matches(&ct) {
                proof {
                    assert(self@[i as int].type_code == t);
                    lemma_find_first_at(self@, t, i as int);
                    assert(has_chunk(self@, t));
                }
                return Some(&self.chunks[i]);
            }
            i += 1;
        }
        proof {
            assert(!has_chunk(self@, t));
        }
        None
    }

    /// Returns this `Png` as a byte sequence: the signature followed by the
    /// frames of all of the chunks, in order.
    pub fn as_bytes(&self) -> (r: Vec<u8>)
        ensures
            r@ == spec_signature() + ser_chunks(self@),
            forall|i: int| 0 <= i < self@.len() ==> (#[trigger] self@[i]).wf(),
    {
        proof {
            use_type_invariant(&*self);
        }
        let mut out: Vec<u8> = Vec::new();
        out.extend_from_slice(self.header.as_slice());
        let n = self.chunks.len();
        let mut i: usize = 0;
        while i < n
            invariant
                i <= n,
                n == self.chunks@.len(),
                self@.len() == n,
                out@ == spec_signature() + ser_chunks(self@.subrange(0, i as int)),
                forall|j: int| 0 <= j < i ==> (#[trigger] self@[j]).wf(),
            decreases n - i,
        {
            let cb = self.chunks[i].as_bytes();
            out.extend_from_slice(cb.as_slice());
            proof {
                assert(self@[i as int] == self.chunks@[i as int]@);
                lemma_ser_chunks_push(self@.subrange(0, i as int), self@[i as int]);
                assert(self@.subrange(0, i as int + 1) =~= self@.subrange(0, i as int).push(
                    self@[i as int],
                ));
                assert(out@ =~= spec_signature() + ser_chunks(self@.subrange(0, i as int + 1)));
            }
            i += 1;
        }
        proof {
            assert(self@.subrange(0, n as int) =~= self@);
        }
        out
    }

    /// Parses a whole byte buffer: the signature is checked byte for byte,
    /// then chunks are read until the end of the stream. The outcome is
    /// exactly the one `png_parse_ok`, `png_parse_chunks` and
    /// `chunks_parse_spec` describe.
    pub fn try_from_bytes(bytes: &[u8]) -> (r: ProgramResult<Png>)
        ensures
            r is Ok <==> png_parse_ok(bytes@),
            r is Ok ==> r->Ok_0@ == png_parse_chunks(bytes@),
            bytes@.len() < 8 ==> r == Err::<Png, ProgramError>(ProgramError::Truncated),
            (bytes@.len() >= 8 && bytes@.subrange(0, 8) != spec_signature()) ==> (r matches Err(
                ProgramError::SignatureMismatch { received },
            ) && received@ == bytes@.subrange(0, 8)),
            (bytes@.len() >= 8 && bytes@.subrange(0, 8) == spec_signature()
                && chunks_parse_spec(bytes@.subrange(8, bytes@.len() as int)) is Err) ==> (r is Err
                && r->Err_0 == chunks_parse_spec(bytes@.subrange(8, bytes@.len() as int))->Err_0),
    {
        let n = bytes.len();
        if n < 8 {
            return Err(ProgramError::Truncated);
        }
        let received: [u8; 8] = [
            bytes[0],
            bytes[1],
            bytes[2],
            bytes[3],
            bytes[4],
            bytes[5],
            bytes[6],
            bytes[7],
        ];
        proof {
            assert(received@ =~= bytes@.subrange(0, 8));
        }
        if !(bytes[0] == 137 && bytes[1] == 80 && bytes[2] == 78 && bytes[3] == 71 && bytes[4]
            == 13 && bytes[5] == 10 && bytes[6] == 26 && bytes[7] == 10) {
            proof {
                assert(bytes@.subrange(0, 8) != spec_signature()) by {
                    if bytes@.subrange(0, 8) == spec_signature() {
                        assert(bytes@.subrange(0, 8)[0] == 137 && bytes@.subrange(0, 8)[1] == 80
                            && bytes@.subrange(0, 8)[2] == 78 && bytes@.subrange(0, 8)[3] == 71
                            && bytes@.subrange(0, 8)[4] == 13 && bytes@.subrange(0, 8)[5] == 10
                            && bytes@.subrange(0, 8)[6] == 26 && bytes@.subrange(0, 8)[7] == 10);
                    }
                }
            }
            return Err(ProgramError::SignatureMismatch { received });
        }
        proof {
            assert(bytes@.subrange(0, 8) =~= spec_signature());
        }
        let ghost whole = bytes@.subrange(8, n as int);
        let mut chunks: Vec<Chunk> = Vec::new();
        let mut pos: usize = 8;
        while pos < n
            invariant
                8 <= pos <= n,
                n == bytes@.len(),
                whole == bytes@.subrange(8, n as int),
                bytes@.subrange(0, 8) == spec_signature(),
                chunks_parse_spec(bytes@.subrange(pos as int, n as int)) matches Ok(rest)
                    ==> chunks_parse_spec(whole) == Ok::<Seq<ChunkModel>, ProgramError>(
                    models_of(chunks@) + rest,
                ),
                chunks_parse_spec(bytes@.subrange(pos as int, n as int)) matches Err(e)
                    ==> chunks_parse_spec(whole) == Err::<Seq<ChunkModel>, ProgramError>(e),
            decreases n - pos,
        {
            let ghost suffix = bytes@.subrange(pos as int, n as int);
            if n - pos < 4 {
                return Err(ProgramError::Truncated);
            }
            let length_u32 = read_u32_be(bytes, pos);
            proof {
                assert(suffix.subrange(0, 4) =~= bytes@.subrange(pos as int, pos as int + 4));
            }
            if ((n - pos) as u64) < 12u64 + (length_u32 as u64) {
                return Err(ProgramError::Truncated);
            }
            let frame_len: usize = 12 + (length_u32 as usize);
            let frame = vstd::slice::slice_subrange(bytes, pos, pos + frame_len);
            proof {
                assert(frame@ =~= suffix.subrange(0, 12 + length_u32 as int));
            }
            match Chunk::try_from_bytes(frame) {
                Err(e) => {
                    return Err(e);
                },
                Ok(c) => {
                    proof {
                        assert(bytes@.subrange(pos as int + frame_len as int, n as int)
                            =~= suffix.subrange(12 + length_u32 as int, suffix.len() as int));
                        assert(models_of(chunks@.push(c)) =~= models_of(chunks@).push(c@));
                        let parsed_rest = chunks_parse_spec(
                            suffix.subrange(12 + length_u32 as int, suffix.len() as int),
                        );
                        if parsed_rest is Ok {
                            let rest = parsed_rest->Ok_0;
                            assert(models_of(chunks@) + (seq![c@] + rest) =~= models_of(
                                chunks@,
                            ).push(c@) + rest);
                        }
                    }
                    chunks.push(c);
                    pos = pos + frame_len;
                },
            }
        }
        proof {
            assert(bytes@.subrange(pos as int, n as int).len() == 0);
            assert(chunks_parse_spec(bytes@.subrange(pos as int, n as int)) == Ok::<
                Seq<ChunkModel>,
                ProgramError,
            >(Seq::empty()));
            assert(models_of(chunks@) + Seq::<ChunkModel>::empty() =~= models_of(chunks@));
        }
        let p = Png::from_chunks(chunks);
        Ok(p)
    }
}

/// A well-formed chunk sequence, serialized, parses back to itself.
#[verifier::rlimit(100)]
#[verifier::spinoff_prover]
pub proof fn lemma_chunks_round_trip(ms: Seq<ChunkModel>)
    requires
        forall|i: int| 0 <= i < ms.len() ==> (#[trigger] ms[i]).wf(),
    ensures
        chunks_parse_spec(ser_chunks(ms)) == Ok::<Seq<ChunkModel>, ProgramError>(ms),
    decreases ms.len(),
{
    if ms.len() == 0 {
        assert(ms =~= Seq::<ChunkModel>::empty());
        assert(ser_chunks(ms) == Seq::<u8>::empty());
        assert(chunks_parse_spec(ser_chunks(ms)) == Ok::<Seq<ChunkModel>, ProgramError>(ms));
    } else {
        let m = ms[0];
        let rest = ms.drop_first();
        let b = ser_chunks(ms);
        let len = m.data.len() as int;
        assert(b == m.ser() + ser_chunks(rest));
        assert(m.ser().len() == 12 + len);
        assert(b.subrange(0, 4) =~= be32(m.data.len() as u32));
        lemma_be32_int_of_be32(m.data.len() as u32);
        assert(be32_int(b.subrange(0, 4)) == len);
        assert(b.len() >= 12 + len);
        assert(b.subrange(0, 12 + len) =~= m.ser());
        lemma_chunk_round_trip(m);
        assert(forall|i: int| 0 <= i < rest.len() ==> rest[i] == ms[i + 1]);
        assert(forall|i: int| 0 <= i < rest.len() ==> (#[trigger] rest[i]).wf());
        lemma_chunks_round_trip(rest);
        assert(chunk_parse_spec(b.subrange(0, 12 + len)) == Ok::<ChunkModel, ProgramError>(m));
        assert(b.subrange(12 + len, b.len() as int) =~= ser_chunks(rest));
        assert(chunks_parse_spec(b.subrange(12 + len, b.len() as int)) == Ok::<
            Seq<ChunkModel>,
            ProgramError,
        >(rest));
        assert(seq![m] + rest =~= ms);
        assert(chunks_parse_spec(b) == Ok::<Seq<ChunkModel>, ProgramError>(seq![m] + rest));
    }
}

/// Round trip: the bytes of a container built from any well-formed chunk
/// sequence parse back to the same sequence, in the same order.
pub proof fn lemma_png_round_trip(ms: Seq<ChunkModel>)
    requires
        forall|i: int| 0 <= i < ms.len() ==> (#[trigger] ms[i]).wf(),
    ensures
        png_parse_ok(spec_signature() + ser_chunks(ms)),
        png_parse_chunks(spec_signature() + ser_chunks(ms)) == ms,
{
    let b = spec_signature() + ser_chunks(ms);
    assert(b.subrange(0, 8) =~= spec_signature());
    assert(b.subrange(8, b.len() as int) =~= ser_chunks(ms));
    lemma_chunks_round_trip(ms);
}

/// Signature gate: a buffer whose first eight bytes are not the standard
/// signature — or that is shorter than eight bytes — never parses as a PNG,
/// whatever follows.
pub proof fn lemma_signature_gate(b: Seq<u8>)
    ensures
        (b.len() < 8 || b.subrange(0, 8) != spec_signature()) ==> !png_parse_ok(b),
{
}

/// Remove semantics: when a type occurs exactly once, at position `k`,
/// removal hits position `k`, the result has one chunk fewer, and the type
/// is absent from it.
pub proof fn lemma_remove_unique(ms: Seq<ChunkModel>, t: Seq<u8>, k: int)
    requires
        0 <= k < ms.len(),
        ms[k].type_code == t,
        forall|j: int| 0 <= j < ms.len() && j != k ==> (#[trigger] ms[j]).type_code != t,
    ensures
        find_first(ms, t) == k,
        ms.remove(k).len() == ms.len() - 1,
        !has_chunk(ms.remove(k), t),
{
    lemma_find_first_at(ms, t, k);
    assert(forall|i: int|
        0 <= i < ms.remove(k).len() ==> (#[trigger] ms.remove(k)[i]).type_code != t);
}

/// The other direction of the round trip: re-encoding what a successful
/// parse produced reproduces the parsed bytes exactly.
#[verifier::rlimit(100)]
#[verifier::spinoff_prover]
pub proof fn lemma_chunks_serialize_parsed(b: Seq<u8>)
    requires
        chunks_parse_spec(b) is Ok,
    ensures
        ser_chunks(chunks_parse_spec(b)->Ok_0) == b,
    decreases b.len(),
{
    if b.len() == 0 {
        assert(ser_chunks(chunks_parse_spec(b)->Ok_0) =~= b);
    } else {
        let length = be32_int(b.subrange(0, 4));
        let frame = b.subrange(0, 12 + length);
        let m = chunk_parse_spec(frame)->Ok_0;
        let rest_b = b.subrange(12 + length, b.len() as int);
        let rest = chunks_parse_spec(rest_b)->Ok_0;
        assert(m.type_code == frame.subrange(4, 8));
        assert(m.data =~= frame.subrange(8, 8 + length));
        assert(m.data.len() == length);
        lemma_be32_of_be32_int(b.subrange(0, 4));
        assert(frame.subrange(0, 4) =~= b.subrange(0, 4));
        assert(be32(m.data.len() as u32) == b.subrange(0, 4));
        let crc_field = frame.subrange(8 + length, 12 + length);
        assert(m.crc() == be32_int(crc_field) as u32);
        lemma_be32_of_be32_int(crc_field);
        assert(be32(m.crc()) == crc_field);
        assert(m.ser() =~= frame);
        lemma_chunks_serialize_parsed(rest_b);
        let ms = chunks_parse_spec(b)->Ok_0;
        assert(ms == seq![m] + rest);
        assert(ms.drop_first() =~= rest);
        assert(ms[0] == m);
        assert(ser_chunks(ms) == m.ser() + ser_chunks(rest));
        lemma_split_at(b, 12 + length);
        assert(ser_chunks(ms) == b);
    }
}

/// Splitting a byte sequence at any point and re-joining the two parts
/// gives the sequence back.
proof fn lemma_split_at(x: Seq<u8>, k: int)
    requires
        0 <= k <= x.len(),
    ensures
        x.subrange(0, k) + x.subrange(k, x.len() as int) == x,
{
    assert(x.subrange(0, k) + x.subrange(k, x.len() as int) =~= x);
}

/// Re-encoding a parsed container is byte-for-byte the input: `as_bytes` is
/// the exact inverse of parsing for any container that parsing produced.
pub proof fn lemma_png_serialize_parsed(b: Seq<u8>)
    requires
        png_parse_ok(b),
    ensures
        spec_signature() + ser_chunks(png_parse_chunks(b)) == b,
{
    let tail = b.subrange(8, b.len() as int);
    lemma_chunks_serialize_parsed(tail);
    assert(ser_chunks(png_parse_chunks(b)) == tail);
    lemma_split_at(b, 8);
}

} // verus!
