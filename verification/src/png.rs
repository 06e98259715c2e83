//! The container: the fixed 8-byte signature followed by an ordered sequence
//! of chunks. Supports full-buffer parsing, lookup, append, removal of the
//! first chunk of a type, and full re-serialization.

use crate::chunk::{Chunk, ChunkModel, spec_chunk_record, wf_model};
use crate::chunk_type::{ChunkType, valid_type_bytes};
use crate::error::PngError;
use crate::wire::{crc32_of, spec_u32_from_be_bytes, spec_u32_to_be_bytes, u32_from_be,
    lemma_u32_be_bytes_roundtrip};
use vstd::prelude::*;
use vstd::slice::{slice_index_get, slice_subrange, slice_to_vec};
use vstd::string::StringSliceAdditionalSpecFns;

verus! {

/// The fixed 8-byte signature that opens every container.
pub open spec fn spec_header() -> Seq<u8> {
    seq![137u8, 80u8, 78u8, 71u8, 13u8, 10u8, 26u8, 10u8]
}

/// The models of a sequence of chunks.
pub open spec fn models_of(s: Seq<Chunk>) -> Seq<ChunkModel> {
    s.map(|i: int, c: Chunk| c@)
}

/// Parses the region after the signature as consecutive chunk records until
/// the bytes run out. Mirrors, field by field and in order, the checks a
/// record must pass: a complete length, a complete and valid type code, a
/// complete payload, a complete checksum, the payload size limit, and the
/// checksum comparison. The first violation decides the error.
pub open spec fn spec_parse_records(b: Seq<u8>) -> Result<Seq<ChunkModel>, PngError>
    decreases b.len(),
{
    if b.len() == 0 {
        Ok(Seq::<ChunkModel>::empty())
    } else if b.len() < 4 {
        Err(PngError::Format)
    } else {
        let l = spec_u32_from_be_bytes(b.subrange(0, 4)) as int;
        if b.len() < 8 {
            Err(PngError::Format)
        } else {
            let t = b.subrange(4, 8);
            if !valid_type_bytes(t) {
                Err(PngError::Validation)
            } else if b.len() < 8 + l {
                Err(PngError::Format)
            } else if b.len() < 12 + l {
                Err(PngError::Format)
            } else {
                let d = b.subrange(8, 8 + l);
                let stored = spec_u32_from_be_bytes(b.subrange(8 + l, 12 + l));
                if l >= 0x8000_0000 {
                    Err(PngError::Capacity)
                } else if stored != crc32_of(t + d) {
                    Err(PngError::Integrity)
                } else {
                    match spec_parse_records(b.skip(12 + l)) {
                        Ok(rest) => Ok(seq![ChunkModel { type_bytes: t, data: d }] + rest),
                        Err(e) => Err(e),
                    }
                }
            }
        }
    }
}

/// Parses a whole buffer: the signature, then records until the end, and at
/// least one chunk.
pub open spec fn spec_parse_png(b: Seq<u8>) -> Result<Seq<ChunkModel>, PngError> {
    if b.len() < 8 || b.subrange(0, 8) != spec_header() {
        Err(PngError::Format)
    } else {
        match spec_parse_records(b.skip(8)) {
            Ok(ms) => if ms.len() == 0 {
                Err(PngError::Empty)
            } else {
                Ok(ms)
            },
            Err(e) => Err(e),
        }
    }
}

/// A record-region parse outcome with already-parsed models in front of it.
pub open spec fn parse_with_prefix(
    pre: Seq<ChunkModel>,
    r: Result<Seq<ChunkModel>, PngError>,
) -> Result<Seq<ChunkModel>, PngError> {
    match r {
        Ok(ms) => Ok(pre + ms),
        Err(e) => Err(e),
    }
}

/// The concatenated records of a sequence of chunk models.
pub open spec fn spec_records_bytes(ms: Seq<ChunkModel>) -> Seq<u8>
    decreases ms.len(),
{
    if ms.len() == 0 {
        Seq::<u8>::empty()
    } else {
        spec_chunk_record(ms[0]) + spec_records_bytes(ms.skip(1))
    }
}

/// The full serialized container: signature, then every record in order.
pub open spec fn spec_png_bytes(ms: Seq<ChunkModel>) -> Seq<u8> {
    spec_header() + spec_records_bytes(ms)
}

/// Serializing after appending one model appends that model's record.
pub proof fn lemma_records_bytes_push(ms: Seq<ChunkModel>, m: ChunkModel)
    ensures
        spec_records_bytes(ms.push(m)) == spec_records_bytes(ms) + spec_chunk_record(m),
    decreases ms.len(),
{
    if ms.len() == 0 {
        assert(ms.push(m).skip(1) =~= ms);
        assert(ms.push(m)[0] == m);
        assert(spec_records_bytes(ms.push(m)) == spec_chunk_record(m) + spec_records_bytes(ms));
        assert(spec_records_bytes(ms) =~= Seq::<u8>::empty());
        assert(spec_chunk_record(m) + spec_records_bytes(ms) =~= spec_records_bytes(ms)
            + spec_chunk_record(m));
    } else {
        lemma_records_bytes_push(ms.skip(1), m);
        assert(ms.push(m).skip(1) =~= ms.skip(1).push(m));
        assert(ms.push(m)[0] == ms[0]);
        assert(spec_chunk_record(ms[0]) + (spec_records_bytes(ms.skip(1)) + spec_chunk_record(m))
            =~= (spec_chunk_record(ms[0]) + spec_records_bytes(ms.skip(1))) + spec_chunk_record(
            m,
        ));
    }
}

/// The index of the first model whose type bytes equal `t`, or -1 when none
/// does.
pub open spec fn spec_find_first(ms: Seq<ChunkModel>, t: Seq<u8>) -> int
    decreases ms.len(),
{
    if ms.len() == 0 {
        -1
    } else if ms[0].type_bytes == t {
        0
    } else {
        let r = spec_find_first(ms.skip(1), t);
        if r == -1 {
            -1
        } else {
            r + 1
        }
    }
}

/// What `spec_find_first` returns: -1 exactly when no model matches, and
/// otherwise the least matching index.
pub proof fn lemma_find_first_props(ms: Seq<ChunkModel>, t: Seq<u8>)
    ensures
        spec_find_first(ms, t) == -1 ==> forall|i: int|
            0 <= i < ms.len() ==> (#[trigger] ms[i]).type_bytes != t,
        spec_find_first(ms, t) != -1 ==> {
            let r = spec_find_first(ms, t);
            &&& 0 <= r < ms.len()
            &&& ms[r].type_bytes == t
            &&& forall|j: int| 0 <= j < r ==> (#[trigger] ms[j]).type_bytes != t
        },
    decreases ms.len(),
{
    if ms.len() > 0 && ms[0].type_bytes != t {
        lemma_find_first_props(ms.skip(1), t);
        let r1 = spec_find_first(ms.skip(1), t);
        if r1 == -1 {
            assert forall|i: int| 0 <= i < ms.len() implies (#[trigger] ms[i]).type_bytes != t by {
                if i > 0 {
                    assert(ms[i] == ms.skip(1)[i - 1]);
                }
            }
        } else {
            assert(ms[r1 + 1] == ms.skip(1)[r1]);
            assert forall|j: int| 0 <= j < r1 + 1 implies (#[trigger] ms[j]).type_bytes != t by {
                if j > 0 {
                    assert(ms[j] == ms.skip(1)[j - 1]);
                }
            }
        }
    }
}

/// When no model among the first `i` matches, the first match is either
/// absent (at `i == len`) or at `i` itself when `ms[i]` matches.
pub proof fn lemma_find_first_from(ms: Seq<ChunkModel>, t: Seq<u8>, i: int)
    requires
        0 <= i <= ms.len(),
        forall|j: int| 0 <= j < i ==> (#[trigger] ms[j]).type_bytes != t,
    ensures
        i == ms.len() ==> spec_find_first(ms, t) == -1,
        i < ms.len() && ms[i].type_bytes == t ==> spec_find_first(ms, t) == i,
    decreases i,
{
    if ms.len() == 0 {
    } else if i == 0 {
    } else {
        assert(ms[0].type_bytes != t);
        assert forall|j: int| 0 <= j < i - 1 implies (#[trigger] ms.skip(1)[j]).type_bytes
            != t by {
            assert(ms.skip(1)[j] == ms[j + 1]);
        }
        lemma_find_first_from(ms.skip(1), t, i - 1);
        if i < ms.len() {
            assert(ms.skip(1)[i - 1] == ms[i]);
        }
    }
}

/// An ordered container of chunks behind the fixed signature.
#[derive(Debug)]
pub struct PNG {
    chunks: Vec<Chunk>,
}

impl View for PNG {
    type V = Seq<ChunkModel>;

    open spec fn view(&self) -> Seq<ChunkModel> {
        models_of(self.chunk_seq())
    }
}

impl PNG {
    /// The owned chunk sequence.
    pub closed spec fn chunk_seq(self) -> Seq<Chunk> {
        self.chunks@
    }

    /// Every held chunk is well formed.
    pub open spec fn wf(self) -> bool {
        forall|i: int| 0 <= i < self.chunk_seq().len() ==> (#[trigger] self.chunk_seq()[i]).wf()
    }

    /// Builds a container from an owned chunk sequence; fails exactly when
    /// the sequence is empty.
    pub fn from_chunks(chunks: Vec<Chunk>) -> (r: Result<PNG, PngError>)
        requires
            forall|i: int| 0 <= i < chunks@.len() ==> (#[trigger] chunks@[i]).wf(),
        ensures
            match r {
                Ok(p) => ({
                    &&& chunks@.len() >= 1
                    &&& p.wf()
                    &&& p.chunk_seq() == chunks@
                }),
                Err(e) => e == PngError::Empty && chunks@.len() == 0,
            },
    {
        if chunks.is_empty() {
            Err(PngError::Empty)
        } else {
            Ok(PNG { chunks })
        }
    }

    /// Parses a whole buffer as a container. The buffer must open with the
    /// signature and then consist of complete, valid, checksummed records up
    /// to its very end, with at least one of them; the first violation
    /// decides the error and nothing partial is returned.
    pub fn from_bytes(bytes: &[u8]) -> (r: Result<PNG, PngError>)
        ensures
            match r {
                Ok(p) => ({
                    &&& p.wf()
                    &&& p@.len() >= 1
                    &&& spec_parse_png(bytes@) == Ok::<Seq<ChunkModel>, PngError>(p@)
                }),
                Err(e) => spec_parse_png(bytes@) == Err::<Seq<ChunkModel>, PngError>(e),
            },
    {
        if bytes.len() < 8 {
            return Err(PngError::Format);
        }
        let h0 = *slice_index_get(bytes, 0);
        let h1 = *slice_index_get(bytes, 1);
        let h2 = *slice_index_get(bytes, 2);
        let h3 = *slice_index_get(bytes, 3);
        let h4 = *slice_index_get(bytes, 4);
        let h5 = *slice_index_get(bytes, 5);
        let h6 = *slice_index_get(bytes, 6);
        let h7 = *slice_index_get(bytes, 7);
        if !(h0 == 137 && h1 == 80 && h2 == 78 && h3 == 71 && h4 == 13 && h5 == 10 && h6 == 26
            && h7 == 10) {
            proof {
                if bytes@.subrange(0, 8) == spec_header() {
                    assert(forall|k: int|
                        0 <= k < 8 ==> bytes@.subrange(0, 8)[k] == #[trigger] spec_header()[k]);
                    assert(false);
                }
            }
            return Err(PngError::Format);
        }
        proof {
            assert(bytes@.subrange(0, 8) =~= spec_header());
        }
        let mut chunks: Vec<Chunk> = Vec::new();
        let mut offset: usize = 8;
        while offset < bytes.len()
            invariant
                8 <= offset <= bytes@.len(),
                bytes@.subrange(0, 8) == spec_header(),
                forall|j: int| 0 <= j < chunks@.len() ==> (#[trigger] chunks@[j]).wf(),
                spec_parse_records(bytes@.skip(8)) == parse_with_prefix(
                    models_of(chunks@),
                    spec_parse_records(bytes@.skip(offset as int)),
                ),
            decreases bytes@.len() - offset,
        {
            let ghost rem = bytes@.skip(offset as int);
            let remaining = bytes.len() - offset;
            proof {
                assert(rem.len() == remaining);
            }
            if remaining < 4 {
                return Err(PngError::Format);
            }
            let b0 = *slice_index_get(bytes, offset);
            let b1 = *slice_index_get(bytes, offset + 1);
            let b2 = *slice_index_get(bytes, offset + 2);
            let b3 = *slice_index_get(bytes, offset + 3);
            let length = u32_from_be(b0, b1, b2, b3);
            proof {
                assert(seq![b0, b1, b2, b3] =~= rem.subrange(0, 4));
                assert(length == spec_u32_from_be_bytes(rem.subrange(0, 4)));
            }
            if remaining < 8 {
                return Err(PngError::Format);
            }
            let t0 = *slice_index_get(bytes, offset + 4);
            let t1 = *slice_index_get(bytes, offset + 5);
            let t2 = *slice_index_get(bytes, offset + 6);
            let t3 = *slice_index_get(bytes, offset + 7);
            let traw: [u8; 4] = [t0, t1, t2, t3];
            proof {
                assert(traw@ =~= rem.subrange(4, 8));
            }
            let tc = match ChunkType::from_bytes(traw) {
                Ok(t) => t,
                Err(_) => {
                    return Err(PngError::Validation);
                },
            };
            let l_usize = length as usize;
            if remaining - 8 < l_usize {
                return Err(PngError::Format);
            }
            if remaining - 8 - l_usize < 4 {
                return Err(PngError::Format);
            }
            let data_start = offset + 8;
            let data_end = data_start + l_usize;
            let data = slice_to_vec(slice_subrange(bytes, data_start, data_end));
            proof {
                assert(data@ =~= rem.subrange(8, 8 + length as int));
            }
            let c0 = *slice_index_get(bytes, data_end);
            let c1 = *slice_index_get(bytes, data_end + 1);
            let c2 = *slice_index_get(bytes, data_end + 2);
            let c3 = *slice_index_get(bytes, data_end + 3);
            let stored = u32_from_be(c0, c1, c2, c3);
            proof {
                let l = length as int;
                assert(seq![c0, c1, c2, c3] =~= rem.subrange(8 + l, 12 + l));
                assert(stored == spec_u32_from_be_bytes(rem.subrange(8 + l, 12 + l)));
            }
            let chunk = match Chunk::new(tc, data) {
                Ok(c) => c,
                Err(_) => {
                    return Err(PngError::Capacity);
                },
            };
            if chunk.crc() != stored {
                return Err(PngError::Integrity);
            }
            let ghost pre = models_of(chunks@);
            let ghost m = chunk@;
            chunks.push(chunk);
            offset = data_end + 4;
            proof {
                let l = length as int;
                let t = rem.subrange(4, 8);
                let d = rem.subrange(8, 8 + l);
                assert(m == (ChunkModel { type_bytes: t, data: d }));
                assert(models_of(chunks@) =~= pre.push(m));
                assert(bytes@.skip(offset as int) =~= rem.skip(12 + l));
                let rnext = spec_parse_records(rem.skip(12 + l));
                assert(spec_parse_records(rem) == parse_with_prefix(seq![m], rnext));
                match rnext {
                    Ok(rest) => {
                        assert(pre + (seq![m] + rest) =~= pre.push(m) + rest);
                    },
                    Err(_) => {},
                }
                assert(parse_with_prefix(pre, spec_parse_records(rem)) == parse_with_prefix(
                    models_of(chunks@),
                    spec_parse_records(bytes@.skip(offset as int)),
                ));
            }
        }
        proof {
            assert(bytes@.skip(offset as int) =~= Seq::<u8>::empty());
            assert(spec_parse_records(bytes@.skip(offset as int)) == Ok::<
                Seq<ChunkModel>,
                PngError,
            >(Seq::<ChunkModel>::empty()));
            assert(models_of(chunks@) + Seq::<ChunkModel>::empty() =~= models_of(chunks@));
            assert(spec_parse_records(bytes@.skip(8)) == Ok::<Seq<ChunkModel>, PngError>(
                models_of(chunks@),
            ));
        }
        PNG::from_chunks(chunks)
    }

    /// The fixed 8-byte signature of the format.
    pub fn header(&self) -> (r: [u8; 8])
        ensures
            r@ == spec_header(),
    {
        let h: [u8; 8] = [137, 80, 78, 71, 13, 10, 26, 10];
        proof {
            assert(h@ =~= spec_header());
        }
        h
    }

    /// The held chunks, in order.
    pub fn chunks(&self) -> (r: &[Chunk])
        ensures
            r@ == self.chunk_seq(),
    {
        self.chunks.as_slice()
    }

    /// Appends a chunk at the end of the sequence.
    pub fn append_chunk(&mut self, chunk: Chunk)
        requires
            old(self).wf(),
            chunk.wf(),
        ensures
            final(self).wf(),
            final(self).chunk_seq() == old(self).chunk_seq().push(chunk),
            final(self)@ == old(self)@.push(chunk@),
    {
        self.chunks.push(chunk);
        proof {
            assert forall|i: int| 0 <= i < self.chunk_seq().len() implies (#[trigger]
                self.chunk_seq()[i]).wf() by {
                if i < old(self).chunk_seq().len() {
                    assert(self.chunk_seq()[i] == old(self).chunk_seq()[i]);
                }
            }
            assert(self@ =~= old(self)@.push(chunk@));
        }
    }

    /// Removes and returns the first chunk whose type bytes equal the
    /// selector's UTF-8 bytes; the chunks after it shift one position
    /// earlier, so the order of the rest is preserved. Fails with a selector
    /// error when the selector is not exactly 4 bytes, and with a not-found
    /// error when no chunk matches.
    pub fn remove_first_chunk(&mut self, chunk_type: &str) -> (r: Result<Chunk, PngError>)
        requires
            old(self).wf(),
        ensures
            final(self).wf(),
            match r {
                Ok(c) => ({
                    let sel = chunk_type.spec_bytes();
                    let k = spec_find_first(old(self)@, sel);
                    &&& sel.len() == 4
                    &&& 0 <= k < old(self)@.len()
                    &&& c == old(self).chunk_seq()[k]
                    &&& c@.type_bytes == sel
                    &&& c.wf()
                    &&& final(self).chunk_seq() == old(self).chunk_seq().remove(k)
                    &&& final(self)@ == old(self)@.remove(k)
                }),
                Err(e) => ({
                    &&& *final(self) == *old(self)
                    &&& (e == PngError::Selector || e == PngError::NotFound)
                    &&& (e == PngError::Selector <==> chunk_type.spec_bytes().len() != 4)
                    &&& (e == PngError::NotFound ==> spec_find_first(
                        old(self)@,
                        chunk_type.spec_bytes(),
                    ) == -1)
                }),
            },
    {
        let target = chunk_type.as_bytes();
        if target.len() != 4 {
            return Err(PngError::Selector);
        }
        let n = self.chunks.len();
        let mut i: usize = 0;
        while i < n
            invariant
                i <= n,
                n == self.chunk_seq().len(),
                *self == *old(self),
                old(self).wf(),
                target@ == chunk_type.spec_bytes(),
                target@.len() == 4,
                forall|j: int| 0 <= j < i ==> (#[trigger] self@[j]).type_bytes != target@,
            decreases n - i,
        {
            proof {
                assert(self.chunk_seq()[i as int].wf());
                assert(self@[i as int] == self.chunk_seq()[i as int]@);
            }
            let c = &self.chunks[i];
            if bytes4_equal(c.chunk_type().bytes(), target) {
                proof {
                    lemma_find_first_from(self@, target@, i as int);
                }
                let removed = self.chunks.remove(i);
                proof {
                    let k = i as int;
                    assert(self@ =~= old(self)@.remove(k));
                    assert forall|j: int| 0 <= j < self.chunk_seq().len() implies (#[trigger]
                        self.chunk_seq()[j]).wf() by {
                        if j < k {
                            assert(self.chunk_seq()[j] == old(self).chunk_seq()[j]);
                        } else {
                            assert(self.chunk_seq()[j] == old(self).chunk_seq()[j + 1]);
                        }
                    }
                }
                return Ok(removed);
            }
            i += 1;
        }
        proof {
            lemma_find_first_from(self@, target@, n as int);
        }
        Err(PngError::NotFound)
    }

    /// The first chunk whose type code equals the given text, or nothing
    /// when the text is not a valid type code or no chunk matches.
    pub fn chunk_by_type(&self, chunk_type: &str) -> (r: Option<&Chunk>)
        requires
            self.wf(),
        ensures
            match r {
                Some(c) => ({
                    let sel = chunk_type.spec_bytes();
                    let k = spec_find_first(self@, sel);
                    &&& valid_type_bytes(sel)
                    &&& 0 <= k < self@.len()
                    &&& *c == self.chunk_seq()[k]
                    &&& c@.type_bytes == sel
                }),
                None => !valid_type_bytes(chunk_type.spec_bytes()) || spec_find_first(
                    self@,
                    chunk_type.spec_bytes(),
                ) == -1,
            },
    {
        let target = match ChunkType::new(chunk_type) {
            Ok(t) => t,
            Err(_) => {
                return None;
            },
        };
        self.scan(target.bytes(), Ghost(chunk_type.spec_bytes()))
    }

    /// The first chunk whose type bytes equal the selector's UTF-8 bytes, or
    /// nothing when the selector is not exactly 4 bytes or no chunk matches.
    pub fn find_chunk(&self, chunk_type: &str) -> (r: Option<&Chunk>)
        requires
            self.wf(),
        ensures
            match r {
                Some(c) => ({
                    let sel = chunk_type.spec_bytes();
                    let k = spec_find_first(self@, sel);
                    &&& sel.len() == 4
                    &&& 0 <= k < self@.len()
                    &&& *c == self.chunk_seq()[k]
                    &&& c@.type_bytes == sel
                }),
                None => chunk_type.spec_bytes().len() != 4 || spec_find_first(
                    self@,
                    chunk_type.spec_bytes(),
                ) == -1,
            },
    {
        let target = chunk_type.as_bytes();
        if target.len() != 4 {
            return None;
        }
        self.scan(target, Ghost(chunk_type.spec_bytes()))
    }

    /// Linear scan for the first chunk whose type bytes equal `target`.
    fn scan(&self, target: &[u8], Ghost(sel): Ghost<Seq<u8>>) -> (r: Option<&Chunk>)
        requires
            self.wf(),
            target@.len() == 4,
            target@ == sel,
        ensures
            match r {
                Some(c) => ({
                    let k = spec_find_first(self@, sel);
                    &&& 0 <= k < self@.len()
                    &&& *c == self.chunk_seq()[k]
                    &&& c@.type_bytes == sel
                }),
                None => spec_find_first(self@, sel) == -1,
            },
    {
        let n = self.chunks.len();
        let mut i: usize = 0;
        while i < n
            invariant
                i <= n,
                n == self.chunk_seq().len(),
                self.wf(),
                target@.len() == 4,
                target@ == sel,
                forall|j: int| 0 <= j < i ==> (#[trigger] self@[j]).type_bytes != target@,
            decreases n - i,
        {
            proof {
                assert(self.chunk_seq()[i as int].wf());
                assert(self@[i as int] == self.chunk_seq()[i as int]@);
            }
            let c = &self.chunks[i];
            if bytes4_equal(c.chunk_type().bytes(), target) {
                proof {
                    lemma_find_first_from(self@, target@, i as int);
                }
                return Some(c);
            }
            i += 1;
        }
        proof {
            lemma_find_first_from(self@, target@, n as int);
        }
        None
    }

    /// Serializes the whole container: the signature, then every chunk's
    /// record in sequence order, with nothing in between.
    pub fn as_bytes(&self) -> (r: Vec<u8>)
        requires
            self.wf(),
        ensures
            r@ == spec_png_bytes(self@),
    {
        let mut bytes: Vec<u8> = Vec::new();
        let h = self.header();
        bytes.extend_from_slice(h.as_slice());
        proof {
            assert(bytes@ =~= spec_header() + spec_records_bytes(self@.take(0)));
        }
        let n = self.chunks.len();
        let mut i: usize = 0;
        while i < n
            invariant
                i <= n,
                n == self.chunk_seq().len(),
                self.wf(),
                bytes@ == spec_header() + spec_records_bytes(self@.take(i as int)),
            decreases n - i,
        {
            proof {
                assert(self.chunk_seq()[i as int].wf());
                assert(self@[i as int] == self.chunk_seq()[i as int]@);
            }
            let rec = self.chunks[i].as_bytes();
            bytes.extend_from_slice(rec.as_slice());
            proof {
                lemma_records_bytes_push(self@.take(i as int), self@[i as int]);
                assert(self@.take(i as int).push(self@[i as int]) =~= self@.take(i as int + 1));
                assert(bytes@ =~= spec_header() + spec_records_bytes(self@.take(i as int + 1)));
            }
            i += 1;
        }
        proof {
            assert(self@.take(n as int) =~= self@);
        }
        bytes
    }
}

/// Parsing one well-formed record followed by further bytes peels off
/// exactly that record's model.
#[verifier::spinoff_prover]
proof fn lemma_parse_one_record(m: ChunkModel, rest: Seq<u8>)
    requires
        wf_model(m),
    ensures
        spec_parse_records(spec_chunk_record(m) + rest) == parse_with_prefix(
            seq![m],
            spec_parse_records(rest),
        ),
{
    let l = m.data.len() as int;
    let b = spec_chunk_record(m) + rest;
    lemma_u32_be_bytes_roundtrip(m.data.len() as u32);
    lemma_u32_be_bytes_roundtrip(crc32_of(m.type_bytes + m.data));
    assert(b.subrange(0, 4) =~= spec_u32_to_be_bytes(m.data.len() as u32));
    assert(spec_u32_from_be_bytes(b.subrange(0, 4)) as int == l);
    assert(b.subrange(4, 8) =~= m.type_bytes);
    assert(b.subrange(8, 8 + l) =~= m.data);
    assert(b.subrange(8 + l, 12 + l) =~= spec_u32_to_be_bytes(crc32_of(m.type_bytes + m.data)));
    assert(b.skip(12 + l) =~= rest);
    assert(b.subrange(4, 8) + b.subrange(8, 8 + l) == m.type_bytes + m.data);
    assert((ChunkModel { type_bytes: b.subrange(4, 8), data: b.subrange(8, 8 + l) }) == m);
}

/// Parsing the concatenated records of well-formed models yields exactly
/// those models back.
proof fn lemma_parse_records_round_trip(ms: Seq<ChunkModel>)
    requires
        forall|i: int| 0 <= i < ms.len() ==> wf_model(#[trigger] ms[i]),
    ensures
        spec_parse_records(spec_records_bytes(ms)) == Ok::<Seq<ChunkModel>, PngError>(ms),
    decreases ms.len(),
{
    if ms.len() == 0 {
        assert(spec_records_bytes(ms) =~= Seq::<u8>::empty());
        assert(ms =~= Seq::<ChunkModel>::empty());
    } else {
        assert(wf_model(ms[0]));
        assert forall|i: int| 0 <= i < ms.skip(1).len() implies wf_model(
            #[trigger] ms.skip(1)[i],
        ) by {
            assert(ms.skip(1)[i] == ms[i + 1]);
        }
        lemma_parse_records_round_trip(ms.skip(1));
        lemma_parse_one_record(ms[0], spec_records_bytes(ms.skip(1)));
        assert(seq![ms[0]] + ms.skip(1) =~= ms);
    }
}

/// Round trip: serializing any non-empty sequence of well-formed chunk
/// models and parsing the result yields the same sequence back, chunk for
/// chunk and byte for byte.
pub proof fn lemma_round_trip(ms: Seq<ChunkModel>)
    requires
        ms.len() >= 1,
        forall|i: int| 0 <= i < ms.len() ==> wf_model(#[trigger] ms[i]),
    ensures
        spec_parse_png(spec_png_bytes(ms)) == Ok::<Seq<ChunkModel>, PngError>(ms),
{
    let b = spec_png_bytes(ms);
    assert(b.subrange(0, 8) =~= spec_header());
    assert(b.skip(8) =~= spec_records_bytes(ms));
    lemma_parse_records_round_trip(ms);
}

/// Order preservation: appending a chunk of one type and then removing the
/// first chunk of a different type removes the same chunk it would have
/// removed before the append, keeps the appended chunk at the end, and keeps
/// every other chunk in its order.
pub proof fn lemma_order_preservation(ms: Seq<ChunkModel>, m: ChunkModel, t: Seq<u8>)
    requires
        m.type_bytes != t,
    ensures
        spec_find_first(ms.push(m), t) == spec_find_first(ms, t),
        spec_find_first(ms, t) >= 0 ==> ms.push(m).remove(spec_find_first(ms, t)) == ms.remove(
            spec_find_first(ms, t),
        ).push(m),
    decreases ms.len(),
{
    if ms.len() == 0 {
        assert(ms.push(m)[0] == m);
        assert(ms.push(m).skip(1) =~= ms);
    } else if ms[0].type_bytes == t {
        assert(ms.push(m)[0] == ms[0]);
    } else {
        assert(ms.push(m)[0] == ms[0]);
        assert(ms.push(m).skip(1) =~= ms.skip(1).push(m));
        lemma_order_preservation(ms.skip(1), m, t);
    }
    if spec_find_first(ms, t) >= 0 {
        lemma_find_first_props(ms, t);
        let k = spec_find_first(ms, t);
        assert(ms.push(m).remove(k) =~= ms.remove(k).push(m));
    }
}

/// Compares two 4-byte slices for equality.
fn bytes4_equal(a: &[u8], b: &[u8]) -> (r: bool)
    requires
        a@.len() == 4,
        b@.len() == 4,
    ensures
        r <==> a@ == b@,
{
    let r = *slice_index_get(a, 0) == *slice_index_get(b, 0) && *slice_index_get(a, 1)
        == *slice_index_get(b, 1) && *slice_index_get(a, 2) == *slice_index_get(b, 2)
        && *slice_index_get(a, 3) == *slice_index_get(b, 3);
    proof {
        if r {
            assert(a@ =~= b@);
        }
    }
    r
}

} // verus!
