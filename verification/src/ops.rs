//! The buffer-level operations a surrounding shell consumes: hide a payload
//! in a container, read it back, remove it, and list every chunk. Each one
//! takes a plain byte buffer and hands a plain value back.

use crate::chunk::{Chunk, ChunkModel, spec_chunk_record};
use crate::chunk_type::{ChunkType, valid_type_bytes};
use crate::error::PngError;
use crate::png::{PNG, spec_find_first, spec_parse_png, spec_png_bytes};
use crate::wire::{bytes_to_text, crc32_of, lemma_ascii_bytes_decode, lossy_text_of};
use vstd::prelude::*;
use vstd::slice::{slice_index_get, slice_to_vec};
use vstd::string::StringSliceAdditionalSpecFns;
use vstd::utf8::{decode_utf8, valid_utf8};

verus! {

/// Builds a chunk from the type text and payload and appends its record to
/// the end of the buffer, which is taken as it is and not re-validated.
/// Fails exactly when the type text is invalid or the payload is at or over
/// the size limit.
pub fn encode(buffer: &[u8], chunk_type: &str, payload: &[u8]) -> (r: Result<Vec<u8>, PngError>)
    ensures
        match r {
            Ok(out) => ({
                let m = (ChunkModel { type_bytes: chunk_type.spec_bytes(), data: payload@ });
                &&& valid_type_bytes(chunk_type.spec_bytes())
                &&& payload@.len() < 0x8000_0000
                &&& out@ == buffer@ + spec_chunk_record(m)
            }),
            Err(e) => ({
                ||| (e == PngError::Validation && !valid_type_bytes(chunk_type.spec_bytes()))
                ||| (e == PngError::Capacity && valid_type_bytes(chunk_type.spec_bytes())
                    && payload@.len() >= 0x8000_0000)
            }),
        },
{
    let tc = match ChunkType::new(chunk_type) {
        Ok(t) => t,
        Err(e) => {
            return Err(e);
        },
    };
    let chunk = match Chunk::new(tc, slice_to_vec(payload)) {
        Ok(c) => c,
        Err(e) => {
            return Err(e);
        },
    };
    let mut out = slice_to_vec(buffer);
    let rec = chunk.as_bytes();
    out.extend_from_slice(rec.as_slice());
    proof {
        assert(out@ =~= buffer@ + spec_chunk_record(chunk@));
    }
    Ok(out)
}

/// Parses the buffer and returns the payload of the first chunk of the
/// given type, read as lossy UTF-8 text. Reports not-found when the type
/// text is invalid or no chunk carries it; a parse failure is handed on.
pub fn decode(buffer: &[u8], chunk_type: &str) -> (r: Result<String, PngError>)
    ensures
        match r {
            Ok(s) => ({
                &&& spec_parse_png(buffer@) is Ok
                &&& ({
                    let ms = spec_parse_png(buffer@)->Ok_0;
                    let k = spec_find_first(ms, chunk_type.spec_bytes());
                    &&& valid_type_bytes(chunk_type.spec_bytes())
                    &&& 0 <= k < ms.len()
                    &&& ms[k].type_bytes == chunk_type.spec_bytes()
                    &&& s@ == lossy_text_of(ms[k].data)
                    &&& (valid_utf8(ms[k].data) ==> s@ == decode_utf8(ms[k].data))
                })
            }),
            Err(e) => ({
                ||| spec_parse_png(buffer@) == Err::<Seq<ChunkModel>, PngError>(e)
                ||| (e == PngError::NotFound && spec_parse_png(buffer@) is Ok && (
                !valid_type_bytes(chunk_type.spec_bytes()) || spec_find_first(
                    spec_parse_png(buffer@)->Ok_0,
                    chunk_type.spec_bytes(),
                ) == -1))
            }),
        },
{
    let png = match PNG::from_bytes(buffer) {
        Ok(p) => p,
        Err(e) => {
            return Err(e);
        },
    };
    match png.chunk_by_type(chunk_type) {
        Some(c) => Ok(c.data_as_string()),
        None => Err(PngError::NotFound),
    }
}

/// Parses the buffer, removes the first chunk whose type bytes equal the
/// selector, and re-serializes the whole remaining container; returns the
/// new buffer together with the removed chunk's payload text.
pub fn remove(buffer: &[u8], chunk_type: &str) -> (r: Result<(Vec<u8>, String), PngError>)
    ensures
        match r {
            Ok(out) => ({
                &&& spec_parse_png(buffer@) is Ok
                &&& ({
                    let ms = spec_parse_png(buffer@)->Ok_0;
                    let sel = chunk_type.spec_bytes();
                    let k = spec_find_first(ms, sel);
                    &&& sel.len() == 4
                    &&& 0 <= k < ms.len()
                    &&& ms[k].type_bytes == sel
                    &&& out.0@ == spec_png_bytes(ms.remove(k))
                    &&& out.1@ == lossy_text_of(ms[k].data)
                    &&& (valid_utf8(ms[k].data) ==> out.1@ == decode_utf8(ms[k].data))
                })
            }),
            Err(e) => ({
                ||| spec_parse_png(buffer@) == Err::<Seq<ChunkModel>, PngError>(e)
                ||| (spec_parse_png(buffer@) is Ok && ({
                    let ms = spec_parse_png(buffer@)->Ok_0;
                    let sel = chunk_type.spec_bytes();
                    ||| (e == PngError::Selector && sel.len() != 4)
                    ||| (e == PngError::NotFound && sel.len() == 4 && spec_find_first(ms, sel)
                        == -1)
                }))
            }),
        },
{
    let mut png = match PNG::from_bytes(buffer) {
        Ok(p) => p,
        Err(e) => {
            return Err(e);
        },
    };
    let chunk = match png.remove_first_chunk(chunk_type) {
        Ok(c) => c,
        Err(e) => {
            return Err(e);
        },
    };
    let text = chunk.data_as_string();
    let out = png.as_bytes();
    Ok((out, text))
}

/// Parses the buffer and yields, for every chunk in order, its type text,
/// its payload as lossy UTF-8 text, and its checksum.
pub fn list(buffer: &[u8]) -> (r: Result<Vec<(String, String, u32)>, PngError>)
    ensures
        match r {
            Ok(entries) => ({
                &&& spec_parse_png(buffer@) is Ok
                &&& ({
                    let ms = spec_parse_png(buffer@)->Ok_0;
                    &&& entries@.len() == ms.len()
                    &&& forall|i: int|
                        0 <= i < ms.len() ==> {
                            let e = #[trigger] entries@[i];
                            &&& e.0@ == ms[i].type_bytes.map(|j: int, x: u8| x as char)
                            &&& e.1@ == lossy_text_of(ms[i].data)
                            &&& (valid_utf8(ms[i].data) ==> e.1@ == decode_utf8(ms[i].data))
                            &&& e.2 == crc32_of(ms[i].type_bytes + ms[i].data)
                        }
                })
            }),
            Err(e) => spec_parse_png(buffer@) == Err::<Seq<ChunkModel>, PngError>(e),
        },
{
    let png = match PNG::from_bytes(buffer) {
        Ok(p) => p,
        Err(e) => {
            return Err(e);
        },
    };
    let chunks = png.chunks();
    let n = chunks.len();
    let mut entries: Vec<(String, String, u32)> = Vec::new();
    let mut i: usize = 0;
    while i < n
        invariant
            i <= n,
            n == chunks@.len(),
            chunks@ == png.chunk_seq(),
            png.wf(),
            png@ == spec_parse_png(buffer@)->Ok_0,
            spec_parse_png(buffer@) is Ok,
            entries@.len() == i,
            forall|j: int|
                0 <= j < i ==> {
                    let e = #[trigger] entries@[j];
                    &&& e.0@ == png@[j].type_bytes.map(|jj: int, x: u8| x as char)
                    &&& e.1@ == lossy_text_of(png@[j].data)
                    &&& (valid_utf8(png@[j].data) ==> e.1@ == decode_utf8(png@[j].data))
                    &&& e.2 == crc32_of(png@[j].type_bytes + png@[j].data)
                },
        decreases n - i,
    {
        proof {
            assert(png.chunk_seq()[i as int].wf());
            assert(png@[i as int] == png.chunk_seq()[i as int]@);
        }
        let c = slice_index_get(chunks, i);
        proof {
            let tb = c@.type_bytes;
            assert(valid_type_bytes(tb));
            assert forall|k: int| 0 <= k < tb.len() implies #[trigger] tb[k] < 128 by {
                assert(crate::chunk_type::is_letter_byte(tb[k]));
            }
            lemma_ascii_bytes_decode(tb);
        }
        let tt = bytes_to_text(c.chunk_type().bytes());
        let dt = c.data_as_string();
        let cs = c.crc();
        entries.push((tt, dt, cs));
        i += 1;
    }
    Ok(entries)
}

} // verus!
