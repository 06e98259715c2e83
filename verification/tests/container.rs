use pngme::chunk::Chunk;
use pngme::chunk_type::ChunkType;
use pngme::error::PngError;
use pngme::ops;
use pngme::png::PNG;

fn crc32(bytes: &[u8]) -> u32 {
    crc::Crc::<u32>::new(&crc::CRC_32_ISO_HDLC).checksum(bytes)
}

fn sig() -> Vec<u8> {
    vec![137, 80, 78, 71, 13, 10, 26, 10]
}

fn record(type_bytes: &[u8; 4], payload: &[u8]) -> Vec<u8> {
    let mut out = Vec::new();
    out.extend_from_slice(&(payload.len() as u32).to_be_bytes());
    out.extend_from_slice(type_bytes);
    out.extend_from_slice(payload);
    let mut crc_input = Vec::new();
    crc_input.extend_from_slice(type_bytes);
    crc_input.extend_from_slice(payload);
    out.extend_from_slice(&crc32(&crc_input).to_be_bytes());
    out
}

fn minimal_buffer() -> Vec<u8> {
    let mut buf = sig();
    buf.extend_from_slice(&record(b"IHDR", b""));
    buf
}

#[test]
fn parse_minimal_container() {
    let buf = minimal_buffer();
    let png = PNG::from_bytes(&buf).unwrap();
    assert_eq!(png.chunks().len(), 1);
    assert_eq!(png.chunks()[0].chunk_type().bytes(), &b"IHDR"[..]);
    assert_eq!(png.chunks()[0].data().len(), 0);
    assert_eq!(png.header(), [137, 80, 78, 71, 13, 10, 26, 10]);
}

#[test]
fn encode_then_decode() {
    let base = minimal_buffer();
    let buf = ops::encode(&base, "ruSt", b"hello").unwrap();
    assert_eq!(&buf[..base.len()], &base[..]);
    assert_eq!(ops::decode(&buf, "ruSt").unwrap(), "hello");
}

#[test]
fn decode_missing_type() {
    let buf = minimal_buffer();
    assert_eq!(ops::decode(&buf, "ruSt").unwrap_err(), PngError::NotFound);
}

#[test]
fn remove_then_decode_again() {
    let base = minimal_buffer();
    let buf = ops::encode(&base, "ruSt", b"hello").unwrap();
    let (out, msg) = ops::remove(&buf, "ruSt").unwrap();
    assert_eq!(msg, "hello");
    assert_eq!(out, base);
    assert_eq!(ops::decode(&out, "ruSt").unwrap_err(), PngError::NotFound);
}

#[test]
fn truncated_final_chunk() {
    let mut buf = minimal_buffer();
    buf.extend_from_slice(&100u32.to_be_bytes());
    buf.extend_from_slice(b"ruSt");
    buf.extend_from_slice(&[0u8; 10]);
    assert_eq!(PNG::from_bytes(&buf).unwrap_err(), PngError::Format);
}

fn build_container(entries: &[(&str, &[u8])]) -> PNG {
    let mut chunks = Vec::new();
    for (t, d) in entries {
        let tc = ChunkType::new(t).unwrap();
        chunks.push(Chunk::new(tc, d.to_vec()).unwrap());
    }
    PNG::from_chunks(chunks).unwrap()
}

#[test]
fn round_trip_container() {
    let png = build_container(&[("IHDR", &b"head"[..]), ("ruSt", &b"hello"[..]), ("IEND", &b""[..])]);
    let bytes = png.as_bytes();
    let reparsed = PNG::from_bytes(&bytes).unwrap();
    assert_eq!(reparsed.chunks().len(), 3);
    for i in 0..3 {
        let a = &png.chunks()[i];
        let b = &reparsed.chunks()[i];
        assert_eq!(a.chunk_type().bytes(), b.chunk_type().bytes());
        assert_eq!(a.data(), b.data());
        assert_eq!(a.crc(), b.crc());
        assert_eq!(a.length(), b.length());
    }
    assert_eq!(reparsed.as_bytes(), bytes);
}

#[test]
fn order_preserved_after_append_and_remove() {
    let mut png = build_container(&[("aaAa", &b"1"[..]), ("bbBb", &b"2"[..]), ("ccCc", &b"3"[..])]);
    let tc = ChunkType::new("ddDd").unwrap();
    png.append_chunk(Chunk::new(tc, b"4".to_vec()).unwrap());
    let removed = png.remove_first_chunk("bbBb").unwrap();
    assert_eq!(removed.data(), &b"2"[..]);
    let types: Vec<&[u8]> = png.chunks().iter().map(|c| c.chunk_type().bytes()).collect();
    assert_eq!(types, vec![&b"aaAa"[..], &b"ccCc"[..], &b"ddDd"[..]]);
}

#[test]
fn tamper_detection_bit_flips() {
    let mut buf = sig();
    buf.extend_from_slice(&record(b"ruSt", b"hello"));
    assert!(PNG::from_bytes(&buf).is_ok());
    let payload_start = 8 + 8;
    let payload_end = payload_start + 5;
    for byte_idx in 12..payload_end {
        for bit in 0..8 {
            let mut tampered = buf.clone();
            tampered[byte_idx] ^= 1u8 << bit;
            let r = PNG::from_bytes(&tampered);
            assert!(r.is_err(), "flip at byte {} bit {} was accepted", byte_idx, bit);
            if byte_idx >= payload_start {
                assert_eq!(r.unwrap_err(), PngError::Integrity);
            }
        }
    }
}

#[test]
fn format_errors() {
    let mut bad_sig = minimal_buffer();
    bad_sig[0] = 0;
    assert_eq!(PNG::from_bytes(&bad_sig).unwrap_err(), PngError::Format);
    assert_eq!(PNG::from_bytes(b"").unwrap_err(), PngError::Format);

    let mut short_len = sig();
    short_len.extend_from_slice(&[0, 0]);
    assert_eq!(PNG::from_bytes(&short_len).unwrap_err(), PngError::Format);

    let mut short_type = sig();
    short_type.extend_from_slice(&[0, 0, 0, 0, 114, 117]);
    assert_eq!(PNG::from_bytes(&short_type).unwrap_err(), PngError::Format);

    let mut short_crc = sig();
    short_crc.extend_from_slice(&1u32.to_be_bytes());
    short_crc.extend_from_slice(b"ruSt");
    short_crc.extend_from_slice(&[0x61, 0, 0]);
    assert_eq!(PNG::from_bytes(&short_crc).unwrap_err(), PngError::Format);
}

#[test]
fn validation_error_on_parse() {
    let mut buf = sig();
    buf.extend_from_slice(&record(b"ru5t", b"x"));
    assert_eq!(PNG::from_bytes(&buf).unwrap_err(), PngError::Validation);
}

#[test]
fn integrity_error_on_parse() {
    let mut buf = minimal_buffer();
    let last = buf.len() - 1;
    buf[last] ^= 0xff;
    assert_eq!(PNG::from_bytes(&buf).unwrap_err(), PngError::Integrity);
}

#[test]
fn empty_container_errors() {
    assert_eq!(PNG::from_bytes(&sig()).unwrap_err(), PngError::Empty);
    assert_eq!(PNG::from_chunks(Vec::new()).unwrap_err(), PngError::Empty);
}

#[test]
fn selector_and_not_found_errors() {
    let mut png = build_container(&[("IHDR", &b""[..])]);
    assert_eq!(png.remove_first_chunk("toolong").unwrap_err(), PngError::Selector);
    assert_eq!(png.remove_first_chunk("abc").unwrap_err(), PngError::Selector);
    assert_eq!(png.remove_first_chunk("ruSt").unwrap_err(), PngError::NotFound);
    assert_eq!(png.chunks().len(), 1);
}

#[test]
fn encode_error_cases() {
    let base = minimal_buffer();
    assert_eq!(ops::encode(&base, "ru5t", b"x").unwrap_err(), PngError::Validation);
    assert_eq!(ops::encode(&base, "toolong", b"x").unwrap_err(), PngError::Validation);
}

#[test]
fn lookup_variants() {
    let png = build_container(&[("IHDR", &b"head"[..]), ("ruSt", &b"hello"[..]), ("ruSt", &b"later"[..])]);
    let found = png.chunk_by_type("ruSt").unwrap();
    assert_eq!(found.data(), &b"hello"[..]);
    assert!(png.chunk_by_type("ru5t").is_none());
    assert!(png.chunk_by_type("none").is_none());
    let found2 = png.find_chunk("ruSt").unwrap();
    assert_eq!(found2.data(), &b"hello"[..]);
    assert!(png.find_chunk("ru5t").is_none());
    assert!(png.find_chunk("toolong").is_none());
}

#[test]
fn list_entries() {
    let base = minimal_buffer();
    let buf = ops::encode(&base, "ruSt", b"hello").unwrap();
    let entries = ops::list(&buf).unwrap();
    assert_eq!(entries.len(), 2);
    assert_eq!(entries[0].0, "IHDR");
    assert_eq!(entries[0].1, "");
    assert_eq!(entries[0].2, crc32(b"IHDR"));
    assert_eq!(entries[1].0, "ruSt");
    assert_eq!(entries[1].1, "hello");
    assert_eq!(entries[1].2, crc32(b"ruSthello"));
}

#[test]
fn remove_reserializes_whole_container() {
    let png = build_container(&[("aaAa", &b"1"[..]), ("ruSt", &b"hello"[..]), ("ccCc", &b"3"[..])]);
    let buf = png.as_bytes();
    let (out, msg) = ops::remove(&buf, "ruSt").unwrap();
    assert_eq!(msg, "hello");
    let expected = build_container(&[("aaAa", &b"1"[..]), ("ccCc", &b"3"[..])]).as_bytes();
    assert_eq!(out, expected);
}
