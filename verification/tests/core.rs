use pngme::chunk::Chunk;
use pngme::chunk_type::ChunkType;
use pngme::error::PngError;

fn crc32(bytes: &[u8]) -> u32 {
    crc::Crc::<u32>::new(&crc::CRC_32_ISO_HDLC).checksum(bytes)
}

#[test]
fn type_code_flags_ru_st() {
    let t = ChunkType::new("ruSt").unwrap();
    assert_eq!(t.bytes(), &b"ruSt"[..]);
    assert!(!t.is_critical());
    assert!(!t.is_public());
    assert!(t.is_reserved());
    assert!(!t.is_safe_to_copy());
}

#[test]
fn type_code_flags_uppercase() {
    let t = ChunkType::new("RuST").unwrap();
    assert!(t.is_critical());
    assert!(!t.is_public());
    assert!(t.is_reserved());
    assert!(t.is_safe_to_copy());

    let t2 = ChunkType::new("IHDR").unwrap();
    assert!(t2.is_critical());
    assert!(t2.is_public());
    assert!(t2.is_reserved());
    assert!(t2.is_safe_to_copy());
}

#[test]
fn validation_totality_matches_predicate() {
    let candidates = [
        "ruSt", "RuSt", "rust", "RUST", "ruS", "ruStx", "ru5t", "ru!t", "r\u{fc}St", "",
        "aAAa", "zzZz", "ABCD", "abcd", "ab C", "ruS\u{212b}", "Ru$T", "R St", "\u{c0}BCD",
        "aaAa", "AAAA", "zzZZ", "a1Aa", "aaA1",
    ];
    for s in candidates {
        let chars: Vec<char> = s.chars().collect();
        let expected = chars.len() == 4 && chars.iter().all(|c| c.is_ascii_alphabetic())
            && chars[2].is_ascii_uppercase();
        assert_eq!(ChunkType::new(s).is_ok(), expected, "mismatch on {:?}", s);
    }
}

#[test]
fn invalid_type_gives_validation_error() {
    assert_eq!(ChunkType::new("rust").unwrap_err(), PngError::Validation);
    assert_eq!(ChunkType::new("toolong").unwrap_err(), PngError::Validation);
    assert_eq!(ChunkType::new("ru5t").unwrap_err(), PngError::Validation);
    assert_eq!(ChunkType::from_bytes([114, 117, 83, 0]).unwrap_err(), PngError::Validation);
}

#[test]
fn checksum_deterministic() {
    let t1 = ChunkType::new("ruSt").unwrap();
    let t2 = ChunkType::new("ruSt").unwrap();
    let c1 = Chunk::new(t1, b"hello".to_vec()).unwrap();
    let c2 = Chunk::new(t2, b"hello".to_vec()).unwrap();
    assert_eq!(c1.crc(), c2.crc());
    assert_eq!(c1.crc(), crc32(b"ruSthello"));
}

#[test]
fn checksum_known_value() {
    let t = ChunkType::new("IEND").unwrap();
    let c = Chunk::new(t, Vec::new()).unwrap();
    assert_eq!(c.crc(), 0xAE426082);
    assert_eq!(c.length(), 0);
    assert_eq!(c.data(), &b""[..]);
}

#[test]
fn capacity_boundary_rejects_2_31() {
    let t = ChunkType::new("ruSt").unwrap();
    let data = vec![0u8; 1usize << 31];
    match Chunk::new(t, data) {
        Err(PngError::Capacity) => {},
        _ => panic!("expected a capacity error"),
    }
}

#[test]
fn capacity_boundary_accepts_max() {
    let t = ChunkType::new("ruSt").unwrap();
    let data = vec![0u8; (1usize << 31) - 1];
    let c = Chunk::new(t, data).unwrap();
    assert_eq!(c.length(), 2147483647u32);
}

#[test]
fn chunk_serialization_layout() {
    let t = ChunkType::new("ruSt").unwrap();
    let c = Chunk::new(t, b"hello".to_vec()).unwrap();
    let bytes = c.as_bytes();
    assert_eq!(bytes.len(), 17);
    assert_eq!(&bytes[0..4], &5u32.to_be_bytes());
    assert_eq!(&bytes[4..8], b"ruSt");
    assert_eq!(&bytes[8..13], b"hello");
    assert_eq!(&bytes[13..17], &crc32(b"ruSthello").to_be_bytes());
}

#[test]
fn payload_text_lossy() {
    let t = ChunkType::new("ruSt").unwrap();
    let c = Chunk::new(t, b"hello".to_vec()).unwrap();
    assert_eq!(c.data_as_string(), "hello");
    let t2 = ChunkType::new("ruSt").unwrap();
    let c2 = Chunk::new(t2, vec![0xff, 0x68]).unwrap();
    assert_eq!(c2.data_as_string(), "\u{fffd}h");
}
