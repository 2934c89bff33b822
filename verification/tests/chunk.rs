use pngme::chunk::Chunk;
use pngme::chunk_type::ChunkType;
use pngme::error::ProgramError;
use pngme::utils::crc_checksum;

fn testing_chunk() -> Chunk {
    let data_length: u32 = 42;
    let chunk_type = "RuSt".as_bytes();
    let message_bytes = "This is where your secret message will be!".as_bytes();
    let crc: u32 = 2882656334;

    let chunk_data: Vec<u8> = data_length
        .to_be_bytes()
        .iter()
        .chain(chunk_type.iter())
        .chain(message_bytes.iter())
        .chain(crc.to_be_bytes().iter())
        .copied()
        .collect();

    Chunk::try_from_bytes(&chunk_data).unwrap()
}

#[test]
fn test_new_chunk() {
    let chunk_type = ChunkType::from_text("RuSt");
    let data = "This is where your secret message will be!"
        .as_bytes()
        .to_vec();
    let chunk = Chunk::new(chunk_type, data);
    assert_eq!(chunk.length(), 42);
    assert_eq!(chunk.crc(), 2882656334);
}

#[test]
fn test_chunk_length() {
    let chunk = testing_chunk();
    assert_eq!(chunk.length(), 42);
}

#[test]
fn test_chunk_type() {
    let chunk = testing_chunk();
    assert_eq!(chunk.chunk_type().to_text(), String::from("RuSt"));
}

#[test]
fn test_chunk_string() {
    let chunk = testing_chunk();
    let chunk_string = chunk.data_as_string().unwrap();
    let expected_chunk_string = String::from("This is where your secret message will be!");
    assert_eq!(chunk_string, expected_chunk_string);
}

#[test]
fn test_chunk_crc() {
    let chunk = testing_chunk();
    assert_eq!(chunk.crc(), 2882656334);
}

#[test]
fn test_valid_chunk_from_bytes() {
    let data_length: u32 = 42;
    let chunk_type = "RuSt".as_bytes();
    let message_bytes = "This is where your secret message will be!".as_bytes();
    let crc: u32 = 2882656334;

    let chunk_data: Vec<u8> = data_length
        .to_be_bytes()
        .iter()
        .chain(chunk_type.iter())
        .chain(message_bytes.iter())
        .chain(crc.to_be_bytes().iter())
        .copied()
        .collect();

    let chunk = Chunk::try_from_bytes(&chunk_data).unwrap();

    let chunk_string = chunk.data_as_string().unwrap();
    let expected_chunk_string = String::from("This is where your secret message will be!");

    assert_eq!(chunk.length(), 42);
    assert_eq!(chunk.chunk_type().to_text(), String::from("RuSt"));
    assert_eq!(chunk_string, expected_chunk_string);
    assert_eq!(chunk.crc(), 2882656334);
}

#[test]
fn test_invalid_chunk_from_bytes() {
    let data_length: u32 = 42;
    let chunk_type = "RuSt".as_bytes();
    let message_bytes = "This is where your secret message will be!".as_bytes();
    let crc: u32 = 2882656333;

    let chunk_data: Vec<u8> = data_length
        .to_be_bytes()
        .iter()
        .chain(chunk_type.iter())
        .chain(message_bytes.iter())
        .chain(crc.to_be_bytes().iter())
        .copied()
        .collect();

    let chunk = Chunk::try_from_bytes(&chunk_data);

    assert!(chunk.is_err());
}

#[test]
pub fn test_chunk_trait_impls() {
    let data_length: u32 = 42;
    let chunk_type = "RuSt".as_bytes();
    let message_bytes = "This is where your secret message will be!".as_bytes();
    let crc: u32 = 2882656334;

    let chunk_data: Vec<u8> = data_length
        .to_be_bytes()
        .iter()
        .chain(chunk_type.iter())
        .chain(message_bytes.iter())
        .chain(crc.to_be_bytes().iter())
        .copied()
        .collect();

    let chunk: Chunk = Chunk::try_from_bytes(&chunk_data).unwrap();

    let _chunk_string = format!("{:?}", chunk);
}

#[test]
fn test_chunk_round_trip_bytes() {
    let chunk = Chunk::new(ChunkType::from_text("RuSt"), b"some data".to_vec());
    let bytes = chunk.as_bytes();
    let reparsed = Chunk::try_from_bytes(&bytes).unwrap();
    assert_eq!(reparsed.length(), chunk.length());
    assert_eq!(reparsed.chunk_type().bytes(), chunk.chunk_type().bytes());
    assert_eq!(reparsed.data(), chunk.data());
    assert_eq!(reparsed.crc(), chunk.crc());
}

#[test]
fn test_crc_recomputation_is_deterministic() {
    let bytes: Vec<u8> = "RuSt"
        .as_bytes()
        .iter()
        .chain("This is where your secret message will be!".as_bytes().iter())
        .copied()
        .collect();
    assert_eq!(crc_checksum(&bytes), 2882656334);
    assert_eq!(crc_checksum(&bytes), crc_checksum(&bytes));
    let reference = crc::Crc::<u32>::new(&crc::CRC_32_ISO_HDLC).checksum(&bytes);
    assert_eq!(crc_checksum(&bytes), reference);
}

#[test]
fn test_single_bit_flip_is_detected() {
    let chunk = Chunk::new(ChunkType::from_text("RuSt"), b"tamper me".to_vec());
    let clean = chunk.as_bytes();
    // flip each bit of the type and data regions in turn, leaving length
    // and stored CRC untouched
    for byte_idx in 4..(clean.len() - 4) {
        for bit in 0..8 {
            let mut tampered = clean.clone();
            tampered[byte_idx] ^= 1u8 << bit;
            let result = Chunk::try_from_bytes(&tampered);
            assert!(matches!(
                result,
                Err(ProgramError::CrcMismatch { .. })
            ));
        }
    }
}

#[test]
fn test_chunk_truncated_input() {
    assert!(matches!(
        Chunk::try_from_bytes(&[]),
        Err(ProgramError::Truncated)
    ));
    assert!(matches!(
        Chunk::try_from_bytes(&[0, 0, 0]),
        Err(ProgramError::Truncated)
    ));
    // a full length field declaring 1 byte of data, but nothing after it
    assert!(matches!(
        Chunk::try_from_bytes(&[0, 0, 0, 1]),
        Err(ProgramError::Truncated)
    ));
}

#[test]
fn test_chunk_length_limit() {
    // length field 2^31: over the 2^31 - 1 limit, rejected before any data
    // is read
    let result = Chunk::try_from_bytes(&[0x80, 0, 0, 0]);
    assert!(matches!(
        result,
        Err(ProgramError::LengthLimitExceeded { length: 0x8000_0000 })
    ));
}

#[test]
fn test_chunk_data_not_utf8() {
    let chunk = Chunk::new(ChunkType::from_text("RuSt"), vec![0xFF, 0xFE]);
    assert!(matches!(
        chunk.data_as_string(),
        Err(ProgramError::InvalidUtf8)
    ));
}
