use pngme::chunk::Chunk;
use pngme::chunk_type::ChunkType;
use pngme::commands::{decode, encode, print_chunks, remove};
use pngme::error::ProgramError;
use pngme::png::Png;

fn chunk_from_strings(chunk_type: &str, data: &str) -> Chunk {
    Chunk::new(ChunkType::from_text(chunk_type), data.bytes().collect())
}

fn testing_png() -> Png {
    Png::from_chunks(vec![
        chunk_from_strings("FrSt", "I am the first chunk"),
        chunk_from_strings("miDl", "I am another chunk"),
        chunk_from_strings("LASt", "I am the last chunk"),
    ])
}

#[test]
fn scenario_build_and_reparse_three_chunks() {
    let png = testing_png();
    let bytes = png.as_bytes();
    let expected_len = 8
        + (12 + "I am the first chunk".len())
        + (12 + "I am another chunk".len())
        + (12 + "I am the last chunk".len());
    assert_eq!(bytes.len(), expected_len);

    let reparsed = Png::try_from_bytes(&bytes).unwrap();
    let chunks = reparsed.chunks();
    assert_eq!(chunks.len(), 3);
    assert_eq!(chunks[0].chunk_type().bytes(), *b"FrSt");
    assert_eq!(chunks[1].chunk_type().bytes(), *b"miDl");
    assert_eq!(chunks[2].chunk_type().bytes(), *b"LASt");
}

#[test]
fn scenario_encode_then_decode() {
    let empty = Png::from_chunks(vec![]).as_bytes();
    let encoded = encode(&empty, "ruSt", "hello").unwrap();
    let message = decode(&encoded, "ruSt").unwrap();
    assert_eq!(message, Some(String::from("hello")));
}

#[test]
fn scenario_decode_missing_type_is_not_an_error() {
    let bytes = testing_png().as_bytes();
    let message = decode(&bytes, "zzzz").unwrap();
    assert_eq!(message, None);
}

#[test]
fn scenario_crc_off_by_one_bit_is_integrity_error() {
    let mut bytes = testing_png().as_bytes();
    let last = bytes.len() - 1;
    bytes[last] ^= 1;
    let result = Png::try_from_bytes(&bytes);
    assert!(matches!(result, Err(ProgramError::CrcMismatch { .. })));
}

#[test]
fn scenario_truncated_signature_is_structural_error() {
    let bytes = [137u8, 80, 78, 71];
    let result = Png::try_from_bytes(&bytes);
    assert!(matches!(result, Err(ProgramError::Truncated)));
}

#[test]
fn signature_gate_rejects_any_other_prefix() {
    let mut bytes = testing_png().as_bytes();
    bytes[0] = 136;
    match Png::try_from_bytes(&bytes) {
        Err(ProgramError::SignatureMismatch { received }) => {
            assert_eq!(received, [136, 80, 78, 71, 13, 10, 26, 10]);
        }
        other => panic!("expected a signature mismatch, got {:?}", other),
    }
}

#[test]
fn remove_present_once_leaves_type_absent() {
    let bytes = testing_png().as_bytes();
    let (out, removed) = remove(&bytes, "miDl").unwrap();
    assert_eq!(removed.data_as_string().unwrap(), "I am another chunk");
    let png = Png::try_from_bytes(&out).unwrap();
    assert_eq!(png.chunks().len(), 2);
    assert!(png.chunk_by_type("miDl").is_none());
}

#[test]
fn remove_absent_type_is_lookup_error_and_keeps_container() {
    let bytes = testing_png().as_bytes();
    let result = remove(&bytes, "zzzz");
    assert!(matches!(result, Err(ProgramError::ChunkNotFound)));
    let mut png = Png::try_from_bytes(&bytes).unwrap();
    assert!(matches!(
        png.remove_chunk("zzzz"),
        Err(ProgramError::ChunkNotFound)
    ));
    assert_eq!(png.as_bytes(), bytes);
}

#[test]
fn remove_with_duplicates_removes_first_occurrence() {
    let png = Png::from_chunks(vec![
        chunk_from_strings("duPl", "one"),
        chunk_from_strings("miDl", "middle"),
        chunk_from_strings("duPl", "two"),
    ]);
    let bytes = png.as_bytes();
    let (out, removed) = remove(&bytes, "duPl").unwrap();
    assert_eq!(removed.data_as_string().unwrap(), "one");
    let reparsed = Png::try_from_bytes(&out).unwrap();
    assert_eq!(reparsed.chunks().len(), 2);
    let still_there = reparsed.chunk_by_type("duPl").unwrap();
    assert_eq!(still_there.data_as_string().unwrap(), "two");
}

#[test]
fn print_chunks_lists_records_in_file_order() {
    let bytes = testing_png().as_bytes();
    let infos = print_chunks(&bytes).unwrap();
    assert_eq!(infos.len(), 3);
    assert_eq!(infos[0].type_code, *b"FrSt");
    assert_eq!(infos[0].length, "I am the first chunk".len() as u32);
    assert_eq!(infos[0].data_size, infos[0].length);
    assert_eq!(infos[1].type_code, *b"miDl");
    assert_eq!(infos[2].type_code, *b"LASt");
    let first = chunk_from_strings("FrSt", "I am the first chunk");
    assert_eq!(infos[0].crc, first.crc());
}

#[test]
fn encode_rejects_unparsable_input() {
    let result = encode(&[1, 2, 3], "ruSt", "hello");
    assert!(matches!(result, Err(ProgramError::Truncated)));
}

#[test]
fn encode_appends_at_the_end() {
    let bytes = testing_png().as_bytes();
    let out = encode(&bytes, "ruSt", "hidden").unwrap();
    let png = Png::try_from_bytes(&out).unwrap();
    let chunks = png.chunks();
    assert_eq!(chunks.len(), 4);
    assert_eq!(chunks[3].chunk_type().bytes(), *b"ruSt");
    assert_eq!(chunks[3].data_as_string().unwrap(), "hidden");
}
