use pngme::chunk::Chunk;
use pngme::chunk_type::ChunkType;
use pngme::error::ProgramResult;
use pngme::png::Png;

fn testing_chunks() -> Vec<Chunk> {
    let mut chunks = Vec::new();

    chunks.push(chunk_from_strings("FrSt", "I am the first chunk").unwrap());
    chunks.push(chunk_from_strings("miDl", "I am another chunk").unwrap());
    chunks.push(chunk_from_strings("LASt", "I am the last chunk").unwrap());

    chunks
}

fn testing_png() -> Png {
    let chunks = testing_chunks();
    Png::from_chunks(chunks)
}

fn chunk_from_strings(chunk_type: &str, data: &str) -> ProgramResult<Chunk> {
    let chunk_type = ChunkType::from_text(chunk_type);
    let data: Vec<u8> = data.bytes().collect();

    Ok(Chunk::new(chunk_type, data))
}

fn testing_image_file() -> Vec<u8> {
    testing_png().as_bytes()
}

#[test]
fn png_test_from_chunks() {
    let chunks = testing_chunks();
    let png = Png::from_chunks(chunks);

    assert_eq!(png.chunks().len(), 3);
}

#[test]
fn png_test_valid_from_bytes() {
    let chunk_bytes: Vec<u8> = testing_chunks()
        .into_iter()
        .flat_map(|chunk| chunk.as_bytes())
        .collect();

    let bytes: Vec<u8> = Png::STANDARD_HEADER
        .iter()
        .chain(chunk_bytes.iter())
        .copied()
        .collect();

    let png = Png::try_from_bytes(&bytes);

    assert!(png.is_ok());
}

#[test]
fn png_test_invalid_header() {
    let chunk_bytes: Vec<u8> = testing_chunks()
        .into_iter()
        .flat_map(|chunk| chunk.as_bytes())
        .collect();

    let bytes: Vec<u8> = [13, 80, 78, 71, 13, 10, 26, 10]
        .iter()
        .chain(chunk_bytes.iter())
        .copied()
        .collect();

    let png = Png::try_from_bytes(&bytes);

    assert!(png.is_err());
}

#[test]
fn png_test_invalid_chunk() {
    let mut chunk_bytes: Vec<u8> = testing_chunks()
        .into_iter()
        .flat_map(|chunk| chunk.as_bytes())
        .collect();

    let mut bad_chunk = vec![
        0, 0, 0, 5,         // length
        32, 117, 83, 116,   // Chunk Type (bad)
        65, 64, 65, 66, 67, // Data
        1, 2, 3, 4, 5       // CRC (bad)
    ];

    chunk_bytes.append(&mut bad_chunk);

    let png = Png::try_from_bytes(&chunk_bytes);

    assert!(png.is_err());
}

#[test]
fn png_test_list_chunks() {
    let png = testing_png();
    let chunks = png.chunks();
    assert_eq!(chunks.len(), 3);
}

#[test]
fn png_test_chunk_by_type() {
    let png = testing_png();
    let chunk = png.chunk_by_type("FrSt").unwrap();
    assert_eq!(&chunk.chunk_type().to_text(), "FrSt");
    assert_eq!(&chunk.data_as_string().unwrap(), "I am the first chunk");
}

#[test]
fn png_test_append_chunk() {
    let mut png = testing_png();
    png.append_chunk(chunk_from_strings("TeSt", "Message").unwrap());
    let chunk = png.chunk_by_type("TeSt").unwrap();
    assert_eq!(&chunk.chunk_type().to_text(), "TeSt");
    assert_eq!(&chunk.data_as_string().unwrap(), "Message");
}

#[test]
fn png_test_remove_chunk() {
    let mut png = testing_png();
    png.append_chunk(chunk_from_strings("TeSt", "Message").unwrap());
    png.remove_chunk("TeSt").unwrap();
    let chunk = png.chunk_by_type("TeSt");
    assert!(chunk.is_none());
}

#[test]
fn png_test_png_from_image_file() {
    let image = testing_image_file();
    let png = Png::try_from_bytes(&image);
    assert!(png.is_ok());
}

#[test]
fn png_test_as_bytes() {
    let image = testing_image_file();
    let png = Png::try_from_bytes(&image).unwrap();
    let actual = png.as_bytes();
    let expected: Vec<u8> = image.iter().copied().collect();
    assert_eq!(actual, expected);
}

#[test]
fn png_test_png_trait_impls() {
    let chunk_bytes: Vec<u8> = testing_chunks()
        .into_iter()
        .flat_map(|chunk| chunk.as_bytes())
        .collect();

    let bytes: Vec<u8> = Png::STANDARD_HEADER
        .iter()
        .chain(chunk_bytes.iter())
        .copied()
        .collect();

    let png: Png = Png::try_from_bytes(&bytes).unwrap();

    let _png_string = format!("{:?}", png);
}
