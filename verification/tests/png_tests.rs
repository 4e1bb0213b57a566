use pngme::chunk::Chunk;
use pngme::chunk_type::ChunkType;
use pngme::error::{ChunkError, Field, PngError};
use pngme::png::{has_signature, Png};
use std::str::FromStr;

fn chunk(name: &str, data: &str) -> Chunk {
    Chunk::new(ChunkType::from_str(name).unwrap(), data.as_bytes().to_vec())
}

fn sample() -> Png {
    Png::from_chunks(vec![
        chunk("FrSt", "I am the first chunk"),
        chunk("miDl", "I am another chunk"),
        chunk("LASt", "I am the last chunk"),
    ])
}

fn same_chunks(a: &[Chunk], b: &[Chunk]) -> bool {
    a.len() == b.len()
        && a.iter().zip(b.iter()).all(|(x, y)| {
            x.length() == y.length()
                && x.chunk_type() == y.chunk_type()
                && x.data() == y.data()
                && x.crc() == y.crc()
        })
}

#[test]
fn png_header_is_the_signature() {
    assert_eq!(Png::STANDARD_HEADER, [137, 80, 78, 71, 13, 10, 26, 10]);
    let empty = Png::from_chunks(Vec::new());
    assert_eq!(empty.as_bytes(), vec![137, 80, 78, 71, 13, 10, 26, 10]);
    let back = Png::try_from(empty.as_bytes().as_slice()).unwrap();
    assert_eq!(back.chunks().len(), 0);
}

#[test]
fn png_round_trip() {
    let png = sample();
    let bytes = png.as_bytes();
    let mut expected: Vec<u8> = Png::STANDARD_HEADER.to_vec();
    for c in png.chunks() {
        expected.extend(c.as_bytes());
    }
    assert_eq!(bytes, expected);
    let back = Png::try_from(bytes.as_slice()).unwrap();
    assert!(same_chunks(back.chunks(), png.chunks()));
    assert_eq!(back.chunks().len(), 3);
    assert_eq!(back.chunks()[1].data_as_string().unwrap(), "I am another chunk");
    assert_eq!(back.as_bytes(), bytes);
}

#[test]
fn png_invalid_signature() {
    let mut bytes = sample().as_bytes();
    bytes[0] = 13;
    assert_eq!(Png::try_from(bytes.as_slice()).unwrap_err(), PngError::InvalidSignature);
    let mut last = sample().as_bytes();
    last[7] = 11;
    assert_eq!(Png::try_from(last.as_slice()).unwrap_err(), PngError::InvalidSignature);
    let short = Png::STANDARD_HEADER[..7].to_vec();
    assert_eq!(Png::try_from(short.as_slice()).unwrap_err(), PngError::InvalidSignature);
    let none: Vec<u8> = Vec::new();
    assert_eq!(Png::try_from(none.as_slice()).unwrap_err(), PngError::InvalidSignature);
}

#[test]
fn png_chunk_failure_names_the_chunk() {
    let mut bytes = sample().as_bytes();
    let len = bytes.len();
    bytes[len - 1] ^= 1;
    match Png::try_from(bytes.as_slice()).unwrap_err() {
        PngError::Chunk { index, error: ChunkError::CrcMismatch { stored, calculated } } => {
            assert_eq!(index, 2);
            assert_eq!(stored ^ 1, calculated);
        }
        other => panic!("{:?}", other),
    }
    let good = sample().as_bytes();
    assert_eq!(
        Png::try_from(&good[..len - 1]).unwrap_err(),
        PngError::Chunk { index: 2, error: ChunkError::Truncated(Field::Crc) }
    );
    assert_eq!(
        Png::try_from(&good[..9]).unwrap_err(),
        PngError::Chunk { index: 0, error: ChunkError::Truncated(Field::Length) }
    );
    let mut bad_type = sample().as_bytes();
    bad_type[8 + 32 + 4] = b'1';
    assert_eq!(
        Png::try_from(bad_type.as_slice()).unwrap_err(),
        PngError::Chunk { index: 1, error: ChunkError::InvalidTypeByte(49) }
    );
    let mut long = Png::STANDARD_HEADER.to_vec();
    long.extend_from_slice(&[0x80, 0, 0, 0]);
    assert_eq!(
        Png::try_from(long.as_slice()).unwrap_err(),
        PngError::Chunk { index: 0, error: ChunkError::LengthOverflow }
    );
}

#[test]
fn png_append_then_find_then_remove() {
    let mut png = sample();
    let c = chunk("RuSt", "Message");
    let wire = c.as_bytes();
    assert!(png.chunk_by_type("RuSt").is_none());
    png.append_chunk(c);
    assert_eq!(png.chunks().len(), 4);
    let found = png.chunk_by_type("RuSt").unwrap();
    assert_eq!(found.as_bytes(), wire);
    assert_eq!(found.data_as_string().unwrap(), "Message");
    let removed = png.remove_chunk("RuSt").unwrap();
    assert_eq!(removed.as_bytes(), wire);
    assert!(png.chunk_by_type("RuSt").is_none());
    assert!(same_chunks(png.chunks(), sample().chunks()));
    assert_eq!(png.remove_chunk("RuSt").unwrap_err(), PngError::ChunkNotFound);
    assert_eq!(png.chunks().len(), 3);
}

#[test]
fn png_first_match_wins_and_order_is_kept() {
    let mut png = Png::from_chunks(vec![
        chunk("FrSt", "a"),
        chunk("RuSt", "one"),
        chunk("miDl", "b"),
        chunk("RuSt", "two"),
    ]);
    assert_eq!(png.chunk_by_type("RuSt").unwrap().data_as_string().unwrap(), "one");
    assert!(png.chunk_by_type("rust").is_none());
    assert!(png.chunk_by_type("RuS").is_none());
    let removed = png.remove_chunk("RuSt").unwrap();
    assert_eq!(removed.data_as_string().unwrap(), "one");
    let names: Vec<String> = png.chunks().iter().map(|c| c.chunk_type().to_string()).collect();
    assert_eq!(names, vec!["FrSt", "miDl", "RuSt"]);
    assert_eq!(png.chunk_by_type("RuSt").unwrap().data_as_string().unwrap(), "two");
    png.append_chunk(chunk("FrSt", "late"));
    assert_eq!(png.chunk_by_type("FrSt").unwrap().data_as_string().unwrap(), "a");
}

#[test]
fn png_signature_test() {
    assert!(has_signature(&[137, 80, 78, 71, 13, 10, 26, 10]));
    assert!(has_signature(&[137, 80, 78, 71, 13, 10, 26, 10, 0, 0]));
    assert!(!has_signature(&[137, 80, 78, 71, 13, 10, 26]));
    assert!(!has_signature(&[137, 80, 78, 71, 13, 10, 26, 11]));
    assert!(!has_signature(&[136, 80, 78, 71, 13, 10, 26, 10]));
    assert!(!has_signature(&[]));
}
