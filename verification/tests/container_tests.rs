use gvas_codec::container::{check_size, open_container, pack_container, unpack, CONTAINER_MAGIC};
use gvas_codec::error::FormatError;
use miniz_oxide::deflate::compress_to_vec;

fn container(kind: u8, uncompressed: u32, payload: &[u8]) -> Vec<u8> {
    let mut file = b"GVAS".to_vec();
    file.extend_from_slice(&uncompressed.to_le_bytes());
    file.extend_from_slice(&(payload.len() as u32).to_le_bytes());
    file.push(kind);
    file.extend_from_slice(payload);
    file
}

fn sample() -> Vec<u8> {
    let mut stream = Vec::new();
    for i in 0..600u32 {
        stream.extend_from_slice(&(i % 7).to_le_bytes());
    }
    stream
}

#[test]
fn the_magic_spells_gvas() {
    assert_eq!(CONTAINER_MAGIC.to_le_bytes(), *b"GVAS");
}

#[test]
fn an_uncompressed_container_gives_its_payload() {
    let stream = sample();
    let file = container(0, stream.len() as u32, &stream);
    assert_eq!(open_container(&file).unwrap(), stream);
    let empty = container(0, 0, &[]);
    assert_eq!(open_container(&empty).unwrap(), Vec::<u8>::new());
}

#[test]
fn a_deflated_container_gives_the_inflated_payload() {
    let stream = sample();
    let packed = compress_to_vec(&stream, 6);
    assert!(packed.len() < stream.len());
    let file = container(1, stream.len() as u32, &packed);
    assert_eq!(open_container(&file).unwrap(), stream);
}

#[test]
fn double_compression_gives_the_same_bytes_as_none() {
    let stream = sample();
    let once = compress_to_vec(&stream, 6);
    let twice = compress_to_vec(&once, 6);
    let nested = container(2, stream.len() as u32, &twice);
    let plain = container(0, stream.len() as u32, &stream);
    let from_nested = open_container(&nested).unwrap();
    let from_plain = open_container(&plain).unwrap();
    assert_eq!(from_nested, from_plain);
    assert_eq!(from_nested, stream);
}

#[test]
fn a_wrong_signature_is_bad_magic() {
    let mut file = container(0, 3, &[1, 2, 3]);
    file[0] = b'X';
    assert!(matches!(open_container(&file), Err(FormatError::BadMagic)));
    assert!(matches!(open_container(b"PlZ\0aaaaaaaaaaaa"), Err(FormatError::BadMagic)));
}

#[test]
fn an_unknown_kind_of_compression_is_bad_magic() {
    let file = container(3, 3, &[1, 2, 3]);
    assert!(matches!(open_container(&file), Err(FormatError::BadMagic)));
}

#[test]
fn a_short_container_is_truncated() {
    assert!(matches!(open_container(&[]), Err(FormatError::Truncated)));
    assert!(matches!(open_container(b"GVA"), Err(FormatError::Truncated)));
    assert!(matches!(open_container(b"GVAS"), Err(FormatError::Truncated)));
    assert!(matches!(open_container(b"GVAS\x00\x00\x00\x00\x00\x00\x00\x00"), Err(FormatError::Truncated)));
    let mut file = container(0, 4, &[1, 2, 3, 4]);
    file.pop();
    assert!(matches!(open_container(&file), Err(FormatError::Truncated)));
}

#[test]
fn a_payload_of_another_size_than_declared_is_a_size_mismatch() {
    let file = container(0, 5, &[1, 2, 3, 4]);
    assert!(matches!(open_container(&file), Err(FormatError::SizeMismatch)));
    let mut long = container(0, 4, &[1, 2, 3, 4]);
    long.push(9);
    assert!(matches!(open_container(&long), Err(FormatError::SizeMismatch)));
    let stream = sample();
    let packed = compress_to_vec(&stream, 6);
    let short = container(1, stream.len() as u32 - 1, &packed);
    assert!(matches!(open_container(&short), Err(FormatError::SizeMismatch)));
    let more = container(1, stream.len() as u32 + 1, &packed);
    assert!(matches!(open_container(&more), Err(FormatError::SizeMismatch)));
}

#[test]
fn a_payload_that_is_no_deflate_stream_is_a_size_mismatch() {
    let file = container(1, 4, &[0xff, 0xff, 0xff, 0xff]);
    assert!(matches!(open_container(&file), Err(FormatError::SizeMismatch)));
    let stream = sample();
    let once = compress_to_vec(&stream, 6);
    let single_as_double = container(2, stream.len() as u32, &once);
    assert!(matches!(open_container(&single_as_double), Err(FormatError::SizeMismatch)));
}

#[test]
fn unpack_inflates_by_kind() {
    let stream = sample();
    let once = compress_to_vec(&stream, 1);
    let twice = compress_to_vec(&once, 1);
    assert_eq!(unpack(0, &once, 0).unwrap(), once);
    assert_eq!(unpack(1, &once, stream.len() as u32).unwrap(), stream);
    assert_eq!(unpack(2, &twice, stream.len() as u32).unwrap(), stream);
    assert!(unpack(1, &once, 10).is_none());
    assert!(unpack(1, &stream, stream.len() as u32).is_none());
}

#[test]
fn check_size_holds_the_bytes_against_the_declared_size() {
    assert_eq!(check_size(Some(vec![1, 2, 3]), 3).unwrap(), vec![1, 2, 3]);
    assert!(matches!(check_size(Some(vec![1, 2, 3]), 2), Err(FormatError::SizeMismatch)));
    assert!(matches!(check_size(Some(vec![]), 1), Err(FormatError::SizeMismatch)));
    assert!(matches!(check_size(None, 0), Err(FormatError::SizeMismatch)));
    assert_eq!(check_size(Some(vec![]), 0).unwrap(), Vec::<u8>::new());
}

#[test]
fn packing_then_opening_gives_the_stream() {
    let stream = sample();
    let file = pack_container(&stream).unwrap();
    assert_eq!(file, container(0, stream.len() as u32, &stream));
    assert_eq!(open_container(&file).unwrap(), stream);
    assert_eq!(pack_container(&[]).unwrap(), b"GVAS\0\0\0\0\0\0\0\0\0".to_vec());
}
