use asset_decode::array::{FixedLayout, WowArray, WowCharArray};
use asset_decode::chunk::{Chunk, ChunkedData};
use asset_decode::error::DecodeError;

fn chunk(tag: &[u8; 4], payload: &[u8]) -> Vec<u8> {
    let mut out = tag.to_vec();
    out.extend_from_slice(&(payload.len() as u32).to_le_bytes());
    out.extend_from_slice(payload);
    out
}

#[test]
fn iterates_concatenated_chunks_in_order() {
    let mut data = chunk(b"REVM", &[1, 2, 3, 4]);
    data.extend(chunk(b"RDHM", &[]));
    data.extend(chunk(b"KNCM", &[9; 10]));
    let mut it = ChunkedData::new(&data);
    let mut seen = Vec::new();
    let mut total = 0usize;
    while let Some((c, payload)) = it.next().unwrap() {
        assert_eq!(payload.len(), c.size as usize);
        total += 8 + c.size as usize;
        seen.push((c.magic, payload.to_vec()));
    }
    assert_eq!(total, data.len());
    assert_eq!(seen.len(), 3);
    assert_eq!(&seen[0].0, b"REVM");
    assert_eq!(seen[0].1, vec![1, 2, 3, 4]);
    assert_eq!(&seen[1].0, b"RDHM");
    assert!(seen[1].1.is_empty());
    assert_eq!(seen[2].1, vec![9; 10]);
    assert!(matches!(it.next(), Ok(None)));
}

#[test]
fn collects_all_chunks() {
    let mut data = chunk(b"AAAA", &[5]);
    data.extend(chunk(b"BBBB", &[6, 7]));
    let mut it = ChunkedData::new(&data);
    let all = it.to_vec().unwrap();
    assert_eq!(all.len(), 2);
    assert_eq!(all[1].0.size, 2);
    assert_eq!(all[1].1, &[6, 7][..]);
    let empty: Vec<u8> = Vec::new();
    assert_eq!(ChunkedData::new(&empty).to_vec().unwrap().len(), 0);
}

#[test]
fn truncated_header_or_body_is_an_error() {
    let mut data = chunk(b"AAAA", &[5]);
    data.extend(chunk(b"BBBB", &[6, 7, 8]));
    let cut_body = &data[..data.len() - 1];
    let mut it = ChunkedData::new(cut_body);
    assert!(it.next().unwrap().is_some());
    assert!(matches!(it.next(), Err(DecodeError::TruncatedInput)));
    let cut_header = &data[..9 + 5];
    assert_eq!(ChunkedData::new(cut_header).to_vec().err(), Some(DecodeError::TruncatedInput));
}

#[test]
fn magic_as_text() {
    let c = Chunk { magic: *b"REVM", size: 0 };
    assert_eq!(c.magic_str(), Some("REVM".to_string()));
    let bad = Chunk { magic: [0xff, 0, 0, 0], size: 0 };
    assert_eq!(bad.magic_str(), None);
}

#[test]
fn chunk_payload_as_values() {
    let payload: Vec<u8> = vec![1, 0, 2, 0, 3, 0];
    let c = Chunk { magic: *b"IVOM", size: 6 };
    assert_eq!(c.parse_array::<u16>(&payload, 2), Ok(vec![1, 2, 3]));
    assert_eq!(c.parse_array::<u16>(&payload, 4), Err(DecodeError::RecordSizeMismatch));
    assert_eq!(c.parse::<u32>(&payload), Ok(0x0002_0001));
    assert_eq!(c.parse::<u32>(&payload[..3]), Err(DecodeError::TruncatedInput));
    let header = chunk(b"XETM", &[0; 3]);
    let read: Chunk = c.parse::<Chunk>(&header).unwrap();
    assert_eq!(&read.magic, b"XETM");
    assert_eq!(read.size, 3);
}

#[test]
fn offset_array_resolves_and_round_trips() {
    let blob: Vec<u8> = vec![0xaa, 0x78, 0x56, 0x34, 0x12, 0x01, 0x00, 0x00, 0x00, 0xbb];
    let a: WowArray<u32> = WowArray::new(2, 1);
    let values = a.to_vec(&blob).unwrap();
    assert_eq!(values, vec![0x1234_5678, 1]);
    let mut again = Vec::new();
    for v in &values {
        again.extend_from_slice(&v.to_le_bytes());
    }
    assert_eq!(&again[..], &blob[1..9]);
    let too_far: WowArray<u32> = WowArray::new(3, 1);
    assert_eq!(too_far.to_vec(&blob), Err(DecodeError::OutOfBounds));
    let empty: WowArray<u32> = WowArray::new(0, 1000);
    assert_eq!(empty.to_vec(&blob), Ok(vec![]));
    assert_eq!(<u32 as FixedLayout>::byte_size(), 4);
}

#[test]
fn array_of_arrays_resolves_inner_offsets_from_blob_start() {
    let mut blob: Vec<u8> = Vec::new();
    // outer: two descriptors at offset 0
    for (count, offset) in [(2u32, 16u32), (1, 20)] {
        blob.extend_from_slice(&count.to_le_bytes());
        blob.extend_from_slice(&offset.to_le_bytes());
    }
    blob.extend_from_slice(&[7, 0, 8, 0, 9, 0]);
    let outer: WowArray<WowArray<u16>> = WowArray::new(2, 0);
    let nested = outer.to_nested_vec(&blob).unwrap();
    assert_eq!(nested, vec![vec![7, 8], vec![9]]);
    let broken: WowArray<WowArray<u16>> = WowArray::new(2, 8);
    assert_eq!(broken.to_nested_vec(&blob), Err(DecodeError::OutOfBounds));
}

#[test]
fn char_array_as_text() {
    let blob: Vec<u8> = b"..hello..".to_vec();
    let s: WowCharArray = WowArray::new(5, 2);
    assert_eq!(s.to_string(&blob), Ok("hello".to_string()));
    let bad_blob: Vec<u8> = vec![0xc3, 0x28];
    let bad: WowCharArray = WowArray::new(2, 0);
    assert_eq!(bad.to_string(&bad_blob), Err(DecodeError::InvalidValue));
}
