use asset_decode::bits::{bitslice_to_u32, read_bit_window};

#[test]
fn test_bitslicing() {
    let slice: Vec<u8> = vec![
        0, 0, 0, 0,
        0, 0, 0, 0,
        0, 0, 0, 0,
        0x01, 0x18, 0x00, 0x00,
    ];
    assert_eq!(bitslice_to_u32(&slice, 96, 10), 1);
    assert_eq!(bitslice_to_u32(&slice, 106, 1), 0);
    assert_eq!(bitslice_to_u32(&slice, 107, 2), 3);
    assert_eq!(bitslice_to_u32(&slice, 109, 4), 0);
    assert_eq!(bitslice_to_u32(&slice, 113, 3), 0);
    assert_eq!(bitslice_to_u32(&slice, 116, 2), 0);
    assert_eq!(bitslice_to_u32(&slice, 118, 3), 0);
    assert_eq!(bitslice_to_u32(&slice, 121, 2), 0);
    let slice: Vec<u8> = vec![
        0, 0, 0, 0,
        0, 0, 0, 0,
        0, 0, 0, 0,
        0x02, 0x38, 0x0, 0x0,
    ];
    assert_eq!(bitslice_to_u32(&slice, 96, 10), 2);
    assert_eq!(bitslice_to_u32(&slice, 106, 1), 0);
    assert_eq!(bitslice_to_u32(&slice, 107, 2), 3);
    assert_eq!(bitslice_to_u32(&slice, 109, 4), 1);
    assert_eq!(bitslice_to_u32(&slice, 113, 3), 0);
    assert_eq!(bitslice_to_u32(&slice, 116, 2), 0);
    assert_eq!(bitslice_to_u32(&slice, 118, 3), 0);
    assert_eq!(bitslice_to_u32(&slice, 121, 2), 0);
}

#[test]
fn bit_extraction_full_word_and_empty() {
    let bytes: Vec<u8> = vec![0x78, 0x56, 0x34, 0x12, 0xff];
    assert_eq!(bitslice_to_u32(&bytes, 0, 32), 0x1234_5678);
    assert_eq!(bitslice_to_u32(&bytes, 8, 32), 0xff12_3456);
    assert_eq!(bitslice_to_u32(&bytes, 17, 0), 0);
    assert_eq!(bitslice_to_u32(&bytes, 3, 10), 0x2cf);
}

#[test]
fn bit_window_reads_most_significant_bit_first() {
    let bytes: Vec<u8> = vec![0xab, 0xcd, 0xef];
    assert_eq!(read_bit_window(&bytes, 0, 2), vec![0xab, 0xcd]);
    assert_eq!(read_bit_window(&bytes, 4, 2), vec![0xbc, 0xde]);
    assert_eq!(read_bit_window(&bytes, 8, 0), Vec::<u8>::new());
}
