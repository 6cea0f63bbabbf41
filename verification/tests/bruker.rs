use flugs::bruker::{
    bytes_to_u32, decode_words, find_absorbance_blocks, read_block_definitions, BlockDefinition,
    BlockKind,
};

fn entry(buf: &mut [u8; 504], idx: usize, data_type: u8, channel_type: u8, size: u32, offset: u32) {
    let c = 24 + 12 * idx;
    buf[c] = data_type;
    buf[c + 1] = channel_type;
    buf[c + 2] = channel_type;
    buf[c + 4..c + 8].copy_from_slice(&size.to_le_bytes());
    buf[c + 8..c + 12].copy_from_slice(&offset.to_le_bytes());
}

#[test]
fn little_endian_words() {
    assert_eq!(bytes_to_u32(&[0x24, 0x7b, 0x00, 0x00]), 0x7b24);
    assert_eq!(bytes_to_u32(&[1, 2, 3, 4]), 0x04030201);
    assert_eq!(bytes_to_u32(&[0xff, 0xff, 0xff, 0xff]), u32::MAX);
    assert_eq!(decode_words(&[1, 0, 0, 0, 2, 0, 0, 0, 9]), vec![1, 2]);
    assert_eq!(decode_words(&[]), Vec::<u32>::new());
    let bits = 1.5f32.to_bits().to_le_bytes();
    assert_eq!(f32::from_bits(decode_words(&bits)[0]), 1.5);
}

#[test]
fn block_kinds() {
    assert_eq!(BlockKind::from((0u8, 8u8)), BlockKind::InfoBlock);
    assert_eq!(BlockKind::from((0u8, 9u8)), BlockKind::TextInformation);
    assert_eq!(BlockKind::from((15u8, 3u8)), BlockKind::AB);
    assert_eq!(BlockKind::from((31u8, 0u8)), BlockKind::ABDataParameter);
    assert_eq!(BlockKind::from((7u8, 56u8)), BlockKind::PwSm);
    assert_eq!(BlockKind::from((7u8, 57u8)), BlockKind::Invalid);
    assert_eq!(BlockKind::from_types(160, 1), BlockKind::Sample);
}

#[test]
fn block_table() {
    let mut buf = [0u8; 504];
    entry(&mut buf, 0, 15, 0, 10, 1000);
    entry(&mut buf, 1, 0, 104, 20, 2000);
    entry(&mut buf, 2, 31, 0, 5, 3000);
    let blks = read_block_definitions(&buf);
    assert_eq!(blks.len(), 3);
    assert_eq!(blks[0].kind, BlockKind::AB);
    assert_eq!((blks[0].size, blks[0].offset), (10, 1000));
    assert_eq!(blks[1].kind, BlockKind::History);
    assert_eq!(blks[2].kind, BlockKind::ABDataParameter);
    let (ab, param) = find_absorbance_blocks(&blks).unwrap();
    assert_eq!(ab.offset, 1000);
    assert_eq!(param.offset, 3000);
    assert_eq!(ab.byte_len(), 40);
    let def = BlockDefinition::from_buffer(&buf, 48);
    assert_eq!(def.offset, 3000);
}

#[test]
fn full_block_table_and_missing_absorbance() {
    let mut buf = [0u8; 504];
    for i in 0..39 {
        entry(&mut buf, i, 64, 0, 1, 100 + i as u32);
    }
    let blks = read_block_definitions(&buf);
    assert_eq!(blks.len(), 39);
    assert_eq!(
        find_absorbance_blocks(&blks).unwrap_err(),
        "file does not contain absorbance data".to_string()
    );
    let empty = read_block_definitions(&[0u8; 504]);
    assert!(empty.is_empty());
}

#[test]
fn last_absorbance_block_wins() {
    let mk = |kind, offset| BlockDefinition { kind, offset, size: 1 };
    let blks = vec![
        mk(BlockKind::AB, 1),
        mk(BlockKind::ABDataParameter, 2),
        mk(BlockKind::AB, 3),
    ];
    let (ab, param) = find_absorbance_blocks(&blks).unwrap();
    assert_eq!((ab.offset, param.offset), (3, 2));
}
