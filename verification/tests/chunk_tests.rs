use pdrive::chunk::split_bytes;
use pdrive::FILE_SPLIT_SIZE;

const MIB: usize = 1024 * 1024;

#[test]
fn empty_file_yields_no_chunks() {
    let chunks = split_bytes(Vec::new());
    assert_eq!(chunks.len(), 0);
}

#[test]
fn small_file_is_one_chunk() {
    let data = vec![7u8, 1, 2, 3, 4];
    let chunks = split_bytes(data.clone());
    assert_eq!(chunks.len(), 1);
    assert_eq!(chunks[0], data);
}

#[test]
fn exact_multiple_has_no_trailing_empty_chunk() {
    let data = vec![1u8; 2 * FILE_SPLIT_SIZE];
    let chunks = split_bytes(data);
    assert_eq!(chunks.len(), 2);
    assert_eq!(chunks[0].len(), FILE_SPLIT_SIZE);
    assert_eq!(chunks[1].len(), FILE_SPLIT_SIZE);
}

#[test]
fn one_byte_over_threshold_gets_tiny_last_chunk() {
    let data = vec![9u8; FILE_SPLIT_SIZE + 1];
    let chunks = split_bytes(data);
    assert_eq!(chunks.len(), 2);
    assert_eq!(chunks[0].len(), FILE_SPLIT_SIZE);
    assert_eq!(chunks[1].len(), 1);
}

#[test]
fn hundred_twenty_mib_splits_into_three_chunks() {
    let mut data = vec![0u8; 120 * MIB];
    for (i, b) in data.iter_mut().enumerate() {
        *b = (i % 251) as u8;
    }
    let chunks = split_bytes(data.clone());
    assert_eq!(chunks.len(), 3);
    assert_eq!(chunks[0].len(), 50 * MIB);
    assert_eq!(chunks[1].len(), 50 * MIB);
    assert_eq!(chunks[2].len(), 20 * MIB);
    let rejoined: Vec<u8> = chunks.concat();
    assert_eq!(rejoined, data);
}
