use porep_labels::buffer::{copy_label, Location, NodesFile, NODE_SIZE, WRITE_BUFFER_SIZE};
use porep_labels::error::Error;

fn label(i: usize) -> [u8; 32] {
    let mut out = [0u8; 32];
    for k in 0..32 {
        out[k] = (i * 31 + k) as u8;
    }
    out
}

/// Reads a label the way a caller with a backing file does.
fn read(file: &NodesFile, disk: &[u8], node: usize) -> [u8; 32] {
    match file.at(node).unwrap() {
        Location::Resident(label) => label,
        Location::Flushed { offset } => {
            let start = offset as usize;
            let mut out = [0u8; 32];
            out.copy_from_slice(&disk[start..start + 32]);
            out
        }
    }
}

#[test]
fn new_buffer_is_empty() {
    let file = NodesFile::new(64).unwrap();
    assert_eq!(file.len(), 0);
    assert_eq!(file.at(0), Err(Error::NotWritten));
}

#[test]
fn block_size_must_hold_whole_labels() {
    assert!(matches!(NodesFile::new(0), Err(Error::BlockSize)));
    assert!(matches!(NodesFile::new(33), Err(Error::BlockSize)));
    assert!(matches!(NodesFile::new(31), Err(Error::BlockSize)));
    assert!(NodesFile::new(32).is_ok());
    assert!(NodesFile::new(WRITE_BUFFER_SIZE).is_ok());
}

#[test]
fn default_block_is_128_mebibytes_of_whole_nodes() {
    assert_eq!(NODE_SIZE, 32);
    assert_eq!(WRITE_BUFFER_SIZE, 128 * 1024 * 1024);
    assert_eq!(WRITE_BUFFER_SIZE % NODE_SIZE, 0);
}

#[test]
fn label_stays_resident_until_block_is_full() {
    let mut file = NodesFile::new(64).unwrap();
    let first = [1u8; 32];
    let second = [2u8; 32];
    assert_eq!(file.append(&first), None);
    assert_eq!(file.at(0), Ok(Location::Resident(first)));
    let block = file.append(&second).unwrap();
    let mut expected = first.to_vec();
    expected.extend_from_slice(&second);
    assert_eq!(block, expected);
    assert_eq!(file.at(0), Ok(Location::Flushed { offset: 0 }));
    assert_eq!(file.at(1), Ok(Location::Flushed { offset: 32 }));
    assert_eq!(file.at(2), Err(Error::NotWritten));
}

#[test]
fn every_label_reads_back_on_disk_or_in_memory() {
    for capacity in [32usize, 64, 96, 160, 1024] {
        let mut file = NodesFile::new(capacity).unwrap();
        let mut disk = Vec::new();
        for i in 0..23 {
            if let Some(block) = file.append(&label(i)) {
                assert_eq!(block.len(), capacity);
                disk.extend_from_slice(&block);
            }
            assert_eq!(file.len(), i + 1);
            for j in 0..=i {
                assert_eq!(read(&file, &disk, j), label(j));
            }
            assert_eq!(file.at(i + 1), Err(Error::NotWritten));
        }
    }
}

#[test]
fn watermark_splits_disk_from_memory() {
    let mut file = NodesFile::new(96).unwrap();
    for i in 0..7 {
        file.append(&label(i));
    }
    for i in 0..6 {
        assert_eq!(file.at(i), Ok(Location::Flushed { offset: 32 * i as u64 }));
    }
    assert_eq!(file.at(6), Ok(Location::Resident(label(6))));
}

#[test]
fn flush_hands_out_the_partial_block() {
    let mut file = NodesFile::new(128).unwrap();
    let mut disk = Vec::new();
    for i in 0..6 {
        if let Some(block) = file.append(&label(i)) {
            disk.extend_from_slice(&block);
        }
    }
    assert_eq!(disk.len(), 128);
    let rest = file.flush();
    assert_eq!(rest.len(), 64);
    disk.extend_from_slice(&rest);
    assert_eq!(file.len(), 6);
    for i in 0..6 {
        assert_eq!(file.at(i), Ok(Location::Flushed { offset: 32 * i as u64 }));
        assert_eq!(&disk[32 * i..32 * i + 32], &label(i)[..]);
    }
    assert_eq!(file.flush(), Vec::<u8>::new());
}

#[test]
fn appending_goes_on_after_a_flush() {
    let mut file = NodesFile::new(64).unwrap();
    let mut disk = Vec::new();
    file.append(&label(0));
    disk.extend_from_slice(&file.flush());
    assert_eq!(file.append(&label(1)), None);
    let block = file.append(&label(2)).unwrap();
    disk.extend_from_slice(&block);
    for i in 0..3 {
        assert_eq!(read(&file, &disk, i), label(i));
    }
}

#[test]
fn copy_label_takes_32_bytes_from_the_offset() {
    let data: Vec<u8> = (0..100u8).collect();
    let label = copy_label(&data, 5);
    for i in 0..32 {
        assert_eq!(label[i], 5 + i as u8);
    }
}
