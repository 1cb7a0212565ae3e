use porep_labels::buffer::{Location, NodesFile};
use porep_labels::error::Error;
use porep_labels::label::{
    create_label, create_label_exp, prefetch, prefix_block, read_node, strip,
};

fn hex(text: &str) -> [u8; 32] {
    let mut out = [0u8; 32];
    for i in 0..32 {
        out[i] = u8::from_str_radix(&text[2 * i..2 * i + 2], 16).unwrap();
    }
    out
}

fn replica_id() -> [u8; 32] {
    let mut id = [0u8; 32];
    for i in 0..32 {
        id[i] = i as u8;
    }
    id
}

fn parents(count: usize) -> Vec<[u8; 32]> {
    (0..count).map(|i| [i as u8 + 1; 32]).collect()
}

fn last_label(file: &NodesFile) -> [u8; 32] {
    match file.at(file.len() - 1) {
        Ok(Location::Resident(label)) => label,
        other => panic!("label is not resident: {:?}", other),
    }
}

#[test]
fn prefix_holds_layer_and_node_with_highest_byte_first() {
    let block = prefix_block(0x0102_0304, 0x0506_0708_090a_0b0c);
    assert_eq!(
        block,
        hex("0102030405060708090a0b0c0000000000000000000000000000000000000000")
    );
}

#[test]
fn prefix_of_zero_is_zero() {
    assert_eq!(prefix_block(0, 0), [0u8; 32]);
}

#[test]
fn strip_clears_the_two_highest_bits_of_the_last_byte() {
    let key = strip([0xff; 32]);
    assert_eq!(key[31], 0x3f);
    assert_eq!(&key[..31], &[0xff; 31][..]);
    assert_eq!(strip([0x15; 32]), [0x15; 32]);
}

#[test]
fn first_node_is_labelled_without_parents() {
    let mut file = NodesFile::new(1024).unwrap();
    let block = create_label(None, &replica_id(), &mut file, 1, 0).unwrap();
    assert_eq!(block, None);
    assert_eq!(file.len(), 1);
    assert_eq!(
        last_label(&file),
        hex("0673a1fdce8a76fa61e92977ee6b0b6b287f282791d0a522610a388fb3544e2c")
    );
}

#[test]
fn first_node_ignores_the_parents_it_is_given() {
    let mut with = NodesFile::new(1024).unwrap();
    let mut without = NodesFile::new(1024).unwrap();
    let given = parents(14);
    create_label_exp(Some(&given), &replica_id(), &mut with, 2, 0).unwrap();
    create_label_exp(None, &replica_id(), &mut without, 2, 0).unwrap();
    let expected = hex("f7cb0ab5ea4ca24581211063644952f86e9d30eb096e3fbe9f5b6536e3a3c80a");
    assert_eq!(last_label(&with), expected);
    assert_eq!(last_label(&without), expected);
}

#[test]
fn first_node_has_the_same_label_in_both_derivations() {
    let mut base = NodesFile::new(1024).unwrap();
    let mut exp = NodesFile::new(1024).unwrap();
    create_label(None, &replica_id(), &mut base, 2, 0).unwrap();
    create_label_exp(None, &replica_id(), &mut exp, 2, 0).unwrap();
    assert_eq!(last_label(&base), last_label(&exp));
}

#[test]
fn base_label_hashes_six_parents() {
    let mut file = NodesFile::new(1024).unwrap();
    let given = parents(6);
    create_label(Some(&given), &replica_id(), &mut file, 1, 5).unwrap();
    assert_eq!(
        last_label(&file),
        hex("d9ea59b1eb07a5a459abbb0f808ac43863178e9472883873ca581651b44fa83f")
    );
}

#[test]
fn exp_label_hashes_fourteen_parents() {
    let mut file = NodesFile::new(1024).unwrap();
    let given = parents(14);
    create_label_exp(Some(&given), &replica_id(), &mut file, 2, 5).unwrap();
    assert_eq!(
        last_label(&file),
        hex("10affd0103779879cd6c549a9af4cdca5b335fea8aa5b534c0a68b504e0fc522")
    );
}

#[test]
fn label_is_the_same_every_time() {
    let given = parents(6);
    let mut labels = Vec::new();
    for _ in 0..3 {
        let mut file = NodesFile::new(1024).unwrap();
        create_label(Some(&given), &replica_id(), &mut file, 1, 7).unwrap();
        labels.push(last_label(&file));
    }
    assert_eq!(labels[0], labels[1]);
    assert_eq!(labels[1], labels[2]);
}

#[test]
fn labels_have_the_two_highest_bits_clear() {
    let given = parents(14);
    for node in 0..40usize {
        let mut file = NodesFile::new(1024).unwrap();
        create_label(Some(&given[..6].to_vec()), &replica_id(), &mut file, 1, node).unwrap();
        create_label_exp(Some(&given), &replica_id(), &mut file, 2, node).unwrap();
        assert!(last_label(&file)[31] < 64);
        match file.at(0) {
            Ok(Location::Resident(label)) => assert!(label[31] < 64),
            other => panic!("label is not resident: {:?}", other),
        }
    }
}

#[test]
fn label_depends_on_layer_node_and_parents() {
    let given = parents(6);
    let mut other = parents(6);
    other[5][0] ^= 1;
    let mut file = NodesFile::new(1024).unwrap();
    create_label(Some(&given), &replica_id(), &mut file, 1, 5).unwrap();
    create_label(Some(&given), &replica_id(), &mut file, 2, 5).unwrap();
    create_label(Some(&given), &replica_id(), &mut file, 1, 6).unwrap();
    create_label(Some(&other), &replica_id(), &mut file, 1, 5).unwrap();
    let mut seen = Vec::new();
    for i in 0..4 {
        match file.at(i) {
            Ok(Location::Resident(label)) => seen.push(label),
            other => panic!("label is not resident: {:?}", other),
        }
    }
    for i in 0..4 {
        for j in 0..i {
            assert_ne!(seen[i], seen[j]);
        }
    }
}

#[test]
fn layer_index_counts_as_thirty_two_bits() {
    if usize::BITS > 32 {
        let mut file = NodesFile::new(1024).unwrap();
        let layer = (1u64 << 32) as usize + 3;
        create_label(None, &replica_id(), &mut file, layer, 0).unwrap();
        assert_eq!(
            last_label(&file),
            hex("95c482353e28d49f3ed6bca02761652d8a41d9f3aece7225bbf05a0fc7cee609")
        );
    }
}

#[test]
fn later_node_needs_its_parents() {
    let mut file = NodesFile::new(1024).unwrap();
    assert_eq!(
        create_label(None, &replica_id(), &mut file, 1, 1),
        Err(Error::MissingParents)
    );
    assert_eq!(
        create_label_exp(None, &replica_id(), &mut file, 2, 1),
        Err(Error::MissingParents)
    );
    assert_eq!(file.len(), 0);
}

#[test]
fn parents_must_be_as_many_as_the_derivation_reads() {
    let mut file = NodesFile::new(1024).unwrap();
    for count in [0usize, 5, 7, 14] {
        assert_eq!(
            create_label(Some(&parents(count)), &replica_id(), &mut file, 1, 1),
            Err(Error::ParentCount)
        );
    }
    for count in [0usize, 6, 13, 15] {
        assert_eq!(
            create_label_exp(Some(&parents(count)), &replica_id(), &mut file, 2, 1),
            Err(Error::ParentCount)
        );
    }
    assert_eq!(file.len(), 0);
}

#[test]
fn label_that_fills_the_block_is_handed_back() {
    let mut file = NodesFile::new(64).unwrap();
    assert_eq!(create_label(None, &replica_id(), &mut file, 1, 0), Ok(None));
    let first = last_label(&file);
    let block = create_label(Some(&parents(6)), &replica_id(), &mut file, 1, 5)
        .unwrap()
        .unwrap();
    assert_eq!(&block[..32], &first[..]);
    assert_eq!(
        &block[32..],
        &hex("d9ea59b1eb07a5a459abbb0f808ac43863178e9472883873ca581651b44fa83f")[..]
    );
    assert_eq!(file.at(1), Ok(Location::Flushed { offset: 32 }));
}

#[test]
fn read_node_picks_the_label_of_the_parent() {
    let mut data = Vec::new();
    for i in 0..4u8 {
        data.extend_from_slice(&[i; 32]);
    }
    let parents = [3u32, 0, 2];
    assert_eq!(read_node(0, &parents, &data), &[3u8; 32][..]);
    assert_eq!(read_node(1, &parents, &data), &[0u8; 32][..]);
    assert_eq!(read_node(2, &parents, &data), &[2u8; 32][..]);
}

#[test]
fn prefetch_leaves_the_data_alone() {
    let data = vec![7u8; 128];
    let parents = [0u32, 3, 1];
    prefetch(&parents, &data);
    assert_eq!(data, vec![7u8; 128]);
}
