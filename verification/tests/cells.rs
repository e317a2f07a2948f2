use sha2::{Digest, Sha256};
use ton_indexer::cell::{calculate_descriptor_bytes, CellType, LevelMask};
use ton_indexer::hash::digest;
use ton_indexer::shard_state::entries_buffer::HashesEntry;
use ton_indexer::shard_state::parser::RawCell;
use ton_indexer::shard_state::replace_transaction::{
    FinalizationContext, ReplaceTransactionError, ShardStateReplaceTransaction,
};

fn sha(parts: &[&[u8]]) -> [u8; 32] {
    let mut hasher = Sha256::new();
    for part in parts {
        hasher.update(part);
    }
    hasher.finalize().into()
}

fn empty_cell() -> RawCell {
    RawCell {
        cell_type: CellType::Ordinary,
        level_mask: 0,
        bit_len: 0,
        data: vec![0x80],
        reference_indices: vec![],
    }
}

fn entry_with(hash: [u8; 32], depth: u16) -> HashesEntry {
    let mut entry = HashesEntry::new();
    entry.cell_type = CellType::Ordinary;
    entry.hashes[0] = hash;
    entry.depths[0] = depth;
    entry.tree_bits_count = 10;
    entry.tree_cell_count = 2;
    entry
}

#[test]
fn digest_is_sha256() {
    let expected = [
        0xba, 0x78, 0x16, 0xbf, 0x8f, 0x01, 0xcf, 0xea, 0x41, 0x41, 0x40, 0xde, 0x5d, 0xae, 0x22,
        0x23, 0xb0, 0x03, 0x61, 0xa3, 0x96, 0x17, 0x7a, 0x9c, 0xb4, 0x10, 0xff, 0x61, 0xf2, 0x00,
        0x15, 0xad,
    ];
    assert_eq!(digest(b"abc"), expected);
    assert_ne!(digest(b"abd"), expected);
}

#[test]
fn empty_ordinary_cell_hashes_its_descriptor_alone() {
    let transaction = ShardStateReplaceTransaction::new(0x5a);
    let mut ctx = FinalizationContext::new();
    transaction.finalize_cell(&mut ctx, 7, &empty_cell()).unwrap();
    let expected = sha(&[&[0, 0]]);
    assert_eq!(
        expected,
        [
            0x96, 0xa2, 0x96, 0xd2, 0x24, 0xf2, 0x85, 0xc6, 0x7b, 0xee, 0x93, 0xc3, 0x0f, 0x8a,
            0x30, 0x91, 0x57, 0xf0, 0xda, 0xa3, 0x5d, 0xc5, 0xb8, 0x7e, 0x41, 0x0b, 0x78, 0x63,
            0x0a, 0x09, 0xcf, 0xc7
        ]
    );
    let entry = ctx.entries_buffer.current;
    assert_eq!(entry.hashes[0], expected);
    assert_eq!(entry.hash(3), expected);
    assert_eq!(entry.hashes[1], [0u8; 32]);
    assert_eq!(entry.depths, [0u16; 4]);
    assert_eq!(entry.depth(3), 0);
    assert_eq!(entry.tree_bits_count(), 0);
    assert_eq!(entry.tree_cell_count(), 1);
    assert_eq!(entry.level_mask().mask(), 0);
    assert_eq!(entry.cell_type(), CellType::Ordinary);
    assert_eq!(ctx.write_batch.len(), 1);
    assert_eq!(ctx.write_batch[0].key, expected);
    let mut value = vec![0x5a, 1, 0, 0, 0x80, 0, 0, 1, 1];
    value.extend_from_slice(&expected);
    value.extend_from_slice(&[1, 1, 0, 0, 0]);
    value.extend_from_slice(&0u64.to_le_bytes());
    value.extend_from_slice(&1u32.to_le_bytes());
    assert_eq!(ctx.write_batch[0].value, value);
    assert!(ctx.pruned_branches.is_empty());
}

#[test]
fn every_stored_record_begins_with_the_marker() {
    for marker in [0u8, 1, 0x7f, 0xff] {
        let transaction = ShardStateReplaceTransaction::new(marker);
        let mut ctx = FinalizationContext::new();
        transaction.finalize_cell(&mut ctx, 0, &empty_cell()).unwrap();
        assert_eq!(ctx.write_batch[0].value[0], marker);
    }
}

#[test]
fn cell_with_children_hashes_depths_then_hashes() {
    let transaction = ShardStateReplaceTransaction::new(1);
    let mut ctx = FinalizationContext::new();
    let left = entry_with([0x11; 32], 3);
    let right = entry_with([0x22; 32], 5);
    ctx.entries_buffer.children.push(left);
    ctx.entries_buffer.children.push(right);
    let cell = RawCell {
        cell_type: CellType::Ordinary,
        level_mask: 0,
        bit_len: 12,
        data: vec![0xab, 0xc8],
        reference_indices: vec![4, 9],
    };
    transaction.finalize_cell(&mut ctx, 2, &cell).unwrap();
    let expected = sha(&[&[2, 3], &[0xab, 0xc8], &[0, 3], &[0, 5], &[0x11; 32], &[0x22; 32]]);
    let entry = ctx.entries_buffer.current;
    assert_eq!(entry.hashes[0], expected);
    assert_eq!(entry.depths[0], 6);
    assert_eq!(entry.tree_bits_count, 12 + 10 + 10);
    assert_eq!(entry.tree_cell_count, 1 + 2 + 2);
    let record = &ctx.write_batch[0];
    assert_eq!(record.key, expected);
    let mut value = vec![1, 1, 12, 0, 0xab, 0xc8, 0, 0, 1, 1];
    value.extend_from_slice(&expected);
    value.extend_from_slice(&[1, 1, 6, 0, 2]);
    value.extend_from_slice(&[0x11; 32]);
    value.extend_from_slice(&[0x22; 32]);
    value.extend_from_slice(&32u64.to_le_bytes());
    value.extend_from_slice(&5u32.to_le_bytes());
    assert_eq!(record.value, value);
    assert_eq!(ctx.entries_buffer.children.len(), 2);
}

#[test]
fn subtree_counters_do_not_wrap() {
    let transaction = ShardStateReplaceTransaction::new(1);
    let mut ctx = FinalizationContext::new();
    let mut big = entry_with([1; 32], 0);
    big.tree_bits_count = u64::MAX - 3;
    big.tree_cell_count = u32::MAX;
    ctx.entries_buffer.children.push(big);
    ctx.entries_buffer.children.push(big);
    let cell = RawCell {
        cell_type: CellType::Ordinary,
        level_mask: 0,
        bit_len: 8,
        data: vec![1, 0x80],
        reference_indices: vec![1, 2],
    };
    transaction.finalize_cell(&mut ctx, 0, &cell).unwrap();
    assert_eq!(ctx.entries_buffer.current.tree_bits_count, u64::MAX);
    assert_eq!(ctx.entries_buffer.current.tree_cell_count, u32::MAX);
}

#[test]
fn level_mask_must_match_kind_and_children() {
    let transaction = ShardStateReplaceTransaction::new(1);
    let mut ctx = FinalizationContext::new();
    let mut cell = empty_cell();
    cell.level_mask = 1;
    assert_eq!(
        transaction.finalize_cell(&mut ctx, 0, &cell),
        Err(ReplaceTransactionError::InvalidCell)
    );
    assert!(ctx.write_batch.is_empty());

    let mut child = entry_with([1; 32], 0);
    child.level_mask = 3;
    child.hashes[1] = [2; 32];
    child.hashes[2] = [3; 32];
    ctx.entries_buffer.children.push(child);
    let mut parent = empty_cell();
    parent.reference_indices = vec![1];
    assert_eq!(
        transaction.finalize_cell(&mut ctx, 0, &parent),
        Err(ReplaceTransactionError::InvalidCell)
    );
    parent.level_mask = 3;
    transaction.finalize_cell(&mut ctx, 0, &parent).unwrap();
    let entry = ctx.entries_buffer.current;
    let h0 = sha(&[&[1, 0], &[0, 0], &[1; 32]]);
    let h1 = sha(&[&[1 + 32, 0], &h0, &[0, 0], &[2; 32]]);
    let h2 = sha(&[&[1 + 96, 0], &h1, &[0, 0], &[3; 32]]);
    assert_eq!(entry.hashes, [h0, h1, h2, [0; 32]]);
    assert_eq!(entry.depths, [1, 1, 1, 0]);
    assert_eq!(ctx.write_batch[0].key, h2);
    assert_eq!(entry.hash(0), h0);
    assert_eq!(entry.hash(1), h1);
    assert_eq!(entry.hash(2), h2);
    assert_eq!(entry.hash(3), h2);
    assert_eq!(ctx.write_batch[0].value[5..9], [3, 0, 1, 3]);
}

#[test]
fn merkle_cell_asks_its_children_one_level_higher() {
    let transaction = ShardStateReplaceTransaction::new(1);
    let mut ctx = FinalizationContext::new();
    let mut child = entry_with([1; 32], 4);
    child.level_mask = 1;
    child.hashes[1] = [2; 32];
    child.depths[1] = 9;
    ctx.entries_buffer.children.push(child);
    let cell = RawCell {
        cell_type: CellType::MerkleProof,
        level_mask: 0,
        bit_len: 8,
        data: vec![3, 0x80],
        reference_indices: vec![1],
    };
    transaction.finalize_cell(&mut ctx, 0, &cell).unwrap();
    let expected = sha(&[&[1 + 8, 2], &[3], &[0, 9], &[2; 32]]);
    assert_eq!(ctx.entries_buffer.current.hashes[0], expected);
    assert_eq!(ctx.entries_buffer.current.depths[0], 10);
    assert_eq!(ctx.write_batch[0].value[1], 4);
}

#[test]
fn unknown_kind_is_refused() {
    let transaction = ShardStateReplaceTransaction::new(1);
    let mut ctx = FinalizationContext::new();
    let mut cell = empty_cell();
    cell.cell_type = CellType::Unknown;
    assert_eq!(
        transaction.finalize_cell(&mut ctx, 0, &cell),
        Err(ReplaceTransactionError::InvalidCell)
    );
}

#[test]
fn ill_formed_cells_are_refused() {
    let transaction = ShardStateReplaceTransaction::new(1);
    let mut ctx = FinalizationContext::new();
    let mut cell = empty_cell();
    cell.bit_len = 1024;
    cell.data = vec![0; 200];
    assert!(transaction.finalize_cell(&mut ctx, 0, &cell).is_err());
    let mut cell = empty_cell();
    cell.bit_len = 16;
    cell.data = vec![1, 2];
    assert!(transaction.finalize_cell(&mut ctx, 0, &cell).is_err());
    let mut cell = empty_cell();
    cell.reference_indices = vec![1];
    assert!(transaction.finalize_cell(&mut ctx, 0, &cell).is_err());
    assert!(ctx.write_batch.is_empty());
}

#[test]
fn depth_is_bounded() {
    let transaction = ShardStateReplaceTransaction::new(1);
    let mut ctx = FinalizationContext::new();
    ctx.entries_buffer.children.push(entry_with([1; 32], 59));
    let mut cell = empty_cell();
    cell.reference_indices = vec![1];
    transaction.finalize_cell(&mut ctx, 0, &cell).unwrap();
    assert_eq!(ctx.entries_buffer.current.depths[0], 60);

    ctx.entries_buffer.children.clear();
    ctx.entries_buffer.children.push(entry_with([1; 32], 60));
    assert_eq!(
        transaction.finalize_cell(&mut ctx, 0, &cell),
        Err(ReplaceTransactionError::InvalidCell)
    );
    ctx.entries_buffer.children.clear();
    ctx.entries_buffer.children.push(entry_with([1; 32], u16::MAX));
    assert_eq!(
        transaction.finalize_cell(&mut ctx, 0, &cell),
        Err(ReplaceTransactionError::InvalidCell)
    );
    assert_eq!(ctx.write_batch.len(), 1);
}

fn pruned_data(level_hash: [u8; 32], depth: u16) -> Vec<u8> {
    let mut data = vec![1, 1];
    data.extend_from_slice(&level_hash);
    data.extend_from_slice(&depth.to_be_bytes());
    data
}

#[test]
fn pruned_branch_gives_hash_and_depth_from_its_data() {
    let transaction = ShardStateReplaceTransaction::new(9);
    let mut ctx = FinalizationContext::new();
    let data = pruned_data([0x77; 32], 12);
    let mut tagged = data.clone();
    tagged.push(0x80);
    let pruned = RawCell {
        cell_type: CellType::PrunedBranch,
        level_mask: 1,
        bit_len: 288,
        data: tagged,
        reference_indices: vec![],
    };
    transaction.finalize_cell(&mut ctx, 5, &pruned).unwrap();
    let pruned_entry = ctx.entries_buffer.current;
    let own = sha(&[&[8 + 32, 72], &data]);
    assert_eq!(pruned_entry.hashes[0], own);
    assert_eq!(pruned_entry.hash(3), own);
    assert_eq!(ctx.write_batch[0].key, own);
    assert_eq!(ctx.write_batch[0].value[1], 2);
    assert_eq!(ctx.write_batch[0].value[2..4], [0x20, 0x01]);
    assert_eq!(ctx.pruned_branches.get(&5), Some(&data));
    assert_eq!(pruned_entry.pruned_branch_hash(0, &data), Some([0x77; 32]));
    assert_eq!(pruned_entry.pruned_branch_depth(0, &data), Some(12));
    assert_eq!(pruned_entry.pruned_branch_hash(1, &data), Some(own));
    assert_eq!(pruned_entry.pruned_branch_depth(1, &data), Some(0));
    assert_eq!(pruned_entry.pruned_branch_hash(0, &data[..33]), None);
    assert_eq!(pruned_entry.pruned_branch_depth(0, &data[..35]), None);

    ctx.entries_buffer.children.push(pruned_entry);
    let parent = RawCell {
        cell_type: CellType::Ordinary,
        level_mask: 1,
        bit_len: 0,
        data: vec![0x80],
        reference_indices: vec![5],
    };
    transaction.finalize_cell(&mut ctx, 4, &parent).unwrap();
    let h0 = sha(&[&[1, 0], &[0, 12], &[0x77; 32]]);
    let h1 = sha(&[&[1 + 32, 0], &h0, &[0, 0], &own]);
    let entry = ctx.entries_buffer.current;
    assert_eq!(entry.hashes[0], h0);
    assert_eq!(entry.hashes[1], h1);
    assert_eq!(entry.depths[0], 13);
    assert_eq!(entry.depths[1], 1);
    let value = &ctx.write_batch[1].value;
    assert_eq!(&value[value.len() - 12 - 32..value.len() - 12], &own);

    let mut stranger = parent;
    stranger.reference_indices = vec![6];
    assert_eq!(
        transaction.finalize_cell(&mut ctx, 4, &stranger),
        Err(ReplaceTransactionError::InvalidCell)
    );
    assert_eq!(ctx.write_batch.len(), 2);
}

#[test]
fn level_masks() {
    assert_eq!(LevelMask::with_mask(5).mask(), 5);
    assert_eq!(LevelMask::with_mask(8).mask(), 0);
    assert_eq!(LevelMask::with_level(0).mask(), 0);
    assert_eq!(LevelMask::with_level(1).mask(), 1);
    assert_eq!(LevelMask::with_level(2).mask(), 3);
    assert_eq!(LevelMask::with_level(3).mask(), 7);
    assert_eq!(LevelMask::with_level(4).mask(), 0);
    assert_eq!(LevelMask::for_merkle_cell(LevelMask(6)).mask(), 3);
    assert_eq!(LevelMask(0).level(), 0);
    assert_eq!(LevelMask(5).level(), 2);
    assert_eq!(LevelMask(7).level(), 3);
    assert_eq!(LevelMask(9).level(), 255);
    assert_eq!(LevelMask(1).union(LevelMask(4)).mask(), 5);
    assert_eq!(LevelMask(5).calc_hash_index(0), 0);
    assert_eq!(LevelMask(5).calc_hash_index(1), 1);
    assert_eq!(LevelMask(5).calc_hash_index(2), 1);
    assert_eq!(LevelMask(5).calc_hash_index(3), 2);
    assert_eq!(LevelMask(5).calc_hash_index(200), 2);
}

#[test]
fn descriptor_bytes() {
    assert_eq!(calculate_descriptor_bytes(0, 0, 0, false, false), (0, 0));
    assert_eq!(calculate_descriptor_bytes(8, 2, 0, false, false), (2, 2));
    assert_eq!(calculate_descriptor_bytes(12, 4, 1, true, false), (4 + 8 + 32, 3));
    assert_eq!(calculate_descriptor_bytes(1023, 0, 7, false, true), (16 + 224, 255));
}

#[test]
fn cell_kinds_have_their_codes() {
    for (kind, code) in [
        (CellType::Unknown, 0u8),
        (CellType::Ordinary, 1),
        (CellType::PrunedBranch, 2),
        (CellType::LibraryReference, 3),
        (CellType::MerkleProof, 4),
        (CellType::MerkleUpdate, 5),
    ] {
        assert_eq!(kind.to_u8(), code);
        assert_eq!(CellType::from_u8(code), kind);
    }
    assert_eq!(CellType::from_u8(6), CellType::Unknown);
    assert_eq!(CellType::from_exotic_tag(1), CellType::PrunedBranch);
    assert_eq!(CellType::from_exotic_tag(2), CellType::LibraryReference);
    assert_eq!(CellType::from_exotic_tag(3), CellType::MerkleProof);
    assert_eq!(CellType::from_exotic_tag(4), CellType::MerkleUpdate);
    assert_eq!(CellType::from_exotic_tag(0), CellType::Unknown);
    assert!(CellType::MerkleUpdate.is_merkle() && !CellType::Ordinary.is_merkle());
}

#[test]
fn hashes_entry_keeps_its_bytes() {
    let mut entry = HashesEntry::new();
    entry.level_mask = 5;
    entry.cell_type = CellType::MerkleUpdate;
    entry.tree_bits_count = 0x0102_0304_0506_0708;
    entry.tree_cell_count = 0x0a0b_0c0d;
    for i in 0..4 {
        entry.hashes[i] = [i as u8 + 1; 32];
        entry.depths[i] = 0x100 * (i as u16 + 1) + 7;
    }
    let bytes = entry.to_bytes();
    assert_eq!(bytes.len(), HashesEntry::LEN);
    assert_eq!(HashesEntry::LEN, 160);
    assert_eq!(&bytes[0..2], &[5, 5]);
    assert_eq!(&bytes[2..10], &[8, 7, 6, 5, 4, 3, 2, 1]);
    assert_eq!(&bytes[10..14], &[0x0d, 0x0c, 0x0b, 0x0a]);
    assert_eq!(&bytes[14..46], &[1; 32]);
    assert_eq!(&bytes[110..142], &[4; 32]);
    assert_eq!(&bytes[142..150], &[7, 1, 7, 2, 7, 3, 7, 4]);
    assert_eq!(&bytes[150..160], &[0; 10]);
    let mut padded = vec![0xee; 3];
    padded.extend_from_slice(&bytes);
    let back = HashesEntry::from_bytes(&padded, 3);
    assert_eq!(back.level_mask, entry.level_mask);
    assert_eq!(back.cell_type, entry.cell_type);
    assert_eq!(back.tree_bits_count, entry.tree_bits_count);
    assert_eq!(back.tree_cell_count, entry.tree_cell_count);
    assert_eq!(back.hashes, entry.hashes);
    assert_eq!(back.depths, entry.depths);
}

#[test]
fn records_are_read_back_as_cells() {
    let record = [2u8, 3, 0xab, 0xc8, 0, 4, 0, 9];
    let cell = RawCell::from_stored_data(&record, 2, 10, 3).unwrap();
    assert_eq!(cell.cell_type, CellType::Ordinary);
    assert_eq!(cell.level_mask, 0);
    assert_eq!(cell.bit_len, 12);
    assert_eq!(cell.data, vec![0xab, 0xc8]);
    assert_eq!(cell.reference_indices, vec![4, 9]);

    let cell = RawCell::from_stored_data(&[0, 2, 0x55], 1, 1, 0).unwrap();
    assert_eq!(cell.bit_len, 8);
    assert_eq!(cell.data, vec![0x55, 0x80]);

    let cell = RawCell::from_stored_data(&[0, 1, 0x80], 1, 1, 0).unwrap();
    assert_eq!(cell.bit_len, 0);
    let cell = RawCell::from_stored_data(&[0, 1, 0x01], 1, 1, 0).unwrap();
    assert_eq!(cell.bit_len, 7);

    let cell = RawCell::from_stored_data(&[8 + 32, 2, 1], 1, 1, 0).unwrap();
    assert_eq!(cell.cell_type, CellType::PrunedBranch);
    assert_eq!(cell.level_mask, 1);
    let cell = RawCell::from_stored_data(&[8, 2, 9], 1, 1, 0).unwrap();
    assert_eq!(cell.cell_type, CellType::Unknown);
}

#[test]
fn children_must_follow_their_parent() {
    let invalid = Err(ReplaceTransactionError::InvalidCell);
    let at = |index: u8, cell_index: usize| {
        RawCell::from_stored_data(&[1, 0, index], 1, 10, cell_index).map(|cell| cell.reference_indices)
    };
    assert_eq!(at(4, 3), Ok(vec![4]));
    assert_eq!(at(9, 3), Ok(vec![9]));
    assert_eq!(at(3, 3), invalid);
    assert_eq!(at(2, 3), invalid);
    assert_eq!(at(0, 0), invalid);
    assert_eq!(at(10, 3), invalid);
    assert_eq!(at(200, 3), invalid);
}

#[test]
fn malformed_records_are_refused() {
    let refused = |record: &[u8], ref_size: usize| {
        assert!(matches!(
            RawCell::from_stored_data(record, ref_size, 10, 0),
            Err(ReplaceTransactionError::InvalidCell)
        ));
    };
    refused(&[], 1);
    refused(&[0], 1);
    refused(&[5, 0, 1, 2, 3, 4, 5], 1);
    refused(&[0, 2], 1);
    refused(&[0, 0, 1], 1);
    refused(&[0, 1, 0], 1);
    refused(&[8, 0], 1);
    refused(&[8, 1, 0x80], 1);
    refused(&[1, 0, 1], 0);
    refused(&[1, 0, 0, 0, 0, 0, 1], 5);
    refused(&[1, 0, 1], 2);
}
