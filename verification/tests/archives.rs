use ton_indexer::block_id::BlockIdExt;
use ton_indexer::boot::{ColdBootData, KeyBlockProofCheck};
use ton_indexer::shard::{ShardIdent, SHARD_FULL};
use ton_indexer::shard_state::replace_transaction::shard_state_key;
use ton_indexer::storage::block_handle::BlockHandle;
use ton_indexer::storage::block_index_db::{BlockIndexDb, LtDbEntry, LtDbKeyOwned};
use ton_indexer::stored_value::StoredValue;
use ton_indexer::sync::block_maps::{parse_archive, BlockMaps};
use ton_indexer::sync::import::{import_mc_blocks, PackageEntryId};

fn mc(seq_no: u32) -> BlockIdExt {
    BlockIdExt {
        shard_id: ShardIdent::masterchain(),
        seq_no,
        root_hash: [seq_no as u8; 32],
        file_hash: [2; 32],
    }
}

fn shard_block(seq_no: u32) -> BlockIdExt {
    BlockIdExt {
        shard_id: ShardIdent::with_tagged_prefix(0, SHARD_FULL).unwrap(),
        seq_no,
        root_hash: [seq_no as u8; 32],
        file_hash: [3; 32],
    }
}

#[test]
fn an_archive_is_sorted_into_maps() {
    let entries = vec![
        (PackageEntryId::Block(mc(103)), vec![103]),
        (PackageEntryId::ProofLink(shard_block(7)), vec![77]),
        (PackageEntryId::Proof(mc(101)), vec![1, 1]),
        (PackageEntryId::Block(shard_block(7)), vec![7]),
        (PackageEntryId::Block(mc(101)), vec![101]),
        (PackageEntryId::Proof(shard_block(8)), vec![8]),
        (PackageEntryId::ProofLink(mc(104)), vec![4]),
        (PackageEntryId::Proof(mc(102)), vec![2, 2]),
        (PackageEntryId::Block(mc(103)), vec![33]),
    ];
    let maps = parse_archive(&entries);
    let seq_nos: Vec<u32> = maps.mc_block_ids.iter().map(|(seq_no, _)| *seq_no).collect();
    assert_eq!(seq_nos, vec![101, 102, 103]);
    for (seq_no, id) in &maps.mc_block_ids {
        assert_eq!(*id, mc(*seq_no));
    }
    assert_eq!(maps.lowest_mc_id(), Some(&mc(101)));
    assert_eq!(maps.highest_mc_id(), Some(&mc(103)));
    assert_eq!(maps.blocks.len(), 4);
    let entry = |id: BlockIdExt| &maps.blocks[maps.find_block(&id).unwrap()].1;
    assert_eq!(entry(mc(101)).block, Some(vec![101]));
    assert_eq!(entry(mc(101)).proof, Some(vec![1, 1]));
    assert_eq!(entry(mc(102)).block, None);
    assert_eq!(entry(mc(102)).proof, Some(vec![2, 2]));
    assert_eq!(entry(mc(103)).block, Some(vec![33]));
    assert_eq!(entry(mc(103)).proof, None);
    assert_eq!(entry(shard_block(7)).block, Some(vec![7]));
    assert_eq!(entry(shard_block(7)).proof, Some(vec![77]));
    assert_eq!(maps.find_block(&shard_block(8)), None);
    assert_eq!(maps.find_block(&mc(104)), None);

    let ids: Vec<BlockIdExt> = maps.mc_block_ids.iter().map(|(_, id)| *id).collect();
    let import = import_mc_blocks(&ids, &mc(100));
    assert_eq!(import.to_apply, vec![mc(101), mc(102), mc(103)]);
}

#[test]
fn an_empty_archive_names_no_block() {
    let maps = parse_archive(&Vec::new());
    assert!(maps.mc_block_ids.is_empty() && maps.blocks.is_empty());
    assert_eq!(maps.lowest_mc_id(), None);
    assert_eq!(maps.highest_mc_id(), None);
    let mut maps = BlockMaps::new();
    maps.insert_mc_block_id(5, mc(5));
    maps.insert_mc_block_id(3, mc(3));
    maps.insert_mc_block_id(4, mc(4));
    maps.insert_mc_block_id(3, mc(33));
    assert_eq!(maps.mc_block_ids, vec![(3, mc(33)), (4, mc(4)), (5, mc(5))]);
}

#[test]
fn stored_rows_are_read_back_and_bad_rows_passed_over() {
    let shard = ShardIdent::masterchain();
    let row = |index: u32| {
        (
            LtDbKeyOwned { shard_ident: shard, index }.to_vec(),
            LtDbEntry { block_id_ext: mc(index), gen_lt: 5, gen_utime: index }.to_vec(),
        )
    };
    let mut raw = vec![row(1), row(2), row(3), row(4)];
    raw[1].0.truncate(10);
    raw[2].1.truncate(91);
    let rows = BlockIndexDb::with_db().lt_db_iterator(&raw);
    let indices: Vec<u32> = rows.iter().map(|(key, _)| key.index).collect();
    assert_eq!(indices, vec![1, 4]);
    assert_eq!(rows[1].1.block_id_ext, mc(4));
    assert_eq!(rows[1].1.gen_utime, 4);
}

#[test]
fn the_state_key_is_shard_and_sequence_number() {
    let key = shard_state_key(&BlockIdExt { seq_no: 0x0a0b_0c0d, ..shard_block(1) });
    assert_eq!(key, vec![0, 0, 0, 0, 0, 0, 0, 0, 0, 0, 0, 0x80, 0x0d, 0x0c, 0x0b, 0x0a]);
}

#[test]
fn cold_boot_data_knows_its_block() {
    let zero = ColdBootData::ZeroState { handle: BlockHandle::new(mc(0)) };
    let key = ColdBootData::KeyBlock { handle: BlockHandle::new(mc(9)) };
    assert_eq!(zero.init_block_handle().id(), &mc(0));
    assert_eq!(key.init_block_handle().id(), &mc(9));
    assert_eq!(zero.next_proof_check(), KeyBlockProofCheck::MasterState);
    assert_eq!(key.next_proof_check(), KeyBlockProofCheck::PrevKeyBlockProof);
}
