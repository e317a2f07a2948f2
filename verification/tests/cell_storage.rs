use ton_indexer::block_id::BlockIdExt;
use ton_indexer::cell::CellType;
use ton_indexer::shard::ShardIdent;
use ton_indexer::shard_state::cell_storage::{CellStorageError, StorageCell};
use ton_indexer::shard_state::entries_buffer::HashesEntry;
use ton_indexer::shard_state::parser::RawCell;
use ton_indexer::shard_state::replace_transaction::{
    FinalizationContext, ShardStateReplaceTransaction,
};

fn stored_parent() -> (Vec<u8>, [u8; 32]) {
    let transaction = ShardStateReplaceTransaction::new(0x21);
    let mut ctx = FinalizationContext::new();
    let mut child = HashesEntry::new();
    child.cell_type = CellType::Ordinary;
    child.level_mask = 1;
    child.hashes[0] = [0x11; 32];
    child.hashes[1] = [0x12; 32];
    child.depths = [3, 4, 0, 0];
    child.tree_bits_count = 100;
    child.tree_cell_count = 7;
    ctx.entries_buffer.children.push(child);
    let cell = RawCell {
        cell_type: CellType::Ordinary,
        level_mask: 1,
        bit_len: 9,
        data: vec![0xff, 0xc0],
        reference_indices: vec![3],
    };
    transaction.finalize_cell(&mut ctx, 2, &cell).unwrap();
    let record = &ctx.write_batch[0];
    (record.value.clone(), record.key)
}

#[test]
fn a_stored_record_is_read_back_as_its_cell() {
    let (value, key) = stored_parent();
    let cell = StorageCell::deserialize(&value).unwrap();
    assert_eq!(cell.marker, 0x21);
    assert!(cell.is_current(0x21) && !cell.is_current(0x22));
    assert_eq!(cell.cell_type, CellType::Ordinary);
    assert_eq!(cell.bit_len, 9);
    assert_eq!(cell.data, vec![0xff, 0xc0]);
    assert_eq!(cell.level_mask, 1);
    assert_eq!(cell.hashes.len(), 2);
    assert_eq!(cell.depths, vec![4, 5]);
    assert_eq!(cell.references, vec![[0x12; 32]]);
    assert_eq!(cell.tree_bits_count, 109);
    assert_eq!(cell.tree_cell_count, 8);
    assert_eq!(cell.repr_hash(), key);
    let mut again = vec![7];
    cell.serialize(&mut again);
    assert_eq!(&again[1..], &value[..]);
}

#[test]
fn broken_records_are_refused() {
    let (value, _) = stored_parent();
    let refused = |change: &dyn Fn(&mut Vec<u8>)| {
        let mut bad = value.clone();
        change(&mut bad);
        assert!(matches!(StorageCell::deserialize(&bad), Err(CellStorageError::InvalidCell)));
    };
    refused(&|v| v.clear());
    refused(&|v| v.truncate(3));
    refused(&|v| {
        v.pop();
    });
    refused(&|v| v.push(0));
    refused(&|v| v[1] = 0);
    refused(&|v| v[1] = 6);
    refused(&|v| v[3] = 4);
    refused(&|v| v[2] = 0);
    refused(&|v| v[7] = 1);
    refused(&|v| v[8] = 0);
    refused(&|v| v[9] = 1);
    refused(&|v| v[9] = 0);
    refused(&|v| v[9] = 5);
    refused(&|v| v[10 + 64] = 0);
    refused(&|v| v[11 + 64] = 1);
    refused(&|v| v[12 + 64 + 4] = 0);
    refused(&|v| v[12 + 64 + 4] = 5);
    let mut fine = value.clone();
    fine[0] = 0xaa;
    fine[6] = 7;
    assert_eq!(StorageCell::deserialize(&fine).unwrap().level_mask, 7);
}

#[test]
fn block_ids_are_made_of_their_parts() {
    let shard = ShardIdent::masterchain();
    let id = BlockIdExt::with_params(shard, 5, [1; 32], [2; 32]);
    assert_eq!(id, BlockIdExt { shard_id: shard, seq_no: 5, root_hash: [1; 32], file_hash: [2; 32] });
    assert_eq!(id.seq_no(), 5);
    assert_eq!(id.shard(), &shard);
    assert!(id.is_masterchain());
}
