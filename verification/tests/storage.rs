use ton_indexer::block_id::BlockIdExt;
use ton_indexer::shard::{ShardIdent, SHARD_FULL};
use ton_indexer::storage::block_handle::{BlockHandle, BlockHandleError};
use ton_indexer::storage::block_index_db::{
    AccountIdPrefixFull, BlockIndexDb, BlockIndexDbError, LookupTarget, LtDbEntry, LtDbKeyOwned,
    LtDesc, Position,
};
use ton_indexer::storage::block_lookup::{BlockLookup, LookupAction};
use ton_indexer::storage::block_meta::BlockMeta;
use ton_indexer::storage::columns::{
    archive_data_merge, ArchiveManagerDb, ArchiveStorage, BackgroundSyncMeta, BlockHandles, CellDb,
    Column, KeyBlocks, Lt, LtDesc as LtDescColumn, Next1, Next2, NodeState, Prev1, Prev2,
    ShardStateDb, ARCHIVE_PREFIX,
};
use ton_indexer::stored_value::StoredValue;

fn block(shard: ShardIdent, seq_no: u32) -> BlockIdExt {
    BlockIdExt { shard_id: shard, seq_no, root_hash: [seq_no as u8; 32], file_hash: [1; 32] }
}

fn handle(shard: ShardIdent, seq_no: u32) -> BlockHandle {
    BlockHandle::with_values(
        block(shard, seq_no),
        BlockMeta::with_times(10 * seq_no, 1000 * seq_no as u64, false),
    )
}

/// The two tables of the index, in memory.
struct Tables {
    descs: Vec<(ShardIdent, LtDesc)>,
    entries: Vec<(LtDbKeyOwned, LtDbEntry)>,
}

impl Tables {
    fn new() -> Self {
        Tables { descs: Vec::new(), entries: Vec::new() }
    }

    fn desc(&self, shard: &ShardIdent) -> Option<LtDesc> {
        self.descs.iter().find(|(s, _)| s == shard).map(|(_, d)| *d)
    }

    fn add(&mut self, handle: &BlockHandle) -> Result<Option<u32>, BlockIndexDbError> {
        let shard = handle.id().shard_id;
        let desc = self.desc(&shard);
        match BlockIndexDb::with_db().add_handle(desc.as_ref(), handle)? {
            None => Ok(None),
            Some(update) => {
                self.entries.push((update.key, update.entry));
                self.descs.retain(|(s, _)| *s != shard);
                self.descs.push((shard, update.desc));
                Ok(Some(update.key.index))
            }
        }
    }

    fn run(&self, start: (BlockLookup, LookupAction)) -> (Result<BlockIdExt, BlockIndexDbError>, usize) {
        let (mut lookup, mut action) = start;
        let mut loads = 0;
        loop {
            let next = match action {
                LookupAction::LoadDesc(shard) => lookup.on_desc(self.desc(&shard)),
                LookupAction::LoadEntry(key) => {
                    loads += 1;
                    lookup.on_entry(self.entries.iter().find(|(k, _)| *k == key).map(|(_, e)| *e))
                }
                LookupAction::Finished(result) => return (result, loads),
            };
            lookup = next.0;
            action = next.1;
        }
    }
}

#[test]
fn split_shard_index() {
    let main = ShardIdent::with_tagged_prefix(0, SHARD_FULL).unwrap();
    let (left, right) = main.split().unwrap();
    let mut tables = Tables::new();
    assert_eq!(tables.add(&handle(left, 1000)), Ok(Some(1)));
    assert_eq!(tables.add(&handle(right, 1001)), Ok(Some(1)));
    let db = BlockIndexDb::with_db();
    let in_left = AccountIdPrefixFull { workchain_id: 0, prefix: 0x1234_0000_0000_0000 };
    let in_right = AccountIdPrefixFull { workchain_id: 0, prefix: 0xf234_0000_0000_0000 };
    assert_eq!(tables.run(db.get_block_by_seq_no(&in_left, 1000)).0, Ok(block(left, 1000)));
    assert_eq!(tables.run(db.get_block_by_seq_no(&in_right, 1001)).0, Ok(block(right, 1001)));
    for account in [in_left, in_right] {
        assert_eq!(
            tables.run(db.get_block_by_seq_no(&account, 100)).0,
            Err(BlockIndexDbError::BlockNotFound)
        );
    }
    assert_eq!(
        tables.run(db.get_block_by_seq_no(&in_left, 1001)).0,
        Err(BlockIndexDbError::BlockNotFound)
    );
}

#[test]
fn blocks_are_added_in_ascending_order() {
    let shard = ShardIdent::with_tagged_prefix(0, SHARD_FULL).unwrap();
    let mut tables = Tables::new();
    assert_eq!(tables.add(&handle(shard, 5)), Ok(Some(1)));
    assert_eq!(tables.add(&handle(shard, 6)), Ok(Some(2)));
    assert_eq!(tables.add(&handle(shard, 6)), Ok(None));
    assert_eq!(tables.add(&handle(shard, 9)), Ok(Some(3)));
    assert_eq!(tables.add(&handle(shard, 8)), Err(BlockIndexDbError::AscendingOrderRequired));
    assert_eq!(tables.add(&handle(shard, 0)), Err(BlockIndexDbError::AscendingOrderRequired));
    assert_eq!(tables.entries.len(), 3);
    assert_eq!(
        tables.desc(&shard),
        Some(LtDesc { first_index: 1, last_index: 3, last_seq_no: 9, last_lt: 9000, last_utime: 90 })
    );
    let last = &tables.entries[2];
    assert_eq!(last.0, LtDbKeyOwned { shard_ident: shard, index: 3 });
    assert_eq!(last.1.block_id_ext, block(shard, 9));
    assert_eq!((last.1.gen_lt, last.1.gen_utime), (9000, 90));

    let full = LtDesc { first_index: 1, last_index: u32::MAX, last_seq_no: 9, last_lt: 0, last_utime: 0 };
    let db = BlockIndexDb::with_db();
    assert!(matches!(
        db.add_handle(Some(&full), &handle(shard, 10)),
        Err(BlockIndexDbError::IndexExhausted)
    ));
    assert!(matches!(db.add_handle(Some(&full), &handle(shard, 9)), Ok(None)));
}

#[test]
fn lookup_by_sequence_number_finds_every_block() {
    let shard = ShardIdent::masterchain();
    let mut tables = Tables::new();
    for seq_no in 1..=100u32 {
        tables.add(&handle(shard, 3 * seq_no)).unwrap();
    }
    let db = BlockIndexDb::with_db();
    let account = AccountIdPrefixFull { workchain_id: -1, prefix: 0 };
    for seq_no in 1..=100u32 {
        let (found, loads) = tables.run(db.get_block_by_seq_no(&account, 3 * seq_no));
        assert_eq!(found, Ok(block(shard, 3 * seq_no)));
        assert!(loads <= 8);
        assert_eq!(
            tables.run(db.get_block_by_seq_no(&account, 3 * seq_no + 1)).0,
            Err(BlockIndexDbError::BlockNotFound)
        );
    }
    assert_eq!(
        tables.run(db.get_block_by_seq_no(&account, 301)).0,
        Err(BlockIndexDbError::BlockNotFound)
    );
}

#[test]
fn lookup_by_time_finds_the_first_block_at_or_after() {
    let shard = ShardIdent::masterchain();
    let mut tables = Tables::new();
    for seq_no in 1..=20u32 {
        tables.add(&handle(shard, seq_no)).unwrap();
    }
    let db = BlockIndexDb::with_db();
    let account = AccountIdPrefixFull { workchain_id: -1, prefix: 77 };
    assert_eq!(tables.run(db.get_block_by_utime(&account, 50)).0, Ok(block(shard, 5)));
    assert_eq!(tables.run(db.get_block_by_utime(&account, 51)).0, Ok(block(shard, 6)));
    assert_eq!(tables.run(db.get_block_by_utime(&account, 200)).0, Ok(block(shard, 20)));
    assert_eq!(tables.run(db.get_block_by_lt(&account, 4001)).0, Ok(block(shard, 5)));
    assert_eq!(tables.run(db.get_block_by_lt(&account, 7000)).0, Ok(block(shard, 7)));
    assert_eq!(
        tables.run(db.get_block_by_utime(&account, 201)).0,
        Err(BlockIndexDbError::BlockNotFound)
    );
    assert_eq!(
        tables.run(db.get_block(&account, LookupTarget::Lt(20_001), false)).0,
        Err(BlockIndexDbError::BlockNotFound)
    );
}

#[test]
fn lookup_without_a_masterchain_summary_fails_at_once() {
    let tables = Tables::new();
    let db = BlockIndexDb::with_db();
    let (lookup, action) = db.get_block_by_seq_no(&AccountIdPrefixFull { workchain_id: -1, prefix: 0 }, 1);
    assert!(matches!(action, LookupAction::LoadDesc(shard) if shard == ShardIdent::masterchain()));
    assert!(matches!(
        lookup.on_desc(None).1,
        LookupAction::Finished(Err(BlockIndexDbError::BlockNotFound))
    ));
    let account = AccountIdPrefixFull { workchain_id: 0, prefix: 0 };
    assert_eq!(
        tables.run(db.get_block_by_seq_no(&account, 1)).0,
        Err(BlockIndexDbError::BlockNotFound)
    );
}

#[test]
fn a_missing_entry_fails_the_lookup() {
    let shard = ShardIdent::masterchain();
    let desc = LtDesc { first_index: 1, last_index: 4, last_seq_no: 40, last_lt: 0, last_utime: 0 };
    let (lookup, _) = BlockLookup::new(
        AccountIdPrefixFull { workchain_id: -1, prefix: 0 },
        LookupTarget::SeqNo(20),
        true,
    );
    let (lookup, action) = lookup.on_desc(Some(desc));
    assert!(matches!(action, LookupAction::LoadEntry(key) if key == LtDbKeyOwned { shard_ident: shard, index: 3 }));
    assert!(matches!(
        lookup.on_entry(None).1,
        LookupAction::Finished(Err(BlockIndexDbError::LtDbEntryNotFound))
    ));
    let entry = LtDbEntry { block_id_ext: block(shard, 30), gen_lt: 0, gen_utime: 0 };
    let (lookup, action) = lookup.on_entry(Some(entry));
    assert!(matches!(action, LookupAction::LoadEntry(key) if key.index == 2));
    let entry = LtDbEntry { block_id_ext: block(shard, 20), gen_lt: 0, gen_utime: 0 };
    assert!(matches!(lookup.on_entry(Some(entry)).1, LookupAction::Finished(Ok(id)) if id == block(shard, 20)));
}

#[test]
fn targets_are_held_against_blocks() {
    let desc = LtDesc { first_index: 1, last_index: 1, last_seq_no: 10, last_lt: 20, last_utime: 30 };
    assert_eq!(LookupTarget::SeqNo(9).compare_lt_desc(&desc), Position::Less);
    assert_eq!(LookupTarget::SeqNo(10).compare_lt_desc(&desc), Position::Equal);
    assert_eq!(LookupTarget::Lt(21).compare_lt_desc(&desc), Position::Greater);
    assert_eq!(LookupTarget::Utime(30).compare_lt_desc(&desc), Position::Equal);
    let entry = LtDbEntry { block_id_ext: block(ShardIdent::masterchain(), 10), gen_lt: 20, gen_utime: 30 };
    assert_eq!(LookupTarget::SeqNo(11).compare_lt_entry(&entry), Position::Greater);
    assert_eq!(LookupTarget::Lt(19).compare_lt_entry(&entry), Position::Less);
    assert_eq!(LookupTarget::Utime(30).compare_lt_entry(&entry), Position::Equal);
}

#[test]
fn gc_names_the_rows_to_delete() {
    let db = BlockIndexDb::with_db();
    let shard = ShardIdent::masterchain();
    let desc = LtDesc { first_index: 1, last_index: 4, last_seq_no: 40, last_lt: 0, last_utime: 0 };
    let keys = db
        .gc(&vec![(block(shard, 41), Some(desc)), (block(ShardIdent::default(), 7), None)])
        .unwrap();
    assert_eq!(
        keys,
        vec![
            LtDbKeyOwned { shard_ident: shard, index: 5 },
            LtDbKeyOwned { shard_ident: ShardIdent::default(), index: 1 }
        ]
    );
    assert_eq!(
        db.gc(&vec![(block(shard, 41), Some(desc)), (block(shard, 40), Some(desc))]),
        Err(BlockIndexDbError::AscendingOrderRequired)
    );
    assert_eq!(
        db.gc(&vec![(block(shard, 39), Some(desc))]),
        Err(BlockIndexDbError::AscendingOrderRequired)
    );
    let full = LtDesc { last_index: u32::MAX, ..desc };
    assert_eq!(db.gc(&vec![(block(shard, 41), Some(full))]), Err(BlockIndexDbError::IndexExhausted));
    assert_eq!(db.gc(&Vec::new()), Ok(Vec::new()));
}

#[test]
fn older_blocks_are_picked_in_order() {
    let db = BlockIndexDb::with_db();
    let shard = ShardIdent::masterchain();
    let rows: Vec<(LtDbKeyOwned, LtDbEntry)> = [50u32, 10, 30, 20, 40]
        .iter()
        .enumerate()
        .map(|(i, utime)| {
            (
                LtDbKeyOwned { shard_ident: shard, index: i as u32 + 1 },
                LtDbEntry { block_id_ext: block(shard, i as u32), gen_lt: 0, gen_utime: *utime },
            )
        })
        .collect();
    let older = db.get_blocks_older_then(&rows, 30);
    let indices: Vec<u32> = older.iter().map(|(key, _)| key.index).collect();
    assert_eq!(indices, vec![2, 4]);
    assert!(db.get_blocks_older_then(&rows, 10).is_empty());
    assert_eq!(db.get_blocks_older_then(&rows, 51).len(), 5);
}

#[test]
fn ref_seqno_idempotence() {
    let shard = ShardIdent::with_tagged_prefix(0, SHARD_FULL).unwrap();
    let mut handle = BlockHandle::new(block(shard, 5));
    assert_eq!(handle.masterchain_ref_seqno(), 0);
    assert_eq!(handle.set_masterchain_ref_seqno(42), Ok(true));
    assert_eq!(handle.set_masterchain_ref_seqno(42), Ok(false));
    assert_eq!(handle.set_masterchain_ref_seqno(43), Err(BlockHandleError::RefSeqnoAlreadySet));
    assert_eq!(handle.masterchain_ref_seqno(), 42);
    assert_eq!(handle.meta().masterchain_ref_seqno(), 42);
    assert_eq!(handle.set_masterchain_ref_seqno(0), Err(BlockHandleError::RefSeqnoAlreadySet));

    let mut mc = BlockHandle::new(block(ShardIdent::masterchain(), 77));
    assert_eq!(mc.masterchain_ref_seqno(), 77);
    assert_eq!(mc.set_masterchain_ref_seqno(0), Ok(true));
    assert_eq!(mc.set_masterchain_ref_seqno(3), Ok(true));
    assert_eq!(mc.masterchain_ref_seqno(), 77);
}

#[test]
fn proof_or_link_depends_on_the_chain() {
    let shard = ShardIdent::with_tagged_prefix(0, SHARD_FULL).unwrap();
    let mut meta = BlockMeta::default();
    assert!(meta.set_has_proof());
    assert!(!meta.set_has_proof());
    let handle = BlockHandle::with_values(block(shard, 5), meta);
    let mut is_link = false;
    assert!(!handle.has_proof_or_link(&mut is_link));
    assert!(is_link);
    let mc = BlockHandle::with_values(block(ShardIdent::masterchain(), 5), meta);
    assert!(mc.has_proof_or_link(&mut is_link));
    assert!(!is_link);
    let mut meta = BlockMeta::default();
    assert!(meta.set_has_proof_link());
    let handle = BlockHandle::with_values(block(shard, 5), meta);
    assert!(handle.has_proof_or_link(&mut is_link));
    assert!(is_link);
    let mut bytes = Vec::new();
    handle.serialize(&mut bytes);
    assert_eq!(bytes, meta.to_vec());
    assert_eq!(handle.id(), &block(shard, 5));
    assert!(!handle.is_key_block());
}

#[test]
fn meta_flags_are_set_once() {
    let mut meta = BlockMeta::with_times(5, 6, true);
    assert!(meta.is_key_block() && !meta.has_data() && !meta.is_applied());
    assert_eq!((meta.gen_utime(), meta.gen_lt()), (5, 6));
    assert!(meta.set_has_data() && !meta.set_has_data() && meta.has_data());
    assert!(meta.set_has_state() && !meta.set_has_state() && meta.has_state());
    assert!(meta.set_is_applied() && !meta.set_is_applied() && meta.is_applied());
    assert!(!meta.set_is_key_block());
    assert_eq!(meta.set_masterchain_ref_seqno(8), 0);
    assert_eq!(meta.set_masterchain_ref_seqno(9), 8);
    assert_eq!(meta.masterchain_ref_seqno(), 8);
    let mut handle = BlockHandle::new(block(ShardIdent::masterchain(), 1));
    assert!(handle.meta_mut().set_is_key_block());
    assert!(handle.is_key_block());
}

#[test]
fn columns_have_their_names() {
    assert_eq!(ArchiveStorage::name(), "archive_storage");
    assert_eq!(BlockHandles::name(), "block_handles");
    assert_eq!(KeyBlocks::name(), "key_blocks");
    assert_eq!(ArchiveManagerDb::name(), "archive");
    assert_eq!(ShardStateDb::name(), "shard_state_db");
    assert_eq!(<CellDb<0> as Column>::name(), "cell_db");
    assert_eq!(<CellDb<1> as Column>::name(), "cell_db_additional");
    assert_eq!(NodeState::name(), "node_state");
    assert_eq!(LtDescColumn::name(), "lt_desc");
    assert_eq!(Lt::name(), "lt");
    assert_eq!(Prev1::name(), "prev1");
    assert_eq!(Prev2::name(), "prev2");
    assert_eq!(Next1::name(), "next1");
    assert_eq!(Next2::name(), "next2");
    assert_eq!(BackgroundSyncMeta::name(), "background_sync_meta");
    assert!(ArchiveStorage::uses_archive_data_merge());
    assert!(!ArchiveManagerDb::uses_archive_data_merge());
    assert!(ArchiveManagerDb::optimize_filters_for_hits());
    assert!(<CellDb<0> as Column>::optimize_filters_for_hits());
    assert!(!Lt::optimize_filters_for_hits());
}

#[test]
fn archive_fragments_are_merged_under_one_prefix() {
    assert_eq!(ARCHIVE_PREFIX, [0x01, 0xdd, 0x8f, 0xae]);
    let mut prefixed = ARCHIVE_PREFIX.to_vec();
    prefixed.extend_from_slice(&[1, 2, 3]);
    let operands = vec![prefixed.clone(), vec![4, 5], ARCHIVE_PREFIX.to_vec(), vec![0x01, 0xdd, 0x8f]];
    assert_eq!(
        archive_data_merge(None, &operands),
        Some(vec![0x01, 0xdd, 0x8f, 0xae, 1, 2, 3, 4, 5, 0x01, 0xdd, 0x8f])
    );
    assert_eq!(
        archive_data_merge(Some(&prefixed), &operands),
        Some(vec![0x01, 0xdd, 0x8f, 0xae, 1, 2, 3, 1, 2, 3, 4, 5, 0x01, 0xdd, 0x8f])
    );
    assert_eq!(archive_data_merge(None, &Vec::new()), Some(ARCHIVE_PREFIX.to_vec()));
    assert_eq!(archive_data_merge(Some(&[9]), &Vec::new()), Some(vec![9]));
}
