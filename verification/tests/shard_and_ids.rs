use ton_indexer::block_id::BlockIdExt;
use ton_indexer::shard::{ShardError, ShardIdent, MASTERCHAIN_ID, MAX_SPLIT_DEPTH, SHARD_FULL};
use ton_indexer::storage::block_index_db::{LtDbEntry, LtDbKey, LtDbKeyOwned, LtDesc};
use ton_indexer::storage::block_meta::{BlockMeta, BlockMetaData};
use ton_indexer::stored_value::{StoredValue, StoredValueError};

fn hash_of(byte: u8) -> [u8; 32] {
    let mut hash = [0u8; 32];
    for (i, b) in hash.iter_mut().enumerate() {
        *b = byte.wrapping_add(i as u8);
    }
    hash
}

fn sample_id() -> BlockIdExt {
    BlockIdExt {
        shard_id: ShardIdent::with_tagged_prefix(0, 0x4000_0000_0000_0000).unwrap(),
        seq_no: 0x0102_0304,
        root_hash: hash_of(1),
        file_hash: hash_of(100),
    }
}

#[test]
fn serde() {
    let shard = ShardIdent::default();
    let key = LtDbKey { shard_ident: &shard, index: 13 };
    let bytes = key.to_vec();
    let got = LtDbKeyOwned::deserialize(&bytes, 0).unwrap();
    assert_eq!(&got.shard_ident, key.shard_ident);
    assert_eq!(got.index, key.index);
}

#[test]
fn lt_db_key_has_the_stated_layout() {
    let shard = ShardIdent::with_tagged_prefix(-1, SHARD_FULL).unwrap();
    let bytes = LtDbKey { shard_ident: &shard, index: 13 }.to_vec();
    assert_eq!(
        bytes,
        vec![0xff, 0xff, 0xff, 0xff, 0, 0, 0, 0, 0, 0, 0, 0x80, 13, 0, 0, 0]
    );
    let owned = LtDbKeyOwned { shard_ident: shard, index: 13 };
    assert_eq!(owned.to_vec(), bytes);
}

#[test]
fn shard_ident_round_trip() {
    for (workchain, prefix) in [
        (0, SHARD_FULL),
        (-1, SHARD_FULL),
        (5, 0x4000_0000_0000_0000),
        (i32::MIN, 0xc000_0000_0000_0000),
        (i32::MAX, 0x0000_0000_0000_0008),
    ] {
        let shard = ShardIdent::with_tagged_prefix(workchain, prefix).unwrap();
        let bytes = shard.to_vec();
        assert_eq!(bytes.len(), 12);
        assert_eq!(ShardIdent::from_slice(&bytes), Ok(shard));
    }
}

#[test]
fn shard_ident_decoding_rejects_short_and_invalid() {
    assert_eq!(ShardIdent::from_slice(&[0u8; 11]), Err(StoredValueError::UnexpectedEof));
    assert_eq!(ShardIdent::from_slice(&[0u8; 12]), Err(StoredValueError::InvalidShardPrefix));
    let mut bytes = ShardIdent::masterchain().to_vec();
    bytes[4] = 1;
    assert_eq!(ShardIdent::from_slice(&bytes), Err(StoredValueError::InvalidShardPrefix));
    assert_eq!(ShardIdent::deserialize(&bytes, 13), Err(StoredValueError::UnexpectedEof));
}

#[test]
fn block_id_round_trip_and_layout() {
    let id = sample_id();
    let bytes = id.to_vec();
    assert_eq!(bytes.len(), 80);
    assert_eq!(&bytes[0..4], &[0, 0, 0, 0]);
    assert_eq!(&bytes[4..12], &[0, 0, 0, 0, 0, 0, 0, 0x40]);
    assert_eq!(&bytes[12..16], &[4, 3, 2, 1]);
    assert_eq!(&bytes[16..48], &hash_of(1));
    assert_eq!(&bytes[48..80], &hash_of(100));
    let back = BlockIdExt::from_slice(&bytes).unwrap();
    assert_eq!(back, id);
    let mut longer = vec![9u8; 3];
    longer.extend_from_slice(&bytes);
    longer.push(7);
    assert_eq!(BlockIdExt::deserialize(&longer, 3).unwrap(), id);
}

#[test]
fn block_id_decoding_reports_errors_in_reading_order() {
    let id = sample_id();
    let bytes = id.to_vec();
    assert_eq!(BlockIdExt::from_slice(&bytes[..79]), Err(StoredValueError::UnexpectedEof));
    assert_eq!(BlockIdExt::from_slice(&bytes[..5]), Err(StoredValueError::UnexpectedEof));
    let mut bad = bytes.clone();
    bad[4] = 3;
    assert_eq!(BlockIdExt::from_slice(&bad[..20]), Err(StoredValueError::InvalidShardPrefix));
}

#[test]
fn block_id_equality_compares_every_part() {
    let id = sample_id();
    assert!(id.same_as(&sample_id()));
    let mut other = sample_id();
    other.file_hash[31] ^= 1;
    assert!(!id.same_as(&other));
    assert_ne!(id, other);
    let mut other = sample_id();
    other.seq_no += 1;
    assert_ne!(id, other);
    assert_eq!(BlockIdExt::default().seq_no, 0);
    assert_eq!(BlockIdExt::default().root_hash, [0u8; 32]);
    assert_eq!(BlockIdExt::default().shard_id, ShardIdent::default());
}

#[test]
fn lt_db_entry_round_trip() {
    let entry = LtDbEntry { block_id_ext: sample_id(), gen_lt: 0x1122_3344_5566_7788, gen_utime: 77 };
    let bytes = entry.to_vec();
    assert_eq!(bytes.len(), 92);
    assert_eq!(&bytes[80..88], &[0x88, 0x77, 0x66, 0x55, 0x44, 0x33, 0x22, 0x11]);
    assert_eq!(&bytes[88..92], &[77, 0, 0, 0]);
    let back = LtDbEntry::from_slice(&bytes).unwrap();
    assert_eq!(back.block_id_ext, entry.block_id_ext);
    assert_eq!(back.gen_lt, entry.gen_lt);
    assert_eq!(back.gen_utime, entry.gen_utime);
    assert!(matches!(LtDbEntry::from_slice(&bytes[..91]), Err(StoredValueError::UnexpectedEof)));
}

#[test]
fn lt_desc_round_trip() {
    let desc = LtDesc {
        first_index: 1,
        last_index: 0xffff_ffff,
        last_seq_no: 1000,
        last_lt: u64::MAX,
        last_utime: 5,
    };
    let bytes = desc.to_vec();
    assert_eq!(bytes.len(), 24);
    assert_eq!(&bytes[0..4], &[1, 0, 0, 0]);
    assert_eq!(&bytes[8..12], &[0xe8, 3, 0, 0]);
    assert_eq!(LtDesc::from_slice(&bytes), Ok(desc));
    assert_eq!(LtDesc::from_slice(&bytes[..23]), Err(StoredValueError::UnexpectedEof));
}

#[test]
fn block_meta_round_trip() {
    let data = BlockMetaData {
        has_data: true,
        has_proof: false,
        has_proof_link: true,
        has_state: false,
        is_applied: true,
        is_key_block: true,
        gen_utime: 1_600_000_000,
        gen_lt: 42,
        masterchain_ref_seqno: 9,
    };
    let meta = BlockMeta::with_data(data);
    let bytes = meta.to_vec();
    assert_eq!(bytes.len(), 20);
    assert_eq!(&bytes[0..8], &[9, 0, 0, 0, 0b11_0101, 0, 0, 0]);
    assert_eq!(BlockMeta::from_slice(&bytes), Ok(meta));
    let mut bad = bytes.clone();
    bad[4] = 64;
    assert_eq!(BlockMeta::from_slice(&bad), Err(StoredValueError::InvalidFlags));
    assert_eq!(BlockMeta::from_slice(&bytes[..19]), Err(StoredValueError::UnexpectedEof));
}

#[test]
fn tagged_prefix_is_validated() {
    assert_eq!(ShardIdent::with_tagged_prefix(0, 0), Err(ShardError::InvalidPrefix));
    assert_eq!(ShardIdent::with_tagged_prefix(0, 4), Err(ShardError::InvalidPrefix));
    assert_eq!(ShardIdent::with_tagged_prefix(0, 0x8000_0000_0000_0001), Err(ShardError::InvalidPrefix));
    let deepest = ShardIdent::with_tagged_prefix(0, 8).unwrap();
    assert_eq!(deepest.prefix_len(), MAX_SPLIT_DEPTH);
    assert_eq!(ShardIdent::masterchain().prefix_len(), 0);
    assert_eq!(ShardIdent::masterchain().workchain_id(), MASTERCHAIN_ID);
    assert!(ShardIdent::masterchain().is_full());
}

#[test]
fn shard_of_an_account_at_each_depth() {
    let account = 0xabcd_ef01_2345_6789u64;
    let full = ShardIdent::with_prefix_len(0, 0, account).unwrap();
    assert_eq!(full.shard_prefix_with_tag(), SHARD_FULL);
    let one = ShardIdent::with_prefix_len(1, 0, account).unwrap();
    assert_eq!(one.shard_prefix_with_tag(), 0xc000_0000_0000_0000);
    let four = ShardIdent::with_prefix_len(4, 0, account).unwrap();
    assert_eq!(four.shard_prefix_with_tag(), 0xa800_0000_0000_0000);
    let deepest = ShardIdent::with_prefix_len(60, 7, account).unwrap();
    assert_eq!(deepest.shard_prefix_with_tag(), 0xabcd_ef01_2345_6788);
    assert_eq!(deepest.workchain_id(), 7);
    assert_eq!(ShardIdent::with_prefix_len(61, 0, account), Err(ShardError::SplitDepthExceeded));
    for depth in 0..=60u8 {
        let shard = ShardIdent::with_prefix_len(depth, 0, account).unwrap();
        assert_eq!(shard.prefix_len(), depth);
        assert!(shard.contains_account_prefix(account));
    }
}

#[test]
fn split_gives_the_two_halves() {
    let main = ShardIdent::with_tagged_prefix(0, SHARD_FULL).unwrap();
    let (left, right) = main.split().unwrap();
    assert_eq!(left.shard_prefix_with_tag(), 0x4000_0000_0000_0000);
    assert_eq!(right.shard_prefix_with_tag(), 0xc000_0000_0000_0000);
    assert!(main.intersect_with(&left) && left.intersect_with(&main));
    assert!(main.intersect_with(&right));
    assert!(!left.intersect_with(&right));
    assert!(left.intersect_with(&left));
    let other_workchain = ShardIdent::with_tagged_prefix(1, SHARD_FULL).unwrap();
    assert!(!other_workchain.intersect_with(&left));
    let (right_left, right_right) = right.split().unwrap();
    assert_eq!(right_left.shard_prefix_with_tag(), 0xa000_0000_0000_0000);
    assert_eq!(right_right.shard_prefix_with_tag(), 0xe000_0000_0000_0000);
    assert!(!right_left.intersect_with(&left));
    assert!(right_left.intersect_with(&main));
    let deepest = ShardIdent::with_tagged_prefix(0, 8).unwrap();
    assert_eq!(deepest.split(), Err(ShardError::SplitDepthExceeded));
    let almost = ShardIdent::with_tagged_prefix(0, 16).unwrap();
    let (l, r) = almost.split().unwrap();
    assert_eq!((l.shard_prefix_with_tag(), r.shard_prefix_with_tag()), (8, 24));
}

#[test]
fn an_account_lies_in_exactly_one_half() {
    let shard = ShardIdent::with_tagged_prefix(0, 0x6000_0000_0000_0000).unwrap();
    let (left, right) = shard.split().unwrap();
    for account in [0x4000_0000_0000_0000u64, 0x5fff_ffff_ffff_ffff, 0x6000_0000_0000_0000, 0x7123_4567_89ab_cdef, 0x8000_0000_0000_0000, 0] {
        let inside = shard.contains_account_prefix(account);
        let in_left = left.contains_account_prefix(account);
        let in_right = right.contains_account_prefix(account);
        assert_eq!(inside, in_left || in_right);
        assert!(!(in_left && in_right));
    }
}
