use rustc_hash::FxHashMap;
use ton_indexer::block_id::BlockIdExt;
use ton_indexer::shard::{ShardIdent, SHARD_FULL};
use ton_indexer::stored_value::StoredValueError;
use ton_indexer::top_blocks::TopBlocks;

#[test]
fn test_split_shards() {
    let mut shard_heights = FxHashMap::default();

    let main_shard = ShardIdent::with_tagged_prefix(0, SHARD_FULL).unwrap();

    let (left_shard, right_shard) = main_shard.split().unwrap();
    shard_heights.insert(TopBlocks::key_of(&left_shard), 1000);
    shard_heights.insert(TopBlocks::key_of(&right_shard), 1001);

    let top_blocks = TopBlocks {
        mc_block: BlockIdExt {
            shard_id: ShardIdent::masterchain(),
            seq_no: 100,
            root_hash: Default::default(),
            file_hash: Default::default(),
        },
        shard_heights,
    };

    assert!(!top_blocks.contains(&BlockIdExt {
        shard_id: right_shard,
        seq_no: 100,
        ..Default::default()
    }));

    // Merged shard test
    assert!(!top_blocks.contains(&BlockIdExt {
        shard_id: main_shard,
        seq_no: 100,
        ..Default::default()
    }));
    assert!(top_blocks.contains(&BlockIdExt {
        shard_id: main_shard,
        seq_no: 10000,
        ..Default::default()
    }));

    // Split shard test
    let (right_left_shard, _) = right_shard.split().unwrap();
    assert!(!top_blocks.contains(&BlockIdExt {
        shard_id: right_left_shard,
        seq_no: 100,
        ..Default::default()
    }));
    assert!(top_blocks.contains(&BlockIdExt {
        shard_id: right_left_shard,
        seq_no: 10000,
        ..Default::default()
    }));
}

fn mc_block(seq_no: u32) -> BlockIdExt {
    BlockIdExt {
        shard_id: ShardIdent::masterchain(),
        seq_no,
        root_hash: [3u8; 32],
        file_hash: [4u8; 32],
    }
}

#[test]
fn top_blocks_know_exact_shards_and_the_masterchain() {
    let main = ShardIdent::with_tagged_prefix(0, SHARD_FULL).unwrap();
    let (left, right) = main.split().unwrap();
    let top = TopBlocks::from_mc_block(mc_block(100), &vec![(left, 1000), (right, 1001)]);
    assert_eq!(top.mc_block, mc_block(100));
    assert_eq!(top.shard_heights.len(), 2);
    assert_eq!(top.shard_heights.get(&(0, 0x4000_0000_0000_0000)), Some(&1000));
    assert!(top.contains_shard_seq_no(&left, 1000));
    assert!(!top.contains_shard_seq_no(&left, 999));
    assert!(top.contains_shard_seq_no(&right, 1001));
    assert!(!top.contains_shard_seq_no(&right, 1000));
    assert!(top.contains_shard_seq_no(&ShardIdent::masterchain(), 100));
    assert!(!top.contains_shard_seq_no(&ShardIdent::masterchain(), 99));
    let elsewhere = ShardIdent::with_tagged_prefix(5, SHARD_FULL).unwrap();
    assert!(!top.contains_shard_seq_no(&elsewhere, u32::MAX));
}

#[test]
fn a_shard_listed_twice_keeps_the_last_height() {
    let main = ShardIdent::with_tagged_prefix(0, SHARD_FULL).unwrap();
    let top = TopBlocks::from_mc_block(mc_block(1), &vec![(main, 5), (main, 9)]);
    assert_eq!(top.shard_heights.len(), 1);
    assert!(top.contains_shard_seq_no(&main, 9));
    assert!(!top.contains_shard_seq_no(&main, 8));
}

#[test]
fn top_blocks_round_trip() {
    let main = ShardIdent::with_tagged_prefix(0, SHARD_FULL).unwrap();
    let (left, right) = main.split().unwrap();
    let (right_left, right_right) = right.split().unwrap();
    let top = TopBlocks::from_mc_block(
        mc_block(77),
        &vec![(left, 10), (right_left, 20), (right_right, 30)],
    );
    let mut bytes = Vec::new();
    top.serialize(&mut bytes).unwrap();
    assert_eq!(bytes.len(), 80 + 4 + 3 * 16);
    assert_eq!(&bytes[80..84], &[3, 0, 0, 0]);
    let back = TopBlocks::deserialize(&bytes).unwrap();
    assert_eq!(back.mc_block, top.mc_block);
    assert_eq!(back.shard_heights, top.shard_heights);
}

#[test]
fn empty_top_blocks_have_the_stated_layout() {
    let top = TopBlocks::from_mc_block(mc_block(7), &Vec::new());
    let mut bytes = vec![0xaa];
    top.serialize(&mut bytes).unwrap();
    assert_eq!(bytes.len(), 1 + 84);
    assert_eq!(&bytes[1 + 12..1 + 16], &[7, 0, 0, 0]);
    assert_eq!(&bytes[81..85], &[0, 0, 0, 0]);
    let back = TopBlocks::deserialize(&bytes[1..]).unwrap();
    assert!(back.shard_heights.is_empty());
}

#[test]
fn top_blocks_decoding_reports_errors() {
    let main = ShardIdent::with_tagged_prefix(0, SHARD_FULL).unwrap();
    let top = TopBlocks::from_mc_block(mc_block(77), &vec![(main, 10)]);
    let mut bytes = Vec::new();
    top.serialize(&mut bytes).unwrap();
    for cut in [0, 79, 80, 83, 84, 95, 96, 99] {
        assert!(matches!(
            TopBlocks::deserialize(&bytes[..cut]),
            Err(StoredValueError::UnexpectedEof)
        ));
    }
    let mut bad = bytes.clone();
    bad[84 + 4] = 1;
    assert!(matches!(
        TopBlocks::deserialize(&bad),
        Err(StoredValueError::InvalidShardPrefix)
    ));
    let mut more = bytes.clone();
    more[80] = 2;
    assert!(matches!(TopBlocks::deserialize(&more), Err(StoredValueError::UnexpectedEof)));
}
