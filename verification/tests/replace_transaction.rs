use sha2::{Digest, Sha256};
use ton_indexer::shard_state::crc::{checksum, crc_update};
use ton_indexer::shard_state::finalize::{Finalization, FinalizeStep};
use ton_indexer::shard_state::packet_reader::{decode_header, BocHeader, ShardStatePacketReader};
use ton_indexer::shard_state::replace_transaction::{
    ReplaceTransactionError, ShardStateReplaceTransaction, StoredCell,
};
use ton_indexer::shard_state::spill::count_records;

fn sha(parts: &[&[u8]]) -> [u8; 32] {
    let mut hasher = Sha256::new();
    for part in parts {
        hasher.update(part);
    }
    hasher.finalize().into()
}

/// A bag of three cells: the root holds one byte and refers to the two
/// others, the second refers to the third, the third is empty.
fn small_bag(with_crc: bool) -> Vec<u8> {
    let mut bag = vec![0xb5, 0xee, 0x9c, 0x72];
    bag.push(if with_crc { 0x41 } else { 0x01 });
    bag.push(1);
    bag.extend_from_slice(&[3, 1, 0, 10, 0]);
    bag.extend_from_slice(&[2, 2, 0xaa, 1, 2]);
    bag.extend_from_slice(&[1, 0, 2]);
    bag.extend_from_slice(&[0, 0]);
    if with_crc {
        let crc = checksum(&bag);
        bag.extend_from_slice(&crc.to_le_bytes());
    }
    bag
}

fn expected_hashes() -> ([u8; 32], [u8; 32], [u8; 32]) {
    let h2 = sha(&[&[0, 0]]);
    let h1 = sha(&[&[1, 0], &[0, 0], &h2]);
    let h0 = sha(&[&[2, 2], &[0xaa], &[0, 1], &[0, 0], &h1, &h2]);
    (h0, h1, h2)
}

fn feed(bag: &[u8], packet_len: usize, marker: u8) -> (ShardStateReplaceTransaction, Vec<u8>) {
    let mut transaction = ShardStateReplaceTransaction::new(marker);
    let mut cells_file = Vec::new();
    let packets: Vec<&[u8]> = bag.chunks(packet_len).collect();
    for (i, packet) in packets.iter().enumerate() {
        let done = transaction.process_packet(packet.to_vec(), &mut cells_file).unwrap();
        assert_eq!(done, i + 1 == packets.len(), "packet {} of {}", i, packets.len());
    }
    (transaction, cells_file)
}

fn run_pass(pass: &mut Finalization, cells_file: &[u8]) -> ([u8; 32], Vec<StoredCell>, usize) {
    let mut stored = Vec::new();
    let mut steps = 0;
    loop {
        steps += 1;
        match pass.step(cells_file).unwrap() {
            FinalizeStep::Continue => {}
            FinalizeStep::Flush(batch) => stored.extend(batch),
            FinalizeStep::Done(root, batch) => {
                stored.extend(batch);
                return (root, stored, steps);
            }
        }
    }
}

#[test]
fn crc32c_of_the_check_string() {
    assert_eq!(checksum(b"123456789"), 0xe306_9283);
    assert_eq!(checksum(b""), 0);
    let state = crc_update(0xffff_ffff, b"1234");
    assert_eq!(crc_update(state, b"56789") ^ 0xffff_ffff, 0xe306_9283);
}

#[test]
fn header_is_decoded() {
    let bag = small_bag(true);
    let (header, len) = decode_header(&bag).unwrap().unwrap();
    assert_eq!(len, 11);
    assert_eq!(
        header,
        BocHeader {
            root_index: 0,
            index_included: false,
            has_crc: true,
            ref_size: 1,
            offset_size: 1,
            cell_count: 3,
            cells_size: 10,
        }
    );
    for cut in 0..11 {
        assert_eq!(decode_header(&bag[..cut]), None);
    }
    let indexed = [0x68, 0xff, 0x65, 0xf3, 2, 3, 0, 5, 0, 1, 0, 0, 0, 1, 2];
    let (header, len) = decode_header(&indexed).unwrap().unwrap();
    assert_eq!(len, 15);
    assert_eq!(
        header,
        BocHeader {
            root_index: 0,
            index_included: true,
            has_crc: false,
            ref_size: 2,
            offset_size: 3,
            cell_count: 5,
            cells_size: 0x0102,
        }
    );
    let mut with_crc = indexed;
    with_crc[0..4].copy_from_slice(&[0xac, 0xc3, 0xa7, 0x28]);
    assert!(decode_header(&with_crc).unwrap().unwrap().0.has_crc);
}

#[test]
fn invalid_headers_are_refused() {
    let bag = small_bag(false);
    let refused = |change: &dyn Fn(&mut Vec<u8>)| {
        let mut bad = bag.clone();
        change(&mut bad);
        assert_eq!(decode_header(&bad), Some(None));
        let mut transaction = ShardStateReplaceTransaction::new(0);
        let mut cells_file = Vec::new();
        assert_eq!(
            transaction.process_packet(bad, &mut cells_file),
            Err(ReplaceTransactionError::InvalidShardStatePacket)
        );
    };
    refused(&|bag| bag[0] = 0);
    refused(&|bag| bag[4] = 0x00);
    refused(&|bag| bag[4] = 0x05);
    refused(&|bag| bag[5] = 0);
    refused(&|bag| bag[5] = 9);
    refused(&|bag| bag[6] = 0);
    refused(&|bag| bag[7] = 0);
    refused(&|bag| bag[7] = 2);
}

#[test]
fn reader_reads_cells_across_packets() {
    let bag = small_bag(true);
    let mut reader = ShardStatePacketReader::new();
    assert_eq!(reader.read_header(), Ok(None));
    reader.set_next_packet(bag[..12].to_vec());
    let header = reader.read_header().unwrap().unwrap();
    assert_eq!(header.cell_count, 3);
    let mut out = Vec::new();
    assert_eq!(reader.read_cell(1, &mut out), Ok(None));
    reader.set_next_packet(bag[12..17].to_vec());
    assert_eq!(reader.read_cell(1, &mut out), Ok(Some(5)));
    assert_eq!(out, vec![2, 2, 0xaa, 1, 2]);
    assert_eq!(reader.read_cell(1, &mut out), Ok(None));
    reader.set_next_packet(bag[17..].to_vec());
    assert_eq!(reader.read_cell(1, &mut out), Ok(Some(3)));
    assert_eq!(reader.read_cell(1, &mut out), Ok(Some(2)));
    assert_eq!(out, vec![2, 2, 0xaa, 1, 2, 1, 0, 2, 0, 0]);
    assert_eq!(reader.read_crc(), Ok(Some(())));
    assert_eq!(reader.read_crc(), Ok(None));
}

#[test]
fn stored_hashes_in_the_bag_are_passed_over() {
    let mut reader = ShardStatePacketReader::new();
    let mut cell = vec![16 + 32, 2];
    cell.extend_from_slice(&[0xee; 68]);
    cell.push(0x42);
    let mut out = Vec::new();
    reader.set_next_packet(cell[..50].to_vec());
    assert_eq!(reader.read_cell(2, &mut out), Ok(None));
    reader.set_next_packet(cell[50..].to_vec());
    assert_eq!(reader.read_cell(2, &mut out), Ok(Some(3)));
    assert_eq!(out, vec![16 + 32, 2, 0x42]);
    reader.set_next_packet(vec![5, 0]);
    assert_eq!(
        reader.read_cell(2, &mut out),
        Err(ReplaceTransactionError::InvalidShardStatePacket)
    );
}

#[test]
fn packets_become_chunks_of_records() {
    let bag = small_bag(true);
    let (transaction, cells_file) = feed(&bag, 1000, 1);
    assert_eq!(transaction.cells_read(), 3);
    assert_eq!(transaction.header().unwrap().cell_count, 3);
    assert_eq!(
        cells_file,
        vec![2, 2, 0xaa, 1, 2, 5, 1, 0, 2, 3, 0, 0, 2, 13, 0, 0, 0]
    );
    assert_eq!(count_records(&cells_file[..13]), Some(3));

    let (_, cells_file) = feed(&bag, 16, 1);
    assert_eq!(
        cells_file,
        vec![2, 2, 0xaa, 1, 2, 5, 6, 0, 0, 0, 1, 0, 2, 3, 0, 0, 2, 7, 0, 0, 0]
    );
    let (_, cells_file) = feed(&bag, 13, 1);
    assert_eq!(cells_file.len(), 17);
}

#[test]
fn a_complete_stream_takes_no_more_packets() {
    let bag = small_bag(true);
    let (mut transaction, cells_file) = feed(&bag, 7, 1);
    let mut more = cells_file.clone();
    assert_eq!(transaction.process_packet(vec![1, 2, 3], &mut more), Ok(true));
    assert_eq!(more, cells_file);
    assert_eq!(transaction.cells_read(), 3);
}

#[test]
fn checksum_is_held_against_the_stream() {
    let mut bag = small_bag(true);
    let last = bag.len() - 1;
    bag[last] ^= 1;
    let mut transaction = ShardStateReplaceTransaction::new(1);
    let mut cells_file = Vec::new();
    assert_eq!(
        transaction.process_packet(bag.clone(), &mut cells_file),
        Err(ReplaceTransactionError::InvalidShardStatePacket)
    );
    let mut bag = small_bag(true);
    bag[13] ^= 1;
    let mut transaction = ShardStateReplaceTransaction::new(1);
    let mut cells_file = Vec::new();
    assert!(transaction.process_packet(bag, &mut cells_file).is_err());

    let bag = small_bag(false);
    let (transaction, _) = feed(&bag, 4, 1);
    assert!(!transaction.header().unwrap().has_crc);
}

#[test]
fn the_index_of_a_bag_is_skipped() {
    let mut bag = vec![0xb5, 0xee, 0x9c, 0x72, 0x81 | 0x40, 2, 1, 1, 0, 0, 2, 0];
    bag.extend_from_slice(&[0xde, 0xad]);
    bag.extend_from_slice(&[0, 0]);
    let crc = checksum(&bag);
    bag.extend_from_slice(&crc.to_le_bytes());
    for packet_len in [1, 3, 100] {
        let (transaction, cells_file) = feed(&bag, packet_len, 1);
        assert!(transaction.header().unwrap().index_included);
        assert_eq!(cells_file, vec![0, 0, 2, 3, 0, 0, 0]);
    }
}

#[test]
fn the_pass_finalises_every_cell_after_its_children() {
    let bag = small_bag(true);
    let (h0, h1, h2) = expected_hashes();
    for packet_len in [1, 2, 5, 13, 16, 100] {
        let (transaction, cells_file) = feed(&bag, packet_len, 0x33);
        let mut pass = transaction.finalize(cells_file.len()).unwrap();
        assert_eq!(pass.scratch_len(), 3 * 160);
        let (root, stored, _) = run_pass(&mut pass, &cells_file);
        assert_eq!(root, h0);
        assert_eq!(stored.len(), 3);
        assert_eq!(stored[0].key, h2);
        assert_eq!(stored[1].key, h1);
        assert_eq!(stored[2].key, h0);
        for cell in &stored {
            assert_eq!(cell.value[0], 0x33);
        }
        let mut root_value = vec![0x33, 1, 8, 0, 0xaa, 0x80, 0, 0, 1, 1];
        root_value.extend_from_slice(&h0);
        root_value.extend_from_slice(&[1, 1, 2, 0, 2]);
        root_value.extend_from_slice(&h1);
        root_value.extend_from_slice(&h2);
        root_value.extend_from_slice(&8u64.to_le_bytes());
        root_value.extend_from_slice(&4u32.to_le_bytes());
        assert_eq!(stored[2].value, root_value);
        assert!(pass.at_start_of_file());
        assert!(matches!(pass.step(&cells_file), Ok(FinalizeStep::Done(again, rest)) if again == h0 && rest.is_empty()));
    }
}

#[test]
fn the_same_bag_is_stored_the_same_way_twice() {
    let bag = small_bag(true);
    let run = |packet_len: usize| {
        let (transaction, cells_file) = feed(&bag, packet_len, 7);
        let mut pass = transaction.finalize(cells_file.len()).unwrap();
        let (root, stored, _) = run_pass(&mut pass, &cells_file);
        let pairs: Vec<(Vec<u8>, Vec<u8>)> =
            stored.into_iter().map(|cell| (cell.key.to_vec(), cell.value)).collect();
        (root, pairs)
    };
    let first = run(100);
    assert_eq!(run(100), first);
    assert_eq!(run(3), first);
}

#[test]
fn one_chunk_is_finalised_in_each_step() {
    let bag = small_bag(true);
    let (transaction, cells_file) = feed(&bag, 16, 1);
    let mut pass = transaction.finalize(cells_file.len()).unwrap();
    assert!(matches!(pass.step(&cells_file), Ok(FinalizeStep::Continue)));
    assert!(!pass.at_start_of_file());
    assert!(matches!(pass.step(&cells_file), Ok(FinalizeStep::Continue)));
    assert!(pass.at_start_of_file());
    assert!(matches!(pass.step(&cells_file), Ok(FinalizeStep::Done(_, batch)) if batch.len() == 3));
}

#[test]
fn finalize_needs_a_header() {
    let transaction = ShardStateReplaceTransaction::new(1);
    assert!(matches!(
        transaction.finalize(0),
        Err(ReplaceTransactionError::InvalidShardStatePacket)
    ));
}

#[test]
fn a_broken_spill_file_is_refused() {
    let bag = small_bag(true);
    let fresh = || {
        let (transaction, cells_file) = feed(&bag, 100, 1);
        (transaction, cells_file)
    };
    let packet = Err(ReplaceTransactionError::InvalidShardStatePacket);
    let cell = Err(ReplaceTransactionError::InvalidCell);
    let first_step = |cells_file: Vec<u8>, len: usize| {
        let (transaction, _) = fresh();
        let mut pass = transaction.finalize(len).unwrap();
        pass.step(&cells_file).map(|_| ())
    };
    let (_, good) = fresh();
    assert_eq!(first_step(good.clone(), good.len()), Ok(()));
    assert_eq!(first_step(good.clone(), good.len() + 1), packet);
    assert_eq!(first_step(good.clone(), 3), packet);
    let mut bad = good.clone();
    bad[13] = 14;
    assert_eq!(first_step(bad, good.len()), packet);
    let mut bad = good.clone();
    bad[13..17].copy_from_slice(&[0, 0, 0, 0]);
    assert_eq!(first_step(bad, good.len()), packet);
    let mut bad = good.clone();
    bad[12] = 200;
    assert_eq!(first_step(bad, good.len()), packet);
    let mut bad = good.clone();
    bad[12] = 3;
    assert_eq!(first_step(bad, good.len()), cell);
    let mut bad = good.clone();
    bad[8] = 1;
    assert_eq!(first_step(bad, good.len()), cell);
    let mut bad = good.clone();
    bad[3] = 0;
    assert_eq!(first_step(bad, good.len()), cell);
    // a file that holds fewer cells than the header states
    let (transaction, _) = fresh();
    let short = vec![0, 0, 2, 3, 0, 0, 0];
    let mut pass = transaction.finalize(short.len()).unwrap();
    assert!(matches!(pass.step(&short), Ok(FinalizeStep::Continue)));
    assert!(matches!(pass.step(&short), Err(ReplaceTransactionError::InvalidShardStatePacket)));
    // a file that holds more
    let (transaction, _) = fresh();
    let mut long = good.clone();
    long.extend_from_slice(&[0, 0, 2, 3, 0, 0, 0]);
    let mut pass = transaction.finalize(long.len()).unwrap();
    assert!(matches!(pass.step(&long), Ok(FinalizeStep::Continue)));
    assert!(matches!(pass.step(&long), Err(ReplaceTransactionError::InvalidShardStatePacket)));
}

#[test]
fn the_root_is_the_cell_that_the_header_names() {
    let mut bag = small_bag(false);
    bag[10] = 2;
    let (transaction, cells_file) = feed(&bag, 100, 1);
    let mut pass = transaction.finalize(cells_file.len()).unwrap();
    let (root, _, _) = run_pass(&mut pass, &cells_file);
    assert_eq!(root, expected_hashes().2);
    let mut bag = small_bag(false);
    bag[10] = 3;
    let (transaction, cells_file) = feed(&bag, 100, 1);
    let mut pass = transaction.finalize(cells_file.len()).unwrap();
    assert!(matches!(pass.step(&cells_file), Ok(FinalizeStep::Continue)));
    assert!(matches!(pass.step(&cells_file), Err(ReplaceTransactionError::InvalidShardStatePacket)));
}
