use ton_indexer::shard_state::crc::checksum;
use ton_indexer::shard_state::finalize::{FinalizeStep, CELLS_PER_BATCH};
use ton_indexer::shard_state::replace_transaction::ShardStateReplaceTransaction;

#[test]
fn waiting_cells_are_handed_out_in_batches() {
    assert_eq!(CELLS_PER_BATCH, 1_000_000);
    let cell_count: u32 = 1_000_100;
    let mut bag = vec![0xb5, 0xee, 0x9c, 0x72, 0x44, 4];
    bag.extend_from_slice(&cell_count.to_be_bytes());
    bag.extend_from_slice(&1u32.to_be_bytes());
    bag.extend_from_slice(&0u32.to_be_bytes());
    bag.extend_from_slice(&(2 * cell_count).to_be_bytes());
    bag.extend_from_slice(&0u32.to_be_bytes());
    bag.resize(bag.len() + 2 * cell_count as usize, 0);
    let crc = checksum(&bag);
    bag.extend_from_slice(&crc.to_le_bytes());

    let mut transaction = ShardStateReplaceTransaction::new(3);
    let mut cells_file = Vec::new();
    let packets: Vec<&[u8]> = bag.chunks(1 << 20).collect();
    assert_eq!(packets.len(), 2);
    assert_eq!(transaction.process_packet(packets[0].to_vec(), &mut cells_file), Ok(false));
    assert_eq!(transaction.process_packet(packets[1].to_vec(), &mut cells_file), Ok(true));
    assert_eq!(transaction.cells_read(), cell_count as u64);
    assert_eq!(cells_file.len(), 3 * cell_count as usize + 8);

    let mut pass = transaction.finalize(cells_file.len()).unwrap();
    assert!(matches!(pass.step(&cells_file), Ok(FinalizeStep::Continue)));
    let flushed = match pass.step(&cells_file) {
        Ok(FinalizeStep::Flush(batch)) => batch.len(),
        _ => 0,
    };
    assert_eq!(flushed, cell_count as usize);
    assert!(matches!(pass.step(&cells_file), Ok(FinalizeStep::Done(_, rest)) if rest.is_empty()));
}
