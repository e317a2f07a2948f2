use ton_indexer::block_id::BlockIdExt;
use ton_indexer::boot::{
    boot, check_state_hash, choose_key_block, cold_boot, download_base_wc_zero_state,
    download_block_and_state, download_key_block_proof, download_start_blocks_and_states,
    download_zero_state, get_key_blocks, is_persistent_state, key_block_proof_accepted,
    key_blocks_complete, prepare_cold_boot_data, require_key_block, store_downloaded_proof,
    warm_boot, BootData, BootError, BootKind, ColdBootFinish, ColdBootStart, KeyBlockProofCheck,
};
use ton_indexer::shard::{ShardIdent, SHARD_FULL};
use ton_indexer::storage::block_handle::BlockHandle;
use ton_indexer::storage::block_meta::BlockMeta;
use ton_indexer::sync::archive_downloader::{
    ArchiveDownloader, ArchiveResponse, ResponseAction, SyncError,
};
use ton_indexer::sync::import::{
    background_sync_low, import_mc_blocks, import_package, last_applied_block,
    next_prev_key_block, proof_accepted, proof_check, save_archive_status, shard_block_action,
    BlocksEntry, EntryUse, PackageEntryId, ProofCheck, ShardBlockAction, ShardsClient, SyncStatus,
};
use ton_indexer::sync::queue::{ArchiveStatus, Queue, ARCHIVE_SLICE, MAX_CONCURRENCY};

fn mc(seq_no: u32) -> BlockIdExt {
    BlockIdExt {
        shard_id: ShardIdent::masterchain(),
        seq_no,
        root_hash: [seq_no as u8; 32],
        file_hash: [2; 32],
    }
}

fn sorted(mut list: Vec<u32>) -> Vec<u32> {
    list.sort();
    list
}

fn status_of(queue: &Queue, seq_no: u32) -> &'static str {
    match queue.0.get(&seq_no) {
        Some(ArchiveStatus::Downloading) => "downloading",
        Some(ArchiveStatus::NotFound) => "not found",
        Some(ArchiveStatus::Downloaded(_)) => "downloaded",
        None => "absent",
    }
}

#[test]
fn archive_gap_retry() {
    let mut downloader = ArchiveDownloader::new();
    downloader.concurrency = MAX_CONCURRENCY;
    let started = downloader.start_downloads(0, 101, false);
    assert_eq!(started, vec![101, 201, 301, 401, 501, 601, 701, 801]);

    // nothing is there yet: the archive that was not found waits
    let action = downloader.on_response(201, ArchiveResponse::NotFound, 100, false).unwrap();
    assert!(matches!(action, ResponseAction::Download(again) if again.is_empty()));
    assert_eq!(status_of(&downloader.queue, 201), "not found");

    // a later archive arrives: the gap cannot last, 201 is asked for again
    let action = downloader.on_response(301, ArchiveResponse::Found(vec![3]), 100, false).unwrap();
    assert!(matches!(action, ResponseAction::Download(again) if again == vec![201]));
    assert_eq!(status_of(&downloader.queue, 201), "downloading");
    assert_eq!(status_of(&downloader.queue, 301), "downloaded");

    // 101 is applied at once, 201 and 301 in their order
    let action = downloader.on_response(101, ArchiveResponse::Found(vec![1]), 100, false).unwrap();
    assert!(matches!(action, ResponseAction::Apply(101, data) if data == vec![1]));
    assert_eq!(downloader.on_applied(101, true), None);
    assert_eq!(downloader.finish_download(201), None);
    let action = downloader.on_response(201, ArchiveResponse::Found(vec![2]), 200, false).unwrap();
    assert!(matches!(action, ResponseAction::Apply(201, data) if data == vec![2]));
    assert_eq!(downloader.on_applied(201, true), None);
    assert_eq!(downloader.finish_download(301), Some((301, vec![3])));
    assert_eq!(status_of(&downloader.queue, 301), "absent");
    assert_eq!(downloader.finish_download(301), None);
}

#[test]
fn downloads_begin_slowly() {
    let mut downloader = ArchiveDownloader::new();
    assert_eq!(downloader.concurrency, 1);
    assert_eq!(downloader.start_downloads(0, 101, false), vec![101]);
    assert!(downloader.start_downloads(1, 101, false).is_empty());
    assert_eq!(downloader.on_applied(101, false), Some(101));
    assert_eq!(downloader.concurrency, 1);
    assert_eq!(status_of(&downloader.queue, 101), "downloading");
    assert_eq!(downloader.on_applied(101, true), None);
    assert_eq!(downloader.concurrency, MAX_CONCURRENCY);
    assert_eq!(status_of(&downloader.queue, 101), "absent");
    assert_eq!(
        downloader.start_downloads(0, 201, false),
        vec![201, 301, 401, 501, 601, 701, 801, 901]
    );
    assert!(downloader.start_downloads(8, 201, false).is_empty());
    // two answers came, two downloads may begin; the queue is too long for more than one
    assert_eq!(downloader.start_downloads(6, 201, false), vec![1001]);
    assert!(downloader.start_downloads(6, 201, false).is_empty());
    assert_eq!(downloader.queue.0.len(), 9);
}

#[test]
fn scheduling_passes_over_what_the_queue_holds() {
    let mut downloader = ArchiveDownloader::new();
    downloader.concurrency = 3;
    downloader.queue.0.insert(201, ArchiveStatus::Downloaded(vec![]));
    assert_eq!(downloader.start_downloads(1, 101, false), vec![101, 301]);
    assert_eq!(status_of(&downloader.queue, 201), "downloaded");
    let mut downloader = ArchiveDownloader::new();
    downloader.concurrency = 3;
    assert_eq!(
        downloader.start_downloads(0, u32::MAX - 150, false),
        vec![u32::MAX - 150, u32::MAX - 50]
    );
    assert_eq!(ARCHIVE_SLICE, 100);
}

#[test]
fn the_first_missing_archive_probes_the_frontier() {
    let mut queue = Queue::new(8);
    for seq_no in [301, 101, 201] {
        queue.0.insert(seq_no, ArchiveStatus::NotFound);
    }
    assert!(queue.retry_downloading_not_found_archives(true).is_empty());
    assert_eq!(queue.retry_downloading_not_found_archives(false), vec![101]);
    assert_eq!(status_of(&queue, 101), "downloading");
    assert_eq!(status_of(&queue, 201), "not found");
    // one download is under way: nothing more is asked for
    assert!(queue.retry_downloading_not_found_archives(false).is_empty());
    assert!(Queue::new(8).retry_downloading_not_found_archives(false).is_empty());
}

#[test]
fn archives_before_a_downloaded_one_are_asked_for_again() {
    let mut queue = Queue::new(8);
    queue.0.insert(101, ArchiveStatus::NotFound);
    queue.0.insert(201, ArchiveStatus::Downloading);
    queue.0.insert(301, ArchiveStatus::NotFound);
    queue.0.insert(401, ArchiveStatus::Downloaded(vec![1]));
    queue.0.insert(501, ArchiveStatus::NotFound);
    queue.0.insert(351, ArchiveStatus::Downloaded(vec![2]));
    assert_eq!(queue.latest_downloaded(), Some(401));
    assert_eq!(sorted(queue.not_found_up_to(401)), vec![101, 301]);
    assert_eq!(queue.earliest_if_all_not_found(), None);
    assert_eq!(sorted(queue.retry_downloading_not_found_archives(true)), vec![101, 301]);
    assert_eq!(status_of(&queue, 101), "downloading");
    assert_eq!(status_of(&queue, 301), "downloading");
    assert_eq!(status_of(&queue, 501), "not found");
    assert_eq!(status_of(&queue, 401), "downloaded");
    assert!(queue.retry_downloading_not_found_archives(true).is_empty());
}

#[test]
fn queue_hands_out_downloaded_archives() {
    let mut queue = Queue::new(8);
    assert_eq!(queue.set_status(101, ArchiveStatus::NotFound), None);
    assert!(queue.0.is_empty());
    queue.0.insert(101, ArchiveStatus::Downloading);
    queue.0.insert(201, ArchiveStatus::Downloading);
    assert_eq!(queue.set_status(201, ArchiveStatus::Downloaded(vec![7, 8])), Some(()));
    assert_eq!(queue.finish_download(200), None);
    assert_eq!(queue.finish_download(201), Some((201, vec![7, 8])));
    assert_eq!(queue.0.len(), 1);
    assert_eq!(queue.latest_downloaded(), None);
    assert_eq!(queue.earliest_if_all_not_found(), None);
    assert_eq!(queue.set_status(101, ArchiveStatus::NotFound), Some(()));
    assert_eq!(queue.earliest_if_all_not_found(), Some(101));
}

#[test]
fn answers_for_unknown_archives_break_the_queue() {
    let mut downloader = ArchiveDownloader::new();
    assert!(matches!(
        downloader.on_response(201, ArchiveResponse::NotFound, 100, false),
        Err(SyncError::BrokenQueue)
    ));
    assert!(matches!(
        downloader.on_response(301, ArchiveResponse::Found(vec![]), 100, false),
        Err(SyncError::BrokenQueue)
    ));
    assert!(matches!(
        downloader.on_response(101, ArchiveResponse::Found(vec![5]), 100, false),
        Ok(ResponseAction::Apply(101, _))
    ));
    assert!(matches!(
        downloader.on_response(5, ArchiveResponse::Found(vec![5]), u32::MAX, false),
        Ok(ResponseAction::Apply(5, _))
    ));
    assert!(matches!(
        downloader.on_response(201, ArchiveResponse::Failed, 100, false),
        Ok(ResponseAction::Download(again)) if again == vec![201]
    ));
    assert!(downloader.queue.0.is_empty());
}

#[test]
fn masterchain_blocks_are_applied_one_by_one() {
    let ids: Vec<BlockIdExt> = (98..=103).map(mc).collect();
    let import = import_mc_blocks(&ids, &mc(100));
    assert_eq!(import.to_apply, vec![mc(101), mc(102), mc(103)]);
    assert_eq!(import.failure, None);

    let import = import_mc_blocks(&vec![mc(101), mc(102), mc(104), mc(105)], &mc(100));
    assert_eq!(import.to_apply, vec![mc(101), mc(102)]);
    assert_eq!(import.failure, Some(SyncError::BlocksSkippedInArchive));

    let import = import_mc_blocks(&vec![mc(102)], &mc(100));
    assert!(import.to_apply.is_empty());
    assert_eq!(import.failure, Some(SyncError::BlocksSkippedInArchive));

    let mut other = mc(100);
    other.root_hash[0] ^= 1;
    let import = import_mc_blocks(&vec![mc(99), other, mc(101)], &mc(100));
    assert!(import.to_apply.is_empty());
    assert_eq!(import.failure, Some(SyncError::MasterchainBlockIdMismatch));

    let import = import_mc_blocks(&vec![mc(99), mc(100)], &mc(100));
    assert!(import.to_apply.is_empty());
    assert_eq!(import.failure, None);

    let import = import_mc_blocks(&vec![mc(u32::MAX)], &mc(u32::MAX));
    assert_eq!(import.failure, None);
    let import = import_mc_blocks(&vec![mc(0)], &mc(u32::MAX));
    assert_eq!(import.failure, None);

    assert_eq!(import_package(0), Err(SyncError::EmptyArchivePackage));
    assert_eq!(import_package(3), Ok(()));
}

#[test]
fn sync_goes_on_from_the_earlier_cursor() {
    assert_eq!(last_applied_block(mc(10), mc(7)), mc(7));
    assert_eq!(last_applied_block(mc(10), mc(10)), mc(10));
    assert_eq!(last_applied_block(mc(10), mc(12)), mc(10));
}

#[test]
fn cursor_waits_for_every_shard_block() {
    let mut client = ShardsClient::new(100);
    assert!(!client.begin(100, 3));
    assert!(!client.begin(99, 3));
    assert!(client.begin(101, 3));
    assert_eq!(client.shard_block_done(true), None);
    assert_eq!(client.cursor(), 100);
    assert_eq!(client.shard_block_done(true), None);
    assert_eq!(client.cursor(), 100);
    assert_eq!(client.shard_block_done(true), Some(101));
    assert_eq!(client.cursor(), 101);
    assert_eq!(client.shard_block_done(true), None);

    assert!(client.begin(102, 2));
    assert_eq!(client.shard_block_done(false), None);
    assert_eq!(client.shard_block_done(true), None);
    assert_eq!(client.cursor(), 101);

    assert!(client.begin(102, 0));
    assert_eq!(client.cursor(), 102);
}

#[test]
fn shard_blocks_come_from_the_nearest_source() {
    assert_eq!(shard_block_action(true, 0, true, true), ShardBlockAction::Skip);
    assert_eq!(shard_block_action(false, 0, true, true), ShardBlockAction::DownloadZeroState);
    assert_eq!(shard_block_action(false, 5, true, false), ShardBlockAction::ApplyFromArchive);
    assert_eq!(shard_block_action(false, 5, false, true), ShardBlockAction::ApplyFromStore);
    assert_eq!(shard_block_action(false, 5, false, false), ShardBlockAction::DownloadAndApply);
}

#[test]
fn package_entries_are_sorted_by_kind_and_chain() {
    let shard = BlockIdExt {
        shard_id: ShardIdent::with_tagged_prefix(0, SHARD_FULL).unwrap(),
        ..mc(5)
    };
    assert_eq!(PackageEntryId::Block(mc(5)).classify(), (EntryUse::Block, true));
    assert_eq!(PackageEntryId::Block(shard).classify(), (EntryUse::Block, false));
    assert_eq!(PackageEntryId::Proof(mc(5)).classify(), (EntryUse::Proof, true));
    assert_eq!(PackageEntryId::Proof(shard).classify(), (EntryUse::Ignored, false));
    assert_eq!(PackageEntryId::ProofLink(mc(5)).classify(), (EntryUse::Ignored, false));
    assert_eq!(PackageEntryId::ProofLink(shard).classify(), (EntryUse::ProofLink, false));
}

#[test]
fn an_archive_entry_needs_data_and_proof() {
    let entry = BlocksEntry { block: Some(vec![1]), proof: Some(vec![2]) };
    assert_eq!(entry.get_data(), Ok((&vec![1], &vec![2])));
    let entry = BlocksEntry { block: None, proof: Some(vec![2]) };
    assert_eq!(entry.get_data(), Err(SyncError::BlockNotFound));
    let entry = BlocksEntry { block: None, proof: None };
    assert_eq!(entry.get_data(), Err(SyncError::BlockNotFound));
    let entry = BlocksEntry { block: Some(vec![1]), proof: None };
    assert_eq!(entry.get_data(), Err(SyncError::BlockProofNotFound));
}

#[test]
fn background_sync_ends_at_the_high_block() {
    assert_eq!(save_archive_status(None, 10), SyncStatus::NoBlocksInArchive);
    assert_eq!(save_archive_status(Some(9), 10), SyncStatus::InProgress);
    assert_eq!(save_archive_status(Some(10), 10), SyncStatus::Done);
    assert_eq!(save_archive_status(Some(11), 10), SyncStatus::Done);
    assert_eq!(background_sync_low(Some(5), 9), 5);
    assert_eq!(background_sync_low(None, 9), 9);
    assert_eq!(next_prev_key_block(mc(1), mc(2), true), mc(2));
    assert_eq!(next_prev_key_block(mc(1), mc(2), false), mc(1));
}

#[test]
fn proof_chain_crosses_hard_fork() {
    assert_eq!(proof_check(false, 77), ProofCheck::PrevKeyBlockProof);
    assert!(proof_accepted(false, true));
    assert!(!proof_accepted(false, false));
    assert!(proof_accepted(true, false));
    assert_eq!(proof_check(false, 0), ProofCheck::MasterState);
    assert_eq!(proof_check(true, 0), ProofCheck::Link);
    assert_eq!(proof_check(true, 5), ProofCheck::Link);

    assert_eq!(download_key_block_proof(false), KeyBlockProofCheck::PrevKeyBlockProof);
    assert_eq!(download_key_block_proof(true), KeyBlockProofCheck::MasterState);
    assert!(key_block_proof_accepted(KeyBlockProofCheck::PrevKeyBlockProof, false, true));
    assert!(!key_block_proof_accepted(KeyBlockProofCheck::PrevKeyBlockProof, false, false));
    assert!(!key_block_proof_accepted(KeyBlockProofCheck::MasterState, false, true));
    assert!(key_block_proof_accepted(KeyBlockProofCheck::MasterState, true, false));
}

#[test]
fn warm_boot_from_non_key_applied_block() {
    let plain = BlockHandle::with_values(mc(500), BlockMeta::with_times(1, 2, false));
    assert_eq!(warm_boot(mc(500), Some(&plain), Some(mc(480))), Ok(mc(480)));
    assert_eq!(warm_boot(mc(500), Some(&plain), None), Err(BootError::MasterchainStateNotFound));
    let key = BlockHandle::with_values(mc(500), BlockMeta::with_times(1, 2, true));
    assert_eq!(warm_boot(mc(500), Some(&key), Some(mc(480))), Ok(mc(500)));
    let zero = BlockHandle::new(mc(0));
    assert_eq!(warm_boot(mc(0), Some(&zero), None), Ok(mc(0)));
    assert_eq!(warm_boot(mc(500), None, Some(mc(480))), Err(BootError::FailedToLoadInitialBlock));
}

#[test]
fn boot_is_warm_when_a_block_is_stored() {
    assert!(matches!(boot(Some(mc(5))), BootKind::Warm(id) if id == mc(5)));
    assert!(matches!(boot(None), BootKind::Cold));
    let (data, store) = BootData::new(mc(9), None);
    assert_eq!((data.last_mc_block_id, data.shards_client_mc_block_id, store), (mc(9), mc(9), true));
    let (data, store) = BootData::new(mc(9), Some(mc(4)));
    assert_eq!((data.last_mc_block_id, data.shards_client_mc_block_id, store), (mc(9), mc(4), false));
}

#[test]
fn cold_boot_begins_at_a_key_block() {
    assert_eq!(prepare_cold_boot_data(0, None), ColdBootStart::ZeroState);
    assert_eq!(prepare_cold_boot_data(5, None), ColdBootStart::DownloadProof);
    let mut meta = BlockMeta::default();
    assert_eq!(prepare_cold_boot_data(5, Some(&meta)), ColdBootStart::DownloadProof);
    meta.set_has_proof_link();
    assert_eq!(prepare_cold_boot_data(5, Some(&meta)), ColdBootStart::LoadProof);
    assert_eq!(prepare_cold_boot_data(0, Some(&meta)), ColdBootStart::ZeroState);
    let mut meta = BlockMeta::default();
    meta.set_has_proof();
    assert_eq!(prepare_cold_boot_data(5, Some(&meta)), ColdBootStart::LoadProof);
    assert_eq!(require_key_block(true), Ok(()));
    assert_eq!(require_key_block(false), Err(BootError::StartingFromNonKeyBlock));
}

#[test]
fn states_are_kept_once_in_each_period() {
    assert!(!is_persistent_state(0x2_0000, 0x2_0000));
    assert!(!is_persistent_state(0x3_ffff, 0x2_0000));
    assert!(is_persistent_state(0x4_0000, 0x3_ffff));
    assert!(is_persistent_state(0x2_0000, 0x1_ffff));
    assert!(!is_persistent_state(5, 9));
    assert!(get_key_blocks(0x4_0000, 0x3_ffff));
    assert!(!get_key_blocks(0x4_0001, 0x4_0000));
}

#[test]
fn key_blocks_are_followed_until_now() {
    assert!(key_blocks_complete(1000, 1299));
    assert!(key_blocks_complete(1000, 1000 + 2 * 86400 - 1));
    assert!(!key_blocks_complete(1000, 1000 + 2 * 86400));
    assert!(key_blocks_complete(u32::MAX, i32::MAX));
    assert!(!key_blocks_complete(0, i32::MAX));
}

#[test]
fn the_last_fitting_key_block_is_chosen() {
    let period = 0x2_0000u32;
    let utimes = vec![period, 2 * period + 5, 2 * period + 9, 3 * period + 1, 3 * period + 7];
    let now = (3 * period + 1000) as i32;
    assert_eq!(choose_key_block(&utimes, now), Ok(3));
    assert_eq!(choose_key_block(&utimes, (3 * period + 300) as i32), Ok(1));
    assert_eq!(choose_key_block(&utimes, (3 * period + 301) as i32), Ok(3));
    assert_eq!(choose_key_block(&utimes, (period + 300) as i32), Ok(0));
    assert_eq!(
        choose_key_block(&utimes, (period + 299) as i32),
        Err(BootError::PersistentShardStateNotFound)
    );
    assert_eq!(choose_key_block(&Vec::new(), 0), Err(BootError::PersistentShardStateNotFound));
    // a key block behind one made at time zero counts as kept
    assert_eq!(choose_key_block(&vec![0, 5], 1000), Ok(1));
    assert_eq!(choose_key_block(&vec![7, 9], 1000), Ok(0));
}

#[test]
fn cold_boot_downloads_what_is_missing() {
    assert_eq!(cold_boot(0, true), ColdBootFinish::BaseWorkchainZeroState);
    assert_eq!(cold_boot(0, false), ColdBootFinish::StartBlocksAndStates);
    assert_eq!(cold_boot(7, true), ColdBootFinish::StartBlocksAndStates);
    let plan = download_block_and_state(None);
    assert!(plan.download_block && plan.download_state);
    let mut meta = BlockMeta::default();
    meta.set_has_data();
    let plan = download_block_and_state(Some(&meta));
    assert!(!plan.download_block && plan.download_state);
    assert!(store_downloaded_proof(&meta));
    meta.set_has_state();
    meta.set_has_proof();
    let plan = download_block_and_state(Some(&meta));
    assert!(!plan.download_block && !plan.download_state);
    assert!(!store_downloaded_proof(&meta));
    assert!(download_zero_state(None));
    assert!(!download_zero_state(Some(&meta)));
    assert!(download_start_blocks_and_states(0));
    assert!(!download_start_blocks_and_states(1));
    assert_eq!(check_state_hash(&[1; 32], &[1; 32]), Ok(()));
    let mut other = [1; 32];
    other[31] = 2;
    assert_eq!(check_state_hash(&[1; 32], &other), Err(BootError::ShardStateHashMismatch));
    let id = download_base_wc_zero_state(Some(([5; 32], [6; 32]))).unwrap();
    assert_eq!(id.shard_id, ShardIdent::with_tagged_prefix(0, SHARD_FULL).unwrap());
    assert_eq!((id.seq_no, id.root_hash, id.file_hash), (0, [5; 32], [6; 32]));
    assert_eq!(download_base_wc_zero_state(None), Err(BootError::BaseWorkchainInfoNotFound));
}
