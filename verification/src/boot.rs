//! The decisions of boot: where a node that starts takes up the chain.
//!
//! A node that has applied blocks before goes on from them (warm boot). A
//! node that has not begins at a block that it is told to trust, follows the
//! key blocks from there, and picks the last one whose state is kept for
//! download (cold boot).

use crate::block_id::BlockIdExt;
use crate::codec::bytes32_eq;
use crate::shard::{ShardIdent, BASE_WORKCHAIN_ID, SHARD_FULL};
use crate::storage::block_handle::BlockHandle;
use crate::storage::block_meta::BlockMeta;
use vstd::prelude::*;

verus! {

/// The seconds between two key blocks that are sure to come.
pub const KEY_BLOCK_UTIME_STEP: i32 = 86400;

/// The seconds that a state must be old to begin with it.
pub const INITIAL_SYNC_TIME_SECONDS: i32 = 300;

/// The seconds of one period of persistent states, as a power of two.
pub const PERSISTENT_STATE_PERIOD_BITS: u32 = 17;

/// Why boot failed.
#[derive(Clone, Copy, Debug, PartialEq, Eq, Structural)]
pub enum BootError {
    /// The block to begin at is no key block.
    StartingFromNonKeyBlock,
    /// The last applied block has no handle.
    FailedToLoadInitialBlock,
    /// The state of the masterchain names no last key block.
    MasterchainStateNotFound,
    /// The zero state names no base workchain.
    BaseWorkchainInfoNotFound,
    /// A downloaded state has another hash than its block states.
    ShardStateHashMismatch,
    /// No key block has a state that is kept and old enough.
    PersistentShardStateNotFound,
}

/// Where a node that has booted takes up the chain.
#[derive(Clone, Copy, Debug)]
pub struct BootData {
    /// The last masterchain block that counts as applied.
    pub last_mc_block_id: BlockIdExt,
    /// The masterchain block up to which the shard blocks are applied.
    pub shards_client_mc_block_id: BlockIdExt,
}

/// How a node boots.
#[derive(Clone, Copy, Debug)]
pub enum BootKind {
    /// From the last masterchain block it has applied.
    Warm(BlockIdExt),
    /// From the block it is told to trust.
    Cold,
}

/// How a node boots: warm if it has stored the last masterchain block it
/// applied, else cold.
pub fn boot(stored_last_mc_block_id: Option<BlockIdExt>) -> (r: BootKind)
    ensures
        match stored_last_mc_block_id {
            Some(id) => r matches BootKind::Warm(from) && from == id,
            None => r matches BootKind::Cold,
        },
{
    match stored_last_mc_block_id {
        Some(id) => BootKind::Warm(id),
        None => BootKind::Cold,
    }
}

impl BootData {
    /// The outcome of boot: the shard blocks count as applied up to the
    /// stored block, or up to the last masterchain block if none is stored.
    /// Returns also whether that block is to be stored.
    pub fn new(last_mc_block_id: BlockIdExt, stored_shards_client: Option<BlockIdExt>) -> (r: (
        BootData,
        bool,
    ))
        ensures
            r.0.last_mc_block_id == last_mc_block_id,
            r.0.shards_client_mc_block_id == match stored_shards_client {
                Some(id) => id,
                None => last_mc_block_id,
            },
            r.1 == stored_shards_client is None,
    {
        match stored_shards_client {
            Some(id) => (BootData { last_mc_block_id, shards_client_mc_block_id: id }, false),
            None => (
                BootData { last_mc_block_id, shards_client_mc_block_id: last_mc_block_id },
                true,
            ),
        }
    }
}

/// The block that a warm boot ends at: the last applied block if that is a
/// key block or the zero state, else the last key block that the state of
/// the masterchain names.
///
/// Fails with `FailedToLoadInitialBlock` exactly when the last applied block
/// has no handle, and with `MasterchainStateNotFound` exactly when it has
/// one, is neither the zero state nor a key block, and the state names no
/// last key block.
pub fn warm_boot(
    last_mc_block_id: BlockIdExt,
    handle: Option<&BlockHandle>,
    last_key_block: Option<BlockIdExt>,
) -> (r: Result<BlockIdExt, BootError>)
    ensures
        match handle {
            None => r matches Err(BootError::FailedToLoadInitialBlock),
            Some(handle) => if last_mc_block_id.seq_no != 0
                && !handle.block_meta()@.is_key_block {
                match last_key_block {
                    Some(id) => r matches Ok(to) && to == id,
                    None => r matches Err(BootError::MasterchainStateNotFound),
                }
            } else {
                r matches Ok(to) && to == last_mc_block_id
            },
        },
{
    let handle = match handle {
        Some(handle) => handle,
        None => {
            return Err(BootError::FailedToLoadInitialBlock);
        },
    };
    if last_mc_block_id.seq_no != 0 && !handle.meta().is_key_block() {
        match last_key_block {
            Some(id) => Ok(id),
            None => Err(BootError::MasterchainStateNotFound),
        }
    } else {
        Ok(last_mc_block_id)
    }
}

/// The block that a cold boot has come to: the zero state, or a key block.
#[derive(Clone, Copy, Debug)]
pub enum ColdBootData {
    /// The zero state of the masterchain.
    ZeroState {
        /// The handle of the zero state.
        handle: BlockHandle,
    },
    /// A key block.
    KeyBlock {
        /// The handle of the key block.
        handle: BlockHandle,
    },
}

impl ColdBootData {
    /// The handle of the block.
    pub fn init_block_handle(&self) -> (r: &BlockHandle)
        ensures
            *r == match *self {
                ColdBootData::ZeroState { handle } => handle,
                ColdBootData::KeyBlock { handle } => handle,
            },
    {
        match self {
            ColdBootData::ZeroState { handle } => handle,
            ColdBootData::KeyBlock { handle } => handle,
        }
    }

    /// How the proof of the next key block is checked.
    pub fn next_proof_check(&self) -> (r: KeyBlockProofCheck)
        ensures
            r == match *self {
                ColdBootData::ZeroState { .. } => KeyBlockProofCheck::MasterState,
                ColdBootData::KeyBlock { .. } => KeyBlockProofCheck::PrevKeyBlockProof,
            },
    {
        match self {
            ColdBootData::ZeroState { .. } => KeyBlockProofCheck::MasterState,
            ColdBootData::KeyBlock { .. } => KeyBlockProofCheck::PrevKeyBlockProof,
        }
    }
}

/// How a cold boot gets hold of the block it begins at.
#[derive(Clone, Copy, Debug, PartialEq, Eq, Structural)]
pub enum ColdBootStart {
    /// The block is the zero state, which is downloaded.
    ZeroState,
    /// The proof of the block is stored, and is loaded.
    LoadProof,
    /// The proof of the block is downloaded, again and again until it is
    /// a good one.
    DownloadProof,
}

/// How a cold boot gets hold of the block it begins at, given its sequence
/// number and what is stored of it, if anything is.
pub fn prepare_cold_boot_data(seq_no: u32, meta: Option<&BlockMeta>) -> (r: ColdBootStart)
    ensures
        r == if seq_no == 0 {
            ColdBootStart::ZeroState
        } else if meta is Some && (meta.unwrap()@.has_proof_link || meta.unwrap()@.has_proof) {
            ColdBootStart::LoadProof
        } else {
            ColdBootStart::DownloadProof
        },
{
    if seq_no == 0 {
        return ColdBootStart::ZeroState;
    }
    match meta {
        Some(meta) => if meta.has_proof_link() || meta.has_proof() {
            ColdBootStart::LoadProof
        } else {
            ColdBootStart::DownloadProof
        },
        None => ColdBootStart::DownloadProof,
    }
}

/// A cold boot begins at a key block.
///
/// Fails with `StartingFromNonKeyBlock` exactly when the block is none.
pub fn require_key_block(is_key_block: bool) -> (r: Result<(), BootError>)
    ensures
        is_key_block ==> r is Ok,
        !is_key_block ==> r matches Err(BootError::StartingFromNonKeyBlock),
{
    if is_key_block {
        Ok(())
    } else {
        Err(BootError::StartingFromNonKeyBlock)
    }
}

/// Whether the state of a block made at `block_utime` is kept for download,
/// given that the key block before it was made at `prev_utime`: it is if
/// the two were made in different periods.
pub open spec fn persistent_state(block_utime: u32, prev_utime: u32) -> bool {
    block_utime / 0x2_0000 != prev_utime / 0x2_0000
}

/// Whether the state of a block made at `block_utime` is kept for download.
pub fn is_persistent_state(block_utime: u32, prev_utime: u32) -> (r: bool)
    ensures
        r == persistent_state(block_utime, prev_utime),
{
    block_utime / 0x2_0000 != prev_utime / 0x2_0000
}

/// Whether a block made at `utime` is too new at the time `now` to begin
/// with its state.
pub open spec fn too_new(utime: u32, now: i32) -> bool {
    utime + INITIAL_SYNC_TIME_SECONDS > now
}

/// Whether the key blocks are followed far enough at the time `now`: the
/// last one known, made at `last_utime`, is too new to begin with, or no
/// key block behind it is sure to have come yet.
pub fn key_blocks_complete(last_utime: u32, now: i32) -> (r: bool)
    ensures
        r == (too_new(last_utime, now) || last_utime + 2 * KEY_BLOCK_UTIME_STEP > now),
{
    let last_utime = last_utime as i64;
    let now = now as i64;
    last_utime + INITIAL_SYNC_TIME_SECONDS as i64 > now || last_utime + 2
        * KEY_BLOCK_UTIME_STEP as i64 > now
}

/// Whether a cold boot can begin with key block `i` of `utimes`, the times
/// at which the key blocks were made, at the time `now`: its state is kept
/// for download, which the state of the first key block is taken to be, and
/// it is old enough.
pub open spec fn key_block_fits(utimes: Seq<u32>, i: int, now: i32) -> bool {
    let prev_utime = if i > 0 {
        utimes[i - 1]
    } else {
        0
    };
    (prev_utime == 0 || persistent_state(utimes[i], prev_utime)) && !too_new(utimes[i], now)
}

/// Picks the key block that a cold boot begins with: the last one that
/// fits. `utimes` holds the times at which the key blocks were made, in the
/// order of the blocks. Returns its place.
///
/// Fails with `PersistentShardStateNotFound` exactly when no key block fits.
pub fn choose_key_block(utimes: &Vec<u32>, now: i32) -> (r: Result<usize, BootError>)
    ensures
        match r {
            Ok(i) => {
                &&& i < utimes@.len()
                &&& key_block_fits(utimes@, i as int, now)
                &&& forall|j: int| i < j < utimes@.len() ==> !key_block_fits(utimes@, j, now)
            },
            Err(e) => {
                &&& e == BootError::PersistentShardStateNotFound
                &&& forall|j: int| 0 <= j < utimes@.len() ==> !key_block_fits(utimes@, j, now)
            },
        },
{
    let mut i = utimes.len();
    while i > 0
        invariant
            i <= utimes@.len(),
            forall|j: int| i <= j < utimes@.len() ==> !key_block_fits(utimes@, j, now),
        decreases i,
    {
        i = i - 1;
        let handle_utime = utimes[i];
        let prev_utime = if i > 0 {
            utimes[i - 1]
        } else {
            0
        };
        let is_persistent = prev_utime == 0 || is_persistent_state(handle_utime, prev_utime);
        if is_persistent && handle_utime as i64 + INITIAL_SYNC_TIME_SECONDS as i64 <= now as i64 {
            return Ok(i);
        }
    }
    Err(BootError::PersistentShardStateNotFound)
}

/// What a cold boot downloads in the end.
#[derive(Clone, Copy, Debug, PartialEq, Eq, Structural)]
pub enum ColdBootFinish {
    /// The zero state of the base workchain.
    BaseWorkchainZeroState,
    /// The chosen block, the shard blocks it refers to, and their states.
    StartBlocksAndStates,
}

/// What a cold boot downloads in the end: the zero state of the base
/// workchain if it chose the zero state it began at, else blocks and states.
pub fn cold_boot(chosen_seq_no: u32, began_at_zero_state: bool) -> (r: ColdBootFinish)
    ensures
        r == if chosen_seq_no == 0 && began_at_zero_state {
            ColdBootFinish::BaseWorkchainZeroState
        } else {
            ColdBootFinish::StartBlocksAndStates
        },
{
    if chosen_seq_no == 0 && began_at_zero_state {
        ColdBootFinish::BaseWorkchainZeroState
    } else {
        ColdBootFinish::StartBlocksAndStates
    }
}

/// The id of the zero state of the base workchain, from the two hashes that
/// the zero state of the masterchain names for it.
///
/// Fails with `BaseWorkchainInfoNotFound` exactly when it names none.
pub fn download_base_wc_zero_state(zerostate_hashes: Option<([u8; 32], [u8; 32])>) -> (r: Result<
    BlockIdExt,
    BootError,
>)
    ensures
        match zerostate_hashes {
            Some((root_hash, file_hash)) => {
                &&& r matches Ok(id)
                &&& id.shard_id.workchain() == BASE_WORKCHAIN_ID
                &&& id.shard_id.prefix() == SHARD_FULL
                &&& id.seq_no == 0
                &&& id.root_hash == root_hash
                &&& id.file_hash == file_hash
            },
            None => r matches Err(BootError::BaseWorkchainInfoNotFound),
        },
{
    match zerostate_hashes {
        Some((root_hash, file_hash)) => Ok(
            BlockIdExt {
                shard_id: ShardIdent::full(BASE_WORKCHAIN_ID),
                seq_no: 0,
                root_hash,
                file_hash,
            },
        ),
        None => Err(BootError::BaseWorkchainInfoNotFound),
    }
}

/// What is downloaded of a block that a boot begins with.
#[derive(Clone, Copy, Debug, PartialEq, Eq, Structural)]
pub struct BlockAndStatePlan {
    /// Whether the block is downloaded; else it is loaded.
    pub download_block: bool,
    /// Whether the state after the block is downloaded.
    pub download_state: bool,
}

/// What is downloaded of a block that a boot begins with, given what is
/// stored of it, if anything is: the block unless its data is stored, the
/// state unless it is stored.
pub fn download_block_and_state(meta: Option<&BlockMeta>) -> (r: BlockAndStatePlan)
    ensures
        r.download_block == !(meta is Some && meta.unwrap()@.has_data),
        r.download_state == !(meta is Some && meta.unwrap()@.has_state),
{
    match meta {
        Some(meta) => BlockAndStatePlan {
            download_block: !meta.has_data(),
            download_state: !meta.has_state(),
        },
        None => BlockAndStatePlan { download_block: true, download_state: true },
    }
}

/// Whether the proof that came with a downloaded block is stored: it is
/// unless a proof is stored already.
pub fn store_downloaded_proof(meta: &BlockMeta) -> (r: bool)
    ensures
        r == !meta@.has_proof,
{
    !meta.has_proof()
}

/// Holds the hash of a downloaded state against the hash that its block
/// states.
///
/// Fails with `ShardStateHashMismatch` exactly when they differ.
pub fn check_state_hash(stated: &[u8; 32], downloaded: &[u8; 32]) -> (r: Result<(), BootError>)
    ensures
        stated@ == downloaded@ ==> r is Ok,
        stated@ != downloaded@ ==> r matches Err(BootError::ShardStateHashMismatch),
{
    if bytes32_eq(stated, downloaded) {
        Ok(())
    } else {
        Err(BootError::ShardStateHashMismatch)
    }
}

/// What is downloaded for a shard block that the chosen masterchain block
/// refers to: the zero state for block 0, else the block and its state.
pub fn download_start_blocks_and_states(shard_block_seq_no: u32) -> (zero_state: bool)
    ensures
        zero_state == (shard_block_seq_no == 0),
{
    shard_block_seq_no == 0
}

/// Whether a zero state is to be downloaded: it is unless it is stored.
pub fn download_zero_state(meta: Option<&BlockMeta>) -> (r: bool)
    ensures
        r == !(meta is Some && meta.unwrap()@.has_state),
{
    match meta {
        Some(meta) => !meta.has_state(),
        None => true,
    }
}

/// How the proof of a key block is checked on the way from the block a cold
/// boot began at.
#[derive(Clone, Copy, Debug, PartialEq, Eq, Structural)]
pub enum KeyBlockProofCheck {
    /// Against the proof of the key block before it; a failure is passed
    /// over if the block is a hard fork.
    PrevKeyBlockProof,
    /// Against the zero state of the masterchain.
    MasterState,
}

/// How the proof of a key block is checked: against the zero state if the
/// block before it is the zero state, else against the proof of the key
/// block before it.
pub fn download_key_block_proof(prev_is_zero_state: bool) -> (r: KeyBlockProofCheck)
    ensures
        r == if prev_is_zero_state {
            KeyBlockProofCheck::MasterState
        } else {
            KeyBlockProofCheck::PrevKeyBlockProof
        },
{
    if prev_is_zero_state {
        KeyBlockProofCheck::MasterState
    } else {
        KeyBlockProofCheck::PrevKeyBlockProof
    }
}

/// Whether the proof of a key block is taken as good, given how it was
/// checked and whether the check passed: a proof that fails against the
/// proof of the key block before it is good all the same if the block is a
/// hard fork.
pub fn key_block_proof_accepted(
    check: KeyBlockProofCheck,
    check_passed: bool,
    is_hard_fork: bool,
) -> (r: bool)
    ensures
        r == (check_passed || (check == KeyBlockProofCheck::PrevKeyBlockProof && is_hard_fork)),
{
    match check {
        KeyBlockProofCheck::PrevKeyBlockProof => check_passed || is_hard_fork,
        KeyBlockProofCheck::MasterState => check_passed,
    }
}

/// Whether the block `block_utime` was made at becomes the block that a
/// later cold boot begins at: it does if its state is kept for download.
pub fn get_key_blocks(block_utime: u32, prev_utime: u32) -> (new_init_block: bool)
    ensures
        new_init_block == persistent_state(block_utime, prev_utime),
{
    is_persistent_state(block_utime, prev_utime)
}

} // verus!
