//! The order in which the blocks of an archive are applied.

use crate::block_id::BlockIdExt;
use crate::sync::archive_downloader::SyncError;
use vstd::prelude::*;

verus! {

/// The id of an entry of an archive package.
#[derive(Clone, Copy, Debug)]
pub enum PackageEntryId {
    /// The data of a block.
    Block(BlockIdExt),
    /// The proof of a block.
    Proof(BlockIdExt),
    /// The proof link of a block.
    ProofLink(BlockIdExt),
}

/// What an entry of an archive package is used for.
#[derive(Clone, Copy, Debug, PartialEq, Eq, Structural)]
pub enum EntryUse {
    /// It is the data of a block.
    Block,
    /// It is the proof of a masterchain block.
    Proof,
    /// It is the proof link of a shard block.
    ProofLink,
    /// It is not used: the proof of a shard block, or the proof link of a
    /// masterchain block.
    Ignored,
}

impl PackageEntryId {
    /// The block that the entry belongs to.
    pub open spec fn block_id(self) -> BlockIdExt {
        match self {
            PackageEntryId::Block(id) => id,
            PackageEntryId::Proof(id) => id,
            PackageEntryId::ProofLink(id) => id,
        }
    }

    /// What the entry is used for.
    pub open spec fn entry_use(self) -> EntryUse {
        match self {
            PackageEntryId::Block(_) => EntryUse::Block,
            PackageEntryId::Proof(id) => if id.shard_id.in_masterchain() {
                EntryUse::Proof
            } else {
                EntryUse::Ignored
            },
            PackageEntryId::ProofLink(id) => if id.shard_id.in_masterchain() {
                EntryUse::Ignored
            } else {
                EntryUse::ProofLink
            },
        }
    }

    /// Whether the entry makes its block one of the masterchain blocks of
    /// the archive: it is the data or the proof of a masterchain block.
    pub open spec fn names_mc_block(self) -> bool {
        self.block_id().shard_id.in_masterchain() && (self.entry_use() == EntryUse::Block
            || self.entry_use() == EntryUse::Proof)
    }

    /// What the entry is used for, and whether it makes its block one of
    /// the masterchain blocks of the archive.
    pub fn classify(&self) -> (r: (EntryUse, bool))
        ensures
            r.0 == self.entry_use(),
            r.1 == self.names_mc_block(),
    {
        match self {
            PackageEntryId::Block(id) => (EntryUse::Block, id.is_masterchain()),
            PackageEntryId::Proof(id) => if id.is_masterchain() {
                (EntryUse::Proof, true)
            } else {
                (EntryUse::Ignored, false)
            },
            PackageEntryId::ProofLink(id) => if id.is_masterchain() {
                (EntryUse::Ignored, false)
            } else {
                (EntryUse::ProofLink, false)
            },
        }
    }
}

/// What an archive holds of one block.
#[derive(Debug)]
pub struct BlocksEntry {
    /// The data of the block.
    pub block: Option<Vec<u8>>,
    /// The proof or the proof link of the block.
    pub proof: Option<Vec<u8>>,
}

impl BlocksEntry {
    /// The data and the proof of the block.
    ///
    /// Fails with `BlockNotFound` exactly when the data is missing, and with
    /// `BlockProofNotFound` exactly when the data is there and the proof is
    /// missing.
    pub fn get_data(&self) -> (r: Result<(&Vec<u8>, &Vec<u8>), SyncError>)
        ensures
            match (self.block, self.proof) {
                (Some(data), Some(evidence)) => r matches Ok((b, p)) && *b == data && *p
                    == evidence,
                (None, _) => r matches Err(SyncError::BlockNotFound),
                (Some(_), None) => r matches Err(SyncError::BlockProofNotFound),
            },
    {
        let block = match &self.block {
            Some(block) => block,
            None => {
                return Err(SyncError::BlockNotFound);
            },
        };
        let stored = &self.proof;
        let block_proof = match stored {
            Some(found) => found,
            None => {
                return Err(SyncError::BlockProofNotFound);
            },
        };
        Ok((block, block_proof))
    }
}

/// The masterchain block that sync goes on from: the last one applied, or
/// the one that the shards were brought up to if that is an earlier one.
pub fn last_applied_block(mc_block_id: BlockIdExt, sc_block_id: BlockIdExt) -> (r: BlockIdExt)
    ensures
        r == if mc_block_id.seq_no > sc_block_id.seq_no {
            sc_block_id
        } else {
            mc_block_id
        },
{
    if mc_block_id.seq_no > sc_block_id.seq_no {
        sc_block_id
    } else {
        mc_block_id
    }
}

/// What the import of the masterchain blocks of an archive does.
#[derive(Debug)]
pub struct McImport {
    /// The blocks to apply, in this order.
    pub to_apply: Vec<BlockIdExt>,
    /// The error that the import ends with after those blocks, if it ends
    /// with one.
    pub failure: Option<SyncError>,
}

/// What importing the masterchain blocks `ids` from place `i` on does, in
/// contracts: the blocks to apply, and the error that ends the import, if
/// one does. `last` is the last block applied.
///
/// A block up to the last one applied is passed over, but must be that
/// block if it has its sequence number. A block behind it must be the next
/// one.
pub open spec fn mc_import(ids: Seq<BlockIdExt>, i: int, last: BlockIdExt) -> (
    Seq<BlockIdExt>,
    Option<SyncError>,
)
    decreases ids.len() - i,
{
    if i < 0 || i >= ids.len() {
        (Seq::empty(), None)
    } else if ids[i].seq_no <= last.seq_no {
        if ids[i].seq_no == last.seq_no && last != ids[i] {
            (Seq::empty(), Some(SyncError::MasterchainBlockIdMismatch))
        } else {
            mc_import(ids, i + 1, last)
        }
    } else if ids[i].seq_no != last.seq_no + 1 {
        (Seq::empty(), Some(SyncError::BlocksSkippedInArchive))
    } else {
        let rest = mc_import(ids, i + 1, ids[i]);
        (seq![ids[i]] + rest.0, rest.1)
    }
}

/// The blocks that an import applies follow the last block applied one by
/// one: each has the sequence number behind that of the one before it.
pub proof fn lemma_mc_import_in_order(ids: Seq<BlockIdExt>, i: int, last: BlockIdExt, k: int)
    requires
        0 <= k < mc_import(ids, i, last).0.len(),
    ensures
        mc_import(ids, i, last).0[k].seq_no == last.seq_no + 1 + k,
    decreases ids.len() - i,
{
    if i < 0 || i >= ids.len() {
    } else if ids[i].seq_no <= last.seq_no {
        if !(ids[i].seq_no == last.seq_no && last != ids[i]) {
            lemma_mc_import_in_order(ids, i + 1, last, k);
        }
    } else if ids[i].seq_no != last.seq_no + 1 {
    } else {
        if k > 0 {
            lemma_mc_import_in_order(ids, i + 1, ids[i], k - 1);
        }
    }
}

/// Plans the import of the masterchain blocks of an archive, `ids` in the
/// order of their sequence numbers, behind the last block applied.
pub fn import_mc_blocks(ids: &Vec<BlockIdExt>, last_mc_block_id: &BlockIdExt) -> (r: McImport)
    ensures
        r.to_apply@ == mc_import(ids@, 0, *last_mc_block_id).0,
        r.failure == mc_import(ids@, 0, *last_mc_block_id).1,
{
    let mut to_apply: Vec<BlockIdExt> = Vec::new();
    let mut last = *last_mc_block_id;
    let mut i: usize = 0;
    let ghost goal = mc_import(ids@, 0, *last_mc_block_id);
    proof {
        assert(to_apply@ + goal.0 =~= goal.0);
    }
    while i < ids.len()
        invariant
            i <= ids@.len(),
            goal == mc_import(ids@, 0, *last_mc_block_id),
            goal.0 == to_apply@ + mc_import(ids@, i as int, last).0,
            goal.1 == mc_import(ids@, i as int, last).1,
        decreases ids@.len() - i,
    {
        let id = ids[i];
        if id.seq_no <= last.seq_no {
            if id.seq_no == last.seq_no && !last.same_as(&id) {
                proof {
                    assert(to_apply@ + Seq::<BlockIdExt>::empty() =~= to_apply@);
                }
                return McImport {
                    to_apply,
                    failure: Some(SyncError::MasterchainBlockIdMismatch),
                };
            }
        } else if id.seq_no as u64 != last.seq_no as u64 + 1 {
            proof {
                assert(to_apply@ + Seq::<BlockIdExt>::empty() =~= to_apply@);
            }
            return McImport { to_apply, failure: Some(SyncError::BlocksSkippedInArchive) };
        } else {
            proof {
                let rest = mc_import(ids@, i + 1, id);
                assert(to_apply@ + (seq![id] + rest.0) =~= to_apply@.push(id) + rest.0);
            }
            to_apply.push(id);
            last = id;
        }
        i += 1;
    }
    proof {
        assert(to_apply@ + Seq::<BlockIdExt>::empty() =~= to_apply@);
    }
    McImport { to_apply, failure: None }
}

/// Whether an archive can be imported at all: it must hold a masterchain
/// block.
///
/// Fails with `EmptyArchivePackage` exactly when it holds none.
pub fn import_package(mc_block_count: usize) -> (r: Result<(), SyncError>)
    ensures
        mc_block_count == 0 ==> r matches Err(SyncError::EmptyArchivePackage),
        mc_block_count > 0 ==> r is Ok,
{
    if mc_block_count == 0 {
        Err(SyncError::EmptyArchivePackage)
    } else {
        Ok(())
    }
}

/// What is done with a shard block that a masterchain block refers to.
#[derive(Clone, Copy, Debug, PartialEq, Eq, Structural)]
pub enum ShardBlockAction {
    /// Nothing: the block is applied already.
    Skip,
    /// The zero state of the shard is downloaded.
    DownloadZeroState,
    /// The block is applied with the data that the archive holds.
    ApplyFromArchive,
    /// The block is applied with the data that the node has stored.
    ApplyFromStore,
    /// The block is downloaded and applied.
    DownloadAndApply,
}

/// What is done with a shard block that a masterchain block refers to.
pub fn shard_block_action(
    is_applied: bool,
    seq_no: u32,
    in_archive: bool,
    in_store: bool,
) -> (r: ShardBlockAction)
    ensures
        r == if is_applied {
            ShardBlockAction::Skip
        } else if seq_no == 0 {
            ShardBlockAction::DownloadZeroState
        } else if in_archive {
            ShardBlockAction::ApplyFromArchive
        } else if in_store {
            ShardBlockAction::ApplyFromStore
        } else {
            ShardBlockAction::DownloadAndApply
        },
{
    if is_applied {
        ShardBlockAction::Skip
    } else if seq_no == 0 {
        ShardBlockAction::DownloadZeroState
    } else if in_archive {
        ShardBlockAction::ApplyFromArchive
    } else if in_store {
        ShardBlockAction::ApplyFromStore
    } else {
        ShardBlockAction::DownloadAndApply
    }
}

/// The shard blocks of one masterchain block that are being applied, and
/// the masterchain block up to which all shard blocks are applied.
#[derive(Clone, Copy, Debug)]
pub struct ShardsClient {
    cursor: u32,
    current: Option<u32>,
    remaining: usize,
    failed: bool,
}

/// What a shards client holds, in the open.
pub struct ShardsClientState {
    /// The sequence number of the masterchain block up to which all shard
    /// blocks are applied.
    pub cursor: u32,
    /// The sequence number of the masterchain block whose shard blocks are
    /// being applied.
    pub current: Option<u32>,
    /// The number of its shard blocks that are not applied yet.
    pub remaining: nat,
    /// Whether one of its shard blocks could not be applied.
    pub failed: bool,
}

impl View for ShardsClient {
    type V = ShardsClientState;

    closed spec fn view(&self) -> ShardsClientState {
        ShardsClientState {
            cursor: self.cursor,
            current: self.current,
            remaining: self.remaining as nat,
            failed: self.failed,
        }
    }
}

impl ShardsClient {
    /// A client whose shard blocks are applied up to the masterchain block
    /// `cursor`.
    pub fn new(cursor: u32) -> (r: Self)
        ensures
            r@.cursor == cursor,
            r@.current is None,
            r@.remaining == 0,
            !r@.failed,
    {
        ShardsClient { cursor, current: None, remaining: 0, failed: false }
    }

    /// The sequence number of the masterchain block up to which all shard
    /// blocks are applied.
    pub fn cursor(&self) -> (r: u32)
        ensures
            r == self@.cursor,
    {
        self.cursor
    }

    /// Begins the masterchain block `mc_seq_no`, which refers to
    /// `shard_blocks` shard blocks. Returns whether its shard blocks are to
    /// be applied: they are not if the cursor has reached the block already.
    /// A block without shard blocks moves the cursor at once.
    pub fn begin(&mut self, mc_seq_no: u32, shard_blocks: usize) -> (r: bool)
        ensures
            r == (mc_seq_no > old(self)@.cursor),
            !r ==> final(self)@ == old(self)@,
            r && shard_blocks > 0 ==> final(self)@ == (ShardsClientState {
                cursor: old(self)@.cursor,
                current: Some(mc_seq_no),
                remaining: shard_blocks as nat,
                failed: false,
            }),
            r && shard_blocks == 0 ==> final(self)@ == (ShardsClientState {
                cursor: mc_seq_no,
                current: None,
                remaining: 0,
                failed: false,
            }),
    {
        if mc_seq_no <= self.cursor {
            return false;
        }
        if shard_blocks == 0 {
            self.cursor = mc_seq_no;
            self.current = None;
            self.remaining = 0;
            self.failed = false;
        } else {
            self.current = Some(mc_seq_no);
            self.remaining = shard_blocks;
            self.failed = false;
        }
        true
    }

    /// Takes the news that one shard block of the current masterchain block
    /// was applied or was there already (`applied`), or could not be
    /// applied. Returns the sequence number that the cursor is to be stored
    /// with, if it moved: it moves to the current masterchain block when the
    /// last of its shard blocks is done and none has failed.
    pub fn shard_block_done(&mut self, applied: bool) -> (r: Option<u32>)
        ensures
            final(self)@ == old(self)@.after_shard_block(applied),
            r == if final(self)@.cursor != old(self)@.cursor {
                Some(final(self)@.cursor)
            } else {
                None
            },
    {
        match self.current {
            Some(mc_seq_no) => {
                if self.remaining == 0 {
                    return None;
                }
                if !applied {
                    self.failed = true;
                }
                self.remaining = self.remaining - 1;
                if self.remaining == 0 {
                    self.current = None;
                    if !self.failed && self.cursor != mc_seq_no {
                        self.cursor = mc_seq_no;
                        return Some(mc_seq_no);
                    }
                }
                None
            },
            None => None,
        }
    }
}

impl ShardsClientState {
    /// The state after one shard block of the current masterchain block is
    /// done: applied or there already (`applied`), or failed.
    pub open spec fn after_shard_block(self, applied: bool) -> ShardsClientState {
        match self.current {
            Some(mc_seq_no) => if self.remaining == 0 {
                self
            } else if self.remaining > 1 {
                ShardsClientState {
                    remaining: (self.remaining - 1) as nat,
                    failed: self.failed || !applied,
                    ..self
                }
            } else {
                ShardsClientState {
                    cursor: if self.failed || !applied {
                        self.cursor
                    } else {
                        mc_seq_no
                    },
                    current: None,
                    remaining: 0,
                    failed: self.failed || !applied,
                }
            },
            None => self,
        }
    }

    /// The cursor moves only when the last shard block of the current
    /// masterchain block is done and none of them has failed, and then it
    /// moves to that masterchain block; until then it stays where it was.
    pub proof fn lemma_cursor_waits_for_shard_blocks(self, applied: bool)
        requires
            self.after_shard_block(applied).cursor != self.cursor,
        ensures
            self.current is Some,
            self.remaining == 1,
            !self.failed,
            applied,
            self.after_shard_block(applied).cursor == self.current.unwrap(),
    {
    }
}

/// How far background sync has come with an archive.
#[derive(Clone, Copy, Debug, PartialEq, Eq, Structural)]
pub enum SyncStatus {
    /// The range is downloaded.
    Done,
    /// More archives are to come.
    InProgress,
    /// The archive holds no masterchain block.
    NoBlocksInArchive,
}

/// How far background sync has come after an archive whose highest
/// masterchain block has the sequence number `highest`, if it holds one, on
/// its way up to `high_seqno`.
pub fn save_archive_status(highest: Option<u32>, high_seqno: u32) -> (r: SyncStatus)
    ensures
        r == match highest {
            None => SyncStatus::NoBlocksInArchive,
            Some(highest) => if highest >= high_seqno {
                SyncStatus::Done
            } else {
                SyncStatus::InProgress
            },
        },
{
    match highest {
        None => SyncStatus::NoBlocksInArchive,
        Some(highest) => if highest >= high_seqno {
            SyncStatus::Done
        } else {
            SyncStatus::InProgress
        },
    }
}

/// The key block that the proofs of the next blocks are checked against:
/// the block just saved if it is a key block, else the one before.
pub fn next_prev_key_block(prev_key_block_id: BlockIdExt, saved: BlockIdExt, is_key_block: bool)
    -> (r: BlockIdExt)
    ensures
        r == if is_key_block {
            saved
        } else {
            prev_key_block_id
        },
{
    if is_key_block {
        saved
    } else {
        prev_key_block_id
    }
}

/// The sequence number that background sync begins at: the one it had come
/// to before, else `from_seqno`.
pub fn background_sync_low(stored_low: Option<u32>, from_seqno: u32) -> (r: u32)
    ensures
        r == match stored_low {
            Some(low) => low,
            None => from_seqno,
        },
{
    match stored_low {
        Some(low) => low,
        None => from_seqno,
    }
}

/// How the proof of a block is checked before the block is saved.
#[derive(Clone, Copy, Debug, PartialEq, Eq, Structural)]
pub enum ProofCheck {
    /// As a proof link, by itself.
    Link,
    /// Against the zero state of the masterchain.
    MasterState,
    /// Against the proof of the key block before it.
    PrevKeyBlockProof,
}

/// How the proof of a block is checked: a proof link by itself, a proof
/// against the key block before it, which is the zero state if that key
/// block has the sequence number 0.
pub fn proof_check(is_link: bool, prev_key_block_seq_no: u32) -> (r: ProofCheck)
    ensures
        r == if is_link {
            ProofCheck::Link
        } else if prev_key_block_seq_no == 0 {
            ProofCheck::MasterState
        } else {
            ProofCheck::PrevKeyBlockProof
        },
{
    if is_link {
        ProofCheck::Link
    } else if prev_key_block_seq_no == 0 {
        ProofCheck::MasterState
    } else {
        ProofCheck::PrevKeyBlockProof
    }
}

/// Whether a proof that was checked against the proof of the key block
/// before it is taken as good: if the check passed, or the block is a hard
/// fork.
pub fn proof_accepted(check_passed: bool, is_hard_fork: bool) -> (r: bool)
    ensures
        r == (check_passed || is_hard_fork),
{
    check_passed || is_hard_fork
}

} // verus!
