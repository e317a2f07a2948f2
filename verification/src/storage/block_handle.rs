//! The handle of a block: its id and what the node knows of it.

use crate::block_id::BlockIdExt;
use crate::storage::block_meta::{BlockMeta, BlockMetaData};
use crate::stored_value::StoredValue;
use vstd::prelude::*;

verus! {

/// Why a block handle could not be changed.
#[derive(Clone, Copy, Debug, PartialEq, Eq, Structural)]
pub enum BlockHandleError {
    /// Another masterchain reference has been set already.
    RefSeqnoAlreadySet,
}

/// A block's id together with what the node knows of the block.
#[derive(Clone, Copy, Debug)]
pub struct BlockHandle {
    id: BlockIdExt,
    meta: BlockMeta,
}

impl BlockHandle {
    /// The id of the block, in contracts.
    pub closed spec fn block_id(&self) -> BlockIdExt {
        self.id
    }

    /// What is known of the block, in contracts.
    pub closed spec fn block_meta(&self) -> BlockMeta {
        self.meta
    }

    /// The masterchain block that refers to the block: the block itself if
    /// it is a masterchain block, else the reference of its meta.
    pub open spec fn ref_seqno(&self) -> u32 {
        if self.block_id().shard_id.in_masterchain() {
            self.block_id().seq_no
        } else {
            self.block_meta()@.masterchain_ref_seqno
        }
    }

    /// The handle of a block of which nothing is known.
    pub fn new(id: BlockIdExt) -> (r: Self)
        ensures
            r.block_id() == id,
            r.block_meta()@.masterchain_ref_seqno == 0,
            !r.block_meta()@.has_data,
            !r.block_meta()@.has_proof,
            !r.block_meta()@.has_proof_link,
            !r.block_meta()@.has_state,
            !r.block_meta()@.is_applied,
            !r.block_meta()@.is_key_block,
            r.block_meta()@.gen_utime == 0,
            r.block_meta()@.gen_lt == 0,
    {
        BlockHandle::with_values(id, BlockMeta::default())
    }

    /// The handle of a block with the given meta.
    pub fn with_values(id: BlockIdExt, meta: BlockMeta) -> (r: Self)
        ensures
            r.block_id() == id,
            r.block_meta() == meta,
    {
        BlockHandle { id, meta }
    }

    /// Appends the stored form of the handle to `buffer`: that of its meta,
    /// as the id is the key it is stored under.
    pub fn serialize(&self, buffer: &mut Vec<u8>)
        ensures
            final(buffer)@ == old(buffer)@ + self.block_meta().encoding(),
    {
        self.meta.serialize(buffer)
    }

    /// The id of the block.
    pub fn id(&self) -> (r: &BlockIdExt)
        ensures
            *r == self.block_id(),
    {
        &self.id
    }

    /// What is known of the block.
    pub fn meta(&self) -> (r: &BlockMeta)
        ensures
            *r == self.block_meta(),
    {
        &self.meta
    }

    /// What is known of the block, to change it.
    pub fn meta_mut(&mut self) -> (r: &mut BlockMeta)
        ensures
            *r == old(self).block_meta(),
            final(self).block_meta() == *final(r),
            final(self).block_id() == old(self).block_id(),
    {
        &mut self.meta
    }

    /// Whether the block is a key block.
    pub fn is_key_block(&self) -> (r: bool)
        ensures
            r == self.block_meta()@.is_key_block,
    {
        self.meta.is_key_block()
    }

    /// Whether the proof of the block is stored: for a masterchain block its
    /// proof, for another block its proof link. `is_link` is set to which of
    /// the two was asked for.
    pub fn has_proof_or_link(&self, is_link: &mut bool) -> (r: bool)
        ensures
            *final(is_link) == !self.block_id().shard_id.in_masterchain(),
            r == if self.block_id().shard_id.in_masterchain() {
                self.block_meta()@.has_proof
            } else {
                self.block_meta()@.has_proof_link
            },
    {
        *is_link = !self.id.shard().is_masterchain();
        if *is_link {
            self.meta.has_proof_link()
        } else {
            self.meta.has_proof()
        }
    }

    /// The sequence number of the masterchain block that refers to the
    /// block: its own if it is a masterchain block.
    pub fn masterchain_ref_seqno(&self) -> (r: u32)
        ensures
            r == self.ref_seqno(),
    {
        if self.id.shard().is_masterchain() {
            self.id.seq_no()
        } else {
            self.meta.masterchain_ref_seqno()
        }
    }

    /// Sets the masterchain reference of the block. Returns `true` if none
    /// was set, `false` if the same was set already.
    ///
    /// Fails with `RefSeqnoAlreadySet`, and changes nothing, exactly when
    /// another reference was set already.
    pub fn set_masterchain_ref_seqno(&mut self, masterchain_ref_seqno: u32) -> (r: Result<
        bool,
        BlockHandleError,
    >)
        ensures
            final(self).block_id() == old(self).block_id(),
            ({
                let previous = old(self).block_meta()@.masterchain_ref_seqno;
                if previous == 0 {
                    &&& r == Ok::<bool, BlockHandleError>(true)
                    &&& final(self).block_meta()@ == (BlockMetaData {
                        masterchain_ref_seqno,
                        ..old(self).block_meta()@
                    })
                } else if previous == masterchain_ref_seqno {
                    &&& r == Ok::<bool, BlockHandleError>(false)
                    &&& final(self).block_meta() == old(self).block_meta()
                } else {
                    &&& r == Err::<bool, BlockHandleError>(BlockHandleError::RefSeqnoAlreadySet)
                    &&& final(self).block_meta() == old(self).block_meta()
                }
            }),
    {
        let previous = self.meta.set_masterchain_ref_seqno(masterchain_ref_seqno);
        proof {
            if previous != 0 {
                BlockMeta::lemma_same_view(self.meta, old(self).meta);
            }
        }
        if previous == 0 {
            Ok(true)
        } else if previous == masterchain_ref_seqno {
            Ok(false)
        } else {
            Err(BlockHandleError::RefSeqnoAlreadySet)
        }
    }
}

} // verus!
