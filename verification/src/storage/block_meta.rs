//! What the node knows of a block besides its id.

use crate::codec::{
    lemma_u32_bytes_roundtrip, lemma_u32_roundtrip, lemma_u64_bytes_roundtrip,
    lemma_u64_roundtrip, push_u32_le, push_u64_le, read_u32_le, read_u64_le, u32_from_le, u32_le,
    u64_from_le, u64_le,
};
use crate::stored_value::{StoredValue, StoredValueError};
use vstd::prelude::*;

verus! {

/// The number of bytes a block's meta is stored in.
pub const BLOCK_META_SIZE: usize = 20;

/// The byte that holds six flags, the first in its lowest bit.
pub open spec fn flags_byte(a: bool, b: bool, c: bool, d: bool, e: bool, f: bool) -> u8 {
    ((if a {
        1int
    } else {
        0int
    }) + (if b {
        2int
    } else {
        0int
    }) + (if c {
        4int
    } else {
        0int
    }) + (if d {
        8int
    } else {
        0int
    }) + (if e {
        16int
    } else {
        0int
    }) + (if f {
        32int
    } else {
        0int
    })) as u8
}

/// Whether bit `n` of a byte is set, for `n` below 8.
pub open spec fn flag(byte: u8, n: nat) -> bool {
    if n == 0 {
        byte % 2 == 1
    } else if n == 1 {
        byte / 2 % 2 == 1
    } else if n == 2 {
        byte / 4 % 2 == 1
    } else if n == 3 {
        byte / 8 % 2 == 1
    } else if n == 4 {
        byte / 16 % 2 == 1
    } else {
        byte / 32 % 2 == 1
    }
}

/// What the node knows of a block: what it has stored of it, whether it is
/// applied, when it was made, and the masterchain block that refers to it.
///
/// Flags are only ever set, and the masterchain reference, once set, stays.
#[derive(Clone, Copy, Debug, PartialEq, Eq, Structural)]
pub struct BlockMeta {
    has_data: bool,
    has_proof: bool,
    has_proof_link: bool,
    has_state: bool,
    is_applied: bool,
    is_key_block: bool,
    gen_utime: u32,
    gen_lt: u64,
    masterchain_ref_seqno: u32,
}

/// The fields of a block's meta, in the open.
#[derive(Clone, Copy, Debug, PartialEq, Eq, Structural)]
pub struct BlockMetaData {
    /// Whether the block's data is stored.
    pub has_data: bool,
    /// Whether the block's proof is stored.
    pub has_proof: bool,
    /// Whether the block's proof link is stored.
    pub has_proof_link: bool,
    /// Whether the state after the block is stored.
    pub has_state: bool,
    /// Whether the block is applied.
    pub is_applied: bool,
    /// Whether the block is a key block.
    pub is_key_block: bool,
    /// The time the block was made at, in seconds.
    pub gen_utime: u32,
    /// The logical time the block was made at.
    pub gen_lt: u64,
    /// The sequence number of the masterchain block that refers to the
    /// block; zero while none is known.
    pub masterchain_ref_seqno: u32,
}

impl View for BlockMeta {
    type V = BlockMetaData;

    closed spec fn view(&self) -> BlockMetaData {
        BlockMetaData {
            has_data: self.has_data,
            has_proof: self.has_proof,
            has_proof_link: self.has_proof_link,
            has_state: self.has_state,
            is_applied: self.is_applied,
            is_key_block: self.is_key_block,
            gen_utime: self.gen_utime,
            gen_lt: self.gen_lt,
            masterchain_ref_seqno: self.masterchain_ref_seqno,
        }
    }
}

impl StoredValue for BlockMeta {
    open spec fn storable(&self) -> bool {
        true
    }

    /// The masterchain reference little-endian, the byte of the flags, three
    /// bytes of zero, then the two times little-endian.
    open spec fn encoding(&self) -> Seq<u8> {
        u32_le(self@.masterchain_ref_seqno) + seq![
            flags_byte(
                self@.has_data,
                self@.has_proof,
                self@.has_proof_link,
                self@.has_state,
                self@.is_applied,
                self@.is_key_block,
            ),
            0u8,
            0u8,
            0u8,
        ] + u32_le(self@.gen_utime) + u64_le(self@.gen_lt)
    }

    closed spec fn decoding(data: Seq<u8>) -> Result<Self, StoredValueError> {
        if data.len() < BLOCK_META_SIZE {
            Err(StoredValueError::UnexpectedEof)
        } else if data[4] >= 64 || data[5] != 0 || data[6] != 0 || data[7] != 0 {
            Err(StoredValueError::InvalidFlags)
        } else {
            Ok(
                BlockMeta {
                    has_data: flag(data[4], 0),
                    has_proof: flag(data[4], 1),
                    has_proof_link: flag(data[4], 2),
                    has_state: flag(data[4], 3),
                    is_applied: flag(data[4], 4),
                    is_key_block: flag(data[4], 5),
                    gen_utime: u32_from_le(data.subrange(8, 12)),
                    gen_lt: u64_from_le(data.subrange(12, 20)),
                    masterchain_ref_seqno: u32_from_le(data.subrange(0, 4)),
                },
            )
        }
    }

    proof fn lemma_decoding_of_encoding(self, rest: Seq<u8>) {
        let data = self.encoding() + rest;
        lemma_u32_roundtrip(self@.masterchain_ref_seqno);
        lemma_u32_roundtrip(self@.gen_utime);
        lemma_u64_roundtrip(self@.gen_lt);
        assert(data.subrange(0, 4) =~= u32_le(self@.masterchain_ref_seqno));
        assert(data.subrange(8, 12) =~= u32_le(self@.gen_utime));
        assert(data.subrange(12, 20) =~= u64_le(self@.gen_lt));
    }

    proof fn lemma_encoding_of_decoding(data: Seq<u8>) {
        let v = Self::decoding(data).unwrap();
        lemma_u32_bytes_roundtrip(data.subrange(0, 4));
        lemma_u32_bytes_roundtrip(data.subrange(8, 12));
        lemma_u64_bytes_roundtrip(data.subrange(12, 20));
        assert(v.encoding() =~= data.subrange(0, 20));
    }

    fn serialize(&self, buffer: &mut Vec<u8>) {
        push_u32_le(buffer, self.masterchain_ref_seqno);
        let mut flags: u8 = 0;
        if self.has_data {
            flags = flags + 1;
        }
        if self.has_proof {
            flags = flags + 2;
        }
        if self.has_proof_link {
            flags = flags + 4;
        }
        if self.has_state {
            flags = flags + 8;
        }
        if self.is_applied {
            flags = flags + 16;
        }
        if self.is_key_block {
            flags = flags + 32;
        }
        buffer.push(flags);
        buffer.push(0);
        buffer.push(0);
        buffer.push(0);
        push_u32_le(buffer, self.gen_utime);
        push_u64_le(buffer, self.gen_lt);
        assert(buffer@ =~= old(buffer)@ + self.encoding());
    }

    fn deserialize(data: &[u8], pos: usize) -> (r: Result<Self, StoredValueError>) {
        let len = data.len();
        if pos > len || len - pos < BLOCK_META_SIZE {
            return Err(StoredValueError::UnexpectedEof);
        }
        let ghost rest = data@.skip(pos as int);
        let flags = data[pos + 4];
        if flags >= 64 || data[pos + 5] != 0 || data[pos + 6] != 0 || data[pos + 7] != 0 {
            return Err(StoredValueError::InvalidFlags);
        }
        let masterchain_ref_seqno = read_u32_le(data, pos);
        let gen_utime = read_u32_le(data, pos + 8);
        let gen_lt = read_u64_le(data, pos + 12);
        proof {
            assert(rest.subrange(0, 4) =~= data@.subrange(pos as int, pos + 4));
            assert(rest.subrange(8, 12) =~= data@.subrange(pos + 8, pos + 12));
            assert(rest.subrange(12, 20) =~= data@.subrange(pos + 12, pos + 20));
        }
        Ok(
            BlockMeta {
                has_data: flags % 2 == 1,
                has_proof: flags / 2 % 2 == 1,
                has_proof_link: flags / 4 % 2 == 1,
                has_state: flags / 8 % 2 == 1,
                is_applied: flags / 16 % 2 == 1,
                is_key_block: flags / 32 % 2 == 1,
                gen_utime,
                gen_lt,
                masterchain_ref_seqno,
            },
        )
    }
}

impl Default for BlockMeta {
    /// The meta of a block of which nothing is known.
    fn default() -> (r: Self)
        ensures
            r@ == (BlockMetaData {
                has_data: false,
                has_proof: false,
                has_proof_link: false,
                has_state: false,
                is_applied: false,
                is_key_block: false,
                gen_utime: 0,
                gen_lt: 0,
                masterchain_ref_seqno: 0,
            }),
    {
        BlockMeta {
            has_data: false,
            has_proof: false,
            has_proof_link: false,
            has_state: false,
            is_applied: false,
            is_key_block: false,
            gen_utime: 0,
            gen_lt: 0,
            masterchain_ref_seqno: 0,
        }
    }
}

impl BlockMeta {
    /// The meta with the given fields.
    pub fn with_data(data: BlockMetaData) -> (r: Self)
        ensures
            r@ == data,
    {
        BlockMeta {
            has_data: data.has_data,
            has_proof: data.has_proof,
            has_proof_link: data.has_proof_link,
            has_state: data.has_state,
            is_applied: data.is_applied,
            is_key_block: data.is_key_block,
            gen_utime: data.gen_utime,
            gen_lt: data.gen_lt,
            masterchain_ref_seqno: data.masterchain_ref_seqno,
        }
    }

    /// The meta of a block made at the given times, of which nothing else is
    /// known.
    pub fn with_times(gen_utime: u32, gen_lt: u64, is_key_block: bool) -> (r: Self)
        ensures
            r@ == (BlockMetaData {
                has_data: false,
                has_proof: false,
                has_proof_link: false,
                has_state: false,
                is_applied: false,
                is_key_block,
                gen_utime,
                gen_lt,
                masterchain_ref_seqno: 0,
            }),
    {
        BlockMeta {
            has_data: false,
            has_proof: false,
            has_proof_link: false,
            has_state: false,
            is_applied: false,
            is_key_block,
            gen_utime,
            gen_lt,
            masterchain_ref_seqno: 0,
        }
    }

    /// Two metas with the same fields are the same meta.
    pub proof fn lemma_same_view(a: BlockMeta, b: BlockMeta)
        requires
            a@ == b@,
        ensures
            a == b,
    {
    }

    /// Whether the block's data is stored.
    pub fn has_data(&self) -> (r: bool)
        ensures
            r == self@.has_data,
    {
        self.has_data
    }

    /// Whether the block's proof is stored.
    pub fn has_proof(&self) -> (r: bool)
        ensures
            r == self@.has_proof,
    {
        self.has_proof
    }

    /// Whether the block's proof link is stored.
    pub fn has_proof_link(&self) -> (r: bool)
        ensures
            r == self@.has_proof_link,
    {
        self.has_proof_link
    }

    /// Whether the state after the block is stored.
    pub fn has_state(&self) -> (r: bool)
        ensures
            r == self@.has_state,
    {
        self.has_state
    }

    /// Whether the block is applied.
    pub fn is_applied(&self) -> (r: bool)
        ensures
            r == self@.is_applied,
    {
        self.is_applied
    }

    /// Whether the block is a key block.
    pub fn is_key_block(&self) -> (r: bool)
        ensures
            r == self@.is_key_block,
    {
        self.is_key_block
    }

    /// The time the block was made at, in seconds.
    pub fn gen_utime(&self) -> (r: u32)
        ensures
            r == self@.gen_utime,
    {
        self.gen_utime
    }

    /// The logical time the block was made at.
    pub fn gen_lt(&self) -> (r: u64)
        ensures
            r == self@.gen_lt,
    {
        self.gen_lt
    }

    /// The sequence number of the masterchain block that refers to the
    /// block; zero while none is known.
    pub fn masterchain_ref_seqno(&self) -> (r: u32)
        ensures
            r == self@.masterchain_ref_seqno,
    {
        self.masterchain_ref_seqno
    }

    /// Notes that the block's data is stored. Returns whether that is new.
    pub fn set_has_data(&mut self) -> (r: bool)
        ensures
            r == !old(self)@.has_data,
            final(self)@ == (BlockMetaData { has_data: true, ..old(self)@ }),
    {
        let r = !self.has_data;
        self.has_data = true;
        r
    }

    /// Notes that the block's proof is stored. Returns whether that is new.
    pub fn set_has_proof(&mut self) -> (r: bool)
        ensures
            r == !old(self)@.has_proof,
            final(self)@ == (BlockMetaData { has_proof: true, ..old(self)@ }),
    {
        let r = !self.has_proof;
        self.has_proof = true;
        r
    }

    /// Notes that the block's proof link is stored. Returns whether that is
    /// new.
    pub fn set_has_proof_link(&mut self) -> (r: bool)
        ensures
            r == !old(self)@.has_proof_link,
            final(self)@ == (BlockMetaData { has_proof_link: true, ..old(self)@ }),
    {
        let r = !self.has_proof_link;
        self.has_proof_link = true;
        r
    }

    /// Notes that the state after the block is stored. Returns whether that
    /// is new.
    pub fn set_has_state(&mut self) -> (r: bool)
        ensures
            r == !old(self)@.has_state,
            final(self)@ == (BlockMetaData { has_state: true, ..old(self)@ }),
    {
        let r = !self.has_state;
        self.has_state = true;
        r
    }

    /// Notes that the block is applied. Returns whether that is new.
    pub fn set_is_applied(&mut self) -> (r: bool)
        ensures
            r == !old(self)@.is_applied,
            final(self)@ == (BlockMetaData { is_applied: true, ..old(self)@ }),
    {
        let r = !self.is_applied;
        self.is_applied = true;
        r
    }

    /// Notes that the block is a key block. Returns whether that is new.
    pub fn set_is_key_block(&mut self) -> (r: bool)
        ensures
            r == !old(self)@.is_key_block,
            final(self)@ == (BlockMetaData { is_key_block: true, ..old(self)@ }),
    {
        let r = !self.is_key_block;
        self.is_key_block = true;
        r
    }

    /// Sets the masterchain reference if none is set, and returns the one
    /// that was set before: a reference that is set is never changed.
    pub fn set_masterchain_ref_seqno(&mut self, masterchain_ref_seqno: u32) -> (previous: u32)
        ensures
            previous == old(self)@.masterchain_ref_seqno,
            final(self)@ == (BlockMetaData {
                masterchain_ref_seqno: if previous == 0 {
                    masterchain_ref_seqno
                } else {
                    previous
                },
                ..old(self)@
            }),
    {
        let previous = self.masterchain_ref_seqno;
        if previous == 0 {
            self.masterchain_ref_seqno = masterchain_ref_seqno;
        }
        previous
    }
}

} // verus!
