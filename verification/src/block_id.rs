//! Block identifiers: a shard, a sequence number, and the two hashes of the
//! block.

use crate::codec::{
    bytes32_eq, lemma_u32_bytes_roundtrip, lemma_u32_roundtrip, push_bytes, push_u32_le,
    read_bytes32, read_u32_le, u32_from_le, u32_le,
};
use crate::shard::{ShardIdent, BASE_WORKCHAIN_ID, SHARD_FULL, SHARD_IDENT_SIZE};
use crate::stored_value::{StoredValue, StoredValueError};
use vstd::prelude::*;
use vstd::std_specs::cmp::PartialEqSpecImpl;

verus! {

/// The number of bytes a block identifier is stored in: the shard, four
/// bytes of the sequence number, and two hashes of 32 bytes.
pub const BLOCK_ID_SIZE: usize = 80;

/// The full identifier of a block.
#[derive(Clone, Copy, Debug, Hash)]
pub struct BlockIdExt {
    /// The shard the block belongs to.
    pub shard_id: ShardIdent,
    /// The block's number within its shard.
    pub seq_no: u32,
    /// The hash of the block's root cell.
    pub root_hash: [u8; 32],
    /// The hash of the block's file.
    pub file_hash: [u8; 32],
}

impl PartialEq for BlockIdExt {
    fn eq(&self, other: &Self) -> (r: bool) {
        self.shard_id == other.shard_id && self.seq_no == other.seq_no && bytes32_eq(
            &self.root_hash,
            &other.root_hash,
        ) && bytes32_eq(&self.file_hash, &other.file_hash)
    }
}

impl Eq for BlockIdExt {

}

impl PartialEqSpecImpl for BlockIdExt {
    open spec fn obeys_eq_spec() -> bool {
        true
    }

    open spec fn eq_spec(&self, other: &Self) -> bool {
        self.shard_id == other.shard_id && self.seq_no == other.seq_no && self.root_hash@
            == other.root_hash@ && self.file_hash@ == other.file_hash@
    }
}

impl Default for BlockIdExt {
    /// Block zero of the full shard of the base workchain, with zero hashes.
    fn default() -> (r: Self)
        ensures
            r.shard_id.workchain() == BASE_WORKCHAIN_ID,
            r.shard_id.prefix() == SHARD_FULL,
            r.seq_no == 0,
            r.root_hash@ == Seq::new(32, |i: int| 0u8),
            r.file_hash@ == Seq::new(32, |i: int| 0u8),
    {
        let zero = [0u8; 32];
        assert(zero@ =~= Seq::new(32, |i: int| 0u8));
        BlockIdExt { shard_id: ShardIdent::default(), seq_no: 0, root_hash: zero, file_hash: zero }
    }
}

impl BlockIdExt {
    /// The identifier made of the four parts.
    pub fn with_params(
        shard_id: ShardIdent,
        seq_no: u32,
        root_hash: [u8; 32],
        file_hash: [u8; 32],
    ) -> (r: Self)
        ensures
            r == (BlockIdExt { shard_id, seq_no, root_hash, file_hash }),
    {
        BlockIdExt { shard_id, seq_no, root_hash, file_hash }
    }

    /// Whether the two identifiers are the same, part by part.
    pub fn same_as(&self, other: &BlockIdExt) -> (r: bool)
        ensures
            r == (*self == *other),
    {
        let r = *self == *other;
        proof {
            if self.root_hash@ == other.root_hash@ {
                assert(self.root_hash == other.root_hash);
            }
            if self.file_hash@ == other.file_hash@ {
                assert(self.file_hash == other.file_hash);
            }
        }
        r
    }

    /// The shard the block belongs to.
    pub fn shard(&self) -> (r: &ShardIdent)
        ensures
            *r == self.shard_id,
    {
        &self.shard_id
    }

    /// The block's number within its shard.
    pub fn seq_no(&self) -> (r: u32)
        ensures
            r == self.seq_no,
    {
        self.seq_no
    }

    /// Whether the block is a masterchain block.
    pub fn is_masterchain(&self) -> (r: bool)
        ensures
            r == self.shard_id.in_masterchain(),
    {
        self.shard_id.is_masterchain()
    }
}

impl StoredValue for BlockIdExt {
    open spec fn storable(&self) -> bool {
        self.shard_id.wf()
    }

    /// The shard, the sequence number little-endian, the root hash, the
    /// file hash.
    open spec fn encoding(&self) -> Seq<u8> {
        self.shard_id.encoding() + u32_le(self.seq_no) + self.root_hash@ + self.file_hash@
    }

    open spec fn decoding(data: Seq<u8>) -> Result<Self, StoredValueError> {
        match ShardIdent::decoding(data) {
            Err(e) => Err(e),
            Ok(shard_id) => if data.len() < BLOCK_ID_SIZE {
                Err(StoredValueError::UnexpectedEof)
            } else {
                Ok(
                    BlockIdExt {
                        shard_id,
                        seq_no: u32_from_le(data.subrange(12, 16)),
                        root_hash: bytes32(data.subrange(16, 48)),
                        file_hash: bytes32(data.subrange(48, 80)),
                    },
                )
            },
        }
    }

    proof fn lemma_decoding_of_encoding(self, rest: Seq<u8>) {
        let data = self.encoding() + rest;
        self.shard_id.lemma_encoding_len();
        lemma_u32_roundtrip(self.seq_no);
        let tail = u32_le(self.seq_no) + self.root_hash@ + self.file_hash@ + rest;
        assert(data =~= self.shard_id.encoding() + tail);
        self.shard_id.lemma_decoding_of_encoding(tail);
        assert(data.subrange(12, 16) =~= u32_le(self.seq_no));
        assert(data.subrange(16, 48) =~= self.root_hash@);
        assert(data.subrange(48, 80) =~= self.file_hash@);
        lemma_bytes32(self.root_hash@);
        lemma_bytes32(self.file_hash@);
        let back = Self::decoding(data).unwrap();
        assert(back.root_hash == self.root_hash);
        assert(back.file_hash == self.file_hash);
    }

    proof fn lemma_encoding_of_decoding(data: Seq<u8>) {
        let v = Self::decoding(data).unwrap();
        ShardIdent::lemma_encoding_of_decoding(data);
        ShardIdent::lemma_decoding(data);
        lemma_u32_bytes_roundtrip(data.subrange(12, 16));
        lemma_bytes32(data.subrange(16, 48));
        lemma_bytes32(data.subrange(48, 80));
        assert(v.encoding() =~= data.subrange(0, 80));
    }

    fn serialize(&self, buffer: &mut Vec<u8>) {
        self.shard_id.serialize(buffer);
        push_u32_le(buffer, self.seq_no);
        push_bytes(buffer, self.root_hash.as_slice());
        push_bytes(buffer, self.file_hash.as_slice());
        assert(buffer@ =~= old(buffer)@ + self.encoding());
    }

    fn deserialize(data: &[u8], pos: usize) -> (r: Result<Self, StoredValueError>) {
        let len = data.len();
        let shard_id = match ShardIdent::deserialize(data, pos) {
            Ok(shard_id) => shard_id,
            Err(e) => {
                return Err(e);
            },
        };
        proof {
            ShardIdent::lemma_decoding(data@.skip(pos as int));
        }
        if len - pos < BLOCK_ID_SIZE {
            return Err(StoredValueError::UnexpectedEof);
        }
        let seq_no = read_u32_le(data, pos + SHARD_IDENT_SIZE);
        let root_hash = read_bytes32(data, pos + 16);
        let file_hash = read_bytes32(data, pos + 48);
        proof {
            let rest = data@.skip(pos as int);
            assert(rest.subrange(12, 16) =~= data@.subrange(pos + 12, pos + 16));
            assert(rest.subrange(16, 48) =~= data@.subrange(pos + 16, pos + 48));
            assert(rest.subrange(48, 80) =~= data@.subrange(pos + 48, pos + 80));
            lemma_bytes32(rest.subrange(16, 48));
            lemma_bytes32(rest.subrange(48, 80));
            assert(root_hash == bytes32(rest.subrange(16, 48)));
            assert(file_hash == bytes32(rest.subrange(48, 80)));
        }
        Ok(BlockIdExt { shard_id, seq_no, root_hash, file_hash })
    }
}

impl BlockIdExt {
    /// The stored form is `BLOCK_ID_SIZE` bytes long.
    pub proof fn lemma_encoding_len(self)
        ensures
            self.encoding().len() == BLOCK_ID_SIZE,
    {
        self.shard_id.lemma_encoding_len();
        lemma_u32_roundtrip(self.seq_no);
    }
}

/// The array that holds the 32 bytes of `s`.
pub open spec fn bytes32(s: Seq<u8>) -> [u8; 32]
    recommends
        s.len() == 32,
{
    choose|a: [u8; 32]| a@ == s
}

/// Every string of 32 bytes is held by one array.
pub proof fn lemma_bytes32(s: Seq<u8>)
    requires
        s.len() == 32,
    ensures
        bytes32(s)@ == s,
{
    lemma_array_exists(s, 0, arbitrary());
}

/// Some array agrees with `s` from index `i` on, given one that agrees with
/// it before.
proof fn lemma_array_exists(s: Seq<u8>, i: int, a: [u8; 32])
    requires
        s.len() == 32,
        0 <= i <= 32,
        forall|j: int| 0 <= j < i ==> a@[j] == s[j],
    ensures
        exists|b: [u8; 32]| b@ == s,
    decreases 32 - i,
{
    if i == 32 {
        assert(a@ =~= s);
    } else {
        let b = vstd::array::spec_array_update(a, i, s[i]);
        assert(b@ == a@.update(i, s[i]));
        lemma_array_exists(s, i + 1, b);
    }
}

} // verus!
