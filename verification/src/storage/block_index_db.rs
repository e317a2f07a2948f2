//! The block index: for every shard a dense run of entries, numbered from 1
//! in the order of their blocks, and a summary of the run.

use crate::block_id::{BlockIdExt, BLOCK_ID_SIZE};
use crate::codec::{
    lemma_u32_bytes_roundtrip, lemma_u32_roundtrip, lemma_u64_bytes_roundtrip,
    lemma_u64_roundtrip, push_u32_le, push_u64_le, read_u32_le, read_u64_le, u32_from_le, u32_le,
    u64_from_le, u64_le,
};
use crate::shard::{
    lemma_shard_at_depth, shard_at_depth, ShardIdent, MASTERCHAIN_ID, MAX_SPLIT_DEPTH,
    SHARD_IDENT_SIZE,
};
use crate::storage::block_handle::BlockHandle;
use crate::stored_value::{StoredValue, StoredValueError};
use vstd::prelude::*;

verus! {

/// Why the block index could not answer.
#[derive(Clone, Copy, Debug, PartialEq, Eq, Structural)]
pub enum BlockIndexDbError {
    /// A block was added that does not follow the last block of its shard.
    AscendingOrderRequired,
    /// An entry that the summary of its shard counts is not there.
    LtDbEntryNotFound,
    /// No block answers the lookup.
    BlockNotFound,
    /// The shard holds as many entries as can be numbered.
    IndexExhausted,
}

/// The summary of the entries of one shard.
#[derive(Clone, Copy, Debug, PartialEq, Eq, Structural)]
pub struct LtDesc {
    /// The number of the first entry.
    pub first_index: u32,
    /// The number of the last entry.
    pub last_index: u32,
    /// The sequence number of the block of the last entry.
    pub last_seq_no: u32,
    /// The logical time of the block of the last entry.
    pub last_lt: u64,
    /// The time of the block of the last entry, in seconds.
    pub last_utime: u32,
}

/// The number of bytes a summary is stored in.
pub const LT_DESC_SIZE: usize = 24;

impl StoredValue for LtDesc {
    open spec fn storable(&self) -> bool {
        true
    }

    /// The five fields in their order, little-endian.
    open spec fn encoding(&self) -> Seq<u8> {
        u32_le(self.first_index) + u32_le(self.last_index) + u32_le(self.last_seq_no) + u64_le(
            self.last_lt,
        ) + u32_le(self.last_utime)
    }

    open spec fn decoding(data: Seq<u8>) -> Result<Self, StoredValueError> {
        if data.len() < LT_DESC_SIZE {
            Err(StoredValueError::UnexpectedEof)
        } else {
            Ok(
                LtDesc {
                    first_index: u32_from_le(data.subrange(0, 4)),
                    last_index: u32_from_le(data.subrange(4, 8)),
                    last_seq_no: u32_from_le(data.subrange(8, 12)),
                    last_lt: u64_from_le(data.subrange(12, 20)),
                    last_utime: u32_from_le(data.subrange(20, 24)),
                },
            )
        }
    }

    proof fn lemma_decoding_of_encoding(self, rest: Seq<u8>) {
        let data = self.encoding() + rest;
        lemma_u32_roundtrip(self.first_index);
        lemma_u32_roundtrip(self.last_index);
        lemma_u32_roundtrip(self.last_seq_no);
        lemma_u64_roundtrip(self.last_lt);
        lemma_u32_roundtrip(self.last_utime);
        assert(data.subrange(0, 4) =~= u32_le(self.first_index));
        assert(data.subrange(4, 8) =~= u32_le(self.last_index));
        assert(data.subrange(8, 12) =~= u32_le(self.last_seq_no));
        assert(data.subrange(12, 20) =~= u64_le(self.last_lt));
        assert(data.subrange(20, 24) =~= u32_le(self.last_utime));
    }

    proof fn lemma_encoding_of_decoding(data: Seq<u8>) {
        let v = Self::decoding(data).unwrap();
        lemma_u32_bytes_roundtrip(data.subrange(0, 4));
        lemma_u32_bytes_roundtrip(data.subrange(4, 8));
        lemma_u32_bytes_roundtrip(data.subrange(8, 12));
        lemma_u64_bytes_roundtrip(data.subrange(12, 20));
        lemma_u32_bytes_roundtrip(data.subrange(20, 24));
        assert(v.encoding() =~= data.subrange(0, 24));
    }

    fn serialize(&self, buffer: &mut Vec<u8>) {
        push_u32_le(buffer, self.first_index);
        push_u32_le(buffer, self.last_index);
        push_u32_le(buffer, self.last_seq_no);
        push_u64_le(buffer, self.last_lt);
        push_u32_le(buffer, self.last_utime);
        assert(buffer@ =~= old(buffer)@ + self.encoding());
    }

    fn deserialize(data: &[u8], pos: usize) -> (r: Result<Self, StoredValueError>) {
        let len = data.len();
        if pos > len || len - pos < LT_DESC_SIZE {
            return Err(StoredValueError::UnexpectedEof);
        }
        let ghost rest = data@.skip(pos as int);
        let first_index = read_u32_le(data, pos);
        let last_index = read_u32_le(data, pos + 4);
        let last_seq_no = read_u32_le(data, pos + 8);
        let last_lt = read_u64_le(data, pos + 12);
        let last_utime = read_u32_le(data, pos + 20);
        proof {
            assert(rest.subrange(0, 4) =~= data@.subrange(pos as int, pos + 4));
            assert(rest.subrange(4, 8) =~= data@.subrange(pos + 4, pos + 8));
            assert(rest.subrange(8, 12) =~= data@.subrange(pos + 8, pos + 12));
            assert(rest.subrange(12, 20) =~= data@.subrange(pos + 12, pos + 20));
            assert(rest.subrange(20, 24) =~= data@.subrange(pos + 20, pos + 24));
        }
        Ok(LtDesc { first_index, last_index, last_seq_no, last_lt, last_utime })
    }
}

/// An entry of the block index: a block and the times it was made at.
#[derive(Clone, Copy, Debug)]
pub struct LtDbEntry {
    /// The id of the block.
    pub block_id_ext: BlockIdExt,
    /// The logical time the block was made at.
    pub gen_lt: u64,
    /// The time the block was made at, in seconds.
    pub gen_utime: u32,
}

/// The number of bytes an entry is stored in.
pub const LT_DB_ENTRY_SIZE: usize = 92;

impl StoredValue for LtDbEntry {
    open spec fn storable(&self) -> bool {
        self.block_id_ext.storable()
    }

    /// The block id, then the two times little-endian.
    open spec fn encoding(&self) -> Seq<u8> {
        self.block_id_ext.encoding() + u64_le(self.gen_lt) + u32_le(self.gen_utime)
    }

    open spec fn decoding(data: Seq<u8>) -> Result<Self, StoredValueError> {
        match BlockIdExt::decoding(data) {
            Err(e) => Err(e),
            Ok(block_id_ext) => if data.len() < LT_DB_ENTRY_SIZE {
                Err(StoredValueError::UnexpectedEof)
            } else {
                Ok(
                    LtDbEntry {
                        block_id_ext,
                        gen_lt: u64_from_le(data.subrange(80, 88)),
                        gen_utime: u32_from_le(data.subrange(88, 92)),
                    },
                )
            },
        }
    }

    proof fn lemma_decoding_of_encoding(self, rest: Seq<u8>) {
        let data = self.encoding() + rest;
        self.block_id_ext.lemma_encoding_len();
        lemma_u64_roundtrip(self.gen_lt);
        lemma_u32_roundtrip(self.gen_utime);
        let tail = u64_le(self.gen_lt) + u32_le(self.gen_utime) + rest;
        assert(data =~= self.block_id_ext.encoding() + tail);
        self.block_id_ext.lemma_decoding_of_encoding(tail);
        assert(data.subrange(80, 88) =~= u64_le(self.gen_lt));
        assert(data.subrange(88, 92) =~= u32_le(self.gen_utime));
    }

    proof fn lemma_encoding_of_decoding(data: Seq<u8>) {
        let v = Self::decoding(data).unwrap();
        BlockIdExt::lemma_encoding_of_decoding(data);
        v.block_id_ext.lemma_encoding_len();
        lemma_u64_bytes_roundtrip(data.subrange(80, 88));
        lemma_u32_bytes_roundtrip(data.subrange(88, 92));
        assert(v.encoding() =~= data.subrange(0, 92));
    }

    fn serialize(&self, buffer: &mut Vec<u8>) {
        self.block_id_ext.serialize(buffer);
        push_u64_le(buffer, self.gen_lt);
        push_u32_le(buffer, self.gen_utime);
        assert(buffer@ =~= old(buffer)@ + self.encoding());
    }

    fn deserialize(data: &[u8], pos: usize) -> (r: Result<Self, StoredValueError>) {
        let len = data.len();
        let block_id_ext = match BlockIdExt::deserialize(data, pos) {
            Ok(block_id_ext) => block_id_ext,
            Err(e) => {
                return Err(e);
            },
        };
        proof {
            BlockIdExt::lemma_encoding_of_decoding(data@.skip(pos as int));
            block_id_ext.lemma_encoding_len();
        }
        if len - pos < LT_DB_ENTRY_SIZE {
            return Err(StoredValueError::UnexpectedEof);
        }
        let gen_lt = read_u64_le(data, pos + BLOCK_ID_SIZE);
        let gen_utime = read_u32_le(data, pos + 88);
        proof {
            let rest = data@.skip(pos as int);
            assert(rest.subrange(80, 88) =~= data@.subrange(pos + 80, pos + 88));
            assert(rest.subrange(88, 92) =~= data@.subrange(pos + 88, pos + 92));
        }
        Ok(LtDbEntry { block_id_ext, gen_lt, gen_utime })
    }
}

/// The key of an entry of the block index: its shard and its number.
#[derive(Clone, Copy, Debug, PartialEq, Eq, Structural)]
pub struct LtDbKeyOwned {
    /// The shard of the entry.
    pub shard_ident: ShardIdent,
    /// The number of the entry within its shard.
    pub index: u32,
}

/// The number of bytes a key is stored in.
pub const LT_DB_KEY_SIZE: usize = 16;

impl StoredValue for LtDbKeyOwned {
    open spec fn storable(&self) -> bool {
        self.shard_ident.wf()
    }

    /// The shard, then the number little-endian.
    open spec fn encoding(&self) -> Seq<u8> {
        self.shard_ident.encoding() + u32_le(self.index)
    }

    open spec fn decoding(data: Seq<u8>) -> Result<Self, StoredValueError> {
        match ShardIdent::decoding(data) {
            Err(e) => Err(e),
            Ok(shard_ident) => if data.len() < LT_DB_KEY_SIZE {
                Err(StoredValueError::UnexpectedEof)
            } else {
                Ok(LtDbKeyOwned { shard_ident, index: u32_from_le(data.subrange(12, 16)) })
            },
        }
    }

    proof fn lemma_decoding_of_encoding(self, rest: Seq<u8>) {
        let data = self.encoding() + rest;
        self.shard_ident.lemma_encoding_len();
        lemma_u32_roundtrip(self.index);
        let tail = u32_le(self.index) + rest;
        assert(data =~= self.shard_ident.encoding() + tail);
        self.shard_ident.lemma_decoding_of_encoding(tail);
        assert(data.subrange(12, 16) =~= u32_le(self.index));
    }

    proof fn lemma_encoding_of_decoding(data: Seq<u8>) {
        let v = Self::decoding(data).unwrap();
        ShardIdent::lemma_encoding_of_decoding(data);
        ShardIdent::lemma_decoding(data);
        lemma_u32_bytes_roundtrip(data.subrange(12, 16));
        assert(v.encoding() =~= data.subrange(0, 16));
    }

    fn serialize(&self, buffer: &mut Vec<u8>) {
        self.shard_ident.serialize(buffer);
        push_u32_le(buffer, self.index);
        assert(buffer@ =~= old(buffer)@ + self.encoding());
    }

    fn deserialize(data: &[u8], pos: usize) -> (r: Result<Self, StoredValueError>) {
        let len = data.len();
        let shard_ident = match ShardIdent::deserialize(data, pos) {
            Ok(shard_ident) => shard_ident,
            Err(e) => {
                return Err(e);
            },
        };
        proof {
            ShardIdent::lemma_decoding(data@.skip(pos as int));
        }
        if len - pos < LT_DB_KEY_SIZE {
            return Err(StoredValueError::UnexpectedEof);
        }
        let index = read_u32_le(data, pos + SHARD_IDENT_SIZE);
        proof {
            let rest = data@.skip(pos as int);
            assert(rest.subrange(12, 16) =~= data@.subrange(pos + 12, pos + 16));
        }
        Ok(LtDbKeyOwned { shard_ident, index })
    }
}

/// The key of an entry of the block index, with a borrowed shard.
#[derive(Clone, Copy, Debug)]
pub struct LtDbKey<'a> {
    /// The shard of the entry.
    pub shard_ident: &'a ShardIdent,
    /// The number of the entry within its shard.
    pub index: u32,
}

impl<'a> LtDbKey<'a> {
    /// The key with a shard of its own.
    pub open spec fn owned(&self) -> LtDbKeyOwned {
        LtDbKeyOwned { shard_ident: *self.shard_ident, index: self.index }
    }

    /// Appends the stored form of the key to `buffer`.
    pub fn serialize(&self, buffer: &mut Vec<u8>)
        ensures
            final(buffer)@ == old(buffer)@ + self.owned().encoding(),
    {
        self.shard_ident.serialize(buffer);
        push_u32_le(buffer, self.index);
        assert(buffer@ =~= old(buffer)@ + self.owned().encoding());
    }

    /// The stored form of the key.
    pub fn to_vec(&self) -> (out: Vec<u8>)
        ensures
            out@ == self.owned().encoding(),
    {
        let mut out: Vec<u8> = Vec::with_capacity(LT_DB_KEY_SIZE);
        self.serialize(&mut out);
        assert(out@ =~= self.owned().encoding());
        out
    }
}

/// The prefix of an account with its workchain.
#[derive(Clone, Copy, Debug, PartialEq, Eq, Structural)]
pub struct AccountIdPrefixFull {
    /// The workchain of the account.
    pub workchain_id: i32,
    /// The first 64 bits of the account's address.
    pub prefix: u64,
}

/// What a lookup looks for.
#[derive(Clone, Copy, Debug, PartialEq, Eq, Structural)]
pub enum LookupTarget {
    /// The block with this sequence number.
    SeqNo(u32),
    /// The first block made at this time or later.
    Utime(u32),
    /// The first block made at this logical time or later.
    Lt(u64),
}

/// Where a target lies relative to a block.
#[derive(Clone, Copy, Debug, PartialEq, Eq, Structural)]
pub enum Position {
    /// The target lies before the block.
    Less,
    /// The target is the block's.
    Equal,
    /// The target lies after the block.
    Greater,
}

/// Where `a` lies relative to `b`.
pub open spec fn position_of(a: int, b: int) -> Position {
    if a < b {
        Position::Less
    } else if a == b {
        Position::Equal
    } else {
        Position::Greater
    }
}

impl LookupTarget {
    /// Where the target lies relative to the last block of a shard.
    pub open spec fn against_desc(self, desc: LtDesc) -> Position {
        match self {
            LookupTarget::SeqNo(seq_no) => position_of(seq_no as int, desc.last_seq_no as int),
            LookupTarget::Utime(utime) => position_of(utime as int, desc.last_utime as int),
            LookupTarget::Lt(lt) => position_of(lt as int, desc.last_lt as int),
        }
    }

    /// Where the target lies relative to the block of an entry.
    pub open spec fn against_entry(self, entry: LtDbEntry) -> Position {
        match self {
            LookupTarget::SeqNo(seq_no) => position_of(
                seq_no as int,
                entry.block_id_ext.seq_no as int,
            ),
            LookupTarget::Utime(utime) => position_of(utime as int, entry.gen_utime as int),
            LookupTarget::Lt(lt) => position_of(lt as int, entry.gen_lt as int),
        }
    }

    /// Where the target lies relative to the last block of a shard.
    pub fn compare_lt_desc(&self, desc: &LtDesc) -> (r: Position)
        ensures
            r == self.against_desc(*desc),
    {
        match self {
            LookupTarget::SeqNo(seq_no) => position_u64(*seq_no as u64, desc.last_seq_no as u64),
            LookupTarget::Utime(utime) => position_u64(*utime as u64, desc.last_utime as u64),
            LookupTarget::Lt(lt) => position_u64(*lt, desc.last_lt),
        }
    }

    /// Where the target lies relative to the block of an entry.
    pub fn compare_lt_entry(&self, entry: &LtDbEntry) -> (r: Position)
        ensures
            r == self.against_entry(*entry),
    {
        match self {
            LookupTarget::SeqNo(seq_no) => position_u64(
                *seq_no as u64,
                entry.block_id_ext.seq_no as u64,
            ),
            LookupTarget::Utime(utime) => position_u64(*utime as u64, entry.gen_utime as u64),
            LookupTarget::Lt(lt) => position_u64(*lt, entry.gen_lt),
        }
    }
}

/// Where `a` lies relative to `b`.
fn position_u64(a: u64, b: u64) -> (r: Position)
    ensures
        r == position_of(a as int, b as int),
{
    if a < b {
        Position::Less
    } else if a == b {
        Position::Equal
    } else {
        Position::Greater
    }
}

/// What adding a block to the index writes: the entry under its key, and the
/// new summary of its shard.
#[derive(Clone, Copy, Debug)]
pub struct IndexUpdate {
    /// The key of the new entry.
    pub key: LtDbKeyOwned,
    /// The new entry.
    pub entry: LtDbEntry,
    /// The new summary of the shard.
    pub desc: LtDesc,
}

/// What adding a block with sequence number `seq_no` does to a shard with
/// summary `desc`: `Ok(None)` for the block that is the last already, else
/// the number of the new entry. A block must not precede the last block of
/// its shard.
pub open spec fn index_for(desc: Option<LtDesc>, seq_no: u32) -> Result<
    Option<u32>,
    BlockIndexDbError,
> {
    match desc {
        None => Ok(Some(1u32)),
        Some(desc) => if seq_no == desc.last_seq_no {
            Ok(None)
        } else if seq_no < desc.last_seq_no {
            Err(BlockIndexDbError::AscendingOrderRequired)
        } else if desc.last_index == u32::MAX {
            Err(BlockIndexDbError::IndexExhausted)
        } else {
            Ok(Some((desc.last_index + 1) as u32))
        },
    }
}

/// The block index. It keeps no rows itself: what it reads is handed to it,
/// and what it writes is handed back.
#[derive(Clone, Copy, Debug)]
pub struct BlockIndexDb;

impl BlockIndexDb {
    /// The block index.
    pub fn with_db() -> (r: Self) {
        BlockIndexDb
    }

    /// Adds the block of `handle` to the index of its shard, whose summary
    /// is `desc` if it has one. Returns what is to be written: nothing for
    /// the block that is the last of its shard already, else the entry under
    /// the next number, and the summary with that block as the last.
    ///
    /// Fails with `AscendingOrderRequired` exactly when the block precedes
    /// the last block of its shard, and with `IndexExhausted` exactly when
    /// it follows it and no number is left.
    pub fn add_handle(&self, desc: Option<&LtDesc>, handle: &BlockHandle) -> (r: Result<
        Option<IndexUpdate>,
        BlockIndexDbError,
    >)
        ensures
            match index_for(
                match desc {
                    Some(desc) => Some(*desc),
                    None => None,
                },
                handle.block_id().seq_no,
            ) {
                Err(e) => r == Err::<Option<IndexUpdate>, BlockIndexDbError>(e),
                Ok(None) => r == Ok::<Option<IndexUpdate>, BlockIndexDbError>(None),
                Ok(Some(index)) => {
                    &&& r matches Ok(Some(update))
                    &&& update.key == (LtDbKeyOwned {
                        shard_ident: handle.block_id().shard_id,
                        index,
                    })
                    &&& update.entry == (LtDbEntry {
                        block_id_ext: handle.block_id(),
                        gen_lt: handle.block_meta()@.gen_lt,
                        gen_utime: handle.block_meta()@.gen_utime,
                    })
                    &&& update.desc == (LtDesc {
                        first_index: 1,
                        last_index: index,
                        last_seq_no: handle.block_id().seq_no,
                        last_lt: handle.block_meta()@.gen_lt,
                        last_utime: handle.block_meta()@.gen_utime,
                    })
                },
            },
    {
        let seq_no = handle.id().seq_no;
        let index = match desc {
            Some(desc) => {
                if seq_no == desc.last_seq_no {
                    return Ok(None);
                } else if seq_no < desc.last_seq_no {
                    return Err(BlockIndexDbError::AscendingOrderRequired);
                } else if desc.last_index == u32::MAX {
                    return Err(BlockIndexDbError::IndexExhausted);
                } else {
                    desc.last_index + 1
                }
            },
            None => 1,
        };
        let gen_lt = handle.meta().gen_lt();
        let gen_utime = handle.meta().gen_utime();
        Ok(
            Some(
                IndexUpdate {
                    key: LtDbKeyOwned { shard_ident: *handle.id().shard(), index },
                    entry: LtDbEntry { block_id_ext: *handle.id(), gen_lt, gen_utime },
                    desc: LtDesc {
                        first_index: 1,
                        last_index: index,
                        last_seq_no: seq_no,
                        last_lt: gen_lt,
                        last_utime: gen_utime,
                    },
                },
            ),
        )
    }

    /// The entries of the index that the stored rows `raw` hold, in their
    /// order: of every row the key and the entry, if both can be read. Rows
    /// that cannot be read are passed over.
    pub fn lt_db_iterator(&self, raw: &Vec<(Vec<u8>, Vec<u8>)>) -> (r: Vec<
        (LtDbKeyOwned, LtDbEntry),
    >)
        ensures
            r@ == rows_read(raw@),
    {
        let mut out: Vec<(LtDbKeyOwned, LtDbEntry)> = Vec::new();
        let mut i: usize = 0;
        assert(raw@.subrange(0, 0) =~= Seq::<(Vec<u8>, Vec<u8>)>::empty());
        while i < raw.len()
            invariant
                i <= raw@.len(),
                out@ == rows_read(raw@.subrange(0, i as int)),
            decreases raw@.len() - i,
        {
            proof {
                let next = raw@.subrange(0, i + 1);
                assert(next.drop_last() =~= raw@.subrange(0, i as int));
                assert(next.last() == raw@[i as int]);
            }
            match LtDbKeyOwned::from_slice(raw[i].0.as_slice()) {
                Ok(key) => match LtDbEntry::from_slice(raw[i].1.as_slice()) {
                    Ok(entry) => {
                        out.push((key, entry));
                    },
                    Err(_) => {},
                },
                Err(_) => {},
            }
            i += 1;
        }
        assert(raw@.subrange(0, i as int) =~= raw@);
        out
    }

    /// The blocks of `rows` that were made before the time `older_then`, in
    /// their order.
    pub fn get_blocks_older_then(
        &self,
        rows: &Vec<(LtDbKeyOwned, LtDbEntry)>,
        older_then: u32,
    ) -> (r: Vec<(LtDbKeyOwned, LtDbEntry)>)
        ensures
            r@ == rows_older_than(rows@, older_then),
    {
        let mut out: Vec<(LtDbKeyOwned, LtDbEntry)> = Vec::new();
        let mut i: usize = 0;
        assert(rows@.subrange(0, 0) =~= Seq::<(LtDbKeyOwned, LtDbEntry)>::empty());
        while i < rows.len()
            invariant
                i <= rows@.len(),
                out@ == rows_older_than(rows@.subrange(0, i as int), older_then),
            decreases rows@.len() - i,
        {
            let row = rows[i];
            proof {
                let next = rows@.subrange(0, i + 1);
                assert(next.drop_last() =~= rows@.subrange(0, i as int));
                assert(next.last() == row);
            }
            if row.1.gen_utime < older_then {
                out.push(row);
            }
            i += 1;
        }
        assert(rows@.subrange(0, i as int) =~= rows@);
        out
    }

    /// What collecting the given blocks deletes from the index: for each the
    /// key of the entry that follows the last of its shard, whose summary is
    /// deleted with it. Each block comes with the summary of its shard, if
    /// the shard has one.
    ///
    /// Fails exactly when some block is out of order, with the error of the
    /// first such block: `AscendingOrderRequired` if it does not follow the
    /// last block of its shard, `IndexExhausted` if no number is left.
    pub fn gc(&self, ids: &Vec<(BlockIdExt, Option<LtDesc>)>) -> (r: Result<
        Vec<LtDbKeyOwned>,
        BlockIndexDbError,
    >)
        ensures
            match r {
                Ok(keys) => {
                    &&& keys@.len() == ids@.len()
                    &&& forall|i: int|
                        0 <= i < ids@.len() ==> #[trigger] gc_key(ids@[i]) == Ok::<
                            LtDbKeyOwned,
                            BlockIndexDbError,
                        >(keys@[i])
                },
                Err(e) => exists|i: int|
                    0 <= i < ids@.len() && #[trigger] gc_key(ids@[i]) == Err::<
                        LtDbKeyOwned,
                        BlockIndexDbError,
                    >(e) && forall|j: int| 0 <= j < i ==> (#[trigger] gc_key(ids@[j])) is Ok,
            },
    {
        let mut keys: Vec<LtDbKeyOwned> = Vec::with_capacity(ids.len());
        let mut i: usize = 0;
        while i < ids.len()
            invariant
                i <= ids@.len(),
                keys@.len() == i,
                forall|j: int|
                    0 <= j < i ==> #[trigger] gc_key(ids@[j]) == Ok::<
                        LtDbKeyOwned,
                        BlockIndexDbError,
                    >(keys@[j]),
            decreases ids@.len() - i,
        {
            let id = ids[i].0;
            let index = match ids[i].1 {
                Some(desc) => {
                    if id.seq_no <= desc.last_seq_no {
                        assert(gc_key(ids@[i as int]) == Err::<LtDbKeyOwned, BlockIndexDbError>(
                            BlockIndexDbError::AscendingOrderRequired,
                        ));
                        return Err(BlockIndexDbError::AscendingOrderRequired);
                    } else if desc.last_index == u32::MAX {
                        assert(gc_key(ids@[i as int]) == Err::<LtDbKeyOwned, BlockIndexDbError>(
                            BlockIndexDbError::IndexExhausted,
                        ));
                        return Err(BlockIndexDbError::IndexExhausted);
                    } else {
                        desc.last_index + 1
                    }
                },
                None => 1,
            };
            keys.push(LtDbKeyOwned { shard_ident: id.shard_id, index });
            i += 1;
        }
        Ok(keys)
    }
}

/// The key of the entry that collecting a block deletes, given the summary
/// of its shard.
pub open spec fn gc_key(row: (BlockIdExt, Option<LtDesc>)) -> Result<
    LtDbKeyOwned,
    BlockIndexDbError,
> {
    match gc_index(row.1, row.0.seq_no) {
        Ok(index) => Ok(LtDbKeyOwned { shard_ident: row.0.shard_id, index }),
        Err(e) => Err(e),
    }
}

/// The entries that stored rows hold, in their order; a row whose key or
/// value cannot be read holds none.
pub open spec fn rows_read(raw: Seq<(Vec<u8>, Vec<u8>)>) -> Seq<(LtDbKeyOwned, LtDbEntry)>
    decreases raw.len(),
{
    if raw.len() == 0 {
        Seq::empty()
    } else {
        match (LtDbKeyOwned::decoding(raw.last().0@), LtDbEntry::decoding(raw.last().1@)) {
            (Ok(key), Ok(entry)) => rows_read(raw.drop_last()).push((key, entry)),
            _ => rows_read(raw.drop_last()),
        }
    }
}

/// The rows whose blocks were made before the time `older_then`, in their
/// order.
pub open spec fn rows_older_than(rows: Seq<(LtDbKeyOwned, LtDbEntry)>, older_then: u32) -> Seq<
    (LtDbKeyOwned, LtDbEntry),
>
    decreases rows.len(),
{
    if rows.len() == 0 {
        Seq::empty()
    } else if rows.last().1.gen_utime < older_then {
        rows_older_than(rows.drop_last(), older_then).push(rows.last())
    } else {
        rows_older_than(rows.drop_last(), older_then)
    }
}

/// The number of the entry that collecting a block with sequence number
/// `seq_no` deletes from a shard with summary `desc`. The block must follow
/// the last block of its shard.
pub open spec fn gc_index(desc: Option<LtDesc>, seq_no: u32) -> Result<u32, BlockIndexDbError> {
    match desc {
        None => Ok(1u32),
        Some(desc) => if seq_no <= desc.last_seq_no {
            Err(BlockIndexDbError::AscendingOrderRequired)
        } else if desc.last_index == u32::MAX {
            Err(BlockIndexDbError::IndexExhausted)
        } else {
            Ok((desc.last_index + 1) as u32)
        },
    }
}

/// Whether `rows` and `desc` are the index of one shard: the entries are
/// numbered from 1 without a gap, the sequence numbers of their blocks
/// rise strictly, and the summary is that of the last entry.
pub open spec fn shard_index(rows: Seq<LtDbEntry>, desc: Option<LtDesc>) -> bool {
    &&& forall|i: int, j: int|
        0 <= i < j < rows.len() ==> rows[i].block_id_ext.seq_no < rows[j].block_id_ext.seq_no
    &&& match desc {
        None => rows.len() == 0,
        Some(desc) => {
            &&& rows.len() > 0
            &&& desc.first_index == 1
            &&& desc.last_index == rows.len()
            &&& desc.last_seq_no == rows.last().block_id_ext.seq_no
            &&& desc.last_lt == rows.last().gen_lt
            &&& desc.last_utime == rows.last().gen_utime
        },
    }
}

/// The index of a shard stays an index when a block is added: the new entry
/// takes the next number, and its block follows all blocks before it.
pub proof fn lemma_index_grows_in_order(
    rows: Seq<LtDbEntry>,
    desc: Option<LtDesc>,
    entry: LtDbEntry,
    index: u32,
)
    requires
        shard_index(rows, desc),
        index_for(desc, entry.block_id_ext.seq_no) == Ok::<Option<u32>, BlockIndexDbError>(
            Some(index),
        ),
    ensures
        index == rows.len() + 1,
        shard_index(
            rows.push(entry),
            Some(
                LtDesc {
                    first_index: 1,
                    last_index: index,
                    last_seq_no: entry.block_id_ext.seq_no,
                    last_lt: entry.gen_lt,
                    last_utime: entry.gen_utime,
                },
            ),
        ),
{
    let grown = rows.push(entry);
    assert forall|i: int, j: int| 0 <= i < j < grown.len() implies grown[i].block_id_ext.seq_no
        < grown[j].block_id_ext.seq_no by {
        if j == rows.len() && i < rows.len() - 1 {
            assert(rows[i].block_id_ext.seq_no < rows[rows.len() - 1].block_id_ext.seq_no);
        }
    }
}

/// Blocks that are added to one shard one after the other have strictly
/// rising sequence numbers and take the numbers of the index one by one;
/// adding the last block once more changes nothing.
pub proof fn lemma_add_handle_ascending(desc: Option<LtDesc>, seq_no: u32, index: u32)
    requires
        index_for(desc, seq_no) == Ok::<Option<u32>, BlockIndexDbError>(Some(index)),
    ensures
        desc is Some ==> seq_no > desc.unwrap().last_seq_no && index == desc.unwrap().last_index
            + 1,
        desc is None ==> index == 1,
        forall|lt: u64, utime: u32|
            index_for(
                Some(
                    LtDesc {
                        first_index: 1,
                        last_index: index,
                        last_seq_no: seq_no,
                        last_lt: lt,
                        last_utime: utime,
                    },
                ),
                seq_no,
            ) == Ok::<Option<u32>, BlockIndexDbError>(None),
        forall|lt: u64, utime: u32, earlier: u32|
            earlier < seq_no ==> index_for(
                Some(
                    LtDesc {
                        first_index: 1,
                        last_index: index,
                        last_seq_no: seq_no,
                        last_lt: lt,
                        last_utime: utime,
                    },
                ),
                earlier,
            ) == Err::<Option<u32>, BlockIndexDbError>(BlockIndexDbError::AscendingOrderRequired),
{
}

} // verus!
