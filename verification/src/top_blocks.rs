//! The last block of every shard, as a masterchain block states them.

use crate::block_id::{BlockIdExt, BLOCK_ID_SIZE};
use crate::codec::{
    i32_le, lemma_i32_roundtrip, lemma_u32_roundtrip, lemma_u64_roundtrip, push_i32_le,
    push_u32_le, push_u64_le, read_u32_le, u32_from_le, u32_le, u64_le,
};
use crate::fx_map::{
    fx_heights_entries, fx_heights_get, fx_heights_insert, fx_heights_new, lists_map,
};
use crate::shard::{prefix_valid, shards_intersect, ShardIdent, MASTERCHAIN_ID};
use crate::stored_value::{StoredValue, StoredValueError};
use rustc_hash::FxHashMap;
use vstd::prelude::*;

verus! {

/// The key of a shard in the map of heights: its workchain and its tagged
/// prefix.
pub open spec fn shard_key(shard: ShardIdent) -> (i32, u64) {
    (shard.workchain(), shard.prefix())
}

/// The map that holds the heights of the first `n` shards of a list; a
/// shard that is listed twice keeps the height listed last.
pub open spec fn heights_of(entries: Seq<(ShardIdent, u32)>, n: int) -> Map<(i32, u64), u32>
    decreases n,
{
    if n <= 0 {
        Map::empty()
    } else {
        heights_of(entries, n - 1).insert(shard_key(entries[n - 1].0), entries[n - 1].1)
    }
}

/// Whether two keys are of shards that share accounts.
pub open spec fn keys_intersect(a: (i32, u64), b: (i32, u64)) -> bool {
    a.0 == b.0 && shards_intersect(a.1, b.1)
}

/// The bytes of one shard with its height: the workchain, the tagged prefix
/// and the height, little-endian.
pub open spec fn entry_bytes(key: (i32, u64), height: u32) -> Seq<u8> {
    i32_le(key.0) + u64_le(key.1) + u32_le(height)
}

/// The number of bytes one shard with its height takes.
pub const TOP_BLOCKS_ENTRY_SIZE: usize = 16;

/// The bytes of the first `n` shards of a list with their heights.
pub open spec fn entries_bytes(entries: Seq<((i32, u64), u32)>, n: int) -> Seq<u8>
    decreases n,
{
    if n <= 0 {
        Seq::empty()
    } else {
        entries_bytes(entries, n - 1) + entry_bytes(entries[n - 1].0, entries[n - 1].1)
    }
}

/// The bytes that top blocks are stored as, with the shards in the order of
/// `entries`: the masterchain block, the number of shards in four bytes
/// little-endian, and the shards with their heights.
pub open spec fn encoding_with(mc_block: BlockIdExt, entries: Seq<((i32, u64), u32)>) -> Seq<u8> {
    mc_block.encoding() + u32_le(entries.len() as u32) + entries_bytes(
        entries,
        entries.len() as int,
    )
}

/// The first `n` shards with their heights that `data` holds, or why it does
/// not hold as many.
#[verifier::opaque]
pub open spec fn decoded_entries(data: Seq<u8>, n: int) -> Result<
    Seq<(ShardIdent, u32)>,
    StoredValueError,
>
    decreases n,
{
    if n <= 0 {
        Ok(Seq::empty())
    } else {
        match decoded_entries(data, n - 1) {
            Err(e) => Err(e),
            Ok(before) => if data.len() < 16 * (n - 1) {
                Err(StoredValueError::UnexpectedEof)
            } else {
                match ShardIdent::decoding(data.skip(16 * (n - 1))) {
                    Err(e) => Err(e),
                    Ok(shard) => if data.len() < 16 * n {
                        Err(StoredValueError::UnexpectedEof)
                    } else {
                        Ok(
                            before.push(
                                (shard, u32_from_le(data.subrange(16 * (n - 1) + 12, 16 * n))),
                            ),
                        )
                    },
                }
            },
        }
    }
}

/// The masterchain block and the shards with their heights that `data`
/// holds, or why it holds none.
pub open spec fn decoded_top_blocks(data: Seq<u8>) -> Result<
    (BlockIdExt, Seq<(ShardIdent, u32)>),
    StoredValueError,
> {
    match BlockIdExt::decoding(data) {
        Err(e) => Err(e),
        Ok(mc_block) => if data.len() < 84 {
            Err(StoredValueError::UnexpectedEof)
        } else {
            match decoded_entries(data.skip(84), u32_from_le(data.subrange(80, 84)) as int) {
                Ok(entries) => Ok((mc_block, entries)),
                Err(e) => Err(e),
            }
        },
    }
}

/// The shards of a listing of shards that were stored are read back, each
/// with its height.
pub proof fn lemma_entries_roundtrip(entries: Seq<((i32, u64), u32)>, n: int, rest: Seq<u8>)
    requires
        0 <= n <= entries.len(),
        forall|i: int| 0 <= i < entries.len() ==> prefix_valid(#[trigger] entries[i].0.1),
    ensures
        entries_bytes(entries, n).len() == 16 * n,
        decoded_entries(entries_bytes(entries, n) + rest, n) is Ok,
        decoded_entries(entries_bytes(entries, n) + rest, n).unwrap().len() == n,
        forall|i: int|
            0 <= i < n ==> shard_key(
                (#[trigger] decoded_entries(entries_bytes(entries, n) + rest, n).unwrap()[i]).0,
            ) == entries[i].0 && decoded_entries(entries_bytes(entries, n) + rest, n).unwrap()[i].1
                == entries[i].1,
    decreases n,
{
    reveal(decoded_entries);
    if n > 0 {
        let last = entry_bytes(entries[n - 1].0, entries[n - 1].1);
        let data = entries_bytes(entries, n) + rest;
        lemma_i32_roundtrip(entries[n - 1].0.0);
        lemma_u64_roundtrip(entries[n - 1].0.1);
        lemma_u32_roundtrip(entries[n - 1].1);
        lemma_entries_roundtrip(entries, n - 1, last + rest);
        assert(data =~= entries_bytes(entries, n - 1) + (last + rest));
        let tail = data.skip(16 * (n - 1));
        assert(tail =~= last + rest);
        ShardIdent::lemma_decoding(tail);
        assert(tail.subrange(0, 4) =~= i32_le(entries[n - 1].0.0));
        assert(tail.subrange(4, 12) =~= u64_le(entries[n - 1].0.1));
        assert(data.subrange(16 * (n - 1) + 12, 16 * n) =~= u32_le(entries[n - 1].1));
    }
}

/// A listing of a map of heights holds the map: the heights of its shards
/// are the map.
pub proof fn lemma_listing_holds_map(
    shards: Seq<(ShardIdent, u32)>,
    entries: Seq<((i32, u64), u32)>,
    map: Map<(i32, u64), u32>,
)
    requires
        lists_map(entries, map),
        shards.len() == entries.len(),
        forall|i: int|
            0 <= i < shards.len() ==> shard_key((#[trigger] shards[i]).0) == entries[i].0
                && shards[i].1 == entries[i].1,
    ensures
        heights_of(shards, shards.len() as int) == map,
{
    lemma_heights_of_prefix(shards, entries, map, shards.len() as int);
    assert(heights_of(shards, shards.len() as int) =~= map);
}

/// The heights of the first `n` shards of a listing of a map are the part
/// of the map with those shards as keys.
proof fn lemma_heights_of_prefix(
    shards: Seq<(ShardIdent, u32)>,
    entries: Seq<((i32, u64), u32)>,
    map: Map<(i32, u64), u32>,
    n: int,
)
    requires
        lists_map(entries, map),
        shards.len() == entries.len(),
        0 <= n <= shards.len(),
        forall|i: int|
            0 <= i < shards.len() ==> shard_key((#[trigger] shards[i]).0) == entries[i].0
                && shards[i].1 == entries[i].1,
    ensures
        forall|key: (i32, u64)|
            heights_of(shards, n).contains_key(key) <==> exists|i: int|
                0 <= i < n && #[trigger] entries[i].0 == key,
        forall|key: (i32, u64)|
            heights_of(shards, n).contains_key(key) ==> #[trigger] heights_of(shards, n)[key]
                == map[key],
    decreases n,
{
    if n > 0 {
        lemma_heights_of_prefix(shards, entries, map, n - 1);
        let key = shard_key(shards[n - 1].0);
        assert(entries[n - 1].0 == key);
        assert forall|k: (i32, u64)| heights_of(shards, n).contains_key(k) implies exists|i: int|
            0 <= i < n && #[trigger] entries[i].0 == k by {
            if k != key {
                assert(heights_of(shards, n - 1).contains_key(k));
                let i = choose|i: int| 0 <= i < n - 1 && #[trigger] entries[i].0 == k;
                assert(entries[i].0 == k);
            } else {
                assert(entries[n - 1].0 == k);
            }
        }
        assert forall|k: (i32, u64)|
            (exists|i: int| 0 <= i < n && #[trigger] entries[i].0 == k) implies heights_of(
            shards,
            n,
        ).contains_key(k) by {
            let i = choose|i: int| 0 <= i < n && #[trigger] entries[i].0 == k;
            if i < n - 1 {
                assert(heights_of(shards, n - 1).contains_key(k));
            }
        }
        assert forall|k: (i32, u64)| heights_of(shards, n).contains_key(k) implies #[trigger] heights_of(
            shards,
            n,
        )[k] == map[k] by {
            if k == key {
                assert(map.contains_key(entries[n - 1].0));
            } else {
                assert(heights_of(shards, n - 1).contains_key(k));
            }
        }
    }
}

/// Where the first shards cannot be read, more of them cannot be read for
/// the same reason.
pub proof fn lemma_decoding_fails_later(data: Seq<u8>, n: int, m: int)
    requires
        0 <= n <= m,
        decoded_entries(data, n) is Err,
    ensures
        decoded_entries(data, m) == decoded_entries(data, n),
    decreases m - n,
{
    reveal(decoded_entries);
    if n < m {
        lemma_decoding_fails_later(data, n, m - 1);
    }
}

/// What reading one more shard gives.
pub proof fn lemma_decoded_next(data: Seq<u8>, n: int)
    requires
        n >= 0,
        decoded_entries(data, n) is Ok,
    ensures
        decoded_entries(data, 0) == Ok::<Seq<(ShardIdent, u32)>, StoredValueError>(Seq::empty()),
        data.len() < 16 * n ==> decoded_entries(data, n + 1) == Err::<
            Seq<(ShardIdent, u32)>,
            StoredValueError,
        >(StoredValueError::UnexpectedEof),
        data.len() >= 16 * n && ShardIdent::decoding(data.skip(16 * n)) is Err ==> decoded_entries(
            data,
            n + 1,
        ) == Err::<Seq<(ShardIdent, u32)>, StoredValueError>(
            ShardIdent::decoding(data.skip(16 * n))->Err_0,
        ),
        data.len() >= 16 * n && ShardIdent::decoding(data.skip(16 * n)) is Ok && data.len() < 16
            * (n + 1) ==> decoded_entries(data, n + 1) == Err::<
            Seq<(ShardIdent, u32)>,
            StoredValueError,
        >(StoredValueError::UnexpectedEof),
        data.len() >= 16 * (n + 1) && ShardIdent::decoding(data.skip(16 * n)) is Ok
            ==> decoded_entries(data, n + 1) == Ok::<Seq<(ShardIdent, u32)>, StoredValueError>(
            decoded_entries(data, n).unwrap().push(
                (
                    ShardIdent::decoding(data.skip(16 * n)).unwrap(),
                    u32_from_le(data.subrange(16 * n + 12, 16 * (n + 1))),
                ),
            ),
        ),
{
    reveal(decoded_entries);
}

/// The heights of the first shards of a list do not depend on the shards
/// behind them.
pub proof fn lemma_heights_of_same_front(
    a: Seq<(ShardIdent, u32)>,
    b: Seq<(ShardIdent, u32)>,
    n: int,
)
    requires
        0 <= n <= a.len(),
        n <= b.len(),
        forall|i: int| 0 <= i < n ==> a[i] == b[i],
    ensures
        heights_of(a, n) == heights_of(b, n),
    decreases n,
{
    if n > 0 {
        lemma_heights_of_same_front(a, b, n - 1);
    }
}

/// Top blocks that were stored are read back: the same masterchain block,
/// and the same height of every shard, in whatever order the shards were
/// stored.
pub proof fn lemma_top_blocks_roundtrip(
    mc_block: BlockIdExt,
    entries: Seq<((i32, u64), u32)>,
    map: Map<(i32, u64), u32>,
)
    requires
        mc_block.storable(),
        lists_map(entries, map),
        entries.len() <= u32::MAX,
        forall|i: int| 0 <= i < entries.len() ==> prefix_valid(#[trigger] entries[i].0.1),
    ensures
        decoded_top_blocks(encoding_with(mc_block, entries)) is Ok,
        decoded_top_blocks(encoding_with(mc_block, entries)).unwrap().0 == mc_block,
        heights_of(
            decoded_top_blocks(encoding_with(mc_block, entries)).unwrap().1,
            decoded_top_blocks(encoding_with(mc_block, entries)).unwrap().1.len() as int,
        ) == map,
{
    let data = encoding_with(mc_block, entries);
    let n = entries.len() as int;
    let body = entries_bytes(entries, n);
    mc_block.lemma_encoding_len();
    lemma_u32_roundtrip(entries.len() as u32);
    mc_block.lemma_decoding_of_encoding(u32_le(entries.len() as u32) + body);
    assert(data =~= mc_block.encoding() + (u32_le(entries.len() as u32) + body));
    assert(data.subrange(80, 84) =~= u32_le(entries.len() as u32));
    lemma_entries_roundtrip(entries, n, Seq::empty());
    assert(data.skip(84) =~= body + Seq::<u8>::empty());
    let shards = decoded_entries(data.skip(84), n).unwrap();
    lemma_listing_holds_map(shards, entries, map);
}

/// Why top blocks could not be stored.
#[derive(Clone, Copy, Debug, PartialEq, Eq, Structural)]
pub enum TopBlocksError {
    /// There are more shards than a count of 32 bits can state.
    TooManyShards,
}

/// The last block of every shard: the masterchain block that states them,
/// and the sequence number of the last block of each shard.
#[derive(Debug)]
pub struct TopBlocks {
    /// The masterchain block.
    pub mc_block: BlockIdExt,
    /// The sequence number of the last block of every shard, by the
    /// workchain and tagged prefix of the shard.
    pub shard_heights: FxHashMap<(i32, u64), u32>,
}

impl TopBlocks {
    /// The key of a shard in the map of heights.
    pub fn key_of(shard: &ShardIdent) -> (r: (i32, u64))
        ensures
            r == shard_key(*shard),
            prefix_valid(r.1),
    {
        (shard.workchain_id(), shard.shard_prefix_with_tag())
    }

    /// The top blocks that the masterchain block `mc_block` states, given
    /// the sequence number of the last block of every shard.
    pub fn from_mc_block(mc_block: BlockIdExt, shard_blocks_seq_no: &Vec<(ShardIdent, u32)>) -> (r:
        Self)
        ensures
            r.mc_block == mc_block,
            r.shard_heights@ == heights_of(
                shard_blocks_seq_no@,
                shard_blocks_seq_no@.len() as int,
            ),
    {
        let mut shard_heights = fx_heights_new();
        assert(shard_heights@ =~= heights_of(shard_blocks_seq_no@, 0));
        let mut i: usize = 0;
        while i < shard_blocks_seq_no.len()
            invariant
                i <= shard_blocks_seq_no@.len(),
                shard_heights@ == heights_of(shard_blocks_seq_no@, i as int),
            decreases shard_blocks_seq_no@.len() - i,
        {
            let (shard, seq_no) = shard_blocks_seq_no[i];
            fx_heights_insert(&mut shard_heights, Self::key_of(&shard), seq_no);
            i += 1;
        }
        TopBlocks { mc_block, shard_heights }
    }

    /// Appends the stored form of the top blocks to `buffer`, with the
    /// shards in the order in which the map hands them out.
    ///
    /// Fails with `TooManyShards`, and appends nothing, exactly when that
    /// listing is longer than 32 bits can state.
    pub fn serialize(&self, buffer: &mut Vec<u8>) -> (r: Result<(), TopBlocksError>)
        ensures
            exists|entries: Seq<((i32, u64), u32)>| #[trigger]
                lists_map(entries, self.shard_heights@) && match r {
                    Ok(()) => entries.len() <= u32::MAX && final(buffer)@ == old(buffer)@
                        + encoding_with(self.mc_block, entries),
                    Err(e) => entries.len() > u32::MAX && final(buffer)@ == old(buffer)@,
                },
    {
        let entries = fx_heights_entries(&self.shard_heights);
        if entries.len() > u32::MAX as usize {
            return Err(TopBlocksError::TooManyShards);
        }
        self.mc_block.serialize(buffer);
        push_u32_le(buffer, entries.len() as u32);
        let ghost head = buffer@;
        let mut i: usize = 0;
        while i < entries.len()
            invariant
                i <= entries@.len(),
                buffer@ == head + entries_bytes(entries@, i as int),
            decreases entries@.len() - i,
        {
            let (key, height) = entries[i];
            push_i32_le(buffer, key.0);
            push_u64_le(buffer, key.1);
            push_u32_le(buffer, height);
            i += 1;
            assert(buffer@ =~= head + entries_bytes(entries@, i as int));
        }
        assert(buffer@ =~= old(buffer)@ + encoding_with(self.mc_block, entries@));
        Ok(())
    }

    /// Reads top blocks from the front of `data`.
    ///
    /// Fails as the reading of the masterchain block or of a shard fails,
    /// and with `UnexpectedEof` where the bytes end before a count or a
    /// height does.
    pub fn deserialize(data: &[u8]) -> (r: Result<Self, StoredValueError>)
        ensures
            match decoded_top_blocks(data@) {
                Ok((mc_block, entries)) => r is Ok && r.unwrap().mc_block == mc_block
                    && r.unwrap().shard_heights@ == heights_of(entries, entries.len() as int),
                Err(e) => r == Err::<Self, StoredValueError>(e),
            },
    {
        let len = data.len();
        let mc_block = match BlockIdExt::deserialize(data, 0) {
            Ok(mc_block) => mc_block,
            Err(e) => {
                assert(data@.skip(0) =~= data@);
                return Err(e);
            },
        };
        assert(data@.skip(0) =~= data@);
        if len < 84 {
            return Err(StoredValueError::UnexpectedEof);
        }
        let count = read_u32_le(data, BLOCK_ID_SIZE) as usize;
        let ghost body = data@.skip(84);
        let mut shard_heights = fx_heights_new();
        let ghost read = Seq::<(ShardIdent, u32)>::empty();
        assert(shard_heights@ =~= heights_of(read, 0));
        proof {
            reveal(decoded_entries);
        }
        let mut i: usize = 0;
        while i < count
            invariant
                i <= count <= u32::MAX,
                len == data@.len() >= 84,
                body == data@.skip(84),
                decoded_entries(body, i as int) == Ok::<Seq<(ShardIdent, u32)>, StoredValueError>(
                    read,
                ),
                read.len() == i,
                shard_heights@ == heights_of(read, i as int),
                BlockIdExt::decoding(data@) == Ok::<BlockIdExt, StoredValueError>(mc_block),
                count == u32_from_le(data@.subrange(80, 84)),
            decreases count - i,
        {
            proof {
                lemma_decoded_next(body, i as int);
            }
            let offset: u64 = 16 * (i as u64);
            if ((len - 84) as u64) < offset {
                proof {
                    lemma_decoding_fails_later(body, i as int + 1, count as int);
                }
                return Err(StoredValueError::UnexpectedEof);
            }
            let pos = 84 + offset as usize;
            assert(data@.skip(pos as int) =~= body.skip(16 * i));
            let shard = match ShardIdent::deserialize(data, pos) {
                Ok(shard) => shard,
                Err(e) => {
                    proof {
                        lemma_decoding_fails_later(body, i as int + 1, count as int);
                    }
                    return Err(e);
                },
            };
            proof {
                ShardIdent::lemma_decoding(body.skip(16 * i));
            }
            if len - pos < TOP_BLOCKS_ENTRY_SIZE {
                proof {
                    lemma_decoding_fails_later(body, i as int + 1, count as int);
                }
                return Err(StoredValueError::UnexpectedEof);
            }
            let top_block = read_u32_le(data, pos + 12);
            proof {
                assert(data@.subrange(pos + 12, pos + 16) =~= body.subrange(
                    16 * i + 12,
                    16 * (i + 1),
                ));
                let ghost before = read;
                read = read.push((shard, top_block));
                lemma_heights_of_same_front(before, read, i as int);
            }
            fx_heights_insert(&mut shard_heights, Self::key_of(&shard), top_block);
            i += 1;
        }
        Ok(TopBlocks { mc_block, shard_heights })
    }

    /// Whether the given block is the last block of its shard or a later
    /// one.
    pub fn contains(&self, block_id: &BlockIdExt) -> (r: bool)
        ensures
            self.holds(shard_key(block_id.shard_id), block_id.seq_no, r),
    {
        self.contains_shard_seq_no(&block_id.shard_id, block_id.seq_no)
    }

    /// Whether `answer` is a right answer to the question whether a block
    /// with sequence number `seq_no` of the shard with key `key` is the last
    /// block of its shard or a later one. In the masterchain the last block
    /// is the masterchain block. Of a shard that has a height that height
    /// counts. A shard without one may have been split or merged: then the
    /// height of some shard that shares accounts with it counts, and the
    /// answer is no if there is none.
    pub open spec fn holds(&self, key: (i32, u64), seq_no: u32, answer: bool) -> bool {
        let heights = self.shard_heights@;
        if key.0 == MASTERCHAIN_ID {
            answer == (seq_no >= self.mc_block.seq_no)
        } else if heights.contains_key(key) {
            answer == (seq_no >= heights[key])
        } else if exists|other: (i32, u64)|
            heights.contains_key(other) && prefix_valid(other.1) && #[trigger] keys_intersect(
                key,
                other,
            ) {
            exists|other: (i32, u64)|
                heights.contains_key(other) && prefix_valid(other.1) && #[trigger] keys_intersect(
                    key,
                    other,
                ) && answer == (seq_no >= heights[other])
        } else {
            !answer
        }
    }

    /// Whether a block with sequence number `seq_no` of the shard
    /// `shard_ident` is the last block of its shard or a later one.
    pub fn contains_shard_seq_no(&self, shard_ident: &ShardIdent, seq_no: u32) -> (r: bool)
        ensures
            self.holds(shard_key(*shard_ident), seq_no, r),
    {
        if shard_ident.is_masterchain() {
            return seq_no >= self.mc_block.seq_no;
        }
        let key = Self::key_of(shard_ident);
        match fx_heights_get(&self.shard_heights, key) {
            Some(top_seq_no) => seq_no >= top_seq_no,
            None => {
                let entries = fx_heights_entries(&self.shard_heights);
                let mut i: usize = 0;
                while i < entries.len()
                    invariant
                        i <= entries@.len(),
                        key == shard_key(*shard_ident),
                        key.0 != MASTERCHAIN_ID,
                        !self.shard_heights@.contains_key(key),
                        lists_map(entries@, self.shard_heights@),
                        forall|j: int|
                            0 <= j < i ==> !(prefix_valid(entries@[j].0.1)
                                && #[trigger] keys_intersect(key, entries@[j].0)),
                    decreases entries@.len() - i,
                {
                    let (other, top_seq_no) = entries[i];
                    match ShardIdent::with_tagged_prefix(other.0, other.1) {
                        Ok(shard) => {
                            if shard_ident.intersect_with(&shard) {
                                proof {
                                    let found = entries@[i as int].0;
                                    assert(found == other);
                                    assert(self.shard_heights@.contains_key(found));
                                    assert(self.shard_heights@[found] == top_seq_no);
                                    assert(prefix_valid(found.1));
                                    assert(keys_intersect(key, found));
                                }
                                return seq_no >= top_seq_no;
                            }
                        },
                        Err(_) => {},
                    }
                    i += 1;
                }
                proof {
                    assert forall|other: (i32, u64)|
                        !(self.shard_heights@.contains_key(other) && prefix_valid(other.1)
                            && #[trigger] keys_intersect(key, other)) by {
                        if self.shard_heights@.contains_key(other) {
                            let k = choose|k: int|
                                0 <= k < entries@.len() && #[trigger] entries@[k].0 == other;
                            assert(!(prefix_valid(entries@[k].0.1) && keys_intersect(
                                key,
                                entries@[k].0,
                            )));
                        }
                    }
                }
                false
            },
        }
    }
}

} // verus!
