//! Shard identifiers: a workchain and a tagged 64-bit prefix.
//!
//! A tagged prefix holds the bits of the shard's prefix from the top, then a
//! single `1` (the tag), then zeros. The full shard has an empty prefix, so
//! only the top bit is set.

use crate::codec::{
    i32_from_le, i32_le, lemma_i32_bytes_roundtrip, lemma_i32_roundtrip,
    lemma_u64_bytes_roundtrip, lemma_u64_roundtrip, push_i32_le, push_u64_le, read_i32_le,
    read_u64_le, u64_from_le, u64_le,
};
use crate::stored_value::{StoredValue, StoredValueError};
use vstd::prelude::*;

verus! {

/// The workchain of the masterchain.
pub const MASTERCHAIN_ID: i32 = -1;

/// The workchain of the base workchain.
pub const BASE_WORKCHAIN_ID: i32 = 0;

/// The tagged prefix of a shard that covers its whole workchain.
pub const SHARD_FULL: u64 = 0x8000_0000_0000_0000;

/// The longest prefix a shard may have.
pub const MAX_SPLIT_DEPTH: u8 = 60;

/// The tag of a tagged prefix: its lowest set bit.
pub open spec fn tag_bit(prefix: u64) -> u64 {
    prefix & !((prefix - 1) as u64)
}

/// The bits above the tag: those that hold the prefix itself.
pub open spec fn prefix_mask(prefix: u64) -> u64 {
    !(prefix ^ ((prefix - 1) as u64))
}

/// A tagged prefix has a tag, and at most `MAX_SPLIT_DEPTH` bits above it.
pub open spec fn prefix_valid(prefix: u64) -> bool {
    prefix != 0 && prefix & 7 == 0
}

/// Whether the account prefix `account` lies in the shard with tagged prefix
/// `shard`: they agree on every bit above the tag.
pub open spec fn shard_contains(shard: u64, account: u64) -> bool {
    (shard ^ account) & prefix_mask(shard) == 0
}

/// Whether two tagged prefixes agree on every bit that both hold.
pub open spec fn shards_intersect(a: u64, b: u64) -> bool {
    (a ^ b) & prefix_mask(a) & prefix_mask(b) == 0
}

/// The tagged prefix of the shard with a prefix of `depth` bits that holds
/// `account`.
pub open spec fn shard_at_depth(depth: u8, account: u64) -> u64 {
    let tag = 1u64 << ((63 - depth) as u64);
    (account & !(tag | ((tag - 1) as u64))) | tag
}

/// The tagged prefix of the left half of a shard.
pub open spec fn left_child(prefix: u64) -> u64 {
    (prefix - (tag_bit(prefix) >> 1)) as u64
}

/// The tagged prefix of the right half of a shard.
pub open spec fn right_child(prefix: u64) -> u64 {
    (prefix + (tag_bit(prefix) >> 1)) as u64
}

/// Two shards intersect exactly when some account prefix lies in both.
pub proof fn lemma_intersect_is_common_account(a: u64, b: u64)
    requires
        a != 0,
        b != 0,
    ensures
        shards_intersect(a, b) <==> exists|account: u64|
            shard_contains(a, account) && shard_contains(b, account),
{
    if shards_intersect(a, b) {
        assert(shard_contains(a, a) && shard_contains(b, b)) by (bit_vector);
        assert(((a ^ b) & !(a ^ ((a - 1) as u64)) & !(b ^ ((b - 1) as u64)) == 0 && a != 0 && b
            != 0) ==> (((a ^ b) & !(a ^ ((a - 1) as u64)) == 0) || ((b ^ a) & !(b ^ ((b - 1) as u64))
            == 0))) by (bit_vector);
        if shard_contains(a, b) {
            assert(shard_contains(a, b) && shard_contains(b, b));
        } else {
            assert((b ^ a) & !(b ^ ((b - 1) as u64)) == 0);
            assert(shard_contains(a, a) && shard_contains(b, a));
        }
    }
    assert forall|account: u64|
        shard_contains(a, account) && shard_contains(b, account) implies shards_intersect(
        a,
        b,
    ) by {
        assert(((a ^ account) & !(a ^ ((a - 1) as u64)) == 0 && (b ^ account) & !(b ^ ((b
            - 1) as u64)) == 0) ==> (a ^ b) & !(a ^ ((a - 1) as u64)) & !(b ^ ((b - 1) as u64))
            == 0) by (bit_vector);
    }
}

/// The shard of a given depth that holds an account has a valid prefix with
/// its tag at that depth, and does hold the account.
pub proof fn lemma_shard_at_depth(depth: u8, account: u64)
    requires
        depth <= MAX_SPLIT_DEPTH,
    ensures
        prefix_valid(shard_at_depth(depth, account)),
        tag_bit(shard_at_depth(depth, account)) == 1u64 << ((63 - depth) as u64),
        shard_contains(shard_at_depth(depth, account), account),
{
    let s: u64 = (63 - depth) as u64;
    assert(3 <= s <= 63);
    let tag = 1u64 << s;
    let p = (account & !(tag | ((tag - 1) as u64))) | tag;
    assert(p == shard_at_depth(depth, account));
    assert(3 <= s <= 63 && tag == 1u64 << s && p == (account & !(tag | ((tag - 1) as u64))) | tag
        ==> p != 0 && p & 7 == 0 && p & !((p - 1) as u64) == tag && (p ^ account) & !(p ^ ((p
        - 1) as u64)) == 0) by (bit_vector);
}

/// An account lies in a shard exactly when it lies in one of its halves, and
/// never in both.
pub proof fn lemma_children_partition(prefix: u64, account: u64)
    requires
        prefix != 0,
        tag_bit(prefix) > 1,
    ensures
        shard_contains(prefix, account) <==> (shard_contains(left_child(prefix), account)
            || shard_contains(right_child(prefix), account)),
        !(shard_contains(left_child(prefix), account) && shard_contains(
            right_child(prefix),
            account,
        )),
{
    let t = prefix & !((prefix - 1) as u64);
    let l = (prefix - (t >> 1)) as u64;
    let r = (prefix + (t >> 1)) as u64;
    assert(t == prefix & !((prefix - 1) as u64) && l == (prefix - (t >> 1)) as u64 && r == (prefix
        + (t >> 1)) as u64 && prefix != 0 && t > 1 ==> (((prefix ^ account) & !(prefix ^ ((prefix
        - 1) as u64)) == 0) <==> (((l ^ account) & !(l ^ ((l - 1) as u64)) == 0) || ((r ^ account)
        & !(r ^ ((r - 1) as u64)) == 0))) && !(((l ^ account) & !(l ^ ((l - 1) as u64)) == 0) && ((r
        ^ account) & !(r ^ ((r - 1) as u64)) == 0))) by (bit_vector);
}

/// Why a shard identifier could not be made.
#[derive(Clone, Copy, Debug, PartialEq, Eq, Structural)]
pub enum ShardError {
    /// The tagged prefix has no tag, or more than `MAX_SPLIT_DEPTH` bits
    /// above it.
    InvalidPrefix,
    /// The prefix would be longer than `MAX_SPLIT_DEPTH` bits.
    SplitDepthExceeded,
}

/// A shard: a workchain and the tagged prefix of the accounts it holds.
#[derive(Clone, Copy, Debug, PartialEq, Eq, Hash, Structural)]
pub struct ShardIdent {
    workchain_id: i32,
    prefix: u64,
}

impl ShardIdent {
    /// The workchain, in contracts.
    pub closed spec fn workchain(self) -> i32 {
        self.workchain_id
    }

    /// The tagged prefix, in contracts.
    pub closed spec fn prefix(self) -> u64 {
        self.prefix
    }

    /// Every shard identifier holds a valid tagged prefix.
    #[verifier::type_invariant]
    pub open spec fn wf(self) -> bool {
        prefix_valid(self.prefix())
    }

    /// The shard of `workchain_id` with a prefix of `depth` bits that holds
    /// the account prefix `account`, in contracts.
    pub closed spec fn at_depth(depth: u8, workchain_id: i32, account: u64) -> ShardIdent {
        ShardIdent { workchain_id, prefix: shard_at_depth(depth, account) }
    }

    /// What `at_depth` gives: a shard of that workchain with that prefix.
    pub proof fn lemma_at_depth(depth: u8, workchain_id: i32, account: u64)
        ensures
            Self::at_depth(depth, workchain_id, account).workchain() == workchain_id,
            Self::at_depth(depth, workchain_id, account).prefix() == shard_at_depth(depth, account),
            depth <= MAX_SPLIT_DEPTH ==> Self::at_depth(depth, workchain_id, account).wf(),
    {
        if depth <= MAX_SPLIT_DEPTH {
            lemma_shard_at_depth(depth, account);
        }
    }

    /// Whether the shard belongs to the masterchain, in contracts.
    pub open spec fn in_masterchain(self) -> bool {
        self.workchain() == MASTERCHAIN_ID
    }

    /// Whether the two shards share accounts: they are of one workchain, and
    /// one prefix begins with the other.
    pub open spec fn intersects(self, other: ShardIdent) -> bool {
        self.workchain() == other.workchain() && shards_intersect(self.prefix(), other.prefix())
    }

    /// A shard identifier is its workchain and its prefix, nothing more.
    pub proof fn lemma_same_parts_same_shard(a: ShardIdent, b: ShardIdent)
        requires
            a.workchain() == b.workchain(),
            a.prefix() == b.prefix(),
        ensures
            a == b,
    {
    }

    /// The shard of `workchain_id` with the given tagged prefix. Fails with
    /// `InvalidPrefix` exactly when the prefix is not valid.
    pub fn with_tagged_prefix(workchain_id: i32, prefix: u64) -> (r: Result<Self, ShardError>)
        ensures
            prefix_valid(prefix) ==> r.is_ok() && r.unwrap().workchain() == workchain_id
                && r.unwrap().prefix() == prefix,
            !prefix_valid(prefix) ==> r == Err::<Self, ShardError>(ShardError::InvalidPrefix),
    {
        if prefix == 0 || prefix & 7 != 0 {
            Err(ShardError::InvalidPrefix)
        } else {
            Ok(ShardIdent { workchain_id, prefix })
        }
    }

    /// The shard of `workchain_id` with a prefix of `prefix_len` bits that
    /// holds the account prefix `account`. Fails with `SplitDepthExceeded`
    /// exactly when `prefix_len` is over `MAX_SPLIT_DEPTH`.
    pub fn with_prefix_len(prefix_len: u8, workchain_id: i32, account: u64) -> (r: Result<
        Self,
        ShardError,
    >)
        ensures
            prefix_len <= MAX_SPLIT_DEPTH ==> r.is_ok() && r.unwrap().workchain() == workchain_id
                && r.unwrap().prefix() == shard_at_depth(prefix_len, account) && r.unwrap()
                == Self::at_depth(prefix_len, workchain_id, account),
            prefix_len > MAX_SPLIT_DEPTH ==> r == Err::<Self, ShardError>(
                ShardError::SplitDepthExceeded,
            ),
    {
        if prefix_len > MAX_SPLIT_DEPTH {
            return Err(ShardError::SplitDepthExceeded);
        }
        let shift: u64 = (63 - prefix_len) as u64;
        let tag: u64 = 1u64 << shift;
        assert(tag >= 8) by (bit_vector)
            requires
                3 <= shift <= 63,
                tag == 1u64 << shift,
        ;
        let prefix = (account & !(tag | (tag - 1))) | tag;
        proof {
            lemma_shard_at_depth(prefix_len, account);
        }
        Ok(ShardIdent { workchain_id, prefix })
    }

    /// The one shard of the masterchain.
    pub fn masterchain() -> (r: Self)
        ensures
            r.workchain() == MASTERCHAIN_ID,
            r.prefix() == SHARD_FULL,
    {
        assert(prefix_valid(SHARD_FULL)) by (bit_vector);
        ShardIdent { workchain_id: MASTERCHAIN_ID, prefix: SHARD_FULL }
    }

    /// The shard that covers the whole of `workchain_id`.
    pub fn full(workchain_id: i32) -> (r: Self)
        ensures
            r.workchain() == workchain_id,
            r.prefix() == SHARD_FULL,
    {
        assert(prefix_valid(SHARD_FULL)) by (bit_vector);
        ShardIdent { workchain_id, prefix: SHARD_FULL }
    }

    /// The workchain.
    pub fn workchain_id(&self) -> (r: i32)
        ensures
            r == self.workchain(),
    {
        self.workchain_id
    }

    /// The tagged prefix.
    pub fn shard_prefix_with_tag(&self) -> (r: u64)
        ensures
            r == self.prefix(),
            prefix_valid(r),
    {
        proof {
            use_type_invariant(self);
        }
        self.prefix
    }

    /// Whether the shard belongs to the masterchain.
    pub fn is_masterchain(&self) -> (r: bool)
        ensures
            r == self.in_masterchain(),
    {
        self.workchain_id == MASTERCHAIN_ID
    }

    /// Whether the shard covers its whole workchain.
    pub fn is_full(&self) -> (r: bool)
        ensures
            r == (self.prefix() == SHARD_FULL),
    {
        self.prefix == SHARD_FULL
    }

    /// The number of bits in the prefix: the tag stands that many bits below
    /// the top.
    pub fn prefix_len(&self) -> (r: u8)
        ensures
            r <= MAX_SPLIT_DEPTH,
            tag_bit(self.prefix()) == 1u64 << ((63 - r) as u64),
    {
        proof {
            use_type_invariant(self);
        }
        let prefix = self.prefix;
        let tag = prefix & !(prefix - 1);
        let mut len: u8 = 0;
        let mut probe: u64 = SHARD_FULL;
        assert(probe == 1u64 << ((63 - len) as u64) && tag <= probe) by (bit_vector)
            requires
                len == 0,
                probe == 0x8000_0000_0000_0000u64,
                tag == prefix & !((prefix - 1) as u64),
        ;
        while probe != tag
            invariant
                len <= MAX_SPLIT_DEPTH,
                probe == 1u64 << ((63 - len) as u64),
                prefix != 0,
                prefix & 7 == 0,
                tag == prefix & !((prefix - 1) as u64),
                tag <= probe,
            decreases MAX_SPLIT_DEPTH - len,
        {
            let ghost shift = (63 - len) as u64;
            assert(len < 60 && (probe >> 1) == 1u64 << ((shift - 1) as u64) && tag <= (probe >> 1))
                by (bit_vector)
                requires
                    probe == 1u64 << shift,
                    shift == (63 - len) as u64,
                    len <= 60,
                    prefix != 0,
                    prefix & 7 == 0,
                    tag == prefix & !((prefix - 1) as u64),
                    tag <= probe,
                    probe != tag,
            ;
            probe = probe >> 1;
            len = len + 1;
        }
        len
    }

    /// The two halves of the shard, left then right. Fails with
    /// `SplitDepthExceeded` exactly when the prefix already has
    /// `MAX_SPLIT_DEPTH` bits.
    pub fn split(&self) -> (r: Result<(Self, Self), ShardError>)
        ensures
            tag_bit(self.prefix()) > 8 ==> r.is_ok() && r.unwrap().0.workchain()
                == self.workchain() && r.unwrap().1.workchain() == self.workchain()
                && r.unwrap().0.prefix() == left_child(self.prefix()) && r.unwrap().1.prefix()
                == right_child(self.prefix()),
            tag_bit(self.prefix()) <= 8 ==> r == Err::<(Self, Self), ShardError>(
                ShardError::SplitDepthExceeded,
            ),
    {
        proof {
            use_type_invariant(self);
        }
        let prefix = self.prefix;
        let tag = prefix & !(prefix - 1);
        if tag <= 8 {
            return Err(ShardError::SplitDepthExceeded);
        }
        let half = tag >> 1;
        assert(half <= prefix && prefix + half <= u64::MAX && prefix_valid((prefix - half) as u64)
            && prefix_valid((prefix + half) as u64)) by (bit_vector)
            requires
                prefix != 0,
                prefix & 7 == 0,
                tag == prefix & !((prefix - 1) as u64),
                tag > 8,
                half == tag >> 1,
        ;
        Ok(
            (
                ShardIdent { workchain_id: self.workchain_id, prefix: prefix - half },
                ShardIdent { workchain_id: self.workchain_id, prefix: prefix + half },
            ),
        )
    }

    /// Whether the two shards share accounts.
    pub fn intersect_with(&self, other: &ShardIdent) -> (r: bool)
        ensures
            r == self.intersects(*other),
    {
        proof {
            use_type_invariant(self);
            use_type_invariant(other);
        }
        if self.workchain_id != other.workchain_id {
            return false;
        }
        let a = self.prefix;
        let b = other.prefix;
        (a ^ b) & !(a ^ (a - 1)) & !(b ^ (b - 1)) == 0
    }

    /// Whether the account prefix lies in the shard.
    pub fn contains_account_prefix(&self, account: u64) -> (r: bool)
        ensures
            r == shard_contains(self.prefix(), account),
    {
        proof {
            use_type_invariant(self);
        }
        let a = self.prefix;
        (a ^ account) & !(a ^ (a - 1)) == 0
    }
}

/// The number of bytes a shard identifier is stored in: four of the
/// workchain, eight of the tagged prefix.
pub const SHARD_IDENT_SIZE: usize = 12;

impl StoredValue for ShardIdent {
    open spec fn storable(&self) -> bool {
        self.wf()
    }

    /// The workchain, then the tagged prefix, both little-endian.
    open spec fn encoding(&self) -> Seq<u8> {
        i32_le(self.workchain()) + u64_le(self.prefix())
    }

    closed spec fn decoding(data: Seq<u8>) -> Result<Self, StoredValueError> {
        if data.len() < SHARD_IDENT_SIZE {
            Err(StoredValueError::UnexpectedEof)
        } else if !prefix_valid(u64_from_le(data.subrange(4, 12))) {
            Err(StoredValueError::InvalidShardPrefix)
        } else {
            Ok(
                ShardIdent {
                    workchain_id: i32_from_le(data.subrange(0, 4)),
                    prefix: u64_from_le(data.subrange(4, 12)),
                },
            )
        }
    }

    proof fn lemma_decoding_of_encoding(self, rest: Seq<u8>) {
        let data = self.encoding() + rest;
        lemma_i32_roundtrip(self.workchain());
        lemma_u64_roundtrip(self.prefix());
        assert(data.subrange(0, 4) =~= i32_le(self.workchain()));
        assert(data.subrange(4, 12) =~= u64_le(self.prefix()));
    }

    proof fn lemma_encoding_of_decoding(data: Seq<u8>) {
        let v = Self::decoding(data).unwrap();
        lemma_i32_bytes_roundtrip(data.subrange(0, 4));
        lemma_u64_bytes_roundtrip(data.subrange(4, 12));
        assert(v.encoding() =~= data.subrange(0, 12));
    }

    fn serialize(&self, buffer: &mut Vec<u8>) {
        push_i32_le(buffer, self.workchain_id);
        push_u64_le(buffer, self.prefix);
        assert(buffer@ =~= old(buffer)@ + self.encoding());
    }

    fn deserialize(data: &[u8], pos: usize) -> (r: Result<Self, StoredValueError>) {
        let len = data.len();
        if pos > len || len - pos < SHARD_IDENT_SIZE {
            return Err(StoredValueError::UnexpectedEof);
        }
        let workchain_id = read_i32_le(data, pos);
        let prefix = read_u64_le(data, pos + 4);
        proof {
            let rest = data@.skip(pos as int);
            assert(rest.subrange(0, 4) =~= data@.subrange(pos as int, pos + 4));
            assert(rest.subrange(4, 12) =~= data@.subrange(pos + 4, pos + 12));
        }
        if prefix == 0 || prefix & 7 != 0 {
            Err(StoredValueError::InvalidShardPrefix)
        } else {
            Ok(ShardIdent { workchain_id, prefix })
        }
    }
}

impl ShardIdent {
    /// What decoding gives, in terms of the bytes: it fails on fewer than
    /// `SHARD_IDENT_SIZE` bytes, then on a prefix that is not valid, and
    /// else reads the workchain and the prefix.
    pub proof fn lemma_decoding(data: Seq<u8>)
        ensures
            data.len() < SHARD_IDENT_SIZE ==> Self::decoding(data) == Err::<
                Self,
                StoredValueError,
            >(StoredValueError::UnexpectedEof),
            data.len() >= SHARD_IDENT_SIZE && !prefix_valid(u64_from_le(data.subrange(4, 12)))
                ==> Self::decoding(data) == Err::<Self, StoredValueError>(
                StoredValueError::InvalidShardPrefix,
            ),
            data.len() >= SHARD_IDENT_SIZE && prefix_valid(u64_from_le(data.subrange(4, 12)))
                ==> Self::decoding(data) is Ok && Self::decoding(data).unwrap().workchain()
                == i32_from_le(data.subrange(0, 4)) && Self::decoding(data).unwrap().prefix()
                == u64_from_le(data.subrange(4, 12)),
            Self::decoding(data) is Ok ==> Self::decoding(data).unwrap().encoding().len()
                == SHARD_IDENT_SIZE,
    {
        lemma_i32_roundtrip(i32_from_le(data.subrange(0, 4)));
        lemma_u64_roundtrip(u64_from_le(data.subrange(4, 12)));
    }

    /// The stored form is `SHARD_IDENT_SIZE` bytes long.
    pub proof fn lemma_encoding_len(self)
        ensures
            self.encoding().len() == SHARD_IDENT_SIZE,
    {
        lemma_i32_roundtrip(self.workchain());
        lemma_u64_roundtrip(self.prefix());
    }
}

impl Default for ShardIdent {
    /// The full shard of the base workchain.
    fn default() -> (r: Self)
        ensures
            r.workchain() == BASE_WORKCHAIN_ID,
            r.prefix() == SHARD_FULL,
    {
        ShardIdent::full(BASE_WORKCHAIN_ID)
    }
}

} // verus!
