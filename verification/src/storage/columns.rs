//! The columns of the key-value store, and how archive fragments are merged.

use crate::codec::push_bytes;
use vstd::prelude::*;

verus! {

/// The four bytes that every archive begins with.
pub const ARCHIVE_PREFIX: [u8; 4] = [0x01, 0xdd, 0x8f, 0xae];

/// A column of the key-value store.
pub trait Column {
    /// The name of the column, in contracts.
    spec fn column_name() -> Seq<char>;

    /// Whether the column's filters are tuned for lookups that mostly hit.
    spec fn tuned_for_hits() -> bool;

    /// Whether values written to one key of the column are merged by
    /// `archive_data_merge`.
    spec fn merges_archive_data() -> bool;

    /// The name of the column.
    fn name() -> (r: &'static str)
        ensures
            r@ == Self::column_name(),
    ;

    /// Whether the column's filters are tuned for lookups that mostly hit.
    fn optimize_filters_for_hits() -> (r: bool)
        ensures
            r == Self::tuned_for_hits(),
    ;

    /// Whether values written to one key of the column are merged by
    /// `archive_data_merge`.
    fn uses_archive_data_merge() -> (r: bool)
        ensures
            r == Self::merges_archive_data(),
    ;
}

/// Maps an archive id to the archive, which grows by merging.
pub struct ArchiveStorage;

impl Column for ArchiveStorage {
    open spec fn column_name() -> Seq<char> {
        "archive_storage"@
    }

    open spec fn tuned_for_hits() -> bool {
        false
    }

    open spec fn merges_archive_data() -> bool {
        true
    }

    fn name() -> (r: &'static str) {
        "archive_storage"
    }

    fn optimize_filters_for_hits() -> (r: bool) {
        false
    }

    fn uses_archive_data_merge() -> (r: bool) {
        true
    }
}

/// Maps a block's root hash to the block's meta.
pub struct BlockHandles;

impl Column for BlockHandles {
    open spec fn column_name() -> Seq<char> {
        "block_handles"@
    }

    open spec fn tuned_for_hits() -> bool {
        false
    }

    open spec fn merges_archive_data() -> bool {
        false
    }

    fn name() -> (r: &'static str) {
        "block_handles"
    }

    fn optimize_filters_for_hits() -> (r: bool) {
        false
    }

    fn uses_archive_data_merge() -> (r: bool) {
        false
    }
}

/// Maps a sequence number to the key block of that number.
pub struct KeyBlocks;

impl Column for KeyBlocks {
    open spec fn column_name() -> Seq<char> {
        "key_blocks"@
    }

    open spec fn tuned_for_hits() -> bool {
        false
    }

    open spec fn merges_archive_data() -> bool {
        false
    }

    fn name() -> (r: &'static str) {
        "key_blocks"
    }

    fn optimize_filters_for_hits() -> (r: bool) {
        false
    }

    fn uses_archive_data_merge() -> (r: bool) {
        false
    }
}

/// Maps a block id to data of the block.
pub struct ArchiveManagerDb;

impl Column for ArchiveManagerDb {
    open spec fn column_name() -> Seq<char> {
        "archive"@
    }

    open spec fn tuned_for_hits() -> bool {
        true
    }

    open spec fn merges_archive_data() -> bool {
        false
    }

    fn name() -> (r: &'static str) {
        "archive"
    }

    fn optimize_filters_for_hits() -> (r: bool) {
        true
    }

    fn uses_archive_data_merge() -> (r: bool) {
        false
    }
}

/// Maps a shard and a sequence number to the root of the shard state.
pub struct ShardStateDb;

impl Column for ShardStateDb {
    open spec fn column_name() -> Seq<char> {
        "shard_state_db"@
    }

    open spec fn tuned_for_hits() -> bool {
        false
    }

    open spec fn merges_archive_data() -> bool {
        false
    }

    fn name() -> (r: &'static str) {
        "shard_state_db"
    }

    fn optimize_filters_for_hits() -> (r: bool) {
        false
    }

    fn uses_archive_data_merge() -> (r: bool) {
        false
    }
}

/// Maps a representation hash to the record of the cell. There are two
/// such columns: number 0, and number 1 beside it.
pub struct CellDb<const N: u8>;

impl Column for CellDb<0> {
    open spec fn column_name() -> Seq<char> {
        "cell_db"@
    }

    open spec fn tuned_for_hits() -> bool {
        true
    }

    open spec fn merges_archive_data() -> bool {
        false
    }

    fn name() -> (r: &'static str) {
        "cell_db"
    }

    fn optimize_filters_for_hits() -> (r: bool) {
        true
    }

    fn uses_archive_data_merge() -> (r: bool) {
        false
    }
}

impl Column for CellDb<1> {
    open spec fn column_name() -> Seq<char> {
        "cell_db_additional"@
    }

    open spec fn tuned_for_hits() -> bool {
        true
    }

    open spec fn merges_archive_data() -> bool {
        false
    }

    fn name() -> (r: &'static str) {
        "cell_db_additional"
    }

    fn optimize_filters_for_hits() -> (r: bool) {
        true
    }

    fn uses_archive_data_merge() -> (r: bool) {
        false
    }
}

/// Holds the node's own state.
pub struct NodeState;

impl Column for NodeState {
    open spec fn column_name() -> Seq<char> {
        "node_state"@
    }

    open spec fn tuned_for_hits() -> bool {
        false
    }

    open spec fn merges_archive_data() -> bool {
        false
    }

    fn name() -> (r: &'static str) {
        "node_state"
    }

    fn optimize_filters_for_hits() -> (r: bool) {
        false
    }

    fn uses_archive_data_merge() -> (r: bool) {
        false
    }
}

/// Maps a shard to the summary of its part of the block index.
pub struct LtDesc;

impl Column for LtDesc {
    open spec fn column_name() -> Seq<char> {
        "lt_desc"@
    }

    open spec fn tuned_for_hits() -> bool {
        false
    }

    open spec fn merges_archive_data() -> bool {
        false
    }

    fn name() -> (r: &'static str) {
        "lt_desc"
    }

    fn optimize_filters_for_hits() -> (r: bool) {
        false
    }

    fn uses_archive_data_merge() -> (r: bool) {
        false
    }
}

/// Maps a shard and an index to an entry of the block index.
pub struct Lt;

impl Column for Lt {
    open spec fn column_name() -> Seq<char> {
        "lt"@
    }

    open spec fn tuned_for_hits() -> bool {
        false
    }

    open spec fn merges_archive_data() -> bool {
        false
    }

    fn name() -> (r: &'static str) {
        "lt"
    }

    fn optimize_filters_for_hits() -> (r: bool) {
        false
    }

    fn uses_archive_data_merge() -> (r: bool) {
        false
    }
}

/// Maps a block to its first predecessor.
pub struct Prev1;

impl Column for Prev1 {
    open spec fn column_name() -> Seq<char> {
        "prev1"@
    }

    open spec fn tuned_for_hits() -> bool {
        false
    }

    open spec fn merges_archive_data() -> bool {
        false
    }

    fn name() -> (r: &'static str) {
        "prev1"
    }

    fn optimize_filters_for_hits() -> (r: bool) {
        false
    }

    fn uses_archive_data_merge() -> (r: bool) {
        false
    }
}

/// Maps a block to its second predecessor.
pub struct Prev2;

impl Column for Prev2 {
    open spec fn column_name() -> Seq<char> {
        "prev2"@
    }

    open spec fn tuned_for_hits() -> bool {
        false
    }

    open spec fn merges_archive_data() -> bool {
        false
    }

    fn name() -> (r: &'static str) {
        "prev2"
    }

    fn optimize_filters_for_hits() -> (r: bool) {
        false
    }

    fn uses_archive_data_merge() -> (r: bool) {
        false
    }
}

/// Maps a block to its first successor.
pub struct Next1;

impl Column for Next1 {
    open spec fn column_name() -> Seq<char> {
        "next1"@
    }

    open spec fn tuned_for_hits() -> bool {
        false
    }

    open spec fn merges_archive_data() -> bool {
        false
    }

    fn name() -> (r: &'static str) {
        "next1"
    }

    fn optimize_filters_for_hits() -> (r: bool) {
        false
    }

    fn uses_archive_data_merge() -> (r: bool) {
        false
    }
}

/// Maps a block to its second successor.
pub struct Next2;

impl Column for Next2 {
    open spec fn column_name() -> Seq<char> {
        "next2"@
    }

    open spec fn tuned_for_hits() -> bool {
        false
    }

    open spec fn merges_archive_data() -> bool {
        false
    }

    fn name() -> (r: &'static str) {
        "next2"
    }

    fn optimize_filters_for_hits() -> (r: bool) {
        false
    }

    fn uses_archive_data_merge() -> (r: bool) {
        false
    }
}

/// Holds the cursors of the background sync.
pub struct BackgroundSyncMeta;

impl Column for BackgroundSyncMeta {
    open spec fn column_name() -> Seq<char> {
        "background_sync_meta"@
    }

    open spec fn tuned_for_hits() -> bool {
        false
    }

    open spec fn merges_archive_data() -> bool {
        false
    }

    fn name() -> (r: &'static str) {
        "background_sync_meta"
    }

    fn optimize_filters_for_hits() -> (r: bool) {
        false
    }

    fn uses_archive_data_merge() -> (r: bool) {
        false
    }
}

/// Whether `data` begins with the archive prefix.
pub open spec fn has_archive_prefix(data: Seq<u8>) -> bool {
    data.len() >= 4 && data.subrange(0, 4) == ARCHIVE_PREFIX@
}

/// An archive fragment without the archive prefix, if it has one.
pub open spec fn fragment_body(data: Seq<u8>) -> Seq<u8> {
    if has_archive_prefix(data) {
        data.subrange(4, data.len() as int)
    } else {
        data
    }
}

/// The bodies of the first `n` fragments, one after the other.
pub open spec fn fragment_bodies(operands: Seq<Vec<u8>>, n: int) -> Seq<u8>
    decreases n,
{
    if n <= 0 {
        Seq::empty()
    } else {
        fragment_bodies(operands, n - 1) + fragment_body(operands[n - 1]@)
    }
}

/// What merging gives: the value that is there, or the archive prefix if
/// there is none, and then the body of every fragment.
pub open spec fn merged_archive(current: Option<Seq<u8>>, operands: Seq<Vec<u8>>) -> Seq<u8> {
    (match current {
        Some(value) => value,
        None => ARCHIVE_PREFIX@,
    }) + fragment_bodies(operands, operands.len() as int)
}

/// An archive merged from nothing begins with the archive prefix, and if
/// what is there begins with it, so does what comes out.
pub proof fn lemma_merged_archive_has_prefix(current: Option<Seq<u8>>, operands: Seq<Vec<u8>>)
    requires
        current is Some ==> has_archive_prefix(current.unwrap()),
    ensures
        has_archive_prefix(merged_archive(current, operands)),
{
    let head = match current {
        Some(value) => value,
        None => ARCHIVE_PREFIX@,
    };
    assert(merged_archive(current, operands).subrange(0, 4) =~= head.subrange(0, 4));
    assert(ARCHIVE_PREFIX@.subrange(0, 4) =~= ARCHIVE_PREFIX@);
}

/// Whether `data` begins with the archive prefix.
fn starts_with_archive_prefix(data: &[u8]) -> (r: bool)
    ensures
        r == has_archive_prefix(data@),
{
    if data.len() < 4 {
        return false;
    }
    let r = data[0] == ARCHIVE_PREFIX[0] && data[1] == ARCHIVE_PREFIX[1] && data[2]
        == ARCHIVE_PREFIX[2] && data[3] == ARCHIVE_PREFIX[3];
    proof {
        if r {
            assert(data@.subrange(0, 4) =~= ARCHIVE_PREFIX@);
        } else {
            assert(data@.subrange(0, 4)[0] == data@[0]);
            assert(data@.subrange(0, 4)[1] == data@[1]);
            assert(data@.subrange(0, 4)[2] == data@[2]);
            assert(data@.subrange(0, 4)[3] == data@[3]);
        }
    }
    r
}

/// Merges archive fragments into the value of one key: the value that is
/// there, or the archive prefix if there is none, is followed by every
/// fragment, each without the archive prefix if it has one.
pub fn archive_data_merge(current_value: Option<&[u8]>, operands: &Vec<Vec<u8>>) -> (r: Option<
    Vec<u8>,
>)
    ensures
        r is Some,
        r.unwrap()@ == merged_archive(
            match current_value {
                Some(value) => Some(value@),
                None => None,
            },
            operands@,
        ),
{
    let mut result: Vec<u8> = Vec::new();
    match current_value {
        Some(value) => push_bytes(&mut result, value),
        None => push_bytes(&mut result, ARCHIVE_PREFIX.as_slice()),
    }
    let ghost head = result@;
    let mut i: usize = 0;
    while i < operands.len()
        invariant
            i <= operands@.len(),
            result@ == head + fragment_bodies(operands@, i as int),
        decreases operands@.len() - i,
    {
        let data = operands[i].as_slice();
        if starts_with_archive_prefix(data) {
            push_bytes(&mut result, &data[4..data.len()]);
        } else {
            push_bytes(&mut result, data);
        }
        i += 1;
        assert(result@ =~= head + fragment_bodies(operands@, i as int));
    }
    Some(result)
}

} // verus!
