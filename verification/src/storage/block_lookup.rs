//! Looking a block up in the block index.
//!
//! The index of a shard is searched by halving; the shards that hold an
//! account are gone through from the whole workchain down to the deepest
//! one. The lookup reads nothing itself: it says which summary or entry it
//! needs next, and is handed what was found.

use crate::block_id::BlockIdExt;
use crate::shard::{ShardIdent, MAX_SPLIT_DEPTH};
use crate::storage::block_index_db::{
    AccountIdPrefixFull, BlockIndexDb, BlockIndexDbError, LookupTarget, LtDbEntry, LtDbKeyOwned,
    LtDesc, Position,
};
use vstd::prelude::*;

verus! {

/// What a lookup needs next, or what it found.
#[derive(Clone, Copy, Debug)]
pub enum LookupAction {
    /// The summary of this shard is needed.
    LoadDesc(ShardIdent),
    /// The entry under this key is needed.
    LoadEntry(LtDbKeyOwned),
    /// The lookup is over.
    Finished(Result<BlockIdExt, BlockIndexDbError>),
}

/// The search within one shard: the target lies after the entry numbered
/// `first_index`, if that was probed, and before the one numbered
/// `last_index`.
#[derive(Clone, Copy, Debug)]
pub struct ShardSearch {
    /// The shard that is searched.
    pub shard: ShardIdent,
    /// The lowest number that may hold the target.
    pub first_index: u64,
    /// The number above the highest that may hold the target.
    pub last_index: u64,
    /// The block of the highest entry probed that lies before the target.
    pub first_block_id: Option<BlockIdExt>,
    /// The block of the lowest entry probed that lies after the target.
    pub last_block_id: Option<BlockIdExt>,
    /// The number probed last; `u64::MAX` before the first probe.
    pub previous_index: u64,
}

impl ShardSearch {
    /// The search of a shard with summary `desc`, before any probe.
    pub open spec fn begin(shard: ShardIdent, desc: LtDesc) -> ShardSearch {
        ShardSearch {
            shard,
            first_index: desc.first_index as u64,
            last_index: (desc.last_index + 1) as u64,
            first_block_id: None,
            last_block_id: None,
            previous_index: u64::MAX,
        }
    }

    /// The number in the middle of the range.
    pub open spec fn middle(self) -> u64 {
        (self.first_index + (self.last_index - self.first_index) / 2) as u64
    }

    /// The number to probe next: the middle of the range, unless the range is
    /// empty or its middle was probed last.
    pub open spec fn probe(self) -> Option<u64> {
        if self.last_index > self.first_index && self.middle() != self.previous_index {
            Some(self.middle())
        } else {
            None
        }
    }

    /// The search after the entry at the middle was found to lie at
    /// `position` relative to the target.
    pub open spec fn narrowed(self, position: Position, block_id: BlockIdExt) -> ShardSearch {
        match position {
            Position::Less => ShardSearch {
                last_block_id: Some(block_id),
                last_index: self.middle(),
                previous_index: self.middle(),
                ..self
            },
            _ => ShardSearch {
                first_block_id: Some(block_id),
                first_index: self.middle(),
                previous_index: self.middle(),
                ..self
            },
        }
    }

    /// The range lies within the numbers that fit in 32 bits.
    pub open spec fn wf(self) -> bool {
        self.last_index <= u32::MAX + 1
    }

    /// A probe lies within the range, and every probe but a repeated one
    /// makes the range shorter.
    pub proof fn lemma_probe_narrows(self, position: Position, block_id: BlockIdExt)
        requires
            self.wf(),
            self.probe() is Some,
        ensures
            self.first_index <= self.probe().unwrap() < self.last_index,
            self.probe().unwrap() <= u32::MAX,
            self.narrowed(position, block_id).wf(),
            self.narrowed(position, block_id).last_index - self.narrowed(
                position,
                block_id,
            ).first_index <= self.last_index - self.first_index,
            position == Position::Less || self.middle() > self.first_index ==> self.narrowed(
                position,
                block_id,
            ).last_index - self.narrowed(position, block_id).first_index < self.last_index
                - self.first_index,
            self.narrowed(position, block_id).first_index >= self.first_index,
            self.narrowed(position, block_id).last_index <= self.last_index,
    {
    }
}

/// Whether the entries numbered from `lo` up to, not including, `hi` stand
/// in the order of what the target is held against: behind an entry that
/// the target does not lie after, the target lies before every entry.
pub open spec fn sorted_for(
    row: spec_fn(u64) -> LtDbEntry,
    target: LookupTarget,
    lo: u64,
    hi: u64,
) -> bool {
    forall|i: u64, j: u64|
        lo <= i < j < hi && #[trigger] target.against_entry(row(i)) != Position::Greater
            ==> #[trigger] target.against_entry(row(j)) == Position::Less
}

/// How the search of a shard ends when every probe is answered by `row`:
/// with the block of the entry that is the target's, if a probe meets it,
/// and the search as it stands then.
pub open spec fn search_end(
    row: spec_fn(u64) -> LtDbEntry,
    target: LookupTarget,
    search: ShardSearch,
) -> (Option<BlockIdExt>, ShardSearch)
    decreases
            search.last_index - search.first_index,
            if search.probe() is Some {
                1int
            } else {
                0int
            },
{
    match search.probe() {
        None => (None, search),
        Some(index) => {
            let position = target.against_entry(row(index));
            if position == Position::Equal {
                (Some(row(index).block_id_ext), search)
            } else {
                search_end(row, target, search.narrowed(position, row(index).block_id_ext))
            }
        },
    }
}

/// Whether a search is on its way from the range `lo` up to `hi`: the target
/// lies after every entry before the range and before every entry behind
/// it, and the two blocks it keeps are those of the entries at its ends.
pub open spec fn search_between(
    row: spec_fn(u64) -> LtDbEntry,
    target: LookupTarget,
    search: ShardSearch,
    lo: u64,
    hi: u64,
) -> bool {
    &&& lo <= search.first_index <= search.last_index <= hi
    &&& forall|i: u64|
        lo <= i < search.first_index ==> #[trigger] target.against_entry(row(i))
            == Position::Greater
    &&& forall|i: u64|
        search.last_index <= i < hi ==> #[trigger] target.against_entry(row(i)) == Position::Less
    &&& match search.first_block_id {
        Some(block) => search.first_index < search.last_index && target.against_entry(
            row(search.first_index),
        ) == Position::Greater && block == row(search.first_index).block_id_ext,
        None => search.first_index == lo,
    }
    &&& match search.last_block_id {
        Some(block) => search.last_index < hi && block == row(search.last_index).block_id_ext,
        None => search.last_index == hi,
    }
    &&& search.previous_index == u64::MAX || search.previous_index == search.first_index
        || search.previous_index == search.last_index
    &&& search.previous_index == search.first_index && search.first_index < search.last_index
        ==> search.first_block_id is Some
    &&& hi < u64::MAX
}

/// Searching a shard by halving is right. Over entries that stand in order,
/// the search ends with the block of the entry that is the target's if
/// there is one in the range. If there is none, it ends with the two
/// entries next to each other between which the target lies: it keeps the
/// block of the last entry before the target, if the range holds one, and
/// the block of the first entry behind it, if the range holds one.
pub proof fn lemma_search_by_halving(
    row: spec_fn(u64) -> LtDbEntry,
    target: LookupTarget,
    search: ShardSearch,
    lo: u64,
    hi: u64,
)
    requires
        sorted_for(row, target, lo, hi),
        search_between(row, target, search, lo, hi),
    ensures
        ({
            let (found, end) = search_end(row, target, search);
            &&& search_between(row, target, end, lo, hi)
            &&& match found {
                Some(block) => exists|i: u64|
                    lo <= i < hi && #[trigger] target.against_entry(row(i)) == Position::Equal
                        && block == row(i).block_id_ext,
                None => {
                    &&& forall|i: u64|
                        lo <= i < hi ==> #[trigger] target.against_entry(row(i))
                            != Position::Equal
                    &&& forall|i: u64|
                        lo <= i < hi && #[trigger] target.against_entry(row(i))
                            == Position::Greater ==> end.first_block_id is Some && i
                            <= end.first_index
                    &&& forall|i: u64|
                        lo <= i < hi && #[trigger] target.against_entry(row(i)) == Position::Less
                            ==> end.last_block_id is Some && end.last_index <= i
                    &&& end.first_block_id is Some ==> end.last_index == end.first_index + 1
                    &&& end.first_block_id is None ==> end.last_index == lo
                },
            }
        }),
    decreases
            search.last_index - search.first_index,
            if search.probe() is Some {
                1int
            } else {
                0int
            },
{
    match search.probe() {
        None => {
            let first = search.first_index;
            let last = search.last_index;
            if last > first {
                assert(search.middle() == search.previous_index);
                assert(first <= search.middle() < last);
                assert(search.previous_index == first);
                assert(last == first + 1);
            }
            assert forall|i: u64| lo <= i < hi implies #[trigger] target.against_entry(row(i))
                != Position::Equal by {
                if first <= i < last {
                    assert(i == first);
                }
            }
        },
        Some(index) => {
            let position = target.against_entry(row(index));
            assert(search.first_index <= index < search.last_index);
            if position != Position::Equal {
                let next = search.narrowed(position, row(index).block_id_ext);
                if position == Position::Less {
                    assert forall|i: u64| next.last_index <= i < hi implies #[trigger] target.against_entry(
                        row(i),
                    ) == Position::Less by {
                        if i > index && i < search.last_index {
                            assert(target.against_entry(row(index)) != Position::Greater);
                        }
                    }
                    if search.first_block_id is Some {
                        assert(index != search.first_index);
                    }
                } else {
                    assert forall|i: u64| lo <= i < next.first_index implies #[trigger] target.against_entry(
                        row(i),
                    ) == Position::Greater by {
                        if i >= search.first_index {
                            if target.against_entry(row(i)) != Position::Greater {
                                assert(target.against_entry(row(index)) == Position::Less);
                            }
                        }
                    }
                }
                assert(search_between(row, target, next, lo, hi));
                lemma_search_by_halving(row, target, next, lo, hi);
            }
        },
    }
}

/// The search of a shard with summary `desc` begins between its first and
/// its last entry.
pub proof fn lemma_search_begins(
    row: spec_fn(u64) -> LtDbEntry,
    target: LookupTarget,
    shard: ShardIdent,
    desc: LtDesc,
)
    requires
        desc.first_index <= desc.last_index + 1,
    ensures
        search_between(
            row,
            target,
            ShardSearch::begin(shard, desc),
            desc.first_index as u64,
            (desc.last_index + 1) as u64,
        ),
{
}

/// A lookup in the block index.
#[derive(Clone, Copy, Debug)]
pub struct BlockLookup {
    /// The account whose shards are searched.
    pub account: AccountIdPrefixFull,
    /// What is looked for.
    pub target: LookupTarget,
    /// Whether only a block that is the target's answers the lookup.
    pub exact: bool,
    /// The length of the prefix of the shard that is searched.
    pub prefix_len: u8,
    /// Whether a shard with a summary was met.
    pub found: bool,
    /// The block after the target with the lowest sequence number met.
    pub result: Option<BlockIdExt>,
    /// The highest sequence number met of a block before the target.
    pub index_range_begin: u32,
    /// The search within the shard, once its summary is known.
    pub search: Option<ShardSearch>,
}

impl BlockLookup {
    /// The shard that is searched.
    pub open spec fn shard(self) -> ShardIdent {
        ShardIdent::at_depth(self.prefix_len, self.account.workchain_id, self.account.prefix)
    }

    /// The lookup is in order: the shard searched is no deeper than a shard
    /// can be, and a search within it is in order and waits for a probe.
    pub open spec fn wf(self) -> bool {
        &&& self.prefix_len <= MAX_SPLIT_DEPTH
        &&& match self.search {
            Some(search) => search.wf() && search.shard == self.shard() && search.probe()
                is Some,
            None => true,
        }
    }

    /// The lookup before anything was read, and what it needs first: the
    /// summary of the shard that is the whole workchain.
    pub open spec fn begin(account: AccountIdPrefixFull, target: LookupTarget, exact: bool) -> (
        BlockLookup,
        LookupAction,
    ) {
        let lookup = BlockLookup {
            account,
            target,
            exact,
            prefix_len: 0,
            found: false,
            result: None,
            index_range_begin: 0,
            search: None,
        };
        (lookup, LookupAction::LoadDesc(lookup.shard()))
    }

    /// What the lookup answers when no shard is left: the block after the
    /// target, unless only the target's block will do.
    pub open spec fn last_word(self) -> Result<BlockIdExt, BlockIndexDbError> {
        match self.result {
            Some(result) => if !self.exact {
                Ok(result)
            } else {
                Err(BlockIndexDbError::BlockNotFound)
            },
            None => Err(BlockIndexDbError::BlockNotFound),
        }
    }

    /// The lookup on its way to the next deeper shard, or over if there is
    /// none.
    pub open spec fn deeper(self) -> (BlockLookup, LookupAction) {
        if self.prefix_len >= MAX_SPLIT_DEPTH {
            (BlockLookup { search: None, ..self }, LookupAction::Finished(self.last_word()))
        } else {
            let next = BlockLookup {
                prefix_len: (self.prefix_len + 1) as u8,
                search: None,
                ..self
            };
            (next, LookupAction::LoadDesc(next.shard()))
        }
    }

    /// The lookup with the bounds that the search of a shard gave: the
    /// block after the target with the lowest sequence number, and the
    /// highest sequence number of a block before the target.
    pub open spec fn merged(self, search: ShardSearch) -> BlockLookup {
        let result = match search.last_block_id {
            Some(last) => match self.result {
                Some(result) => if result.seq_no > last.seq_no {
                    Some(last)
                } else {
                    Some(result)
                },
                None => Some(last),
            },
            None => self.result,
        };
        let index_range_begin = match search.first_block_id {
            Some(first) => if self.index_range_begin < first.seq_no {
                first.seq_no
            } else {
                self.index_range_begin
            },
            None => self.index_range_begin,
        };
        BlockLookup { result, index_range_begin, search: None, ..self }
    }

    /// The lookup after the search of a shard ended: it is over if the two
    /// bounds are next to each other, and else goes on with the next deeper
    /// shard.
    pub open spec fn past_shard(self, search: ShardSearch) -> (BlockLookup, LookupAction) {
        let merged = self.merged(search);
        match merged.result {
            Some(result) => if result.seq_no == merged.index_range_begin + 1 {
                (
                    merged,
                    LookupAction::Finished(
                        if self.exact {
                            Err(BlockIndexDbError::BlockNotFound)
                        } else {
                            Ok(result)
                        },
                    ),
                )
            } else {
                merged.deeper()
            },
            None => merged.deeper(),
        }
    }

    /// The lookup with the search `search` of its shard under way: the next
    /// probe, or the end of the search.
    pub open spec fn searching(self, search: ShardSearch) -> (BlockLookup, LookupAction) {
        match search.probe() {
            Some(index) => (
                BlockLookup { search: Some(search), ..self },
                LookupAction::LoadEntry(
                    LtDbKeyOwned { shard_ident: search.shard, index: index as u32 },
                ),
            ),
            None => self.past_shard(search),
        }
    }

    /// What the summary of the shard makes of the lookup. A shard without a
    /// summary ends the lookup if a shard with one was met, fails it if none
    /// was met in the masterchain, and else is passed over, as is a shard
    /// whose last block lies before the target.
    pub open spec fn with_desc(self, desc: Option<LtDesc>) -> (BlockLookup, LookupAction) {
        match desc {
            None => if self.found {
                (self, LookupAction::Finished(self.last_word()))
            } else if self.shard().in_masterchain() {
                (self, LookupAction::Finished(Err(BlockIndexDbError::BlockNotFound)))
            } else {
                self.deeper()
            },
            Some(desc) => {
                let found = BlockLookup { found: true, ..self };
                if self.target.against_desc(desc) == Position::Greater {
                    found.deeper()
                } else {
                    found.searching(ShardSearch::begin(self.shard(), desc))
                }
            },
        }
    }

    /// What the entry that was probed makes of the lookup. The entry of the
    /// target ends it, another narrows the search; an entry that is not
    /// there fails it.
    pub open spec fn with_entry(self, entry: Option<LtDbEntry>) -> (BlockLookup, LookupAction) {
        match (self.search, entry) {
            (Some(search), Some(entry)) => {
                let position = self.target.against_entry(entry);
                if position == Position::Equal {
                    (self, LookupAction::Finished(Ok(entry.block_id_ext)))
                } else {
                    self.searching(search.narrowed(position, entry.block_id_ext))
                }
            },
            _ => (self, LookupAction::Finished(Err(BlockIndexDbError::LtDbEntryNotFound))),
        }
    }
}

impl BlockLookup {
    /// Begins a lookup. Returns the lookup and what it needs first.
    pub fn new(account: AccountIdPrefixFull, target: LookupTarget, exact: bool) -> (r: (
        BlockLookup,
        LookupAction,
    ))
        ensures
            r == Self::begin(account, target, exact),
            r.0.wf(),
    {
        let lookup = BlockLookup {
            account,
            target,
            exact,
            prefix_len: 0,
            found: false,
            result: None,
            index_range_begin: 0,
            search: None,
        };
        let shard = lookup.current_shard();
        (lookup, LookupAction::LoadDesc(shard))
    }

    /// The shard that is searched.
    fn current_shard(&self) -> (r: ShardIdent)
        requires
            self.prefix_len <= MAX_SPLIT_DEPTH,
        ensures
            r == self.shard(),
    {
        match ShardIdent::with_prefix_len(
            self.prefix_len,
            self.account.workchain_id,
            self.account.prefix,
        ) {
            Ok(shard) => shard,
            Err(_) => ShardIdent::masterchain(),
        }
    }

    /// What the lookup answers when no shard is left.
    fn final_answer(&self) -> (r: Result<BlockIdExt, BlockIndexDbError>)
        ensures
            r == self.last_word(),
    {
        match self.result {
            Some(result) => if !self.exact {
                Ok(result)
            } else {
                Err(BlockIndexDbError::BlockNotFound)
            },
            None => Err(BlockIndexDbError::BlockNotFound),
        }
    }

    /// Goes on with the next deeper shard, or ends the lookup if there is
    /// none.
    fn go_deeper(self) -> (r: (BlockLookup, LookupAction))
        requires
            self.prefix_len <= MAX_SPLIT_DEPTH,
        ensures
            r == self.deeper(),
            r.0.wf(),
    {
        if self.prefix_len >= MAX_SPLIT_DEPTH {
            let answer = self.final_answer();
            (BlockLookup { search: None, ..self }, LookupAction::Finished(answer))
        } else {
            let next = BlockLookup { prefix_len: self.prefix_len + 1, search: None, ..self };
            let shard = next.current_shard();
            (next, LookupAction::LoadDesc(shard))
        }
    }

    /// Takes the bounds that the search of a shard gave, and ends the lookup
    /// or goes on with the next deeper shard.
    fn after_shard(self, search: ShardSearch) -> (r: (BlockLookup, LookupAction))
        requires
            self.prefix_len <= MAX_SPLIT_DEPTH,
        ensures
            r == self.past_shard(search),
            r.0.wf(),
    {
        let result = match search.last_block_id {
            Some(last) => match self.result {
                Some(result) => if result.seq_no > last.seq_no {
                    Some(last)
                } else {
                    Some(result)
                },
                None => Some(last),
            },
            None => self.result,
        };
        let index_range_begin = match search.first_block_id {
            Some(first) => if self.index_range_begin < first.seq_no {
                first.seq_no
            } else {
                self.index_range_begin
            },
            None => self.index_range_begin,
        };
        let merged = BlockLookup { result, index_range_begin, search: None, ..self };
        match merged.result {
            Some(result) => if result.seq_no as u64 == merged.index_range_begin as u64 + 1 {
                let answer = if self.exact {
                    Err(BlockIndexDbError::BlockNotFound)
                } else {
                    Ok(result)
                };
                (merged, LookupAction::Finished(answer))
            } else {
                merged.go_deeper()
            },
            None => merged.go_deeper(),
        }
    }

    /// Asks for the next probe of the search, or ends the search.
    fn search_on(self, search: ShardSearch) -> (r: (BlockLookup, LookupAction))
        requires
            self.prefix_len <= MAX_SPLIT_DEPTH,
            search.wf(),
            search.shard == self.shard(),
        ensures
            r == self.searching(search),
            r.0.wf(),
    {
        if search.last_index > search.first_index {
            let middle = search.first_index + (search.last_index - search.first_index) / 2;
            if middle != search.previous_index {
                return (
                    BlockLookup { search: Some(search), ..self },
                    LookupAction::LoadEntry(
                        LtDbKeyOwned { shard_ident: search.shard, index: middle as u32 },
                    ),
                );
            }
        }
        self.after_shard(search)
    }

    /// Hands the lookup the summary of the shard it asked for, or `None` if
    /// the shard has none. Returns the lookup and what it needs next.
    pub fn on_desc(self, desc: Option<LtDesc>) -> (r: (BlockLookup, LookupAction))
        requires
            self.wf(),
        ensures
            r == self.with_desc(desc),
            r.0.wf(),
    {
        let shard = self.current_shard();
        match desc {
            None => if self.found {
                let answer = self.final_answer();
                (self, LookupAction::Finished(answer))
            } else if shard.is_masterchain() {
                (self, LookupAction::Finished(Err(BlockIndexDbError::BlockNotFound)))
            } else {
                self.go_deeper()
            },
            Some(desc) => {
                let found = BlockLookup { found: true, ..self };
                match self.target.compare_lt_desc(&desc) {
                    Position::Greater => found.go_deeper(),
                    _ => {
                        let search = ShardSearch {
                            shard,
                            first_index: desc.first_index as u64,
                            last_index: desc.last_index as u64 + 1,
                            first_block_id: None,
                            last_block_id: None,
                            previous_index: u64::MAX,
                        };
                        found.search_on(search)
                    },
                }
            },
        }
    }

    /// Hands the lookup the entry it asked for, or `None` if there is none
    /// under that key. Returns the lookup and what it needs next.
    pub fn on_entry(self, entry: Option<LtDbEntry>) -> (r: (BlockLookup, LookupAction))
        requires
            self.wf(),
        ensures
            r == self.with_entry(entry),
            r.0.wf(),
    {
        match (self.search, entry) {
            (Some(search), Some(entry)) => {
                let middle = search.first_index + (search.last_index - search.first_index) / 2;
                match self.target.compare_lt_entry(&entry) {
                    Position::Equal => (self, LookupAction::Finished(Ok(entry.block_id_ext))),
                    Position::Less => {
                        self.search_on(
                            ShardSearch {
                                last_block_id: Some(entry.block_id_ext),
                                last_index: middle,
                                previous_index: middle,
                                ..search
                            },
                        )
                    },
                    Position::Greater => {
                        self.search_on(
                            ShardSearch {
                                first_block_id: Some(entry.block_id_ext),
                                first_index: middle,
                                previous_index: middle,
                                ..search
                            },
                        )
                    },
                }
            },
            _ => (self, LookupAction::Finished(Err(BlockIndexDbError::LtDbEntryNotFound))),
        }
    }
}

impl BlockIndexDb {
    /// Begins the lookup of the block of an account with the given
    /// sequence number; no other block answers it.
    pub fn get_block_by_seq_no(&self, account_prefix: &AccountIdPrefixFull, seq_no: u32) -> (r: (
        BlockLookup,
        LookupAction,
    ))
        ensures
            r == BlockLookup::begin(*account_prefix, LookupTarget::SeqNo(seq_no), true),
            r.0.wf(),
    {
        self.get_block(account_prefix, LookupTarget::SeqNo(seq_no), true)
    }

    /// Begins the lookup of the first block of an account made at the given
    /// time or later.
    pub fn get_block_by_utime(&self, account_prefix: &AccountIdPrefixFull, utime: u32) -> (r: (
        BlockLookup,
        LookupAction,
    ))
        ensures
            r == BlockLookup::begin(*account_prefix, LookupTarget::Utime(utime), false),
            r.0.wf(),
    {
        self.get_block(account_prefix, LookupTarget::Utime(utime), false)
    }

    /// Begins the lookup of the first block of an account made at the given
    /// logical time or later.
    pub fn get_block_by_lt(&self, account_prefix: &AccountIdPrefixFull, lt: u64) -> (r: (
        BlockLookup,
        LookupAction,
    ))
        ensures
            r == BlockLookup::begin(*account_prefix, LookupTarget::Lt(lt), false),
            r.0.wf(),
    {
        self.get_block(account_prefix, LookupTarget::Lt(lt), false)
    }

    /// Begins a lookup in the block index.
    pub fn get_block(
        &self,
        account_prefix: &AccountIdPrefixFull,
        target: LookupTarget,
        exact: bool,
    ) -> (r: (BlockLookup, LookupAction))
        ensures
            r == BlockLookup::begin(*account_prefix, target, exact),
            r.0.wf(),
    {
        BlockLookup::new(*account_prefix, target, exact)
    }
}

} // verus!
