//! What an archive holds: its masterchain blocks by sequence number, and of
//! every block its data and its proof.

use crate::block_id::BlockIdExt;
use crate::codec::push_bytes;
use crate::sync::import::{BlocksEntry, EntryUse, PackageEntryId};
use vstd::prelude::*;

verus! {

/// What an archive holds of one block, in contracts.
pub struct EntryView {
    /// The data of the block.
    pub block: Option<Seq<u8>>,
    /// The proof or the proof link of the block.
    pub proof: Option<Seq<u8>>,
}

/// The bytes of a byte vector that may be there.
pub open spec fn bytes_of(bytes: Option<Vec<u8>>) -> Option<Seq<u8>> {
    match bytes {
        Some(bytes) => Some(bytes@),
        None => None,
    }
}

/// The masterchain blocks that the first `n` entries of an archive name, by
/// sequence number; of two with one sequence number the later one counts.
pub open spec fn mc_ids_of(entries: Seq<(PackageEntryId, Vec<u8>)>, n: int) -> Map<
    u32,
    BlockIdExt,
>
    decreases n,
{
    if n <= 0 {
        Map::empty()
    } else {
        let before = mc_ids_of(entries, n - 1);
        let id = entries[n - 1].0;
        if id.names_mc_block() {
            before.insert(id.block_id().seq_no, id.block_id())
        } else {
            before
        }
    }
}

/// What the first `n` entries of an archive hold of every block; of two
/// entries of one kind for one block the later one counts.
pub open spec fn blocks_of(entries: Seq<(PackageEntryId, Vec<u8>)>, n: int) -> Map<
    BlockIdExt,
    EntryView,
>
    decreases n,
{
    if n <= 0 {
        Map::empty()
    } else {
        let before = blocks_of(entries, n - 1);
        let id = entries[n - 1].0.block_id();
        let held = if before.contains_key(id) {
            before[id]
        } else {
            EntryView { block: None, proof: None }
        };
        match entries[n - 1].0.entry_use() {
            EntryUse::Block => before.insert(
                id,
                EntryView { block: Some(entries[n - 1].1@), ..held },
            ),
            EntryUse::Proof => before.insert(
                id,
                EntryView { proof: Some(entries[n - 1].1@), ..held },
            ),
            EntryUse::ProofLink => before.insert(
                id,
                EntryView { proof: Some(entries[n - 1].1@), ..held },
            ),
            EntryUse::Ignored => before,
        }
    }
}

/// What an archive holds.
#[derive(Debug)]
pub struct BlockMaps {
    /// The masterchain blocks, in the order of their sequence numbers, each
    /// sequence number once.
    pub mc_block_ids: Vec<(u32, BlockIdExt)>,
    /// What the archive holds of every block, each block once.
    pub blocks: Vec<(BlockIdExt, BlocksEntry)>,
}

impl BlockMaps {
    /// The masterchain blocks stand in the order of their sequence numbers,
    /// and no block stands twice.
    pub open spec fn wf(&self) -> bool {
        &&& forall|i: int, j: int|
            0 <= i < j < self.mc_block_ids@.len() ==> self.mc_block_ids@[i].0
                < self.mc_block_ids@[j].0
        &&& forall|i: int, j: int|
            0 <= i < j < self.blocks@.len() ==> self.blocks@[i].0 != self.blocks@[j].0
    }

    /// The place of the masterchain block with sequence number `seq_no`.
    pub open spec fn mc_place(&self, seq_no: u32) -> int {
        choose|i: int| 0 <= i < self.mc_block_ids@.len() && self.mc_block_ids@[i].0 == seq_no
    }

    /// The masterchain blocks by sequence number.
    pub open spec fn mc_ids(&self) -> Map<u32, BlockIdExt> {
        Map::new(
            |seq_no: u32|
                exists|i: int|
                    0 <= i < self.mc_block_ids@.len() && self.mc_block_ids@[i].0 == seq_no,
            |seq_no: u32| self.mc_block_ids@[self.mc_place(seq_no)].1,
        )
    }

    /// The place of the block `id`.
    pub open spec fn block_place(&self, id: BlockIdExt) -> int {
        choose|i: int| 0 <= i < self.blocks@.len() && self.blocks@[i].0 == id
    }

    /// What the archive holds of every block.
    pub open spec fn block_entries(&self) -> Map<BlockIdExt, EntryView> {
        Map::new(
            |id: BlockIdExt| exists|i: int| 0 <= i < self.blocks@.len() && self.blocks@[i].0 == id,
            |id: BlockIdExt|
                EntryView {
                    block: bytes_of(self.blocks@[self.block_place(id)].1.block),
                    proof: bytes_of(self.blocks@[self.block_place(id)].1.proof),
                },
        )
    }

    /// An archive that holds nothing.
    pub fn new() -> (r: Self)
        ensures
            r.wf(),
            r.mc_ids() == Map::<u32, BlockIdExt>::empty(),
            r.block_entries() == Map::<BlockIdExt, EntryView>::empty(),
    {
        let r = BlockMaps { mc_block_ids: Vec::new(), blocks: Vec::new() };
        assert(r.mc_ids() =~= Map::<u32, BlockIdExt>::empty());
        assert(r.block_entries() =~= Map::<BlockIdExt, EntryView>::empty());
        r
    }

    /// Notes `id` as the masterchain block with sequence number `seq_no`.
    pub fn insert_mc_block_id(&mut self, seq_no: u32, id: BlockIdExt)
        requires
            old(self).wf(),
        ensures
            final(self).wf(),
            final(self).mc_ids() == old(self).mc_ids().insert(seq_no, id),
            final(self).blocks@ == old(self).blocks@,
    {
        let mut pos: usize = 0;
        while pos < self.mc_block_ids.len() && self.mc_block_ids[pos].0 < seq_no
            invariant
                pos <= self.mc_block_ids@.len(),
                self.mc_block_ids@ == old(self).mc_block_ids@,
                self.blocks@ == old(self).blocks@,
                forall|i: int| 0 <= i < pos ==> self.mc_block_ids@[i].0 < seq_no,
            decreases self.mc_block_ids@.len() - pos,
        {
            pos += 1;
        }
        let ghost before = self.mc_block_ids@;
        if pos < self.mc_block_ids.len() && self.mc_block_ids[pos].0 == seq_no {
            self.mc_block_ids[pos] = (seq_no, id);
            proof {
                let after = self.mc_block_ids@;
                assert forall|k: u32| #[trigger]
                    old(self).mc_ids().insert(seq_no, id).contains_key(k) implies self.mc_ids().contains_key(
                    k,
                ) by {
                    if k == seq_no {
                        assert(after[pos as int].0 == k);
                    } else {
                        let i = old(self).mc_place(k);
                        assert(after[i].0 == k);
                    }
                }
                assert forall|k: u32| #[trigger] self.mc_ids().contains_key(k) implies old(
                    self,
                ).mc_ids().insert(seq_no, id).contains_key(k) && self.mc_ids()[k] == old(
                    self,
                ).mc_ids().insert(seq_no, id)[k] by {
                    let i = self.mc_place(k);
                    assert(before[i].0 == k);
                    if k != seq_no {
                        let j = old(self).mc_place(k);
                        assert(i == j) by {
                            if i < j {
                                assert(before[i].0 < before[j].0);
                            }
                            if j < i {
                                assert(before[j].0 < before[i].0);
                            }
                        }
                    } else {
                        assert(i == pos) by {
                            if i < pos {
                                assert(after[i].0 < after[pos as int].0);
                            }
                            if pos < i {
                                assert(after[pos as int].0 < after[i].0);
                            }
                        }
                    }
                }
                assert(self.mc_ids() =~= old(self).mc_ids().insert(seq_no, id));
            }
        } else {
            self.mc_block_ids.insert(pos, (seq_no, id));
            proof {
                let after = self.mc_block_ids@;
                assert(after == before.insert(pos as int, (seq_no, id)));
                assert forall|i: int, j: int| 0 <= i < j < after.len() implies after[i].0
                    < after[j].0 by {
                    if i < pos && j > pos {
                        assert(before[i].0 < seq_no);
                        assert(before[pos as int].0 <= before[j - 1].0) by {
                            if pos < j - 1 {
                                assert(before[pos as int].0 < before[j - 1].0);
                            }
                        }
                    }
                    if i == pos {
                        assert(before[pos as int].0 <= before[j - 1].0) by {
                            if pos < j - 1 {
                                assert(before[pos as int].0 < before[j - 1].0);
                            }
                        }
                    }
                }
                assert forall|k: u32| #[trigger]
                    old(self).mc_ids().insert(seq_no, id).contains_key(k) implies self.mc_ids().contains_key(
                    k,
                ) by {
                    if k == seq_no {
                        assert(after[pos as int].0 == k);
                    } else {
                        let i = old(self).mc_place(k);
                        if i < pos {
                            assert(after[i].0 == k);
                        } else {
                            assert(after[i + 1].0 == k);
                        }
                    }
                }
                assert forall|k: u32| #[trigger] self.mc_ids().contains_key(k) implies old(
                    self,
                ).mc_ids().insert(seq_no, id).contains_key(k) && self.mc_ids()[k] == old(
                    self,
                ).mc_ids().insert(seq_no, id)[k] by {
                    let i = self.mc_place(k);
                    if k == seq_no {
                        assert(i == pos) by {
                            if i < pos {
                                assert(after[i].0 < after[pos as int].0);
                            }
                            if pos < i {
                                assert(after[pos as int].0 < after[i].0);
                            }
                        }
                    } else {
                        let shifted = if i < pos {
                            i
                        } else {
                            i - 1
                        };
                        assert(before[shifted].0 == k);
                        let j = old(self).mc_place(k);
                        assert(shifted == j) by {
                            if shifted < j {
                                assert(before[shifted].0 < before[j].0);
                            }
                            if j < shifted {
                                assert(before[j].0 < before[shifted].0);
                            }
                        }
                    }
                }
                assert(self.mc_ids() =~= old(self).mc_ids().insert(seq_no, id));
            }
        }
    }

    /// The place of the block `id`, if the archive holds anything of it.
    pub fn find_block(&self, id: &BlockIdExt) -> (r: Option<usize>)
        ensures
            match r {
                Some(i) => i < self.blocks@.len() && self.blocks@[i as int].0 == *id,
                None => forall|i: int| 0 <= i < self.blocks@.len() ==> self.blocks@[i].0 != *id,
            },
    {
        let mut i: usize = 0;
        while i < self.blocks.len()
            invariant
                i <= self.blocks@.len(),
                forall|j: int| 0 <= j < i ==> self.blocks@[j].0 != *id,
            decreases self.blocks@.len() - i,
        {
            if self.blocks[i].0.same_as(id) {
                return Some(i);
            }
            i += 1;
        }
        None
    }

    /// What the archive holds of the block `id`, or nothing if it holds
    /// nothing of it.
    pub open spec fn held(&self, id: BlockIdExt) -> EntryView {
        if self.block_entries().contains_key(id) {
            self.block_entries()[id]
        } else {
            EntryView { block: None, proof: None }
        }
    }

    /// Notes `data` as the data of the block `id` (`is_block`), or as its
    /// proof.
    pub fn set_entry(&mut self, id: BlockIdExt, data: Vec<u8>, is_block: bool)
        requires
            old(self).wf(),
        ensures
            final(self).wf(),
            final(self).mc_block_ids@ == old(self).mc_block_ids@,
            final(self).block_entries() == old(self).block_entries().insert(
                id,
                if is_block {
                    EntryView { block: Some(data@), ..old(self).held(id) }
                } else {
                    EntryView { proof: Some(data@), ..old(self).held(id) }
                },
            ),
    {
        let ghost before = self.blocks@;
        let ghost target = if is_block {
            EntryView { block: Some(data@), ..old(self).held(id) }
        } else {
            EntryView { proof: Some(data@), ..old(self).held(id) }
        };
        let place = match self.find_block(&id) {
            Some(i) => {
                let (found, mut entry) = self.blocks.remove(i);
                proof {
                    assert(before[i as int].0 == id);
                    assert(old(self).block_entries().contains_key(id));
                    let j = old(self).block_place(id);
                    assert(j == i) by {
                        if j < i {
                            assert(before[j].0 != before[i as int].0);
                        }
                        if i < j {
                            assert(before[i as int].0 != before[j].0);
                        }
                    }
                }
                if is_block {
                    entry.block = Some(data);
                } else {
                    entry.proof = Some(data);
                }
                self.blocks.insert(i, (found, entry));
                assert(self.blocks@ =~= before.update(i as int, (id, entry)));
                i
            },
            None => {
                proof {
                    assert(!old(self).block_entries().contains_key(id));
                }
                let entry = if is_block {
                    BlocksEntry { block: Some(data), proof: None }
                } else {
                    BlocksEntry { block: None, proof: Some(data) }
                };
                self.blocks.push((id, entry));
                self.blocks.len() - 1
            },
        };
        proof {
            let after = self.blocks@;
            assert(after[place as int].0 == id);
            assert forall|k: BlockIdExt| #[trigger]
                old(self).block_entries().insert(id, target).contains_key(k) implies self.block_entries().contains_key(
                k,
            ) by {
                if k == id {
                    assert(after[place as int].0 == k);
                } else {
                    let i = old(self).block_place(k);
                    assert(after[i].0 == k);
                }
            }
            assert forall|k: BlockIdExt| #[trigger] self.block_entries().contains_key(k) implies old(
                self,
            ).block_entries().insert(id, target).contains_key(k) && self.block_entries()[k] == old(
                self,
            ).block_entries().insert(id, target)[k] by {
                let i = self.block_place(k);
                if k == id {
                    assert(i == place) by {
                        if i < place {
                            assert(after[i].0 != after[place as int].0);
                        }
                        if place < i {
                            assert(after[place as int].0 != after[i].0);
                        }
                    }
                } else {
                    assert(before[i].0 == k);
                    let j = old(self).block_place(k);
                    assert(i == j) by {
                        if i < j {
                            assert(before[i].0 != before[j].0);
                        }
                        if j < i {
                            assert(before[j].0 != before[i].0);
                        }
                    }
                }
            }
            assert(self.block_entries() =~= old(self).block_entries().insert(id, target));
        }
    }

    /// The masterchain block with the lowest sequence number.
    pub fn lowest_mc_id(&self) -> (r: Option<&BlockIdExt>)
        ensures
            self.mc_block_ids@.len() == 0 ==> r is None,
            self.mc_block_ids@.len() > 0 ==> r is Some && *r.unwrap() == self.mc_block_ids@[0].1,
    {
        if self.mc_block_ids.len() == 0 {
            None
        } else {
            Some(&self.mc_block_ids[0].1)
        }
    }

    /// The masterchain block with the highest sequence number.
    pub fn highest_mc_id(&self) -> (r: Option<&BlockIdExt>)
        ensures
            self.mc_block_ids@.len() == 0 ==> r is None,
            self.mc_block_ids@.len() > 0 ==> r is Some && *r.unwrap()
                == self.mc_block_ids@.last().1,
    {
        let len = self.mc_block_ids.len();
        if len == 0 {
            None
        } else {
            Some(&self.mc_block_ids[len - 1].1)
        }
    }
}

/// Sorts the entries of an archive: the data of every block, the proofs of
/// masterchain blocks and the proof links of shard blocks are kept by
/// block, and every masterchain block with data or a proof is listed by
/// its sequence number.
pub fn parse_archive(entries: &Vec<(PackageEntryId, Vec<u8>)>) -> (r: BlockMaps)
    ensures
        r.wf(),
        r.mc_ids() == mc_ids_of(entries@, entries@.len() as int),
        r.block_entries() == blocks_of(entries@, entries@.len() as int),
{
    let mut maps = BlockMaps::new();
    let mut i: usize = 0;
    while i < entries.len()
        invariant
            i <= entries@.len(),
            maps.wf(),
            maps.mc_ids() == mc_ids_of(entries@, i as int),
            maps.block_entries() == blocks_of(entries@, i as int),
        decreases entries@.len() - i,
    {
        let entry_id = entries[i].0;
        let (entry_use, names_mc_block) = entry_id.classify();
        let id = match entry_id {
            PackageEntryId::Block(id) => id,
            PackageEntryId::Proof(id) => id,
            PackageEntryId::ProofLink(id) => id,
        };
        match entry_use {
            EntryUse::Ignored => {},
            _ => {
                let mut data: Vec<u8> = Vec::with_capacity(entries[i].1.len());
                push_bytes(&mut data, entries[i].1.as_slice());
                assert(data@ =~= entries@[i as int].1@);
                let is_block = match entry_use {
                    EntryUse::Block => true,
                    _ => false,
                };
                maps.set_entry(id, data, is_block);
            },
        }
        if names_mc_block {
            maps.insert_mc_block_id(id.seq_no, id);
        }
        i += 1;
    }
    maps
}

} // verus!
