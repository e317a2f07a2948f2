//! The per-cell summary that finalisation keeps of every cell it has seen:
//! level mask, kind, subtree counters, hashes and depths.

use crate::cell::{hash_index, lemma_hash_index_bound, mask_level, CellType, LevelMask};
use crate::codec::{
    lemma_u16_roundtrip, lemma_u32_roundtrip, lemma_u64_roundtrip, push_bytes, push_u16_le,
    push_u32_le, push_u64_le, read_bytes32, read_u16_be, read_u16_le, read_u32_le, read_u64_le,
    u16_from_be, u16_from_le, u16_le, u32_from_le, u32_le, u64_from_le, u64_le,
};
use vstd::prelude::*;

verus! {

/// The summary of one cell.
#[derive(Clone, Copy, Debug)]
pub struct HashesEntry {
    /// The bits of the cell's level mask.
    pub level_mask: u8,
    /// The kind of the cell.
    pub cell_type: CellType,
    /// The bits of data in the cell's subtree.
    pub tree_bits_count: u64,
    /// The cells in the cell's subtree.
    pub tree_cell_count: u32,
    /// The hashes of the cell, lowest level first; unused places are zero.
    pub hashes: [[u8; 32]; 4],
    /// The depths of the cell, lowest level first; unused places are zero.
    pub depths: [u16; 4],
}

/// The first hash of a pruned branch stands behind its two leading bytes.
pub const PRUNED_HASHES_OFFSET: usize = 2;

impl HashesEntry {
    /// The number of bytes a summary is kept in.
    pub const LEN: usize = 160;

    /// The place of the hash and depth for `level` among those of the cell.
    /// A pruned branch has one hash of its own, which stands for every
    /// level.
    pub open spec fn slot(self, level: u8) -> int {
        if self.cell_type == CellType::PrunedBranch {
            0
        } else {
            hash_index(self.level_mask, level) as int
        }
    }

    /// The hash of the cell for `level`.
    pub open spec fn hash_at(self, level: u8) -> Seq<u8> {
        self.hashes@[self.slot(level)]@
    }

    /// The depth of the cell for `level`.
    pub open spec fn depth_at(self, level: u8) -> u16 {
        self.depths@[self.slot(level)]
    }

    /// The representation hash of the cell: its hash for the highest level.
    pub open spec fn repr_hash(self) -> Seq<u8> {
        self.hash_at(3)
    }

    /// The place in a pruned branch's data of the hash it carries for
    /// `level`, if it carries one: it carries hashes for the levels below
    /// its own.
    pub open spec fn pruned_hash_offset(self, level: u8) -> Option<int> {
        if hash_index(self.level_mask, level) == mask_level(self.level_mask) {
            None
        } else {
            Some(PRUNED_HASHES_OFFSET + 32 * hash_index(self.level_mask, level))
        }
    }

    /// The place in a pruned branch's data of the depth it carries for
    /// `level`, if it carries one: the depths follow the hashes.
    pub open spec fn pruned_depth_offset(self, level: u8) -> Option<int> {
        if hash_index(self.level_mask, level) == mask_level(self.level_mask) {
            None
        } else {
            Some(
                PRUNED_HASHES_OFFSET + 32 * mask_level(self.level_mask) + 2 * hash_index(
                    self.level_mask,
                    level,
                ),
            )
        }
    }

    /// The hash for `level` of the pruned branch that this entry summarises
    /// and whose data is `data`: its own hash at its own level, else the
    /// one its data carries. `None` if the data is too short to carry it.
    pub open spec fn pruned_hash_at(self, level: u8, data: Seq<u8>) -> Option<Seq<u8>> {
        match self.pruned_hash_offset(level) {
            None => Some(self.hashes@[0]@),
            Some(offset) => if offset + 32 <= data.len() {
                Some(data.subrange(offset, offset + 32))
            } else {
                None
            },
        }
    }

    /// The depth for `level` of the pruned branch that this entry
    /// summarises and whose data is `data`: its own depth at its own level,
    /// else the big-endian one its data carries. `None` if the data is too
    /// short to carry it.
    pub open spec fn pruned_depth_at(self, level: u8, data: Seq<u8>) -> Option<u16> {
        match self.pruned_depth_offset(level) {
            None => Some(self.depths@[0]),
            Some(offset) => if offset + 2 <= data.len() {
                Some(u16_from_be(data.subrange(offset, offset + 2)))
            } else {
                None
            },
        }
    }

    /// The bytes a summary is kept in: the level mask, the kind, the two
    /// counters little-endian, the four hashes, the four depths
    /// little-endian, and ten bytes of zero.
    pub open spec fn encoding(self) -> Seq<u8> {
        seq![self.level_mask, self.cell_type.code()] + u64_le(self.tree_bits_count) + u32_le(
            self.tree_cell_count,
        ) + self.hashes@[0]@ + self.hashes@[1]@ + self.hashes@[2]@ + self.hashes@[3]@ + u16_le(
            self.depths@[0],
        ) + u16_le(self.depths@[1]) + u16_le(self.depths@[2]) + u16_le(self.depths@[3]) + Seq::new(
            10,
            |i: int| 0u8,
        )
    }

    /// Whether `self` is the summary that the front of `data` holds.
    pub open spec fn decoded_from(self, data: Seq<u8>) -> bool {
        &&& data.len() >= Self::LEN
        &&& self.level_mask == data[0]
        &&& self.cell_type == CellType::of_code(data[1])
        &&& self.tree_bits_count == u64_from_le(data.subrange(2, 10))
        &&& self.tree_cell_count == u32_from_le(data.subrange(10, 14))
        &&& forall|i: int|
            0 <= i < 4 ==> (#[trigger] self.hashes@[i])@ == data.subrange(14 + 32 * i, 46 + 32 * i)
        &&& forall|i: int|
            0 <= i < 4 ==> #[trigger] self.depths@[i] == u16_from_le(
                data.subrange(142 + 2 * i, 144 + 2 * i),
            )
    }

    /// The bytes of a summary hold that summary and no other.
    pub proof fn lemma_decoding_of_encoding(self, other: Self, rest: Seq<u8>)
        ensures
            self.encoding().len() == Self::LEN,
            self.decoded_from(self.encoding() + rest),
            other.decoded_from(self.encoding() + rest) ==> other == self,
    {
        let data = self.encoding() + rest;
        lemma_u64_roundtrip(self.tree_bits_count);
        lemma_u32_roundtrip(self.tree_cell_count);
        lemma_u16_roundtrip(self.depths@[0]);
        lemma_u16_roundtrip(self.depths@[1]);
        lemma_u16_roundtrip(self.depths@[2]);
        lemma_u16_roundtrip(self.depths@[3]);
        self.cell_type.lemma_code_roundtrip();
        assert(data.subrange(2, 10) =~= u64_le(self.tree_bits_count));
        assert(data.subrange(10, 14) =~= u32_le(self.tree_cell_count));
        assert forall|i: int| 0 <= i < 4 implies (#[trigger] self.hashes@[i])@ == data.subrange(
            14 + 32 * i,
            46 + 32 * i,
        ) by {
            assert(self.hashes@[i]@ =~= data.subrange(14 + 32 * i, 46 + 32 * i));
        }
        assert forall|i: int| 0 <= i < 4 implies #[trigger] self.depths@[i] == u16_from_le(
            data.subrange(142 + 2 * i, 144 + 2 * i),
        ) by {
            lemma_u16_roundtrip(self.depths@[i]);
            assert(data.subrange(142 + 2 * i, 144 + 2 * i) =~= u16_le(self.depths@[i]));
        }
        if other.decoded_from(data) {
            assert(other.depths@ =~= self.depths@);
            Self::lemma_same_parts(other, self);
        }
    }

    /// The bytes a summary is kept in.
    pub fn to_bytes(&self) -> (out: Vec<u8>)
        ensures
            out@ == self.encoding(),
            out@.len() == Self::LEN,
    {
        let mut out: Vec<u8> = Vec::with_capacity(HashesEntry::LEN);
        out.push(self.level_mask);
        out.push(self.cell_type.to_u8());
        push_u64_le(&mut out, self.tree_bits_count);
        push_u32_le(&mut out, self.tree_cell_count);
        push_bytes(&mut out, self.hashes[0].as_slice());
        push_bytes(&mut out, self.hashes[1].as_slice());
        push_bytes(&mut out, self.hashes[2].as_slice());
        push_bytes(&mut out, self.hashes[3].as_slice());
        push_u16_le(&mut out, self.depths[0]);
        push_u16_le(&mut out, self.depths[1]);
        push_u16_le(&mut out, self.depths[2]);
        push_u16_le(&mut out, self.depths[3]);
        let ghost body = out@;
        let mut i: usize = 0;
        while i < 10
            invariant
                i <= 10,
                out@ == body + Seq::new(i as nat, |j: int| 0u8),
            decreases 10 - i,
        {
            out.push(0);
            i += 1;
            assert(out@ =~= body + Seq::new(i as nat, |j: int| 0u8));
        }
        proof {
            assert(out@ =~= self.encoding());
            self.lemma_decoding_of_encoding(*self, Seq::empty());
        }
        out
    }

    /// Reads the summary kept in the `LEN` bytes of `data` from `pos` on.
    pub fn from_bytes(data: &[u8], pos: usize) -> (r: Self)
        requires
            pos + Self::LEN <= data@.len(),
        ensures
            r.decoded_from(data@.skip(pos as int)),
    {
        let len = data.len();
        let ghost rest = data@.skip(pos as int);
        let mut hashes = [[0u8; 32]; 4];
        let mut depths = [0u16; 4];
        let mut i: usize = 0;
        while i < 4
            invariant
                i <= 4,
                pos + Self::LEN <= data@.len() == len,
                rest == data@.skip(pos as int),
                forall|k: int|
                    0 <= k < i ==> (#[trigger] hashes@[k])@ == rest.subrange(
                        14 + 32 * k,
                        46 + 32 * k,
                    ),
                forall|k: int|
                    0 <= k < i ==> #[trigger] depths@[k] == u16_from_le(
                        rest.subrange(142 + 2 * k, 144 + 2 * k),
                    ),
            decreases 4 - i,
        {
            let hash = read_bytes32(data, pos + 14 + 32 * i);
            let depth = read_u16_le(data, pos + 142 + 2 * i);
            proof {
                assert(rest.subrange(14 + 32 * i, 46 + 32 * i) =~= data@.subrange(
                    pos + 14 + 32 * i,
                    pos + 14 + 32 * i + 32,
                ));
                assert(rest.subrange(142 + 2 * i, 144 + 2 * i) =~= data@.subrange(
                    pos + 142 + 2 * i,
                    pos + 142 + 2 * i + 2,
                ));
            }
            hashes[i] = hash;
            depths[i] = depth;
            i += 1;
        }
        let tree_bits_count = read_u64_le(data, pos + 2);
        let tree_cell_count = read_u32_le(data, pos + 10);
        proof {
            assert(rest.subrange(2, 10) =~= data@.subrange(pos + 2, pos + 10));
            assert(rest.subrange(10, 14) =~= data@.subrange(pos + 10, pos + 14));
        }
        HashesEntry {
            level_mask: data[pos],
            cell_type: CellType::from_u8(data[pos + 1]),
            tree_bits_count,
            tree_cell_count,
            hashes,
            depths,
        }
    }

    /// The summary with every field zero, of kind `Unknown`.
    pub fn new() -> (r: Self)
        ensures
            r == Self::cleared(),
            r.level_mask == 0,
            r.cell_type == CellType::Unknown,
            r.tree_bits_count == 0,
            r.tree_cell_count == 0,
            forall|i: int| 0 <= i < 4 ==> r.depths@[i] == 0,
            forall|i: int| 0 <= i < 4 ==> (#[trigger] r.hashes@[i])@ == Seq::new(32, |j: int| 0u8),
    {
        let r = HashesEntry {
            level_mask: 0,
            cell_type: CellType::Unknown,
            tree_bits_count: 0,
            tree_cell_count: 0,
            hashes: [[0u8; 32]; 4],
            depths: [0u16; 4],
        };
        proof {
            assert(r.depths@ =~= Seq::new(4, |i: int| 0u16));
            assert forall|i: int| 0 <= i < 4 implies r.hashes@[i]@ == Seq::new(32, |j: int| 0u8) by {
                assert(r.hashes@[i]@ =~= Seq::new(32, |j: int| 0u8));
            }
            Self::lemma_same_parts(r, Self::cleared());
        }
        r
    }

    /// The summary with every field zero, of kind `Unknown`.
    pub open spec fn cleared() -> Self {
        choose|e: HashesEntry|
            e.level_mask == 0 && e.cell_type == CellType::Unknown && e.tree_bits_count == 0
                && e.tree_cell_count == 0 && e.depths@ == Seq::new(4, |i: int| 0u16)
                && e.hashes@.len() == 4 && forall|i: int|
                0 <= i < 4 ==> (#[trigger] e.hashes@[i])@ == Seq::new(32, |j: int| 0u8)
    }

    /// Two summaries with the same fields, hashes and depths place by
    /// place, are the same summary.
    pub proof fn lemma_same_parts(a: Self, b: Self)
        requires
            a.level_mask == b.level_mask,
            a.cell_type == b.cell_type,
            a.tree_bits_count == b.tree_bits_count,
            a.tree_cell_count == b.tree_cell_count,
            a.depths@ == b.depths@,
            forall|i: int| 0 <= i < 4 ==> (#[trigger] a.hashes@[i])@ == b.hashes@[i]@,
        ensures
            a == b,
    {
        assert(a.depths == b.depths);
        assert forall|i: int| 0 <= i < 4 implies a.hashes@[i] == b.hashes@[i] by {
            assert(a.hashes@[i]@ == b.hashes@[i]@);
            assert(a.hashes@[i] =~= b.hashes@[i]);
        }
        assert(a.hashes@ =~= b.hashes@);
        assert(a.hashes == b.hashes);
    }

    /// The cell's level mask.
    pub fn level_mask(&self) -> (r: LevelMask)
        ensures
            r.0 == self.level_mask,
    {
        LevelMask(self.level_mask)
    }

    /// The kind of the cell.
    pub fn cell_type(&self) -> (r: CellType)
        ensures
            r == self.cell_type,
    {
        self.cell_type
    }

    /// The bits of data in the cell's subtree.
    pub fn tree_bits_count(&self) -> (r: u64)
        ensures
            r == self.tree_bits_count,
    {
        self.tree_bits_count
    }

    /// The cells in the cell's subtree.
    pub fn tree_cell_count(&self) -> (r: u32)
        ensures
            r == self.tree_cell_count,
    {
        self.tree_cell_count
    }

    /// The place of the hash and depth for `level`.
    fn slot_of(&self, level: u8) -> (r: usize)
        ensures
            r == self.slot(level),
            r <= 3,
    {
        if self.cell_type.is_pruned_branch() {
            0
        } else {
            LevelMask(self.level_mask).calc_hash_index(level) as usize
        }
    }

    /// The hash of the cell for `level`.
    pub fn hash(&self, level: u8) -> (r: [u8; 32])
        ensures
            r@ == self.hash_at(level),
    {
        let slot = self.slot_of(level);
        self.hashes[slot]
    }

    /// The depth of the cell for `level`.
    pub fn depth(&self, level: u8) -> (r: u16)
        ensures
            r == self.depth_at(level),
    {
        let slot = self.slot_of(level);
        self.depths[slot]
    }

    /// The hash for `level` of the pruned branch that this entry summarises
    /// and whose data is `data`.
    pub fn pruned_branch_hash(&self, level: u8, data: &[u8]) -> (r: Option<[u8; 32]>)
        ensures
            match self.pruned_hash_at(level, data@) {
                Some(hash) => r.is_some() && r.unwrap()@ == hash,
                None => r.is_none(),
            },
    {
        let mask = LevelMask(self.level_mask);
        let index = mask.calc_hash_index(level) as usize;
        proof {
            lemma_hash_index_bound(self.level_mask, level);
        }
        let level_count = if self.level_mask <= 7 {
            mask.level() as usize
        } else {
            ((self.level_mask % 2) + (self.level_mask / 2 % 2) + (self.level_mask / 4 % 2)) as usize
        };
        if index == level_count {
            Some(self.hashes[0])
        } else {
            let offset = PRUNED_HASHES_OFFSET + 32 * index;
            if data.len() >= 32 && offset <= data.len() - 32 {
                Some(read_bytes32(data, offset))
            } else {
                None
            }
        }
    }

    /// The depth for `level` of the pruned branch that this entry
    /// summarises and whose data is `data`.
    pub fn pruned_branch_depth(&self, level: u8, data: &[u8]) -> (r: Option<u16>)
        ensures
            r == self.pruned_depth_at(level, data@),
    {
        let mask = LevelMask(self.level_mask);
        let index = mask.calc_hash_index(level) as usize;
        proof {
            lemma_hash_index_bound(self.level_mask, level);
        }
        let level_count = if self.level_mask <= 7 {
            mask.level() as usize
        } else {
            ((self.level_mask % 2) + (self.level_mask / 2 % 2) + (self.level_mask / 4 % 2)) as usize
        };
        if index == level_count {
            Some(self.depths[0])
        } else {
            let offset = PRUNED_HASHES_OFFSET + 32 * level_count + 2 * index;
            if data.len() >= 2 && offset <= data.len() - 2 {
                Some(read_u16_be(data, offset))
            } else {
                None
            }
        }
    }
}

/// The summaries at hand while one cell is finalised: the one being made,
/// and those of its children.
#[derive(Debug)]
pub struct EntriesBuffer {
    /// The summary of the cell being finalised.
    pub current: HashesEntry,
    /// The summaries of its children, in the order of its references.
    pub children: Vec<HashesEntry>,
}

impl EntriesBuffer {
    /// A buffer with no children and a summary of kind `Unknown` that is all zero.
    pub fn new() -> (r: Self)
        ensures
            r.current == HashesEntry::cleared(),
            r.current.level_mask == 0,
            r.current.cell_type == CellType::Unknown,
            r.current.tree_bits_count == 0,
            r.current.tree_cell_count == 0,
            forall|i: int| 0 <= i < 4 ==> r.current.depths@[i] == 0,
            forall|i: int|
                0 <= i < 4 ==> (#[trigger] r.current.hashes@[i])@ == Seq::new(32, |j: int| 0u8),
            r.children@.len() == 0,
    {
        EntriesBuffer { current: HashesEntry::new(), children: Vec::with_capacity(4) }
    }
}

} // verus!
