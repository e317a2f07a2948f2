//! What finalisation computes for one cell: its level mask, its hashes and
//! depths at every level, its subtree counters, and the record under which
//! it is stored.
//!
//! The hash of a cell at level `i` is the SHA-256 digest of its two
//! descriptor bytes, then its data (at level 0) or its hash at level `i - 1`
//! (above), then the depth of every child, then the hash of every child.

use crate::cell::{
    checked_mask, descriptor_d1, descriptor_d2, level_to_mask, mask_level, CellType,
    MAX_DATA_BITS, MAX_DEPTH, MAX_REFERENCES,
};
use crate::codec::{u16_be, u16_le, u32_le, u64_le};
use crate::cell::calculate_descriptor_bytes;
use crate::cell::LevelMask;
use crate::codec::{push_bytes, push_u16_be, push_u16_le, push_u32_le, push_u64_le};
use crate::fx_map::fx_get;
use crate::hash::{sha256, sha256_digest};
use crate::shard_state::entries_buffer::HashesEntry;
use crate::shard_state::parser::RawCell;
use rustc_hash::FxHashMap;
use vstd::prelude::*;

verus! {

/// A cell as read from its record, with the summaries of its children and
/// the data of the pruned branches seen so far.
pub struct CellInput {
    /// The kind of the cell.
    pub cell_type: CellType,
    /// The level mask that the record states.
    pub level_mask: u8,
    /// The number of bits of data.
    pub bit_len: u16,
    /// The data, closed by its tag: one byte more than the full bytes of
    /// data.
    pub data: Seq<u8>,
    /// The index of each child.
    pub refs: Seq<u32>,
    /// The summary of each child, in the order of `refs`; what stands
    /// behind them is not looked at.
    pub children: Seq<HashesEntry>,
    /// The data of every pruned branch seen so far, by cell index.
    pub pruned: Map<u32, Seq<u8>>,
}

/// `x`, or the greatest `u64` if `x` is greater.
pub open spec fn saturated_u64(x: int) -> u64 {
    if x > u64::MAX {
        u64::MAX
    } else {
        x as u64
    }
}

/// `x`, or the greatest `u32` if `x` is greater.
pub open spec fn saturated_u32(x: int) -> u32 {
    if x > u32::MAX {
        u32::MAX
    } else {
        x as u32
    }
}

/// The union of the level masks of the first `n` summaries.
pub open spec fn joint_mask(children: Seq<HashesEntry>, n: int) -> u8
    decreases n,
{
    if n <= 0 {
        0
    } else {
        joint_mask(children, n - 1) | checked_mask(children[n - 1].level_mask)
    }
}

/// The sum of the subtree bit counts of the first `n` summaries.
pub open spec fn joint_bits(children: Seq<HashesEntry>, n: int) -> int
    decreases n,
{
    if n <= 0 {
        0
    } else {
        joint_bits(children, n - 1) + children[n - 1].tree_bits_count
    }
}

/// The sum of the subtree cell counts of the first `n` summaries.
pub open spec fn joint_cells(children: Seq<HashesEntry>, n: int) -> int
    decreases n,
{
    if n <= 0 {
        0
    } else {
        joint_cells(children, n - 1) + children[n - 1].tree_cell_count
    }
}

/// The level at which a child that is no pruned branch is asked for its
/// hash and depth: one higher under a Merkle cell.
pub open spec fn level_in_child(merkle: bool, level: u8) -> u8 {
    if merkle {
        (level + 1) as u8
    } else {
        level
    }
}

/// The depth for `level` of a child with summary `child` and cell index
/// `index`, under a cell that is a Merkle cell or not. A pruned branch
/// gives it from its data, another cell from its summary.
pub open spec fn depth_of_child(
    child: HashesEntry,
    index: u32,
    pruned: Map<u32, Seq<u8>>,
    merkle: bool,
    level: u8,
) -> Option<u16> {
    if child.cell_type == CellType::PrunedBranch {
        if pruned.contains_key(index) {
            child.pruned_depth_at(level, pruned[index])
        } else {
            None
        }
    } else {
        Some(child.depth_at(level_in_child(merkle, level)))
    }
}

/// The hash for `level` of a child with summary `child` and cell index
/// `index`, under a cell that is a Merkle cell or not.
pub open spec fn hash_of_child(
    child: HashesEntry,
    index: u32,
    pruned: Map<u32, Seq<u8>>,
    merkle: bool,
    level: u8,
) -> Option<Seq<u8>> {
    if child.cell_type == CellType::PrunedBranch {
        if pruned.contains_key(index) {
            child.pruned_hash_at(level, pruned[index])
        } else {
            None
        }
    } else {
        Some(child.hash_at(level_in_child(merkle, level)))
    }
}

/// The byte strings that a map of byte vectors holds.
pub open spec fn pruned_data(map: Map<u32, Vec<u8>>) -> Map<u32, Seq<u8>> {
    Map::new(|k: u32| map.contains_key(k), |k: u32| map[k]@)
}

impl CellInput {
    /// The cell holds at most 1023 bits and four references, its data is
    /// there, and every child has its summary.
    pub open spec fn wf(self) -> bool {
        &&& self.bit_len <= MAX_DATA_BITS
        &&& self.data.len() >= self.bit_len / 8 + 1
        &&& self.refs.len() <= MAX_REFERENCES
        &&& self.children.len() >= self.refs.len()
    }

    /// The number of bytes that hold data.
    pub open spec fn data_size(self) -> int {
        (self.bit_len + 7) / 8
    }

    /// Whether the cell is a pruned branch.
    pub open spec fn is_pruned(self) -> bool {
        self.cell_type == CellType::PrunedBranch
    }

    /// The level mask that the kind and the children call for; `None` for
    /// a cell of unknown kind.
    pub open spec fn mask(self) -> Option<u8> {
        let children_mask = joint_mask(self.children, self.refs.len() as int);
        match self.cell_type {
            CellType::Ordinary => Some(children_mask),
            CellType::PrunedBranch => Some(checked_mask(self.level_mask)),
            CellType::LibraryReference => Some(0),
            CellType::MerkleProof => Some(children_mask >> 1),
            CellType::MerkleUpdate => Some(children_mask >> 1),
            CellType::Unknown => None,
        }
    }

    /// The number of hashes of the cell: one for a pruned branch, else one
    /// more than its level.
    pub open spec fn hash_count(self) -> int {
        if self.is_pruned() {
            1
        } else {
            mask_level(self.level_mask) + 1
        }
    }

    /// The depth of child `c` for `level`; `None` if the child is a pruned
    /// branch whose data is not known or too short.
    pub open spec fn child_depth(self, c: int, level: u8) -> Option<u16> {
        depth_of_child(
            self.children[c],
            self.refs[c],
            self.pruned,
            self.cell_type.merkle(),
            level,
        )
    }

    /// The hash of child `c` for `level`; `None` if the child is a pruned
    /// branch whose data is not known or too short.
    pub open spec fn child_hash(self, c: int, level: u8) -> Option<Seq<u8>> {
        hash_of_child(
            self.children[c],
            self.refs[c],
            self.pruned,
            self.cell_type.merkle(),
            level,
        )
    }

    /// Whether child `c` has a depth and a hash for `level`, and the cell
    /// above it stays within `MAX_DEPTH`.
    pub open spec fn child_ok(self, c: int, level: u8) -> bool {
        &&& self.child_depth(c, level) is Some
        &&& self.child_depth(c, level).unwrap() < MAX_DEPTH
        &&& self.child_hash(c, level) is Some
    }

    /// Whether the cell can be finalised: it is well formed, its kind is
    /// known, the level mask
    /// of its record is the one that its kind and children call for, and
    /// every child is in order at every level.
    pub open spec fn valid(self) -> bool {
        &&& self.wf()
        &&& self.mask() is Some
        &&& self.mask().unwrap() == self.level_mask
        &&& forall|level: u8, c: int|
            0 <= level < self.hash_count() && 0 <= c < self.refs.len() ==> #[trigger] self.child_ok(
                c,
                level,
            )
    }

    /// The depth of the cell over its first `n` children, for `level`.
    pub open spec fn depth_over(self, level: u8, n: int) -> int
        decreases n,
    {
        if n <= 0 {
            0
        } else {
            let below = self.depth_over(level, n - 1);
            let here = self.child_depth(n - 1, level).unwrap() + 1;
            if below >= here {
                below
            } else {
                here
            }
        }
    }

    /// The depth of the cell for `level`: one more than that of its deepest
    /// child, zero without children.
    pub open spec fn depth(self, level: u8) -> int {
        self.depth_over(level, self.refs.len() as int)
    }

    /// The depths of the first `n` children for `level`, big-endian, one
    /// after the other.
    pub open spec fn child_depth_bytes(self, level: u8, n: int) -> Seq<u8>
        decreases n,
    {
        if n <= 0 {
            Seq::empty()
        } else {
            self.child_depth_bytes(level, n - 1) + u16_be(
                self.child_depth(n - 1, level).unwrap(),
            )
        }
    }

    /// The hashes of the first `n` children for `level`, one after the
    /// other.
    pub open spec fn child_hash_bytes(self, level: u8, n: int) -> Seq<u8>
        decreases n,
    {
        if n <= 0 {
            Seq::empty()
        } else {
            self.child_hash_bytes(level, n - 1) + self.child_hash(n - 1, level).unwrap()
        }
    }

    /// The two descriptor bytes that go into the hash for `level`. They
    /// state the cell's own mask for a pruned branch, else the mask of the
    /// levels up to `level`.
    pub open spec fn descriptor(self, level: u8) -> Seq<u8> {
        let mask = if self.is_pruned() {
            self.level_mask
        } else {
            level_to_mask(level)
        };
        seq![
            descriptor_d1(
                self.refs.len() as u8,
                mask,
                self.cell_type != CellType::Ordinary,
                false,
            ),
            descriptor_d2(self.bit_len as int),
        ]
    }

    /// The bytes whose digest is the hash for `level`.
    pub open spec fn preimage(self, level: u8) -> Seq<u8>
        decreases level,
    {
        let own = if level == 0 {
            self.data.subrange(0, self.data_size())
        } else {
            sha256(self.preimage((level - 1) as u8))
        };
        self.descriptor(level) + own + self.child_depth_bytes(level, self.refs.len() as int)
            + self.child_hash_bytes(level, self.refs.len() as int)
    }

    /// The hash of the cell for `level`.
    pub open spec fn hash(self, level: u8) -> Seq<u8> {
        sha256(self.preimage(level))
    }

    /// The representation hash of the cell, under which it is stored: its
    /// hash at its highest level.
    pub open spec fn key(self) -> Seq<u8> {
        self.hash((self.hash_count() - 1) as u8)
    }

    /// The bits of data in the cell's subtree, as far as 64 bits count.
    pub open spec fn tree_bits_count(self) -> u64 {
        saturated_u64(self.bit_len + joint_bits(self.children, self.refs.len() as int))
    }

    /// The cells in the cell's subtree, as far as 32 bits count.
    pub open spec fn tree_cell_count(self) -> u32 {
        saturated_u32(1 + joint_cells(self.children, self.refs.len() as int))
    }

    /// Whether `entry` is the summary of the cell: mask, kind and counters,
    /// and at each place the hash and the depth for that level, or zero
    /// where the cell has none.
    pub open spec fn summarised_by(self, entry: HashesEntry) -> bool {
        &&& entry.level_mask == self.level_mask
        &&& entry.cell_type == self.cell_type
        &&& entry.tree_bits_count == self.tree_bits_count()
        &&& entry.tree_cell_count == self.tree_cell_count()
        &&& forall|i: int|
            0 <= i < 4 ==> (#[trigger] entry.hashes@[i])@ == if i < self.hash_count() {
                self.hash(i as u8)
            } else {
                Seq::new(32, |j: int| 0u8)
            }
        &&& forall|i: int|
            0 <= i < 4 ==> #[trigger] entry.depths@[i] == if i < self.hash_count() {
                self.depth(i as u8)
            } else {
                0
            }
    }

    /// The hashes of the levels below `n`, one after the other.
    pub open spec fn level_hash_bytes(self, n: int) -> Seq<u8>
        decreases n,
    {
        if n <= 0 {
            Seq::empty()
        } else {
            self.level_hash_bytes(n - 1) + self.hash((n - 1) as u8)
        }
    }

    /// The depths of the levels below `n`, little-endian, one after the
    /// other.
    pub open spec fn level_depth_bytes(self, n: int) -> Seq<u8>
        decreases n,
    {
        if n <= 0 {
            Seq::empty()
        } else {
            self.level_depth_bytes(n - 1) + u16_le(self.depth((n - 1) as u8) as u16)
        }
    }

    /// The representation hashes of the first `n` children, one after the
    /// other.
    pub open spec fn child_key_bytes(self, n: int) -> Seq<u8>
        decreases n,
    {
        if n <= 0 {
            Seq::empty()
        } else {
            self.child_key_bytes(n - 1) + self.children[n - 1].repr_hash()
        }
    }

    /// The record under which the cell is stored: the marker, the kind, the
    /// bit length, the data with its tag, the level mask, the flags and the
    /// count of the hashes, the hashes, the flag and the count of the
    /// depths, the depths, the count of the references, the representation
    /// hash of every child, and the two subtree counters.
    pub open spec fn value(self, marker: u8) -> Seq<u8> {
        seq![marker, self.cell_type.code()] + u16_le(self.bit_len) + self.data.subrange(
            0,
            self.bit_len / 8 + 1,
        ) + seq![self.level_mask, 0u8, 1u8, self.hash_count() as u8] + self.level_hash_bytes(
            self.hash_count(),
        ) + seq![1u8, self.hash_count() as u8] + self.level_depth_bytes(self.hash_count())
            + seq![self.refs.len() as u8] + self.child_key_bytes(self.refs.len() as int)
            + u64_le(self.tree_bits_count()) + u32_le(self.tree_cell_count())
    }
}

impl CellInput {
    /// The record of a cell begins with the marker it was stored with.
    pub proof fn lemma_value_starts_with_marker(self, marker: u8)
        ensures
            self.value(marker).len() > 0,
            self.value(marker)[0] == marker,
    {
    }

    /// The depth of a cell over some of its children is one more than that
    /// of the deepest of them.
    pub proof fn lemma_depth_over_bound(self, level: u8, n: int, bound: int)
        requires
            0 <= bound,
            forall|c: int| 0 <= c < n ==> (#[trigger] self.child_depth(c, level)).unwrap() < bound,
        ensures
            0 <= self.depth_over(level, n) <= bound,
        decreases n,
    {
        if n > 0 {
            self.lemma_depth_over_bound(level, n - 1, bound);
        }
    }

    /// No depth of a valid cell is over `MAX_DEPTH`.
    pub proof fn lemma_valid_depth_bound(self, level: u8)
        requires
            self.valid(),
            level < self.hash_count(),
        ensures
            0 <= self.depth(level) <= MAX_DEPTH,
    {
        assert forall|c: int| 0 <= c < self.refs.len() implies (#[trigger] self.child_depth(
            c,
            level,
        )).unwrap() < MAX_DEPTH by {
            assert(self.child_ok(c, level));
        }
        self.lemma_depth_over_bound(level, self.refs.len() as int, MAX_DEPTH as int);
    }

    /// No depth in the summary of a valid cell is over `MAX_DEPTH`.
    pub proof fn lemma_summary_depth_bound(self, entry: HashesEntry, i: int)
        requires
            self.valid(),
            self.summarised_by(entry),
            0 <= i < 4,
        ensures
            entry.depths@[i] <= MAX_DEPTH,
    {
        if i < self.hash_count() {
            self.lemma_valid_depth_bound(i as u8);
        }
    }

    /// A cell has one summary.
    pub proof fn lemma_summary_unique(self, a: HashesEntry, b: HashesEntry)
        requires
            self.summarised_by(a),
            self.summarised_by(b),
        ensures
            a == b,
    {
        assert(a.depths@ =~= b.depths@);
        HashesEntry::lemma_same_parts(a, b);
    }

    /// An ordinary cell without data and without children is valid, has
    /// depth zero, and its representation hash is the digest of its two
    /// descriptor bytes alone, which are zero.
    pub proof fn lemma_empty_ordinary_cell(self)
        requires
            self.cell_type == CellType::Ordinary,
            self.bit_len == 0,
            self.data.len() >= 1,
            self.refs.len() == 0,
            self.level_mask == 0,
        ensures
            self.valid(),
            self.hash_count() == 1,
            self.depth(0) == 0,
            self.key() == sha256(seq![0u8, 0u8]),
    {
        assert(self.preimage(0) =~= seq![0u8, 0u8]);
    }
}

/// The cell `cell` with the summaries `children` of its children and the
/// pruned branches `pruned`.
pub open spec fn cell_input(
    cell: RawCell,
    children: Seq<HashesEntry>,
    pruned: Map<u32, Vec<u8>>,
) -> CellInput {
    CellInput {
        cell_type: cell.cell_type,
        level_mask: cell.level_mask,
        bit_len: cell.bit_len,
        data: cell.data@,
        refs: cell.reference_indices@,
        children,
        pruned: pruned_data(pruned),
    }
}

/// The depth for `level` of a child under a cell that is a Merkle cell or
/// not.
pub fn child_depth(
    child: &HashesEntry,
    index: u32,
    pruned: &FxHashMap<u32, Vec<u8>>,
    merkle: bool,
    level: u8,
) -> (r: Option<u16>)
    requires
        level <= 3,
    ensures
        r == depth_of_child(*child, index, pruned_data(pruned@), merkle, level),
{
    if child.cell_type().is_pruned_branch() {
        match fx_get(pruned, index) {
            Some(data) => child.pruned_branch_depth(level, data.as_slice()),
            None => None,
        }
    } else {
        let asked = if merkle {
            level + 1
        } else {
            level
        };
        Some(child.depth(asked))
    }
}

/// The hash for `level` of a child under a cell that is a Merkle cell or
/// not.
pub fn child_hash(
    child: &HashesEntry,
    index: u32,
    pruned: &FxHashMap<u32, Vec<u8>>,
    merkle: bool,
    level: u8,
) -> (r: Option<[u8; 32]>)
    requires
        level <= 3,
    ensures
        match hash_of_child(*child, index, pruned_data(pruned@), merkle, level) {
            Some(hash) => r.is_some() && r.unwrap()@ == hash,
            None => r.is_none(),
        },
{
    if child.cell_type().is_pruned_branch() {
        match fx_get(pruned, index) {
            Some(data) => child.pruned_branch_hash(level, data.as_slice()),
            None => None,
        }
    } else {
        let asked = if merkle {
            level + 1
        } else {
            level
        };
        Some(child.hash(asked))
    }
}

/// The joint level mask and subtree counters of a cell's children, the
/// counters with the cell itself counted in.
pub fn children_counters(children: &[HashesEntry], count: usize, bit_len: u16) -> (r: (
    u8,
    u64,
    u32,
))
    requires
        count <= children@.len(),
    ensures
        r.0 == joint_mask(children@, count as int),
        r.0 <= 7,
        r.1 == saturated_u64(bit_len + joint_bits(children@, count as int)),
        r.2 == saturated_u32(1 + joint_cells(children@, count as int)),
{
    let mut mask: u8 = 0;
    let mut bits: u64 = bit_len as u64;
    let mut cells: u32 = 1;
    let mut i: usize = 0;
    while i < count
        invariant
            i <= count <= children@.len(),
            mask == joint_mask(children@, i as int),
            mask <= 7,
            joint_bits(children@, i as int) >= 0,
            joint_cells(children@, i as int) >= 0,
            bits == saturated_u64(bit_len + joint_bits(children@, i as int)),
            cells == saturated_u32(1 + joint_cells(children@, i as int)),
        decreases count - i,
    {
        let child = &children[i];
        let child_mask = LevelMask::with_mask(child.level_mask).0;
        assert(mask | child_mask <= 7) by (bit_vector)
            requires
                mask <= 7,
                child_mask <= 7,
        ;
        mask = mask | child_mask;
        bits = bits.saturating_add(child.tree_bits_count);
        cells = cells.saturating_add(child.tree_cell_count);
        i += 1;
    }
    (mask, bits, cells)
}

/// The hash and the depth of `cell` for `level`, or `None` if a child is not
/// in order at that level. `previous` is the hash for the level below,
/// and `buffer` is scratch space for the hashed bytes.
pub fn hash_level(
    cell: &RawCell,
    children: &[HashesEntry],
    pruned: &FxHashMap<u32, Vec<u8>>,
    level: u8,
    previous: &[u8; 32],
    buffer: &mut Vec<u8>,
) -> (r: Option<([u8; 32], u16)>)
    requires
        cell.wf(),
        children@.len() >= cell.reference_indices@.len(),
        cell.level_mask <= 7,
        level <= 3,
        level > 0 ==> previous@ == cell_input(*cell, children@, pruned@).hash((level - 1) as u8),
    ensures
        ({
            let cx = cell_input(*cell, children@, pruned@);
            match r {
                Some((hash, depth)) => {
                    &&& forall|c: int| 0 <= c < cx.refs.len() ==> cx.child_ok(c, level)
                    &&& hash@ == cx.hash(level)
                    &&& depth == cx.depth(level)
                    &&& depth <= MAX_DEPTH
                },
                None => exists|c: int| 0 <= c < cx.refs.len() && !cx.child_ok(c, level),
            }
        }),
{
    let ghost cx = cell_input(*cell, children@, pruned@);
    let count = cell.reference_indices.len();
    let merkle = cell.cell_type.is_merkle();
    let mask = if cell.cell_type.is_pruned_branch() {
        cell.level_mask
    } else {
        LevelMask::with_level(level).0
    };
    let (d1, d2) = calculate_descriptor_bytes(
        cell.bit_len as usize,
        count as u8,
        mask,
        !cell.cell_type.is_ordinary(),
        false,
    );
    buffer.clear();
    buffer.push(d1);
    buffer.push(d2);
    if level == 0 {
        let data_size = (cell.bit_len as usize + 7) / 8;
        push_bytes(buffer, &cell.data[0..data_size]);
    } else {
        push_bytes(buffer, previous.as_slice());
    }
    let ghost own = if level == 0 {
        cx.data.subrange(0, cx.data_size())
    } else {
        sha256(cx.preimage((level - 1) as u8))
    };
    assert(buffer@ =~= cx.descriptor(level) + own);

    let mut depth: u16 = 0;
    let mut i: usize = 0;
    while i < count
        invariant
            i <= count == cx.refs.len() <= 4,
            count <= children@.len(),
            cx == cell_input(*cell, children@, pruned@),
            merkle == cx.cell_type.merkle(),
            level <= 3,
            depth == cx.depth_over(level, i as int),
            depth <= MAX_DEPTH,
            buffer@ == cx.descriptor(level) + own + cx.child_depth_bytes(level, i as int),
            forall|c: int|
                0 <= c < i ==> (#[trigger] cx.child_depth(c, level)) is Some && cx.child_depth(
                    c,
                    level,
                ).unwrap() < MAX_DEPTH,
        decreases count - i,
    {
        let below = match child_depth(&children[i], cell.reference_indices[i], pruned, merkle, level) {
            Some(below) => below,
            None => {
                assert(!cx.child_ok(i as int, level));
                return None;
            },
        };
        if below >= MAX_DEPTH {
            assert(!cx.child_ok(i as int, level));
            return None;
        }
        push_u16_be(buffer, below);
        if below + 1 > depth {
            depth = below + 1;
        }
        i += 1;
        assert(buffer@ =~= cx.descriptor(level) + own + cx.child_depth_bytes(level, i as int));
    }

    let ghost with_depths = buffer@;
    let mut i: usize = 0;
    assert(buffer@ =~= with_depths + cx.child_hash_bytes(level, 0));
    while i < count
        invariant
            i <= count == cx.refs.len() <= 4,
            count <= children@.len(),
            cx == cell_input(*cell, children@, pruned@),
            merkle == cx.cell_type.merkle(),
            level <= 3,
            buffer@ == with_depths + cx.child_hash_bytes(level, i as int),
            forall|c: int| 0 <= c < i ==> (#[trigger] cx.child_hash(c, level)) is Some,
        decreases count - i,
    {
        let hash = match child_hash(&children[i], cell.reference_indices[i], pruned, merkle, level) {
            Some(hash) => hash,
            None => {
                assert(!cx.child_ok(i as int, level));
                return None;
            },
        };
        push_bytes(buffer, hash.as_slice());
        i += 1;
        assert(buffer@ =~= with_depths + cx.child_hash_bytes(level, i as int));
    }
    assert(buffer@ =~= cx.preimage(level));
    let hash = sha256_digest(buffer.as_slice());
    Some((hash, depth))
}

} // verus!
