//! The record under which a cell is kept in the cell store.
//!
//! A record holds, in this order: the marker of the transaction that stored
//! it, the kind of the cell, the number of its data bits in two bytes
//! little-endian, its data with the tag, its level mask, a zero byte, a one
//! byte, the number of its hashes, the hashes, a one byte, the number of its
//! depths, the depths in two bytes little-endian each, the number of its
//! references, the representation hash of every child, and the bit count in
//! eight bytes and the cell count in four bytes of its subtree,
//! little-endian.

use crate::cell::{CellType, MAX_DATA_BITS, MAX_REFERENCES};
use crate::codec::{
    lemma_u16_bytes_roundtrip, lemma_u16_roundtrip, lemma_u32_bytes_roundtrip,
    lemma_u32_roundtrip, lemma_u64_bytes_roundtrip, lemma_u64_roundtrip, push_bytes, push_u16_le,
    push_u32_le, push_u64_le, read_bytes32, read_u16_le, read_u32_le, read_u64_le, u16_from_le,
    u16_le, u32_from_le, u32_le, u64_from_le, u64_le,
};
use crate::shard_state::cell_summary::CellInput;
use vstd::prelude::*;

verus! {

/// Why a record of the cell store could not be read.
#[derive(Clone, Copy, Debug, PartialEq, Eq, Structural)]
pub enum CellStorageError {
    /// The bytes are no record of a cell.
    InvalidCell,
}

/// A cell as the cell store keeps it.
#[derive(Debug)]
pub struct StorageCell {
    /// The marker of the transaction that stored the cell.
    pub marker: u8,
    /// The kind of the cell.
    pub cell_type: CellType,
    /// The number of bits of data.
    pub bit_len: u16,
    /// The data, closed by its tag.
    pub data: Vec<u8>,
    /// The bits of the level mask.
    pub level_mask: u8,
    /// The hashes of the cell, lowest level first.
    pub hashes: Vec<[u8; 32]>,
    /// The depths of the cell, lowest level first.
    pub depths: Vec<u16>,
    /// The representation hash of every child.
    pub references: Vec<[u8; 32]>,
    /// The bits of data in the cell's subtree.
    pub tree_bits_count: u64,
    /// The cells in the cell's subtree.
    pub tree_cell_count: u32,
}

/// The first `n` of a list of hashes, one after the other.
pub open spec fn hashes_bytes(hashes: Seq<[u8; 32]>, n: int) -> Seq<u8>
    decreases n,
{
    if n <= 0 {
        Seq::empty()
    } else {
        hashes_bytes(hashes, n - 1) + hashes[n - 1]@
    }
}

/// The first `n` of a list of depths, little-endian, one after the other.
pub open spec fn depths_bytes(depths: Seq<u16>, n: int) -> Seq<u8>
    decreases n,
{
    if n <= 0 {
        Seq::empty()
    } else {
        depths_bytes(depths, n - 1) + u16_le(depths[n - 1])
    }
}

/// Hashes one after the other take 32 bytes each, and each stands at its
/// place.
pub proof fn lemma_hashes_bytes(hashes: Seq<[u8; 32]>, n: int)
    requires
        0 <= n <= hashes.len(),
    ensures
        hashes_bytes(hashes, n).len() == 32 * n,
        forall|i: int|
            0 <= i < n ==> hashes_bytes(hashes, n).subrange(32 * i, 32 * i + 32)
                == (#[trigger] hashes[i])@,
    decreases n,
{
    if n > 0 {
        lemma_hashes_bytes(hashes, n - 1);
        let all = hashes_bytes(hashes, n);
        let before = hashes_bytes(hashes, n - 1);
        assert forall|i: int| 0 <= i < n implies all.subrange(32 * i, 32 * i + 32)
            == (#[trigger] hashes[i])@ by {
            if i < n - 1 {
                assert(all.subrange(32 * i, 32 * i + 32) =~= before.subrange(32 * i, 32 * i + 32));
            } else {
                assert(all.subrange(32 * i, 32 * i + 32) =~= hashes[i]@);
            }
        }
    }
}

/// Depths one after the other take two bytes each, and each stands at its
/// place.
pub proof fn lemma_depths_bytes(depths: Seq<u16>, n: int)
    requires
        0 <= n <= depths.len(),
    ensures
        depths_bytes(depths, n).len() == 2 * n,
        forall|i: int|
            0 <= i < n ==> u16_from_le(depths_bytes(depths, n).subrange(2 * i, 2 * i + 2))
                == #[trigger] depths[i],
    decreases n,
{
    if n > 0 {
        lemma_depths_bytes(depths, n - 1);
        lemma_u16_roundtrip(depths[n - 1]);
        let all = depths_bytes(depths, n);
        let before = depths_bytes(depths, n - 1);
        assert forall|i: int| 0 <= i < n implies u16_from_le(all.subrange(2 * i, 2 * i + 2))
            == #[trigger] depths[i] by {
            if i < n - 1 {
                assert(all.subrange(2 * i, 2 * i + 2) =~= before.subrange(2 * i, 2 * i + 2));
            } else {
                lemma_u16_roundtrip(depths[i]);
                assert(all.subrange(2 * i, 2 * i + 2) =~= u16_le(depths[i]));
            }
        }
    }
}

/// The bytes of the first hashes of a list do not depend on the hashes
/// behind them.
pub proof fn lemma_hashes_same_front(a: Seq<[u8; 32]>, b: Seq<[u8; 32]>, n: int)
    requires
        0 <= n <= a.len(),
        n <= b.len(),
        forall|i: int| 0 <= i < n ==> a[i] == b[i],
    ensures
        hashes_bytes(a, n) == hashes_bytes(b, n),
    decreases n,
{
    if n > 0 {
        lemma_hashes_same_front(a, b, n - 1);
    }
}

/// The bytes of the first depths of a list do not depend on the depths
/// behind them.
pub proof fn lemma_depths_same_front(a: Seq<u16>, b: Seq<u16>, n: int)
    requires
        0 <= n <= a.len(),
        n <= b.len(),
        forall|i: int| 0 <= i < n ==> a[i] == b[i],
    ensures
        depths_bytes(a, n) == depths_bytes(b, n),
    decreases n,
{
    if n > 0 {
        lemma_depths_same_front(a, b, n - 1);
    }
}

/// The lengths that the bytes of a record state, if the bytes are as long
/// as they call for: the length of the data with its tag, the number of
/// hashes, and the number of references.
pub open spec fn record_shape(bytes: Seq<u8>) -> Option<(int, int, int)> {
    if bytes.len() < 4 {
        None
    } else {
        let bit_len = u16_from_le(bytes.subrange(2, 4));
        let d = bit_len as int / 8 + 1;
        if CellType::of_code(bytes[1]) == CellType::Unknown || bit_len > MAX_DATA_BITS
            || bytes.len() < 8 + d {
            None
        } else {
            let h = bytes[7 + d] as int;
            if bytes[5 + d] != 0 || bytes[6 + d] != 1 || h < 1 || h > 4 || bytes.len() < 11 + d
                + 34 * h {
                None
            } else {
                let r = bytes[10 + d + 34 * h] as int;
                if bytes[8 + d + 32 * h] != 1 || bytes[9 + d + 32 * h] != h || r > 4
                    || bytes.len() != 23 + d + 34 * h + 32 * r {
                    None
                } else {
                    Some((d, h, r))
                }
            }
        }
    }
}

/// A cell whose parts were read from a record at their places is the cell
/// of that record.
proof fn lemma_read_back(cell: StorageCell, bytes: Seq<u8>, d: int, h: int, r: int)
    requires
        record_shape(bytes) == Some((d, h, r)),
        cell.marker == bytes[0],
        cell.cell_type == CellType::of_code(bytes[1]),
        cell.bit_len == u16_from_le(bytes.subrange(2, 4)),
        cell.data@ == bytes.subrange(4, 4 + d),
        cell.level_mask == bytes[4 + d],
        cell.hashes@.len() == h,
        hashes_bytes(cell.hashes@, h) == bytes.subrange(8 + d, 8 + d + 32 * h),
        cell.depths@.len() == h,
        depths_bytes(cell.depths@, h) == bytes.subrange(10 + d + 32 * h, 10 + d + 32 * h + 2 * h),
        cell.references@.len() == r,
        hashes_bytes(cell.references@, r) == bytes.subrange(
            11 + d + 34 * h,
            11 + d + 34 * h + 32 * r,
        ),
        cell.tree_bits_count == u64_from_le(
            bytes.subrange(11 + d + 34 * h + 32 * r, 19 + d + 34 * h + 32 * r),
        ),
        cell.tree_cell_count == u32_from_le(
            bytes.subrange(19 + d + 34 * h + 32 * r, 23 + d + 34 * h + 32 * r),
        ),
    ensures
        cell.wf(),
        cell.encoding() == bytes,
{
    lemma_u16_bytes_roundtrip(bytes.subrange(2, 4));
    lemma_u64_bytes_roundtrip(bytes.subrange(11 + d + 34 * h + 32 * r, 19 + d + 34 * h + 32 * r));
    lemma_u32_bytes_roundtrip(bytes.subrange(19 + d + 34 * h + 32 * r, 23 + d + 34 * h + 32 * r));
    assert(cell.cell_type.code() == bytes[1]);
    assert(cell.head() =~= bytes.subrange(0, 8 + d));
    assert(cell.encoding() =~= bytes);
}

impl StorageCell {
    /// The cell is one that the store keeps: of a known kind, with at most
    /// 1023 bits of data and its data with the tag, one to four hashes and
    /// as many depths, and at most four references.
    pub open spec fn wf(&self) -> bool {
        &&& self.cell_type != CellType::Unknown
        &&& self.bit_len <= MAX_DATA_BITS
        &&& self.data@.len() == self.bit_len / 8 + 1
        &&& 1 <= self.hashes@.len() <= 4
        &&& self.depths@.len() == self.hashes@.len()
        &&& self.references@.len() <= MAX_REFERENCES
    }

    /// The part of the record up to the hashes.
    pub open spec fn head(&self) -> Seq<u8> {
        seq![self.marker, self.cell_type.code()] + u16_le(self.bit_len) + self.data@ + seq![
            self.level_mask,
            0u8,
            1u8,
            self.hashes@.len() as u8,
        ]
    }

    /// The record of the cell.
    pub open spec fn encoding(&self) -> Seq<u8> {
        self.head() + hashes_bytes(self.hashes@, self.hashes@.len() as int) + seq![
            1u8,
            self.hashes@.len() as u8,
        ] + depths_bytes(self.depths@, self.depths@.len() as int) + seq![
            self.references@.len() as u8,
        ] + hashes_bytes(self.references@, self.references@.len() as int) + u64_le(
            self.tree_bits_count,
        ) + u32_le(self.tree_cell_count)
    }

    /// The representation hash of the cell: the last of its hashes.
    pub fn repr_hash(&self) -> (r: [u8; 32])
        requires
            self.wf(),
        ensures
            r == self.hashes@.last(),
    {
        self.hashes[self.hashes.len() - 1]
    }

    /// Whether the cell was stored or stamped in the pass with the marker
    /// `current`; a sweep erases the cells that were not.
    pub fn is_current(&self, current: u8) -> (r: bool)
        ensures
            r == (self.marker == current),
    {
        self.marker == current
    }

    /// Appends the record of the cell to `out`.
    pub fn serialize(&self, out: &mut Vec<u8>)
        requires
            self.wf(),
        ensures
            final(out)@ == old(out)@ + self.encoding(),
    {
        let ghost begin = out@;
        out.push(self.marker);
        out.push(self.cell_type.to_u8());
        push_u16_le(out, self.bit_len);
        push_bytes(out, self.data.as_slice());
        out.push(self.level_mask);
        out.push(0);
        out.push(1);
        out.push(self.hashes.len() as u8);
        assert(out@ =~= begin + self.head());
        let ghost head = out@;
        let mut i: usize = 0;
        while i < self.hashes.len()
            invariant
                i <= self.hashes@.len(),
                out@ == head + hashes_bytes(self.hashes@, i as int),
            decreases self.hashes@.len() - i,
        {
            push_bytes(out, self.hashes[i].as_slice());
            i += 1;
            assert(out@ =~= head + hashes_bytes(self.hashes@, i as int));
        }
        out.push(1);
        out.push(self.hashes.len() as u8);
        let ghost head = out@;
        let mut i: usize = 0;
        while i < self.depths.len()
            invariant
                i <= self.depths@.len(),
                out@ == head + depths_bytes(self.depths@, i as int),
            decreases self.depths@.len() - i,
        {
            push_u16_le(out, self.depths[i]);
            i += 1;
            assert(out@ =~= head + depths_bytes(self.depths@, i as int));
        }
        out.push(self.references.len() as u8);
        let ghost head = out@;
        let mut i: usize = 0;
        while i < self.references.len()
            invariant
                i <= self.references@.len(),
                out@ == head + hashes_bytes(self.references@, i as int),
            decreases self.references@.len() - i,
        {
            push_bytes(out, self.references[i].as_slice());
            i += 1;
            assert(out@ =~= head + hashes_bytes(self.references@, i as int));
        }
        push_u64_le(out, self.tree_bits_count);
        push_u32_le(out, self.tree_cell_count);
        assert(out@ =~= begin + self.encoding());
    }

    /// Reads the `count` hashes that stand in `value` from `pos` on.
    fn read_hashes(value: &[u8], pos: usize, count: usize) -> (r: Vec<[u8; 32]>)
        requires
            count <= 4,
            pos + 32 * count <= value@.len(),
        ensures
            r@.len() == count,
            hashes_bytes(r@, count as int) == value@.subrange(pos as int, pos + 32 * count),
    {
        let len = value.len();
        let mut hashes: Vec<[u8; 32]> = Vec::with_capacity(count);
        let mut i: usize = 0;
        assert(value@.subrange(pos as int, pos as int) =~= Seq::<u8>::empty());
        while i < count
            invariant
                i <= count <= 4,
                pos + 32 * count <= value@.len() == len,
                hashes@.len() == i,
                hashes_bytes(hashes@, i as int) == value@.subrange(pos as int, pos + 32 * i),
            decreases count - i,
        {
            let hash = read_bytes32(value, pos + 32 * i);
            let ghost before = hashes@;
            hashes.push(hash);
            proof {
                lemma_hashes_same_front(before, hashes@, i as int);
                assert(value@.subrange(pos as int, pos + 32 * (i + 1)) =~= value@.subrange(
                    pos as int,
                    pos + 32 * i,
                ) + hash@);
            }
            i += 1;
        }
        hashes
    }

    /// Reads the lengths that a record states, if it is as long as they
    /// call for.
    fn read_shape(value: &[u8]) -> (shape: Option<(usize, usize, usize)>)
        ensures
            match record_shape(value@) {
                Some((d, h, r)) => shape == Some((d as usize, h as usize, r as usize)),
                None => shape.is_none(),
            },
    {
        let len = value.len();
        if len < 4 {
            return None;
        }
        let bit_len = read_u16_le(value, 2);
        if CellType::from_u8(value[1]).to_u8() == 0 || bit_len > 1023 {
            return None;
        }
        let d = bit_len as usize / 8 + 1;
        if len < 8 + d {
            return None;
        }
        let h = value[7 + d] as usize;
        if value[5 + d] != 0 || value[6 + d] != 1 || h < 1 || h > 4 || len < 11 + d + 34 * h {
            return None;
        }
        let r = value[10 + d + 34 * h] as usize;
        if value[8 + d + 32 * h] != 1 || value[9 + d + 32 * h] as usize != h || r > 4 || len != 23
            + d + 34 * h + 32 * r {
            return None;
        }
        Some((d, h, r))
    }

    /// Reads the depths that stand in `value` from `pos` on.
    fn read_depths(value: &[u8], pos: usize, count: usize) -> (r: Vec<u16>)
        requires
            count <= 4,
            pos + 2 * count <= value@.len(),
        ensures
            r@.len() == count,
            depths_bytes(r@, count as int) == value@.subrange(pos as int, pos + 2 * count),
    {
        let len = value.len();
        let ghost bytes = value@;
        let mut depths: Vec<u16> = Vec::with_capacity(count);
        let mut i: usize = 0;
        assert(bytes.subrange(pos as int, pos as int) =~= Seq::<u8>::empty());
        while i < count
            invariant
                i <= count <= 4,
                pos + 2 * count <= bytes.len() == len,
                bytes == value@,
                depths@.len() == i,
                depths_bytes(depths@, i as int) == bytes.subrange(pos as int, pos + 2 * i),
            decreases count - i,
        {
            let depth = read_u16_le(value, pos + 2 * i);
            let ghost before = depths@;
            depths.push(depth);
            proof {
                lemma_depths_same_front(before, depths@, i as int);
                lemma_u16_bytes_roundtrip(bytes.subrange(pos + 2 * i, pos + 2 * i + 2));
                assert(bytes.subrange(pos as int, pos + 2 * (i + 1)) =~= bytes.subrange(
                    pos as int,
                    pos + 2 * i,
                ) + bytes.subrange(pos + 2 * i, pos + 2 * i + 2));
            }
            i += 1;
        }
        depths
    }

    /// Reads the record of a cell.
    ///
    /// Fails with `InvalidCell` exactly when the bytes are the record of no
    /// cell that the store keeps.
    pub fn deserialize(value: &[u8]) -> (r: Result<StorageCell, CellStorageError>)
        ensures
            match r {
                Ok(cell) => cell.wf() && cell.encoding() == value@,
                Err(e) => e == CellStorageError::InvalidCell && forall|cell: StorageCell|
                    cell.wf() ==> #[trigger] cell.encoding() != value@,
            },
    {
        let ghost bytes = value@;
        let (d, h, r) = match Self::read_shape(value) {
            Some(shape) => shape,
            None => {
                proof {
                    assert forall|cell: StorageCell| cell.wf() implies #[trigger] cell.encoding()
                        != bytes by {
                        cell.lemma_shape();
                    }
                }
                return Err(CellStorageError::InvalidCell);
            },
        };
        let mut data: Vec<u8> = Vec::with_capacity(d);
        push_bytes(&mut data, &value[4..4 + d]);
        let hashes = Self::read_hashes(value, 8 + d, h);
        let depths = Self::read_depths(value, 10 + d + 32 * h, h);
        let references = Self::read_hashes(value, 11 + d + 34 * h, r);
        let cell = StorageCell {
            marker: value[0],
            cell_type: CellType::from_u8(value[1]),
            bit_len: read_u16_le(value, 2),
            data,
            level_mask: value[4 + d],
            hashes,
            depths,
            references,
            tree_bits_count: read_u64_le(value, 11 + d + 34 * h + 32 * r),
            tree_cell_count: read_u32_le(value, 19 + d + 34 * h + 32 * r),
        };
        proof {
            lemma_read_back(cell, bytes, d as int, h as int, r as int);
        }
        Ok(cell)
    }

    /// The record of a cell that the store keeps states the lengths of the
    /// cell.
    pub proof fn lemma_shape(&self)
        requires
            self.wf(),
        ensures
            record_shape(self.encoding()) == Some(
                (
                    self.data@.len() as int,
                    self.hashes@.len() as int,
                    self.references@.len() as int,
                ),
            ),
    {
        self.lemma_layout();
        lemma_u16_roundtrip(self.bit_len);
        self.cell_type.lemma_code_roundtrip();
    }

    /// Where the parts of the record stand, and what the bytes between them
    /// are.
    pub proof fn lemma_layout(&self)
        requires
            self.wf(),
        ensures
            ({
                let bytes = self.encoding();
                let d = self.data@.len() as int;
                let h = self.hashes@.len() as int;
                let r = self.references@.len() as int;
                &&& bytes.len() == 4 + d + 4 + 32 * h + 2 + 2 * h + 1 + 32 * r + 12
                &&& bytes[0] == self.marker
                &&& bytes[1] == self.cell_type.code()
                &&& bytes.subrange(2, 4) == u16_le(self.bit_len)
                &&& bytes.subrange(4, 4 + d) == self.data@
                &&& bytes[4 + d] == self.level_mask
                &&& bytes[5 + d] == 0
                &&& bytes[6 + d] == 1
                &&& bytes[7 + d] == h
                &&& bytes.subrange(8 + d, 8 + d + 32 * h) == hashes_bytes(self.hashes@, h)
                &&& bytes[8 + d + 32 * h] == 1
                &&& bytes[9 + d + 32 * h] == h
                &&& bytes.subrange(10 + d + 32 * h, 10 + d + 34 * h) == depths_bytes(
                    self.depths@,
                    h,
                )
                &&& bytes[10 + d + 34 * h] == r
                &&& bytes.subrange(11 + d + 34 * h, 11 + d + 34 * h + 32 * r) == hashes_bytes(
                    self.references@,
                    r,
                )
                &&& bytes.subrange(11 + d + 34 * h + 32 * r, 19 + d + 34 * h + 32 * r) == u64_le(
                    self.tree_bits_count,
                )
                &&& bytes.subrange(19 + d + 34 * h + 32 * r, 23 + d + 34 * h + 32 * r) == u32_le(
                    self.tree_cell_count,
                )
            }),
    {
        let bytes = self.encoding();
        let d = self.data@.len() as int;
        let h = self.hashes@.len() as int;
        let r = self.references@.len() as int;
        lemma_u16_roundtrip(self.bit_len);
        lemma_u64_roundtrip(self.tree_bits_count);
        lemma_u32_roundtrip(self.tree_cell_count);
        lemma_hashes_bytes(self.hashes@, h);
        lemma_hashes_bytes(self.references@, r);
        lemma_depths_bytes(self.depths@, h);
        assert(bytes.subrange(2, 4) =~= u16_le(self.bit_len));
        assert(bytes.subrange(4, 4 + d) =~= self.data@);
        assert(bytes.subrange(8 + d, 8 + d + 32 * h) =~= hashes_bytes(self.hashes@, h));
        assert(bytes.subrange(10 + d + 32 * h, 10 + d + 34 * h) =~= depths_bytes(self.depths@, h));
        assert(bytes.subrange(11 + d + 34 * h, 11 + d + 34 * h + 32 * r) =~= hashes_bytes(
            self.references@,
            r,
        ));
        assert(bytes.subrange(11 + d + 34 * h + 32 * r, 19 + d + 34 * h + 32 * r) =~= u64_le(
            self.tree_bits_count,
        ));
        assert(bytes.subrange(19 + d + 34 * h + 32 * r, 23 + d + 34 * h + 32 * r) =~= u32_le(
            self.tree_cell_count,
        ));
    }
}

/// Whether `cell` is the cell `cx` as finalisation sees it, stored with
/// `marker`: it holds the hash and the depth of every level, and the
/// representation hash of every child.
pub open spec fn stores(cell: StorageCell, cx: CellInput, marker: u8) -> bool {
    &&& cell.marker == marker
    &&& cell.cell_type == cx.cell_type
    &&& cell.bit_len == cx.bit_len
    &&& cell.data@ == cx.data.subrange(0, cx.bit_len / 8 + 1)
    &&& cell.level_mask == cx.level_mask
    &&& cell.hashes@.len() == cx.hash_count()
    &&& forall|i: int| 0 <= i < cx.hash_count() ==> (#[trigger] cell.hashes@[i])@ == cx.hash(i as u8)
    &&& cell.depths@.len() == cx.hash_count()
    &&& forall|i: int| 0 <= i < cx.hash_count() ==> #[trigger] cell.depths@[i] == cx.depth(i as u8)
    &&& cell.references@.len() == cx.refs.len()
    &&& forall|k: int|
        0 <= k < cx.refs.len() ==> (#[trigger] cell.references@[k])@ == cx.children[k].repr_hash()
    &&& cell.tree_bits_count == cx.tree_bits_count()
    &&& cell.tree_cell_count == cx.tree_cell_count()
}

/// What finalisation stores of a cell is the record of that cell: reading
/// it back gives the cell with its hashes, its depths and its references.
pub proof fn lemma_value_is_record(cell: StorageCell, cx: CellInput, marker: u8)
    requires
        stores(cell, cx, marker),
    ensures
        cell.encoding() == cx.value(marker),
{
    lemma_hashes_match(cell, cx, cx.hash_count());
    lemma_depths_match(cell, cx, cx.hash_count());
    lemma_references_match(cell, cx, cx.refs.len() as int);
    assert(cell.head() =~= seq![marker, cx.cell_type.code()] + u16_le(cx.bit_len)
        + cx.data.subrange(0, cx.bit_len / 8 + 1) + seq![
        cx.level_mask,
        0u8,
        1u8,
        cx.hash_count() as u8,
    ]);
    assert(cell.encoding() =~= cx.value(marker));
}

/// The hashes that a stored cell holds are those of the levels of the cell.
proof fn lemma_hashes_match(cell: StorageCell, cx: CellInput, n: int)
    requires
        0 <= n <= cell.hashes@.len(),
        forall|i: int| 0 <= i < n ==> (#[trigger] cell.hashes@[i])@ == cx.hash(i as u8),
    ensures
        hashes_bytes(cell.hashes@, n) == cx.level_hash_bytes(n),
    decreases n,
{
    if n > 0 {
        lemma_hashes_match(cell, cx, n - 1);
        assert(cell.hashes@[n - 1]@ == cx.hash((n - 1) as u8));
    }
}

/// The depths that a stored cell holds are those of the levels of the cell.
proof fn lemma_depths_match(cell: StorageCell, cx: CellInput, n: int)
    requires
        0 <= n <= cell.depths@.len(),
        forall|i: int| 0 <= i < n ==> #[trigger] cell.depths@[i] == cx.depth(i as u8),
    ensures
        depths_bytes(cell.depths@, n) == cx.level_depth_bytes(n),
    decreases n,
{
    if n > 0 {
        lemma_depths_match(cell, cx, n - 1);
        assert(cell.depths@[n - 1] == cx.depth((n - 1) as u8));
    }
}

/// The references that a stored cell holds are the representation hashes of
/// the children of the cell.
proof fn lemma_references_match(cell: StorageCell, cx: CellInput, n: int)
    requires
        0 <= n <= cell.references@.len(),
        forall|k: int| 0 <= k < n ==> (#[trigger] cell.references@[k])@ == cx.children[k].repr_hash(),
    ensures
        hashes_bytes(cell.references@, n) == cx.child_key_bytes(n),
    decreases n,
{
    if n > 0 {
        lemma_references_match(cell, cx, n - 1);
        assert(cell.references@[n - 1]@ == cx.children[n - 1].repr_hash());
    }
}

} // verus!
