//! Cells as they stand in the records of the spill file.
//!
//! A record holds the two descriptor bytes of the cell, the bytes that hold
//! its data, and the index of every child, big-endian in `ref_size` bytes.
//! The first descriptor byte holds the number of references in its lowest
//! three bits, the flag of an exotic cell in the fourth and the level mask in
//! the highest three. The second holds the number of full data bytes plus
//! the number of bytes that hold data; if it is odd, the last data byte is
//! closed by a tag, a single `1` bit behind the data bits.

use crate::cell::{CellType, MAX_DATA_BITS, MAX_REFERENCES};
use crate::codec::{be_value, lemma_be_value_bound, lemma_pow256_u32, push_bytes, read_be_uint};
use crate::shard_state::replace_transaction::ReplaceTransactionError;
use vstd::prelude::*;

verus! {

/// The number of zero bits below the lowest set bit of a byte that is not
/// zero.
pub open spec fn trailing_zeros(b: u8) -> int
    decreases b,
{
    if b == 0 || b % 2 == 1 {
        0
    } else {
        1 + trailing_zeros(b / 2)
    }
}

/// What a record says of its cell.
pub struct Record {
    /// The bytes of the record.
    pub bytes: Seq<u8>,
    /// The number of bytes that hold the index of a child.
    pub ref_size: int,
}

impl Record {
    /// The number of references.
    pub open spec fn ref_count(self) -> int {
        self.bytes[0] as int % 8
    }

    /// Whether the cell is exotic.
    pub open spec fn exotic(self) -> bool {
        self.bytes[0] / 8 % 2 == 1
    }

    /// The level mask.
    pub open spec fn level_mask(self) -> u8 {
        self.bytes[0] / 32
    }

    /// The number of bytes that hold data.
    pub open spec fn data_len(self) -> int {
        self.bytes[1] / 2 + self.bytes[1] % 2
    }

    /// Whether the last data byte is closed by a tag.
    pub open spec fn tagged(self) -> bool {
        self.bytes[1] % 2 == 1
    }

    /// The bytes that hold data.
    pub open spec fn raw_data(self) -> Seq<u8> {
        self.bytes.subrange(2, 2 + self.data_len())
    }

    /// The number of bits of data.
    pub open spec fn bit_len(self) -> int {
        if self.tagged() {
            8 * self.data_len() - 1 - trailing_zeros(self.raw_data().last())
        } else {
            8 * self.data_len()
        }
    }

    /// The data closed by its tag: as it stands in the record if that ends
    /// in a tag, else with a tag byte behind it.
    pub open spec fn data(self) -> Seq<u8> {
        if self.tagged() {
            self.raw_data()
        } else {
            self.raw_data().push(0x80)
        }
    }

    /// The kind of the cell: ordinary, or what the first data byte of an
    /// exotic cell says.
    pub open spec fn cell_type(self) -> CellType {
        if self.exotic() {
            CellType::of_exotic_tag(self.raw_data()[0])
        } else {
            CellType::Ordinary
        }
    }

    /// The index of child `k`.
    pub open spec fn reference(self, k: int) -> nat {
        be_value(
            self.bytes.subrange(
                2 + self.data_len() + k * self.ref_size,
                2 + self.data_len() + (k + 1) * self.ref_size,
            ),
        )
    }

    /// The index of every child.
    pub open spec fn references(self) -> Seq<u32> {
        Seq::new(self.ref_count() as nat, |k: int| self.reference(k) as u32)
    }

    /// Whether the record is that of a cell: it holds at most four
    /// references, is exactly as long as its descriptor bytes say, a tagged
    /// last byte does hold a tag, and an exotic cell has a byte of data to
    /// say its kind.
    pub open spec fn well_formed(self) -> bool {
        &&& 1 <= self.ref_size <= 4
        &&& self.bytes.len() >= 2
        &&& self.ref_count() <= MAX_REFERENCES
        &&& self.bytes.len() == 2 + self.data_len() + self.ref_count() * self.ref_size
        &&& self.tagged() ==> self.raw_data().last() != 0
        &&& self.exotic() ==> self.bit_len() >= 8
    }

    /// Whether every child of the cell of index `cell_index` stands behind
    /// it, among the `cell_count` cells.
    pub open spec fn children_follow(self, cell_count: int, cell_index: int) -> bool {
        forall|k: int|
            0 <= k < self.ref_count() ==> cell_index < #[trigger] self.reference(k) < cell_count
    }
}

/// A tagged byte holds at most seven bits of data.
pub proof fn lemma_trailing_zeros_bound(b: u8)
    requires
        b != 0,
    ensures
        0 <= trailing_zeros(b) <= 7,
    decreases b,
{
    if b % 2 == 0 {
        lemma_trailing_zeros_bound(b / 2);
        if b / 2 >= 128 {
        }
        assert(trailing_zeros(b / 2) <= 6) by {
            lemma_trailing_zeros_small(b / 2);
        }
    }
}

/// A byte below 128 that is not zero has its lowest set bit at most at
/// place six.
proof fn lemma_trailing_zeros_small(b: u8)
    requires
        0 < b < 128,
    ensures
        0 <= trailing_zeros(b) <= 6,
{
    reveal_with_fuel(trailing_zeros, 8);
}

impl Record {
    /// A well formed record holds at most 1023 bits of data, and its data
    /// with the tag is one byte longer than the full bytes of data.
    pub proof fn lemma_bit_len_bound(self)
        requires
            self.well_formed(),
        ensures
            0 <= self.bit_len() <= MAX_DATA_BITS,
            self.data().len() == self.bit_len() / 8 + 1,
    {
        if self.tagged() {
            lemma_trailing_zeros_bound(self.raw_data().last());
        }
    }
}

/// A cell as read from its record.
#[derive(Debug)]
pub struct RawCell {
    /// The kind of the cell.
    pub cell_type: CellType,
    /// The level mask that the record states.
    pub level_mask: u8,
    /// The number of bits of data.
    pub bit_len: u16,
    /// The data, closed by its tag: one byte more than the full bytes of
    /// data.
    pub data: Vec<u8>,
    /// The index of each child.
    pub reference_indices: Vec<u32>,
}

impl RawCell {
    /// The cell holds at most 1023 bits and four references, and its data is
    /// there with its tag.
    pub open spec fn wf(&self) -> bool {
        &&& self.bit_len <= MAX_DATA_BITS
        &&& self.data@.len() >= self.bit_len / 8 + 1
        &&& self.reference_indices@.len() <= MAX_REFERENCES
    }

    /// Whether the cell is the one that `record` holds.
    pub open spec fn read_from(&self, record: Record) -> bool {
        &&& self.cell_type == record.cell_type()
        &&& self.level_mask == record.level_mask()
        &&& self.bit_len == record.bit_len()
        &&& self.data@ == record.data()
        &&& self.reference_indices@ == record.references()
    }

    /// Reads the cell of index `cell_index` from its record.
    ///
    /// Fails with `InvalidCell` exactly when the record is not well formed,
    /// or a child does not stand behind the cell among the `cell_count`
    /// cells.
    pub fn from_stored_data(
        data: &[u8],
        ref_size: usize,
        cell_count: usize,
        cell_index: usize,
    ) -> (r: Result<RawCell, ReplaceTransactionError>)
        ensures
            ({
                let record = Record { bytes: data@, ref_size: ref_size as int };
                match r {
                    Ok(cell) => {
                        &&& record.well_formed()
                        &&& record.children_follow(cell_count as int, cell_index as int)
                        &&& cell.read_from(record)
                        &&& cell.wf()
                        &&& forall|k: int|
                            0 <= k < cell.reference_indices@.len() ==> cell_index
                                < #[trigger] cell.reference_indices@[k] < cell_count
                    },
                    Err(e) => {
                        &&& e == ReplaceTransactionError::InvalidCell
                        &&& !(record.well_formed() && record.children_follow(
                            cell_count as int,
                            cell_index as int,
                        ))
                    },
                }
            }),
    {
        let ghost record = Record { bytes: data@, ref_size: ref_size as int };
        let len = data.len();
        if ref_size < 1 || ref_size > 4 || len < 2 {
            return Err(ReplaceTransactionError::InvalidCell);
        }
        let d1 = data[0];
        let d2 = data[1];
        let level_mask = d1 / 32;
        let exotic = d1 / 8 % 2 == 1;
        let ref_count = (d1 % 8) as usize;
        if ref_count > MAX_REFERENCES {
            return Err(ReplaceTransactionError::InvalidCell);
        }
        let data_len = (d2 / 2 + d2 % 2) as usize;
        assert(ref_count * ref_size <= 16) by (nonlinear_arith)
            requires
                ref_count <= 4,
                ref_size <= 4,
        ;
        if len != 2 + data_len + ref_count * ref_size {
            return Err(ReplaceTransactionError::InvalidCell);
        }
        let tagged = d2 % 2 == 1;
        let mut bit_len: u16 = (8 * data_len) as u16;
        if tagged {
            let last = data[1 + data_len];
            assert(record.raw_data().last() == last);
            if last == 0 {
                return Err(ReplaceTransactionError::InvalidCell);
            }
            let mut zeros: u16 = 0;
            let mut rest = last;
            while rest % 2 == 0
                invariant
                    rest != 0,
                    last != 0,
                    zeros + trailing_zeros(rest) == trailing_zeros(last),
                    zeros <= 7,
                decreases rest,
            {
                proof {
                    lemma_trailing_zeros_bound(last);
                    lemma_trailing_zeros_bound(rest);
                }
                rest = rest / 2;
                zeros = zeros + 1;
                proof {
                    lemma_trailing_zeros_bound(rest);
                }
            }
            bit_len = bit_len - 1 - zeros;
        }
        assert(bit_len == record.bit_len());
        let cell_type = if exotic {
            if bit_len < 8 {
                return Err(ReplaceTransactionError::InvalidCell);
            }
            assert(record.raw_data()[0] == data@[2]);
            CellType::from_exotic_tag(data[2])
        } else {
            CellType::Ordinary
        };
        assert(record.well_formed());

        let mut reference_indices: Vec<u32> = Vec::with_capacity(ref_count);
        let mut k: usize = 0;
        while k < ref_count
            invariant
                k <= ref_count == record.ref_count() <= 4,
                1 <= ref_size <= 4,
                record == (Record { bytes: data@, ref_size: ref_size as int }),
                data_len == record.data_len(),
                len == data@.len() == 2 + data_len + ref_count * ref_size,
                reference_indices@.len() == k,
                forall|j: int|
                    0 <= j < k ==> reference_indices@[j] == #[trigger] record.reference(j)
                        && cell_index < record.reference(j) < cell_count,
            decreases ref_count - k,
        {
            assert(2 + data_len + (k + 1) * ref_size <= len) by (nonlinear_arith)
                requires
                    k < ref_count,
                    len == 2 + data_len + ref_count * ref_size,
                    ref_size >= 1,
            ;
            assert(k * ref_size <= 16) by (nonlinear_arith)
                requires
                    k <= 4,
                    ref_size <= 4,
            ;
            assert(2 + data_len + k * ref_size + ref_size == 2 + data_len + (k + 1) * ref_size)
                by (nonlinear_arith);
            let index = read_be_uint(data, 2 + data_len + k * ref_size, ref_size);
            proof {
                lemma_be_value_bound(
                    data@.subrange(
                        2 + data_len + k * ref_size,
                        2 + data_len + (k + 1) * ref_size,
                    ),
                );
                lemma_pow256_u32(ref_size as nat);
            }
            if index >= cell_count as u64 || index <= cell_index as u64 {
                assert(!(cell_index < record.reference(k as int) < cell_count));
                return Err(ReplaceTransactionError::InvalidCell);
            }
            reference_indices.push(index as u32);
            k += 1;
        }
        assert(reference_indices@ =~= record.references());

        let mut cell_data: Vec<u8> = Vec::with_capacity(data_len + 1);
        push_bytes(&mut cell_data, &data[2..2 + data_len]);
        if !tagged {
            cell_data.push(0x80);
        }
        proof {
            if tagged {
                lemma_trailing_zeros_bound(record.raw_data().last());
            }
        }
        Ok(RawCell { cell_type, level_mask, bit_len, data: cell_data, reference_indices })
    }
}

} // verus!
