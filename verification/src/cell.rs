//! Cell kinds, level masks and descriptor bytes.
//!
//! A level mask has three bits, one for each of the levels 1 to 3 at which
//! a cell has a hash of its own besides the hash at level 0.

use vstd::prelude::*;

verus! {

/// The greatest depth a tree of cells may have.
pub const MAX_DEPTH: u16 = 60;

/// The greatest level of a cell.
pub const MAX_LEVEL: u8 = 3;

/// The most references a cell may hold.
pub const MAX_REFERENCES: usize = 4;

/// The most bits of data a cell may hold.
pub const MAX_DATA_BITS: usize = 1023;

/// The kind of a cell.
#[derive(Clone, Copy, Debug, PartialEq, Eq, Structural)]
pub enum CellType {
    /// A kind that is not known.
    Unknown,
    /// A cell of data and references.
    Ordinary,
    /// A cell that stands for a subtree that was cut away.
    PrunedBranch,
    /// A reference to a library cell.
    LibraryReference,
    /// A Merkle proof.
    MerkleProof,
    /// A Merkle update.
    MerkleUpdate,
}

impl CellType {
    /// The byte that stands for the kind in stored records.
    pub open spec fn code(self) -> u8 {
        match self {
            CellType::Unknown => 0,
            CellType::Ordinary => 1,
            CellType::PrunedBranch => 2,
            CellType::LibraryReference => 3,
            CellType::MerkleProof => 4,
            CellType::MerkleUpdate => 5,
        }
    }

    /// The kind that a stored byte stands for; `Unknown` for a byte that
    /// stands for none.
    pub open spec fn of_code(code: u8) -> CellType {
        if code == 1 {
            CellType::Ordinary
        } else if code == 2 {
            CellType::PrunedBranch
        } else if code == 3 {
            CellType::LibraryReference
        } else if code == 4 {
            CellType::MerkleProof
        } else if code == 5 {
            CellType::MerkleUpdate
        } else {
            CellType::Unknown
        }
    }

    /// The kind that the first data byte of an exotic cell stands for;
    /// `Unknown` for a byte that stands for none.
    pub open spec fn of_exotic_tag(tag: u8) -> CellType {
        if tag == 1 {
            CellType::PrunedBranch
        } else if tag == 2 {
            CellType::LibraryReference
        } else if tag == 3 {
            CellType::MerkleProof
        } else if tag == 4 {
            CellType::MerkleUpdate
        } else {
            CellType::Unknown
        }
    }

    /// Whether the kind is a Merkle proof or a Merkle update.
    pub open spec fn merkle(self) -> bool {
        self == CellType::MerkleProof || self == CellType::MerkleUpdate
    }

    /// The stored byte of a kind stands for that kind.
    pub proof fn lemma_code_roundtrip(self)
        ensures
            CellType::of_code(self.code()) == self,
    {
    }

    /// The byte that stands for the kind in stored records.
    pub fn to_u8(self) -> (code: u8)
        ensures
            code == self.code(),
    {
        match self {
            CellType::Unknown => 0,
            CellType::Ordinary => 1,
            CellType::PrunedBranch => 2,
            CellType::LibraryReference => 3,
            CellType::MerkleProof => 4,
            CellType::MerkleUpdate => 5,
        }
    }

    /// The kind that a stored byte stands for.
    pub fn from_u8(code: u8) -> (kind: CellType)
        ensures
            kind == CellType::of_code(code),
    {
        if code == 1 {
            CellType::Ordinary
        } else if code == 2 {
            CellType::PrunedBranch
        } else if code == 3 {
            CellType::LibraryReference
        } else if code == 4 {
            CellType::MerkleProof
        } else if code == 5 {
            CellType::MerkleUpdate
        } else {
            CellType::Unknown
        }
    }

    /// The kind that the first data byte of an exotic cell stands for.
    pub fn from_exotic_tag(tag: u8) -> (kind: CellType)
        ensures
            kind == CellType::of_exotic_tag(tag),
    {
        if tag == 1 {
            CellType::PrunedBranch
        } else if tag == 2 {
            CellType::LibraryReference
        } else if tag == 3 {
            CellType::MerkleProof
        } else if tag == 4 {
            CellType::MerkleUpdate
        } else {
            CellType::Unknown
        }
    }

    /// Whether the kind is a Merkle proof or a Merkle update.
    pub fn is_merkle(self) -> (r: bool)
        ensures
            r == self.merkle(),
    {
        match self {
            CellType::MerkleProof => true,
            CellType::MerkleUpdate => true,
            _ => false,
        }
    }

    /// Whether the kind is a pruned branch.
    pub fn is_pruned_branch(self) -> (r: bool)
        ensures
            r == (self == CellType::PrunedBranch),
    {
        match self {
            CellType::PrunedBranch => true,
            _ => false,
        }
    }

    /// Whether the kind is ordinary.
    pub fn is_ordinary(self) -> (r: bool)
        ensures
            r == (self == CellType::Ordinary),
    {
        match self {
            CellType::Ordinary => true,
            _ => false,
        }
    }
}

/// The number of levels a mask holds: its set bits among the lowest three.
pub open spec fn mask_level(mask: u8) -> u8 {
    ((mask % 2) + (mask / 2 % 2) + (mask / 4 % 2)) as u8
}

/// The mask that holds every level up to `level`; zero for a level over
/// `MAX_LEVEL`.
pub open spec fn level_to_mask(level: u8) -> u8 {
    if level == 1 {
        1
    } else if level == 2 {
        3
    } else if level == 3 {
        7
    } else {
        0
    }
}

/// A mask as it is kept: unchanged if it fits in three bits, else zero.
pub open spec fn checked_mask(mask: u8) -> u8 {
    if mask <= 7 {
        mask
    } else {
        0
    }
}

/// The place among a cell's hashes of its hash for `level`: the number of
/// levels of the mask that are not over `level`.
pub open spec fn hash_index(mask: u8, level: u8) -> u8 {
    mask_level(
        checked_mask(
            mask & level_to_mask(
                if level > MAX_LEVEL {
                    MAX_LEVEL
                } else {
                    level
                },
            ),
        ),
    )
}

/// A mask of three bits holds at most three levels, and a level's hash never
/// stands behind the hash of the highest level.
pub proof fn lemma_hash_index_bound(mask: u8, level: u8)
    ensures
        mask_level(mask) <= 3,
        hash_index(mask, level) <= 3,
        mask <= 7 ==> hash_index(mask, level) <= mask_level(mask),
        mask <= 7 && level >= MAX_LEVEL ==> hash_index(mask, level) == mask_level(mask),
        hash_index(mask, 0) == 0,
{
    let l = if level > MAX_LEVEL {
        MAX_LEVEL
    } else {
        level
    };
    let m = level_to_mask(l);
    let x = mask & m;
    assert(x <= 7 && (mask <= 7 ==> x % 2 <= mask % 2 && x / 2 % 2 <= mask / 2 % 2 && x / 4 % 2
        <= mask / 4 % 2)) by (bit_vector)
        requires
            x == mask & m,
            m <= 7,
    ;
    assert(mask <= 7 ==> mask & 7 == mask) by (bit_vector);
    assert(mask & 0 == 0) by (bit_vector);
}

/// A set of cell levels, one bit for each of the levels 1 to 3.
#[derive(Clone, Copy, Debug, PartialEq, Eq, Structural)]
pub struct LevelMask(pub u8);

impl LevelMask {
    /// The mask with the given bits; the empty mask if they do not fit in
    /// three bits.
    pub fn with_mask(mask: u8) -> (r: Self)
        ensures
            r.0 == checked_mask(mask),
    {
        if mask <= 7 {
            LevelMask(mask)
        } else {
            LevelMask(0)
        }
    }

    /// The mask that holds every level up to `level`; the empty mask for a
    /// level over `MAX_LEVEL`.
    pub fn with_level(level: u8) -> (r: Self)
        ensures
            r.0 == level_to_mask(level),
    {
        if level == 1 {
            LevelMask(1)
        } else if level == 2 {
            LevelMask(3)
        } else if level == 3 {
            LevelMask(7)
        } else {
            LevelMask(0)
        }
    }

    /// The mask of a Merkle cell over children of the given joint mask:
    /// every level one lower.
    pub fn for_merkle_cell(children_mask: LevelMask) -> (r: Self)
        ensures
            r.0 == children_mask.0 >> 1,
    {
        LevelMask(children_mask.0 >> 1)
    }

    /// The bits of the mask.
    pub fn mask(&self) -> (r: u8)
        ensures
            r == self.0,
    {
        self.0
    }

    /// The number of levels in the mask; 255 for a mask that does not fit in
    /// three bits.
    pub fn level(&self) -> (r: u8)
        ensures
            self.0 <= 7 ==> r == mask_level(self.0),
            self.0 > 7 ==> r == 255,
    {
        if self.0 > 7 {
            return 255;
        }
        (self.0 % 2) + (self.0 / 2 % 2) + (self.0 / 4 % 2)
    }

    /// The levels of either mask.
    pub fn union(&self, other: LevelMask) -> (r: Self)
        ensures
            r.0 == self.0 | other.0,
    {
        LevelMask(self.0 | other.0)
    }

    /// The place among a cell's hashes of its hash for `level`.
    pub fn calc_hash_index(&self, level: u8) -> (r: u8)
        ensures
            r == hash_index(self.0, level),
            r <= 3,
    {
        let capped = if level > MAX_LEVEL {
            MAX_LEVEL
        } else {
            level
        };
        let kept = LevelMask::with_mask(self.0 & LevelMask::with_level(capped).0);
        proof {
            lemma_hash_index_bound(self.0, level);
        }
        kept.level()
    }
}

/// The first descriptor byte of a cell: the number of references, a flag
/// for an exotic cell, a flag for stored hashes, and the level mask.
pub open spec fn descriptor_d1(refs: u8, level_mask: u8, exotic: bool, store_hashes: bool) -> u8 {
    (refs + 8 * (if exotic {
        1int
    } else {
        0int
    }) + 16 * (if store_hashes {
        1int
    } else {
        0int
    }) + 32 * level_mask) as u8
}

/// The second descriptor byte of a cell: the number of full bytes of data
/// plus the number of bytes that hold data.
pub open spec fn descriptor_d2(bit_len: int) -> u8 {
    (bit_len / 8 + (bit_len + 7) / 8) as u8
}

/// The two descriptor bytes of a cell.
pub fn calculate_descriptor_bytes(
    bit_len: usize,
    refs: u8,
    level_mask: u8,
    exotic: bool,
    store_hashes: bool,
) -> (d: (u8, u8))
    requires
        bit_len <= MAX_DATA_BITS,
        refs <= 7,
        level_mask <= 7,
    ensures
        d.0 == descriptor_d1(refs, level_mask, exotic, store_hashes),
        d.1 == descriptor_d2(bit_len as int),
{
    let s: u8 = if exotic {
        1
    } else {
        0
    };
    let h: u8 = if store_hashes {
        1
    } else {
        0
    };
    let d1: u8 = refs + 8 * s + 16 * h + 32 * level_mask;
    let d2: u8 = (bit_len / 8 + (bit_len + 7) / 8) as u8;
    (d1, d2)
}

} // verus!
