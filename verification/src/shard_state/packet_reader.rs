//! Reading a bag of cells from the packets it arrives in.
//!
//! The bag begins with a header: four bytes of magic, one byte of flags,
//! one byte with the size of an offset, then the number of cells, of roots
//! and of absent cells, each in as many bytes as a reference takes, the size
//! of all cells in as many bytes as an offset takes, and, under the general
//! magic, the index of the root. An index of the cells may follow, which is
//! skipped. Then come the cells, and last, if the header says so, the
//! CRC-32C of everything before it.

use crate::cell::{checked_mask, mask_level};
use crate::codec::{
    be_value, lemma_be_value_bound, lemma_pow256_u32, push_bytes, read_be_uint, read_u32_le,
    u32_from_le,
};
use crate::shard_state::crc::{
    crc_fold, crc_update, crc_value, lemma_crc_fold_concat, CRC32C_INIT,
};
use crate::shard_state::replace_transaction::ReplaceTransactionError;
use vstd::prelude::*;

verus! {

/// The magic of a bag with an index.
pub const BOC_INDEXED_TAG: u32 = 0x68ff_65f3;

/// The magic of a bag with an index and a checksum.
pub const BOC_INDEXED_CRC32_TAG: u32 = 0xacc3_a728;

/// The magic of a bag whose flags say what it holds.
pub const BOC_GENERIC_TAG: u32 = 0xb5ee_9c72;

/// What the header of a bag of cells says.
#[derive(Clone, Copy, Debug, PartialEq, Eq, Structural)]
pub struct BocHeader {
    /// The index of the root cell.
    pub root_index: u64,
    /// Whether an index of the cells follows the header.
    pub index_included: bool,
    /// Whether a checksum closes the bag.
    pub has_crc: bool,
    /// The number of bytes a reference takes, from 1 to 4.
    pub ref_size: usize,
    /// The number of bytes an offset takes, from 1 to 8.
    pub offset_size: usize,
    /// The number of cells, at least one.
    pub cell_count: u64,
    /// The number of bytes that all cells take.
    pub cells_size: u64,
}

/// What the front of a byte string was read as.
pub enum Parsed<T> {
    /// The bytes end before the item does.
    Incomplete,
    /// The bytes cannot be the front of an item.
    Invalid,
    /// The item, and the number of bytes it takes.
    Done(T, int),
}

/// The magic that the first four bytes hold.
pub open spec fn header_magic(s: Seq<u8>) -> nat {
    be_value(s.subrange(0, 4))
}

/// Whether the magic is the general one.
pub open spec fn header_generic(s: Seq<u8>) -> bool {
    header_magic(s) == BOC_GENERIC_TAG
}

/// The number of bytes a reference takes: the whole flags byte under the
/// indexed magics, its lowest three bits under the general one.
pub open spec fn header_ref_size(s: Seq<u8>) -> int {
    if header_generic(s) {
        s[4] as int % 8
    } else {
        s[4] as int
    }
}

/// The number of bytes the header takes.
pub open spec fn header_len(s: Seq<u8>) -> int {
    6 + 3 * header_ref_size(s) + s[5] + if header_generic(s) {
        header_ref_size(s)
    } else {
        0
    }
}

/// Whether the six bytes that every header begins with are in order: a
/// known magic, references of 1 to 4 bytes, offsets of 1 to 8 bytes.
pub open spec fn header_front_valid(s: Seq<u8>) -> bool {
    &&& header_magic(s) == BOC_GENERIC_TAG || header_magic(s) == BOC_INDEXED_TAG || header_magic(s)
        == BOC_INDEXED_CRC32_TAG
    &&& 1 <= header_ref_size(s) <= 4
    &&& 1 <= s[5] <= 8
}

/// The header that the bytes hold, if they are long enough.
pub open spec fn header_of(s: Seq<u8>) -> BocHeader {
    let r = header_ref_size(s);
    let o = s[5] as int;
    BocHeader {
        root_index: if header_generic(s) {
            be_value(s.subrange(6 + 3 * r + o, 6 + 4 * r + o)) as u64
        } else {
            0
        },
        index_included: if header_generic(s) {
            s[4] / 128 == 1
        } else {
            true
        },
        has_crc: if header_generic(s) {
            s[4] / 64 % 2 == 1
        } else {
            header_magic(s) == BOC_INDEXED_CRC32_TAG
        },
        ref_size: r as usize,
        offset_size: o as usize,
        cell_count: be_value(s.subrange(6, 6 + r)) as u64,
        cells_size: be_value(s.subrange(6 + 2 * r + r, 6 + 3 * r + o)) as u64,
    }
}

/// The number of roots that the header states.
pub open spec fn header_root_count(s: Seq<u8>) -> nat {
    be_value(s.subrange(6 + header_ref_size(s), 6 + 2 * header_ref_size(s)))
}

/// The header at the front of `s`: its first six bytes must be in order,
/// and it must state one root and at least one cell.
pub open spec fn parse_header(s: Seq<u8>) -> Parsed<BocHeader> {
    if s.len() < 6 {
        Parsed::Incomplete
    } else if !header_front_valid(s) {
        Parsed::Invalid
    } else if s.len() < header_len(s) {
        Parsed::Incomplete
    } else if header_root_count(s) != 1 || header_of(s).cell_count == 0 {
        Parsed::Invalid
    } else {
        Parsed::Done(header_of(s), header_len(s))
    }
}

/// The number of bytes of stored hashes and depths that a cell carries in
/// the bag, by its first descriptor byte.
pub open spec fn cell_hashes_len(d1: u8) -> int {
    if d1 / 16 % 2 == 1 {
        34 * (mask_level(checked_mask(d1 / 32)) + 1)
    } else {
        0
    }
}

/// The number of bytes that hold the data of a cell, by its second
/// descriptor byte.
pub open spec fn cell_data_len(d2: u8) -> int {
    d2 / 2 + d2 % 2
}

/// The number of bytes that a cell takes in the bag.
pub open spec fn cell_len(s: Seq<u8>, ref_size: int) -> int {
    2 + cell_hashes_len(s[0]) + cell_data_len(s[1]) + (s[0] % 8) * ref_size
}

/// The record of the cell at the front of `s`: its descriptor bytes, its
/// data and its references, without the hashes it may carry. A cell states
/// at most four references.
pub open spec fn parse_cell(s: Seq<u8>, ref_size: int) -> Parsed<Seq<u8>> {
    if s.len() < 2 {
        Parsed::Incomplete
    } else if s[0] % 8 > 4 {
        Parsed::Invalid
    } else if s.len() < cell_len(s, ref_size) {
        Parsed::Incomplete
    } else {
        Parsed::Done(
            s.subrange(0, 2) + s.subrange(2 + cell_hashes_len(s[0]), cell_len(s, ref_size)),
            cell_len(s, ref_size),
        )
    }
}

/// Bytes that follow do not change what a header was read as.
pub proof fn lemma_parse_header_stable(s: Seq<u8>, more: Seq<u8>)
    requires
        !(parse_header(s) is Incomplete),
    ensures
        parse_header(s + more) == parse_header(s),
{
    let t = s + more;
    assert(t.subrange(0, 4) =~= s.subrange(0, 4));
    assert(t[4] == s[4] && t[5] == s[5]);
    if header_front_valid(s) && s.len() >= header_len(s) {
        let r = header_ref_size(s);
        let o = s[5] as int;
        assert(t.subrange(6, 6 + r) =~= s.subrange(6, 6 + r));
        assert(t.subrange(6 + r, 6 + 2 * r) =~= s.subrange(6 + r, 6 + 2 * r));
        assert(t.subrange(6 + 2 * r + r, 6 + 3 * r + o) =~= s.subrange(
            6 + 2 * r + r,
            6 + 3 * r + o,
        ));
        if header_generic(s) {
            assert(t.subrange(6 + 3 * r + o, 6 + 4 * r + o) =~= s.subrange(
                6 + 3 * r + o,
                6 + 4 * r + o,
            ));
        }
    }
}

/// Bytes that follow do not change what a cell was read as.
pub proof fn lemma_parse_cell_stable(s: Seq<u8>, more: Seq<u8>, ref_size: int)
    requires
        1 <= ref_size <= 4,
        !(parse_cell(s, ref_size) is Incomplete),
    ensures
        parse_cell(s + more, ref_size) == parse_cell(s, ref_size),
{
    let t = s + more;
    assert(t[0] == s[0] && t[1] == s[1]);
    if s[0] % 8 <= 4 {
        assert((s[0] % 8) * ref_size >= 0) by (nonlinear_arith)
            requires
                ref_size >= 1,
        ;
        assert(t.subrange(0, 2) =~= s.subrange(0, 2));
        assert(t.subrange(2 + cell_hashes_len(s[0]), cell_len(s, ref_size)) =~= s.subrange(
            2 + cell_hashes_len(s[0]),
            cell_len(s, ref_size),
        ));
    }
}

/// Reads the header at the front of `data`: `None` if more bytes are
/// needed, `Some(None)` if the bytes cannot be the front of a header, else
/// the header and the number of bytes it takes.
pub fn decode_header(data: &[u8]) -> (r: Option<Option<(BocHeader, usize)>>)
    ensures
        match parse_header(data@) {
            Parsed::Incomplete => r.is_none(),
            Parsed::Invalid => r == Some(None::<(BocHeader, usize)>),
            Parsed::Done(header, n) => r == Some(Some((header, n as usize))) && 6 <= n
                <= data@.len() && header.cell_count <= u32::MAX && 1 <= header.ref_size <= 4 && 1
                <= header.offset_size <= 8 && header.cell_count >= 1,
        },
{
    let available = data.len();
    let ghost s = data@;
    if available < 6 {
        return None;
    }
    let magic = read_be_uint(data, 0, 4);
    let flags = data[4];
    let offset_size = data[5] as usize;
    let generic = magic == BOC_GENERIC_TAG as u64;
    if !generic && magic != BOC_INDEXED_TAG as u64 && magic != BOC_INDEXED_CRC32_TAG as u64 {
        return Some(None);
    }
    let ref_size = if generic {
        (flags % 8) as usize
    } else {
        flags as usize
    };
    if ref_size < 1 || ref_size > 4 || offset_size < 1 || offset_size > 8 {
        return Some(None);
    }
    let header_len = 6 + 3 * ref_size + offset_size + if generic {
        ref_size
    } else {
        0
    };
    if available < header_len {
        return None;
    }
    let cell_count = read_be_uint(data, 6, ref_size);
    let root_count = read_be_uint(data, 6 + ref_size, ref_size);
    let cells_size = read_be_uint(data, 6 + 3 * ref_size, offset_size);
    let root_index = if generic {
        read_be_uint(data, 6 + 3 * ref_size + offset_size, ref_size)
    } else {
        0
    };
    proof {
        lemma_be_value_bound(s.subrange(6, 6 + ref_size));
        lemma_pow256_u32(ref_size as nat);
    }
    if root_count != 1 || cell_count == 0 {
        return Some(None);
    }
    let header = BocHeader {
        root_index,
        index_included: if generic {
            flags / 128 == 1
        } else {
            true
        },
        has_crc: if generic {
            flags / 64 % 2 == 1
        } else {
            magic == BOC_INDEXED_CRC32_TAG as u64
        },
        ref_size,
        offset_size,
        cell_count,
        cells_size,
    };
    Some(Some((header, header_len)))
}

/// What a reader holds of the stream, in contracts.
pub struct ReaderState {
    /// The bytes that arrived and were not read yet.
    pub pending: Seq<u8>,
    /// The bytes that were read, and that the checksum is taken of.
    pub consumed: Seq<u8>,
    /// The number of bytes to pass over before the next item.
    pub skipping: nat,
}

impl ReaderState {
    /// The state with `packet` behind the pending bytes.
    pub open spec fn fed(self, packet: Seq<u8>) -> ReaderState {
        ReaderState { pending: self.pending + packet, ..self }
    }

    /// The state with the first `n` pending bytes read.
    pub open spec fn taken(self, n: int) -> ReaderState {
        ReaderState {
            pending: self.pending.skip(n),
            consumed: self.consumed + self.pending.take(n),
            ..self
        }
    }

    /// The state after passing over as many of the bytes to skip as have
    /// arrived.
    pub open spec fn skipped(self) -> ReaderState {
        let n = if self.skipping <= self.pending.len() {
            self.skipping as int
        } else {
            self.pending.len() as int
        };
        ReaderState { skipping: (self.skipping - n) as nat, ..self.taken(n) }
    }

    /// The state after the header `header` of `n` bytes was read: the index
    /// of the cells, if there is one, is to be skipped.
    pub open spec fn past_header(self, header: BocHeader, n: int) -> ReaderState {
        ReaderState {
            skipping: if header.index_included {
                (header.cell_count * header.offset_size) as nat
            } else {
                0
            },
            ..self.taken(n)
        }
    }

    /// The state after the four bytes of the checksum were read; they are
    /// not part of what the checksum is taken of.
    pub open spec fn past_crc(self) -> ReaderState {
        ReaderState { pending: self.pending.skip(4), ..self }
    }
}

/// Passing over the bytes to skip once more changes nothing.
pub proof fn lemma_skipped_twice(state: ReaderState)
    ensures
        state.skipped().skipped() == state.skipped(),
{
    let once = state.skipped();
    assert(once.pending.skip(0) =~= once.pending);
    assert(once.consumed + once.pending.take(0) =~= once.consumed);
    if once.skipping > 0 {
        assert(once.pending.len() == 0);
    }
}

/// A header that was read states references of 1 to 4 bytes and at least
/// one cell.
pub proof fn lemma_header_bounds(s: Seq<u8>)
    requires
        parse_header(s) is Done,
    ensures
        1 <= parse_header(s)->Done_0.ref_size <= 4,
        1 <= parse_header(s)->Done_0.offset_size <= 8,
        1 <= parse_header(s)->Done_0.cell_count <= u32::MAX,
{
    lemma_be_value_bound(s.subrange(6, 6 + header_ref_size(s)));
    lemma_pow256_u32(header_ref_size(s) as nat);
}

/// Reads the header, the cells and the checksum of a bag of cells from the
/// packets it arrives in.
pub struct ShardStatePacketReader {
    buffer: Vec<u8>,
    offset: usize,
    crc: u32,
    to_skip: u64,
    consumed: Ghost<Seq<u8>>,
}

impl View for ShardStatePacketReader {
    type V = ReaderState;

    closed spec fn view(&self) -> ReaderState {
        ReaderState {
            pending: self.buffer@.skip(self.offset as int),
            consumed: self.consumed@,
            skipping: self.to_skip as nat,
        }
    }
}

impl ShardStatePacketReader {
    /// The reader is in order: it keeps the checksum of what it has read.
    pub closed spec fn wf(&self) -> bool {
        &&& self.offset <= self.buffer@.len()
        &&& self.crc == crc_fold(CRC32C_INIT, self.consumed@)
    }

    /// A reader that has seen no bytes.
    pub fn new() -> (r: Self)
        ensures
            r.wf(),
            r@.pending == Seq::<u8>::empty(),
            r@.consumed == Seq::<u8>::empty(),
            r@.skipping == 0,
    {
        let r = ShardStatePacketReader {
            buffer: Vec::new(),
            offset: 0,
            crc: CRC32C_INIT,
            to_skip: 0,
            consumed: Ghost(Seq::empty()),
        };
        assert(r@.pending =~= Seq::<u8>::empty());
        r
    }

    /// Hands the reader the next packet of the stream.
    pub fn set_next_packet(&mut self, packet: Vec<u8>)
        requires
            old(self).wf(),
        ensures
            final(self).wf(),
            final(self)@ == old(self)@.fed(packet@),
    {
        let len = self.buffer.len();
        let mut next: Vec<u8> = Vec::with_capacity(packet.len());
        push_bytes(&mut next, &self.buffer[self.offset..len]);
        push_bytes(&mut next, packet.as_slice());
        assert(next@ =~= old(self)@.pending + packet@);
        self.buffer = next;
        self.offset = 0;
        assert(self.buffer@.skip(0) =~= self.buffer@);
    }

    /// Reads the next `n` pending bytes into the checksum.
    fn advance(&mut self, n: usize)
        requires
            old(self).wf(),
            n <= old(self)@.pending.len(),
        ensures
            final(self).wf(),
            final(self)@ == old(self)@.taken(n as int),
    {
        let len = self.buffer.len();
        let ghost bytes = self@.pending.take(n as int);
        assert(self.buffer@.subrange(self.offset as int, self.offset + n) =~= bytes);
        self.crc = crc_update(self.crc, &self.buffer[self.offset..self.offset + n]);
        proof {
            lemma_crc_fold_concat(CRC32C_INIT, self.consumed@, bytes);
        }
        self.consumed = Ghost(self.consumed@ + bytes);
        self.offset = self.offset + n;
        assert(self@.pending =~= old(self)@.pending.skip(n as int));
    }

    /// Passes over as many of the bytes to skip as have arrived. Returns
    /// whether none are left to skip.
    fn process_skip(&mut self) -> (r: bool)
        requires
            old(self).wf(),
        ensures
            final(self).wf(),
            final(self)@ == old(self)@.skipped(),
            r == (final(self)@.skipping == 0),
    {
        let available = self.buffer.len() - self.offset;
        assert(available == self@.pending.len());
        let n = if self.to_skip <= available as u64 {
            self.to_skip as usize
        } else {
            available
        };
        self.advance(n);
        self.to_skip = self.to_skip - n as u64;
        self.to_skip == 0
    }

    /// Reads the header of the bag.
    ///
    /// Returns `None`, having read nothing, if more bytes are needed, and
    /// fails with `InvalidShardStatePacket` exactly when the bytes cannot be
    /// the front of a header.
    pub fn read_header(&mut self) -> (r: Result<Option<BocHeader>, ReplaceTransactionError>)
        requires
            old(self).wf(),
        ensures
            final(self).wf(),
            ({
                let state = old(self)@.skipped();
                if state.skipping > 0 {
                    r == Ok::<Option<BocHeader>, ReplaceTransactionError>(None) && final(self)@
                        == state
                } else {
                    match parse_header(state.pending) {
                        Parsed::Incomplete => r == Ok::<Option<BocHeader>, ReplaceTransactionError>(
                            None,
                        ) && final(self)@ == state,
                        Parsed::Invalid => r == Err::<Option<BocHeader>, ReplaceTransactionError>(
                            ReplaceTransactionError::InvalidShardStatePacket,
                        ) && final(self)@ == state,
                        Parsed::Done(header, n) => r == Ok::<
                            Option<BocHeader>,
                            ReplaceTransactionError,
                        >(Some(header)) && final(self)@ == state.past_header(header, n),
                    }
                }
            }),
    {
        if !self.process_skip() {
            return Ok(None);
        }
        let len = self.buffer.len();
        assert(self.buffer@.subrange(self.offset as int, len as int) =~= self@.pending);
        match decode_header(&self.buffer[self.offset..len]) {
            None => Ok(None),
            Some(None) => Err(ReplaceTransactionError::InvalidShardStatePacket),
            Some(Some((header, header_len))) => {
                self.advance(header_len);
                if header.index_included {
                    assert(header.cell_count * (header.offset_size as u64) <= 0x8_0000_0000)
                        by (nonlinear_arith)
                        requires
                            header.cell_count <= 0x1_0000_0000,
                            header.offset_size <= 8,
                    ;
                    self.to_skip = header.cell_count * (header.offset_size as u64);
                }
                Ok(Some(header))
            },
        }
    }

    /// Reads the next cell of the bag and appends its record to `out`.
    /// Returns the length of the record.
    ///
    /// Returns `None`, having read no cell, if more bytes are needed, and
    /// fails with `InvalidShardStatePacket` exactly when the cell states
    /// more than four references.
    pub fn read_cell(&mut self, ref_size: usize, out: &mut Vec<u8>) -> (r: Result<
        Option<usize>,
        ReplaceTransactionError,
    >)
        requires
            old(self).wf(),
            1 <= ref_size <= 4,
        ensures
            final(self).wf(),
            ({
                let state = old(self)@.skipped();
                if state.skipping > 0 {
                    r == Ok::<Option<usize>, ReplaceTransactionError>(None) && final(self)@ == state
                        && final(out)@ == old(out)@
                } else {
                    match parse_cell(state.pending, ref_size as int) {
                        Parsed::Incomplete => r == Ok::<Option<usize>, ReplaceTransactionError>(
                            None,
                        ) && final(self)@ == state && final(out)@ == old(out)@,
                        Parsed::Invalid => r == Err::<Option<usize>, ReplaceTransactionError>(
                            ReplaceTransactionError::InvalidShardStatePacket,
                        ) && final(self)@ == state && final(out)@ == old(out)@,
                        Parsed::Done(record, n) => r == Ok::<
                            Option<usize>,
                            ReplaceTransactionError,
                        >(Some(record.len() as usize)) && final(self)@ == state.taken(n)
                            && final(out)@ == old(out)@ + record && 2 <= record.len() <= 146,
                    }
                }
            }),
    {
        if !self.process_skip() {
            return Ok(None);
        }
        let len = self.buffer.len();
        let start = self.offset;
        let available = len - start;
        let ghost s = self@.pending;
        if available < 2 {
            return Ok(None);
        }
        let d1 = self.buffer[start];
        let d2 = self.buffer[start + 1];
        assert(s[0] == d1 && s[1] == d2);
        let ref_count = (d1 % 8) as usize;
        if ref_count > 4 {
            return Err(ReplaceTransactionError::InvalidShardStatePacket);
        }
        let hashes_len: usize = if d1 / 16 % 2 == 1 {
            let mask = d1 / 32;
            34 * (((mask % 2) + (mask / 2 % 2) + (mask / 4 % 2)) as usize + 1)
        } else {
            0
        };
        let data_len = (d2 / 2 + d2 % 2) as usize;
        assert(ref_count * ref_size <= 16) by (nonlinear_arith)
            requires
                ref_count <= 4,
                ref_size <= 4,
        ;
        let cell_len = 2 + hashes_len + data_len + ref_count * ref_size;
        if available < cell_len {
            return Ok(None);
        }
        let ghost before = out@;
        push_bytes(out, &self.buffer[start..start + 2]);
        push_bytes(out, &self.buffer[start + 2 + hashes_len..start + cell_len]);
        proof {
            let record = s.subrange(0, 2) + s.subrange(2 + hashes_len, cell_len as int);
            assert(self.buffer@.subrange(start as int, start + 2) =~= s.subrange(0, 2));
            assert(self.buffer@.subrange(start + 2 + hashes_len, start + cell_len) =~= s.subrange(
                2 + hashes_len,
                cell_len as int,
            ));
            assert(out@ =~= before + record);
        }
        self.advance(cell_len);
        Ok(Some(2 + data_len + ref_count * ref_size))
    }

    /// Reads the checksum that closes the bag and holds it against the
    /// checksum of everything read before.
    ///
    /// Returns `None`, having read nothing, if more bytes are needed, and
    /// fails with `InvalidShardStatePacket` exactly when the checksums
    /// differ.
    pub fn read_crc(&mut self) -> (r: Result<Option<()>, ReplaceTransactionError>)
        requires
            old(self).wf(),
        ensures
            final(self).wf(),
            ({
                let state = old(self)@.skipped();
                if state.skipping > 0 || state.pending.len() < 4 {
                    r == Ok::<Option<()>, ReplaceTransactionError>(None) && final(self)@ == state
                } else if u32_from_le(state.pending.take(4)) == crc_value(
                    crc_fold(CRC32C_INIT, state.consumed),
                ) {
                    r == Ok::<Option<()>, ReplaceTransactionError>(Some(())) && final(self)@
                        == state.past_crc()
                } else {
                    r == Err::<Option<()>, ReplaceTransactionError>(
                        ReplaceTransactionError::InvalidShardStatePacket,
                    ) && final(self)@ == state
                }
            }),
    {
        if !self.process_skip() {
            return Ok(None);
        }
        let len = self.buffer.len();
        let start = self.offset;
        if len - start < 4 {
            return Ok(None);
        }
        let target = read_u32_le(self.buffer.as_slice(), start);
        assert(self.buffer@.subrange(start as int, start + 4) =~= self@.pending.take(4));
        if target != self.crc ^ CRC32C_INIT {
            return Err(ReplaceTransactionError::InvalidShardStatePacket);
        }
        self.offset = self.offset + 4;
        assert(self@.pending =~= old(self)@.skipped().pending.skip(4));
        Ok(Some(()))
    }
}

} // verus!
