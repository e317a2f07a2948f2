//! The transaction that replaces a shard state by one that arrives as a
//! streamed bag of cells: the cells are spilled record by record as they
//! arrive, then finalised from the last to the first, so that every cell
//! finds the summaries of its children.

use crate::block_id::BlockIdExt;
use crate::cell::{lemma_hash_index_bound, CellType, LevelMask};
use crate::stored_value::StoredValue;
use crate::codec::{push_bytes, push_u16_le, push_u32_le, push_u64_le};
use crate::fx_map::{fx_insert, fx_new};
use crate::shard_state::cell_summary::{
    cell_input, children_counters, hash_level, pruned_data, CellInput,
};
use crate::shard_state::entries_buffer::{EntriesBuffer, HashesEntry};
use crate::shard_state::packet_reader::{
    parse_cell, parse_header, BocHeader, Parsed, ReaderState, ShardStatePacketReader,
};
use crate::shard_state::parser::RawCell;
use crate::shard_state::spill::{
    chunk_of, chunk_tail, file_records, lemma_chunk_of_push, lemma_file_append, MAX_RECORD_LEN,
};
use crate::shard_state::crc::{crc_fold, crc_value, CRC32C_INIT};
use crate::codec::u32_from_le;
use rustc_hash::FxHashMap;
use vstd::prelude::*;

verus! {

/// Why a shard state could not be replaced.
#[derive(Clone, Copy, Debug, PartialEq, Eq, Structural)]
pub enum ReplaceTransactionError {
    /// The packets do not hold a bag of cells.
    InvalidShardStatePacket,
    /// A cell of the bag is not in order.
    InvalidCell,
}

/// The key under which the root of a shard state is stored: the shard of
/// the block, then its sequence number little-endian.
pub open spec fn state_key(block_id: BlockIdExt) -> Seq<u8> {
    block_id.shard_id.encoding() + crate::codec::u32_le(block_id.seq_no)
}

/// The key under which the root of the shard state of a block is stored.
pub fn shard_state_key(block_id: &BlockIdExt) -> (key: Vec<u8>)
    ensures
        key@ == state_key(*block_id),
{
    let mut key: Vec<u8> = Vec::with_capacity(16);
    block_id.shard_id.serialize(&mut key);
    push_u32_le(&mut key, block_id.seq_no);
    assert(key@ =~= state_key(*block_id));
    key
}

/// A cell as it goes into the cell store.
#[derive(Clone, Debug)]
pub struct StoredCell {
    /// The representation hash of the cell.
    pub key: [u8; 32],
    /// The record of the cell.
    pub value: Vec<u8>,
}

/// The keys and records of a batch of stored cells.
pub open spec fn batch_view(batch: Seq<StoredCell>) -> Seq<(Seq<u8>, Seq<u8>)> {
    Seq::new(batch.len(), |i: int| (batch[i].key@, batch[i].value@))
}

/// What finalisation carries from cell to cell.
pub struct FinalizationContext {
    /// The data of every pruned branch finalised so far, by cell index.
    pub pruned_branches: FxHashMap<u32, Vec<u8>>,
    /// The summary being made, and those of the children of its cell.
    pub entries_buffer: EntriesBuffer,
    /// Scratch space for hashed bytes and records.
    pub output_buffer: Vec<u8>,
    /// The cells that wait to be written to the cell store.
    pub write_batch: Vec<StoredCell>,
}

impl FinalizationContext {
    /// A context with no pruned branches and an empty batch.
    pub fn new() -> (r: Self)
        ensures
            pruned_data(r.pruned_branches@) == Map::<u32, Seq<u8>>::empty(),
            r.write_batch@.len() == 0,
    {
        let r = FinalizationContext {
            pruned_branches: fx_new(),
            entries_buffer: EntriesBuffer::new(),
            output_buffer: Vec::with_capacity(1024),
            write_batch: Vec::new(),
        };
        assert(pruned_data(r.pruned_branches@) =~= Map::<u32, Seq<u8>>::empty());
        r
    }
}

/// Writes the record of a finalised cell into `out`.
fn write_value(
    out: &mut Vec<u8>,
    marker: u8,
    cell: &RawCell,
    entry: &HashesEntry,
    hash_count: u8,
    children: &[HashesEntry],
    Ghost(cx): Ghost<CellInput>,
)
    requires
        cell.wf(),
        cx.wf(),
        cx.cell_type == cell.cell_type,
        cx.level_mask == cell.level_mask,
        cx.bit_len == cell.bit_len,
        cx.data == cell.data@,
        cx.refs == cell.reference_indices@,
        cx.children == children@,
        cx.summarised_by(*entry),
        hash_count == cx.hash_count(),
        forall|level: u8| 0 <= level < hash_count ==> cx.depth(level) <= u16::MAX,
    ensures
        final(out)@ == cx.value(marker),
{
    let count = cell.reference_indices.len();
    out.clear();
    out.push(marker);
    out.push(cell.cell_type.to_u8());
    push_u16_le(out, cell.bit_len);
    push_bytes(out, &cell.data[0..(cell.bit_len as usize / 8 + 1)]);
    out.push(cell.level_mask);
    out.push(0);
    out.push(1);
    out.push(hash_count);
    let ghost head = out@;
    assert(head =~= seq![marker, cx.cell_type.code()] + crate::codec::u16_le(cx.bit_len)
        + cx.data.subrange(0, cx.bit_len / 8 + 1) + seq![
        cx.level_mask,
        0u8,
        1u8,
        cx.hash_count() as u8,
    ]);
    let mut i: u8 = 0;
    while i < hash_count
        invariant
            i <= hash_count == cx.hash_count() <= 4,
            cx.summarised_by(*entry),
            out@ == head + cx.level_hash_bytes(i as int),
        decreases hash_count - i,
    {
        assert(entry.hashes@[i as int]@ == cx.hash(i));
        push_bytes(out, entry.hashes[i as usize].as_slice());
        i += 1;
        assert(out@ =~= head + cx.level_hash_bytes(i as int));
    }
    out.push(1);
    out.push(hash_count);
    let ghost head = out@;
    let mut i: u8 = 0;
    while i < hash_count
        invariant
            i <= hash_count == cx.hash_count() <= 4,
            cx.summarised_by(*entry),
            out@ == head + cx.level_depth_bytes(i as int),
            forall|level: u8| 0 <= level < hash_count ==> cx.depth(level) <= u16::MAX,
        decreases hash_count - i,
    {
        assert(entry.depths@[i as int] == cx.depth(i));
        push_u16_le(out, entry.depths[i as usize]);
        i += 1;
        assert(out@ =~= head + cx.level_depth_bytes(i as int));
    }
    out.push(count as u8);
    let ghost head = out@;
    let mut i: usize = 0;
    while i < count
        invariant
            i <= count == cx.refs.len() <= 4,
            count <= children@.len(),
            cx.children == children@,
            out@ == head + cx.child_key_bytes(i as int),
        decreases count - i,
    {
        let key = children[i].hash(3);
        push_bytes(out, key.as_slice());
        i += 1;
        assert(out@ =~= head + cx.child_key_bytes(i as int));
    }
    push_u64_le(out, entry.tree_bits_count);
    push_u32_le(out, entry.tree_cell_count);
    assert(out@ =~= cx.value(marker));
}

/// How far a transaction has come with the stream, in contracts.
pub struct StreamState {
    /// What the reader holds of the stream.
    pub reader: ReaderState,
    /// The header, once it was read.
    pub header: Option<BocHeader>,
    /// The number of cells read.
    pub cells_read: nat,
    /// Whether every cell was read, and the checksum if there is one.
    pub complete: bool,
}

/// The cells read from the front of what `reader` holds, at most `limit` of
/// them, with the state of the reader behind them: reading goes on until
/// the bytes end within a cell. `None` if a cell is not in order.
#[verifier::opaque]
pub open spec fn read_cells(reader: ReaderState, ref_size: int, limit: nat) -> Option<
    (ReaderState, Seq<Seq<u8>>),
>
    decreases limit,
{
    let state = reader.skipped();
    if limit == 0 {
        Some((reader, Seq::empty()))
    } else if state.skipping > 0 {
        Some((state, Seq::empty()))
    } else {
        match parse_cell(state.pending, ref_size) {
            Parsed::Incomplete => Some((state, Seq::empty())),
            Parsed::Invalid => None,
            Parsed::Done(record, n) => match read_cells(
                state.taken(n),
                ref_size,
                (limit - 1) as nat,
            ) {
                Some((last, records)) => Some((last, seq![record] + records)),
                None => None,
            },
        }
    }
}

/// What reading the checksum makes of a stream whose cells were all read:
/// the state of the reader, and whether the stream is complete. `None` if
/// the checksum does not match.
pub open spec fn read_checksum(reader: ReaderState) -> Option<(ReaderState, bool)> {
    let state = reader.skipped();
    if state.skipping > 0 || state.pending.len() < 4 {
        Some((state, false))
    } else if u32_from_le(state.pending.take(4)) == crc_value(
        crc_fold(CRC32C_INIT, state.consumed),
    ) {
        Some((state.past_crc(), true))
    } else {
        None
    }
}

/// The outcome `read` with `records` before the records it holds.
pub open spec fn with_records_before(
    records: Seq<Seq<u8>>,
    read: Option<(ReaderState, Seq<Seq<u8>>)>,
) -> Option<(ReaderState, Seq<Seq<u8>>)> {
    match read {
        Some((last, rest)) => Some((last, records + rest)),
        None => None,
    }
}

/// Reading cells after a cell that was read gives that cell and then the
/// others.
proof fn lemma_read_cells_step(reader: ReaderState, ref_size: int, limit: nat)
    requires
        limit > 0,
        reader.skipped().skipping == 0,
        parse_cell(reader.skipped().pending, ref_size) is Done,
    ensures
        read_cells(reader, ref_size, limit) == with_records_before(
            seq![parse_cell(reader.skipped().pending, ref_size)->Done_0],
            read_cells(
                reader.skipped().taken(parse_cell(reader.skipped().pending, ref_size)->Done_1),
                ref_size,
                (limit - 1) as nat,
            ),
        ),
{
    reveal(read_cells);
}

/// Reading cells fails at a cell that is not in order.
proof fn lemma_read_cells_invalid(reader: ReaderState, ref_size: int, limit: nat)
    requires
        limit > 0,
        reader.skipped().skipping == 0,
        parse_cell(reader.skipped().pending, ref_size) is Invalid,
    ensures
        read_cells(reader, ref_size, limit) is None,
{
    reveal(read_cells);
}

/// Reading no cells leaves the reader where it is.
proof fn lemma_read_cells_none(reader: ReaderState, ref_size: int)
    ensures
        read_cells(reader, ref_size, 0) == Some((reader, Seq::<Seq<u8>>::empty())),
{
    reveal(read_cells);
}

/// Reading cells where none can be read leaves the reader where it is.
proof fn lemma_read_cells_stop(reader: ReaderState, ref_size: int, limit: nat)
    requires
        reader.skipped().skipping > 0 || parse_cell(reader.skipped().pending, ref_size)
            is Incomplete,
    ensures
        read_cells(reader.skipped(), ref_size, limit) == Some(
            (reader.skipped(), Seq::<Seq<u8>>::empty()),
        ),
        limit > 0 ==> read_cells(reader, ref_size, limit) == Some(
            (reader.skipped(), Seq::<Seq<u8>>::empty()),
        ),
{
    reveal(read_cells);
    crate::shard_state::packet_reader::lemma_skipped_twice(reader);
}

/// Records put before an outcome one after the other are put before it
/// together.
proof fn lemma_with_records_before(
    a: Seq<Seq<u8>>,
    b: Seq<Seq<u8>>,
    read: Option<(ReaderState, Seq<Seq<u8>>)>,
)
    ensures
        with_records_before(a, with_records_before(b, read)) == with_records_before(a + b, read),
        with_records_before(Seq::<Seq<u8>>::empty(), read) == read,
{
    match read {
        Some((last, rest)) => {
            assert(a + (b + rest) =~= a + b + rest);
            assert(Seq::<Seq<u8>>::empty() + rest =~= rest);
        },
        None => {},
    }
}

impl StreamState {
    /// What the cells and the checksum of the stream make of the state,
    /// once the header `header` is known and `reader` stands behind it: the
    /// new state and the records of the cells read. `None` if the stream is
    /// not in order.
    pub open spec fn past_cells(self, header: BocHeader, reader: ReaderState) -> Option<
        (StreamState, Seq<Seq<u8>>),
    > {
        match read_cells(
            reader,
            header.ref_size as int,
            (header.cell_count - self.cells_read) as nat,
        ) {
            None => None,
            Some((after, records)) => {
                let cells_read = self.cells_read + records.len();
                if cells_read < header.cell_count {
                    Some(
                        (
                            StreamState {
                                reader: after,
                                header: Some(header),
                                cells_read,
                                complete: false,
                            },
                            records,
                        ),
                    )
                } else if !header.has_crc {
                    Some(
                        (
                            StreamState {
                                reader: after,
                                header: Some(header),
                                cells_read,
                                complete: true,
                            },
                            records,
                        ),
                    )
                } else {
                    match read_checksum(after) {
                        Some((last, complete)) => Some(
                            (
                                StreamState {
                                    reader: last,
                                    header: Some(header),
                                    cells_read,
                                    complete,
                                },
                                records,
                            ),
                        ),
                        None => None,
                    }
                }
            },
        }
    }

    /// What a packet makes of the state: the new state and the records of
    /// the cells read from it. A complete stream takes no more packets.
    /// `None` if the stream is not in order.
    pub open spec fn fed(self, packet: Seq<u8>) -> Option<(StreamState, Seq<Seq<u8>>)> {
        if self.complete {
            Some((self, Seq::empty()))
        } else {
            let reader = self.reader.fed(packet);
            match self.header {
                Some(header) => self.past_cells(header, reader),
                None => {
                    let state = reader.skipped();
                    if state.skipping > 0 {
                        Some((StreamState { reader: state, ..self }, Seq::empty()))
                    } else {
                        match parse_header(state.pending) {
                            Parsed::Incomplete => Some(
                                (StreamState { reader: state, ..self }, Seq::empty()),
                            ),
                            Parsed::Invalid => None,
                            Parsed::Done(header, n) => self.past_cells(
                                header,
                                state.past_header(header, n),
                            ),
                        }
                    }
                },
            }
        }
    }
}

/// The replacement of a shard state by a streamed bag of cells.
pub struct ShardStateReplaceTransaction {
    marker: u8,
    reader: ShardStatePacketReader,
    header: Option<BocHeader>,
    cells_read: u64,
    complete: bool,
}

impl View for ShardStateReplaceTransaction {
    type V = StreamState;

    closed spec fn view(&self) -> StreamState {
        StreamState {
            reader: self.reader@,
            header: self.header,
            cells_read: self.cells_read as nat,
            complete: self.complete,
        }
    }
}

impl ShardStateReplaceTransaction {
    /// The marker that every cell of this transaction is stored with, in
    /// contracts.
    pub closed spec fn marker(&self) -> u8 {
        self.marker
    }

    /// The transaction is in order: its reader is, and it has read no more
    /// cells than the header states.
    pub closed spec fn wf(&self) -> bool {
        &&& self.reader.wf()
        &&& match self.header {
            Some(header) => self.cells_read <= header.cell_count && 1 <= header.ref_size <= 4 && 1
                <= header.cell_count <= u32::MAX,
            None => self.cells_read == 0,
        }
    }

    /// A transaction that stores its cells with `marker`, and has seen
    /// nothing of the stream.
    pub fn new(marker: u8) -> (r: Self)
        ensures
            r.wf(),
            r.marker() == marker,
            r@.header is None,
            r@.cells_read == 0,
            !r@.complete,
            r@.reader.pending == Seq::<u8>::empty(),
            r@.reader.consumed == Seq::<u8>::empty(),
            r@.reader.skipping == 0,
    {
        ShardStateReplaceTransaction {
            marker,
            reader: ShardStatePacketReader::new(),
            header: None,
            cells_read: 0,
            complete: false,
        }
    }

    /// The header of the bag, once it was read.
    pub fn header(&self) -> (r: &Option<BocHeader>)
        ensures
            *r == self@.header,
            self.wf() && r is Some ==> 1 <= r.unwrap().ref_size <= 4 && 1 <= r.unwrap().cell_count
                <= u32::MAX,
    {
        &self.header
    }

    /// The number of cells read so far.
    pub fn cells_read(&self) -> (r: u64)
        ensures
            r == self@.cells_read,
    {
        self.cells_read
    }

    /// Feeds the next packet of the stream; the records of the cells that
    /// can be read are appended to `cells_file`, each followed by its
    /// length, in chunks that are each followed by their length. Returns
    /// whether the stream is complete: every cell was read, and the
    /// checksum if the header states one. A complete stream takes no more
    /// packets.
    ///
    /// Fails with `InvalidShardStatePacket` exactly when the stream is not
    /// in order: the header or a cell is not, or the checksum differs.
    pub fn process_packet(&mut self, packet: Vec<u8>, cells_file: &mut Vec<u8>) -> (r: Result<
        bool,
        ReplaceTransactionError,
    >)
        requires
            old(self).wf(),
        ensures
            match old(self)@.fed(packet@) {
                None => r == Err::<bool, ReplaceTransactionError>(
                    ReplaceTransactionError::InvalidShardStatePacket,
                ),
                Some((state, records)) => {
                    &&& r == Ok::<bool, ReplaceTransactionError>(state.complete)
                    &&& final(self).wf()
                    &&& final(self)@ == state
                    &&& final(self).marker() == old(self).marker()
                    &&& records.len() == 0 ==> final(cells_file)@ == old(cells_file)@
                    &&& records.len() > 0 && chunk_of(records).len() <= u32::MAX - 256
                        ==> final(cells_file)@ == old(cells_file)@ + chunk_of(records)
                        + chunk_tail(records)
                    &&& file_records(old(cells_file)@) is Some ==> file_records(
                        final(cells_file)@,
                    ) == Some(file_records(old(cells_file)@).unwrap() + records)
                },
            },
    {
        if self.complete {
            assert(file_records(cells_file@).unwrap() + Seq::<Seq<u8>>::empty() =~= file_records(
                cells_file@,
            ).unwrap());
            return Ok(true);
        }
        self.reader.set_next_packet(packet);
        let header = match self.header {
            Some(header) => header,
            None => {
                let read = self.reader.read_header();
                proof {
                    assert(file_records(cells_file@).unwrap() + Seq::<Seq<u8>>::empty()
                        =~= file_records(cells_file@).unwrap());
                }
                match read {
                    Err(e) => {
                        return Err(e);
                    },
                    Ok(None) => {
                        return Ok(false);
                    },
                    Ok(Some(header)) => {
                        proof {
                            let bytes = old(self)@.reader.fed(packet@).skipped().pending;
                            crate::shard_state::packet_reader::lemma_header_bounds(bytes);
                        }
                        self.header = Some(header);
                        header
                    },
                }
            },
        };
        let ghost start = self.reader@;
        let ghost first = self.cells_read;
        let ghost file = cells_file@;
        let ghost limit = (header.cell_count - first) as nat;
        let ghost goal = read_cells(start, header.ref_size as int, limit);
        let ghost closed_bytes = cells_file@;
        let ghost closed = Seq::<Seq<u8>>::empty();
        let ghost open = Seq::<Seq<u8>>::empty();
        let mut chunk_size: u32 = 0;
        let mut more = true;
        let ghost outcome = old(self)@.fed(packet@);
        proof {
            crate::shard_state::spill::lemma_empty_chunk();
            assert(closed + open =~= Seq::<Seq<u8>>::empty());
            assert(file_records(file).unwrap() + closed =~= file_records(file).unwrap());
            assert(closed_bytes + chunk_of(open) =~= cells_file@);
            lemma_with_records_before(closed, open, goal);
            assert(outcome == old(self)@.past_cells(header, start));
        }
        while more && self.cells_read < header.cell_count
            invariant
                self.reader.wf(),
                self.header == Some(header),
                self.marker == old(self).marker,
                self.complete == old(self).complete,
                1 <= header.ref_size <= 4,
                1 <= header.cell_count <= u32::MAX,
                first <= self.cells_read <= header.cell_count,
                limit == (header.cell_count - first) as nat,
                self.cells_read == first + closed.len() + open.len(),
                cells_file@ == closed_bytes + chunk_of(open),
                chunk_size == chunk_of(open).len(),
                closed.len() == 0 ==> closed_bytes == file,
                closed.len() > 0 ==> chunk_of(closed).len() > u32::MAX - 256,
                closed.len() + open.len() == 0 ==> cells_file@ == file,
                file_records(file) is Some ==> file_records(closed_bytes) == Some(
                    file_records(file).unwrap() + closed,
                ),
                forall|i: int| 0 <= i < open.len() ==> (#[trigger] open[i]).len() <= MAX_RECORD_LEN,
                goal is None ==> outcome is None,
                outcome == old(self)@.fed(packet@),
                !more ==> read_cells(
                    self.reader@,
                    header.ref_size as int,
                    (header.cell_count - self.cells_read) as nat,
                ) == Some((self.reader@, Seq::<Seq<u8>>::empty())),
                goal == with_records_before(
                    closed + open,
                    read_cells(
                        self.reader@,
                        header.ref_size as int,
                        (header.cell_count - self.cells_read) as nat,
                    ),
                ),
            decreases
                    if more {
                        1int
                    } else {
                        0int
                    },
                    header.cell_count - self.cells_read,
        {
            if chunk_size > u32::MAX - 256 {
                crate::codec::push_u32_le(cells_file, chunk_size);
                proof {
                    if open.len() == 0 {
                        assert(open =~= Seq::<Seq<u8>>::empty());
                        crate::shard_state::spill::lemma_empty_chunk();
                    }
                    if file_records(file) is Some {
                        lemma_file_append(closed_bytes, open);
                        assert(file_records(file).unwrap() + closed + open =~= file_records(
                            file,
                        ).unwrap() + (closed + open));
                    }
                    assert(closed + open + Seq::<Seq<u8>>::empty() =~= closed + open);
                    crate::shard_state::spill::lemma_chunk_of_concat_len(closed, open);
                    closed_bytes = cells_file@;
                    closed = closed + open;
                    open = Seq::empty();
                    crate::shard_state::spill::lemma_empty_chunk();
                    assert(closed_bytes + chunk_of(open) =~= cells_file@);
                }
                chunk_size = 0;
            }
            let ghost before = self.reader@;
            let ghost left = (header.cell_count - self.cells_read) as nat;
            match self.reader.read_cell(header.ref_size, cells_file) {
                Err(e) => {
                    proof {
                        lemma_read_cells_invalid(before, header.ref_size as int, left);
                    }
                    return Err(e);
                },
                Ok(None) => {
                    proof {
                        lemma_read_cells_stop(before, header.ref_size as int, left);
                    }
                    more = false;
                },
                Ok(Some(size)) => {
                    cells_file.push(size as u8);
                    chunk_size = chunk_size + size as u32 + 1;
                    self.cells_read = self.cells_read + 1;
                    proof {
                        let state = before.skipped();
                        let record = parse_cell(state.pending, header.ref_size as int)->Done_0;
                        lemma_chunk_of_push(open, record);
                        lemma_read_cells_step(before, header.ref_size as int, left);
                        lemma_with_records_before(
                            closed + open,
                            seq![record],
                            read_cells(self.reader@, header.ref_size as int, (left - 1) as nat),
                        );
                        assert(closed + open + seq![record] =~= closed + open.push(record));
                        open = open.push(record);
                        assert(cells_file@ =~= closed_bytes + chunk_of(open));
                    }
                },
            }
        }
        let ghost records = closed + open;
        if chunk_size > 0 {
            crate::codec::push_u32_le(cells_file, chunk_size);
            proof {
                if open.len() == 0 {
                    assert(open =~= Seq::<Seq<u8>>::empty());
                    crate::shard_state::spill::lemma_empty_chunk();
                }
                if file_records(file) is Some {
                    lemma_file_append(closed_bytes, open);
                    assert(file_records(file).unwrap() + closed + open =~= file_records(
                        file,
                    ).unwrap() + records);
                }
            }
        } else {
            proof {
                if open.len() > 0 {
                    lemma_chunk_of_push(open.drop_last(), open.last());
                    assert(open.drop_last().push(open.last()) =~= open);
                }
                crate::shard_state::spill::lemma_empty_chunk();
                assert(records =~= closed);
                assert(cells_file@ =~= closed_bytes);
            }
        }
        proof {
            crate::shard_state::spill::lemma_chunk_of_concat_len(closed, open);
            if closed.len() == 0 {
                assert(records =~= open);
            }
            lemma_read_cells_none(self.reader@, header.ref_size as int);
            assert(records + Seq::<Seq<u8>>::empty() =~= records);
            assert(goal == Some((self.reader@, records)));
            assert(outcome == old(self)@.past_cells(header, start));
        }
        if self.cells_read < header.cell_count {
            return Ok(false);
        }
        if header.has_crc {
            match self.reader.read_crc() {
                Err(e) => {
                    return Err(e);
                },
                Ok(None) => {
                    return Ok(false);
                },
                Ok(Some(_)) => {},
            }
        }
        self.complete = true;
        Ok(true)
    }

    /// Finalises the cell `cell` of index `cell_index`, whose children have
    /// their summaries in `ctx.entries_buffer.children`: computes its
    /// hashes and depths, leaves its summary in `ctx.entries_buffer.current`
    /// and queues its record under its representation hash.
    ///
    /// Fails with `InvalidCell`, and queues nothing, exactly when the cell
    /// is not valid: it is not well formed or a child has no summary, its
    /// kind is unknown, its record states another level mask than its kind
    /// and children call for, a pruned child has no usable data, or a child
    /// is `MAX_DEPTH` deep or deeper.
    pub fn finalize_cell(
        &self,
        ctx: &mut FinalizationContext,
        cell_index: u32,
        cell: &RawCell,
    ) -> (r: Result<(), ReplaceTransactionError>)
        ensures
            ({
                let cx = cell_input(
                    *cell,
                    old(ctx).entries_buffer.children@,
                    old(ctx).pruned_branches@,
                );
                &&& final(ctx).entries_buffer.children@ == old(ctx).entries_buffer.children@
                &&& match r {
                    Ok(()) => {
                        &&& cx.valid()
                        &&& cx.summarised_by(final(ctx).entries_buffer.current)
                        &&& final(ctx).entries_buffer.current.repr_hash() == cx.key()
                        &&& batch_view(final(ctx).write_batch@) == batch_view(
                            old(ctx).write_batch@,
                        ).push((cx.key(), cx.value(self.marker())))
                        &&& pruned_data(final(ctx).pruned_branches@) == if cx.is_pruned() {
                            pruned_data(old(ctx).pruned_branches@).insert(
                                cell_index,
                                cx.data.subrange(0, cx.data_size()),
                            )
                        } else {
                            pruned_data(old(ctx).pruned_branches@)
                        }
                    },
                    Err(e) => {
                        &&& e == ReplaceTransactionError::InvalidCell
                        &&& !cx.valid()
                        &&& final(ctx).write_batch@ == old(ctx).write_batch@
                        &&& final(ctx).pruned_branches@ == old(ctx).pruned_branches@
                    },
                }
            }),
    {
        let ghost cx = cell_input(*cell, ctx.entries_buffer.children@, ctx.pruned_branches@);
        let count = cell.reference_indices.len();
        if cell.bit_len > 1023 || cell.data.len() < cell.bit_len as usize / 8 + 1 || count > 4
            || ctx.entries_buffer.children.len() < count {
            return Err(ReplaceTransactionError::InvalidCell);
        }
        // Prepare mask and counters

        let (children_mask, tree_bits_count, tree_cell_count) = children_counters(
            ctx.entries_buffer.children.as_slice(),
            count,
            cell.bit_len,
        );

        let mut is_pruned_cell = false;
        let level_mask = match cell.cell_type {
            CellType::Ordinary => LevelMask(children_mask),
            CellType::PrunedBranch => {
                is_pruned_cell = true;
                LevelMask::with_mask(cell.level_mask)
            },
            CellType::LibraryReference => LevelMask::with_mask(0),
            CellType::MerkleProof => LevelMask::for_merkle_cell(LevelMask(children_mask)),
            CellType::MerkleUpdate => LevelMask::for_merkle_cell(LevelMask(children_mask)),
            CellType::Unknown => {
                return Err(ReplaceTransactionError::InvalidCell);
            },
        };
        assert(cx.mask() == Some(level_mask.0));

        if cell.level_mask != level_mask.mask() {
            return Err(ReplaceTransactionError::InvalidCell);
        }
        assert(children_mask >> 1 <= 7) by (bit_vector)
            requires
                children_mask <= 7,
        ;

        // Save mask and counters
        let mut entry = HashesEntry::new();
        entry.level_mask = level_mask.0;
        entry.cell_type = cell.cell_type;
        entry.tree_bits_count = tree_bits_count;
        entry.tree_cell_count = tree_cell_count;

        // Calculate hashes
        let hash_count: u8 = if is_pruned_cell {
            1
        } else {
            level_mask.level() + 1
        };
        assert(hash_count == cx.hash_count());

        let mut previous = [0u8; 32];
        let mut i: u8 = 0;
        while i < hash_count
            invariant
                i <= hash_count == cx.hash_count() <= 4,
                cell.wf(),
                cell.level_mask <= 7,
                cx.wf(),
                cx == cell_input(*cell, ctx.entries_buffer.children@, ctx.pruned_branches@),
                ctx.entries_buffer.children@ == old(ctx).entries_buffer.children@,
                ctx.pruned_branches@ == old(ctx).pruned_branches@,
                ctx.write_batch@ == old(ctx).write_batch@,
                i > 0 ==> previous@ == cx.hash((i - 1) as u8),
                entry.level_mask == cx.level_mask,
                entry.cell_type == cx.cell_type,
                entry.tree_bits_count == cx.tree_bits_count(),
                entry.tree_cell_count == cx.tree_cell_count(),
                forall|level: u8, c: int|
                    0 <= level < i && 0 <= c < cx.refs.len() ==> #[trigger] cx.child_ok(c, level),
                forall|level: u8| 0 <= level < i ==> cx.depth(level) <= crate::cell::MAX_DEPTH,
                forall|k: int|
                    0 <= k < 4 ==> (#[trigger] entry.hashes@[k])@ == if k < i {
                        cx.hash(k as u8)
                    } else {
                        Seq::new(32, |j: int| 0u8)
                    },
                forall|k: int|
                    0 <= k < 4 ==> #[trigger] entry.depths@[k] == if k < i {
                        cx.depth(k as u8)
                    } else {
                        0
                    },
            decreases hash_count - i,
        {
            match hash_level(
                cell,
                ctx.entries_buffer.children.as_slice(),
                &ctx.pruned_branches,
                i,
                &previous,
                &mut ctx.output_buffer,
            ) {
                Some((hash, depth)) => {
                    entry.hashes[i as usize] = hash;
                    entry.depths[i as usize] = depth;
                    previous = hash;
                },
                None => {
                    return Err(ReplaceTransactionError::InvalidCell);
                },
            }
            i += 1;
        }
        assert(cx.valid());
        assert(cx.summarised_by(entry));

        // Write cell data
        write_value(
            &mut ctx.output_buffer,
            self.marker,
            cell,
            &entry,
            hash_count,
            ctx.entries_buffer.children.as_slice(),
            Ghost(cx),
        );

        // Update pruned branches
        if is_pruned_cell {
            let data_size = (cell.bit_len as usize + 7) / 8;
            let mut data: Vec<u8> = Vec::with_capacity(data_size);
            push_bytes(&mut data, &cell.data[0..data_size]);
            fx_insert(&mut ctx.pruned_branches, cell_index, data);
            assert(pruned_data(ctx.pruned_branches@) =~= pruned_data(
                old(ctx).pruned_branches@,
            ).insert(cell_index, cx.data.subrange(0, cx.data_size())));
        }

        // Save serialized data
        proof {
            lemma_hash_index_bound(entry.level_mask, 3);
        }
        let key = entry.hash(3);
        let mut value: Vec<u8> = Vec::with_capacity(ctx.output_buffer.len());
        push_bytes(&mut value, ctx.output_buffer.as_slice());
        ctx.write_batch.push(StoredCell { key, value });
        assert(batch_view(ctx.write_batch@) =~= batch_view(old(ctx).write_batch@).push(
            (cx.key(), cx.value(self.marker())),
        ));
        ctx.entries_buffer.current = entry;

        // Done
        Ok(())
    }
}

} // verus!
