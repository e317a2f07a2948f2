//! The backward pass over the spill file: every cell is finalised after its
//! children, from the last cell of the bag to the first.

use crate::cell::CellType;
use crate::codec::{copy_into_vec, overwritten, read_u32_le, u32_from_le};
use crate::shard_state::cell_summary::{cell_input, pruned_data, CellInput};
use crate::shard_state::entries_buffer::HashesEntry;
use crate::shard_state::packet_reader::BocHeader;
use crate::shard_state::parser::{RawCell, Record};
use crate::shard_state::replace_transaction::{
    batch_view, FinalizationContext, ReplaceTransactionError, ShardStateReplaceTransaction,
    StoredCell,
};
use crate::shard_state::spill::chunk_records;
use vstd::prelude::*;

verus! {

/// The cells of a bag from index `first` on, with their summaries.
pub struct Tail {
    /// The number of bytes a reference takes.
    pub ref_size: int,
    /// The index of the first cell that was finalised.
    pub first: int,
    /// The record of every cell, by its index; those before `first` do not
    /// count.
    pub records: Seq<Seq<u8>>,
    /// The summary of every cell, by its index; those before `first` do not
    /// count.
    pub entries: Seq<HashesEntry>,
}

impl Tail {
    /// The number of cells in the bag.
    pub open spec fn cell_count(self) -> int {
        self.records.len() as int
    }

    /// The record of cell `j`.
    pub open spec fn record(self, j: int) -> Record {
        Record { bytes: self.records[j], ref_size: self.ref_size }
    }

    /// The bytes of cell `j` that hold data.
    pub open spec fn cell_data(self, j: int) -> Seq<u8> {
        self.record(j).data().subrange(0, (self.record(j).bit_len() + 7) / 8)
    }

    /// The data of every pruned branch from cell `i` on, by cell index.
    pub open spec fn pruned_from(self, i: int) -> Map<u32, Seq<u8>> {
        Map::new(
            |k: u32|
                i <= k < self.cell_count() && self.record(k as int).cell_type()
                    == CellType::PrunedBranch,
            |k: u32| self.cell_data(k as int),
        )
    }

    /// The summaries of the children of cell `j`.
    pub open spec fn children(self, j: int) -> Seq<HashesEntry> {
        Seq::new(
            self.record(j).ref_count() as nat,
            |c: int| self.entries[self.record(j).reference(c) as int],
        )
    }

    /// Cell `j` as finalisation sees it: with the summaries of its children
    /// and the pruned branches behind it.
    pub open spec fn cell(self, j: int) -> CellInput {
        let record = self.record(j);
        CellInput {
            cell_type: record.cell_type(),
            level_mask: record.level_mask(),
            bit_len: record.bit_len() as u16,
            data: record.data(),
            refs: record.references(),
            children: self.children(j),
            pruned: self.pruned_from(j + 1),
        }
    }

    /// Whether cell `j` is in order: its record is well formed, its children
    /// stand behind it, it is valid, and its summary is the one kept.
    #[verifier::opaque]
    pub open spec fn cell_ok(self, j: int) -> bool {
        &&& self.record(j).well_formed()
        &&& self.record(j).children_follow(self.cell_count(), j)
        &&& self.cell(j).valid()
        &&& self.cell(j).summarised_by(self.entries[j])
    }

    /// Whether every cell from `first` on is in order.
    pub open spec fn wf(self) -> bool {
        &&& 1 <= self.ref_size <= 4
        &&& 0 <= self.first <= self.cell_count()
        &&& self.cell_count() <= u32::MAX
        &&& self.entries.len() == self.records.len()
        &&& forall|j: int| self.first <= j < self.cell_count() ==> #[trigger] self.cell_ok(j)
    }

    /// The tail with the cell before `first` added to it.
    pub open spec fn grown(self, record: Seq<u8>, entry: HashesEntry) -> Tail {
        Tail {
            first: self.first - 1,
            records: self.records.update(self.first - 1, record),
            entries: self.entries.update(self.first - 1, entry),
            ..self
        }
    }

    /// What is stored of the cells from `i` on, in the order in which they
    /// are finalised: the last cell first. Each is stored under its
    /// representation hash.
    pub open spec fn puts_from(self, i: int, marker: u8) -> Seq<(Seq<u8>, Seq<u8>)>
        decreases self.cell_count() - i,
    {
        if i >= self.cell_count() {
            Seq::empty()
        } else {
            self.puts_from(i + 1, marker).push((self.cell(i).key(), self.cell(i).value(marker)))
        }
    }

    /// A cell sees only the cells behind it: two tails that agree from cell
    /// `j` on see the same cell `j`.
    pub proof fn lemma_cell_frame(self, other: Tail, j: int)
        requires
            0 <= j < self.cell_count(),
            self.ref_size == other.ref_size,
            self.records.len() == other.records.len(),
            self.entries.len() == other.entries.len() == self.records.len(),
            self.record(j).children_follow(self.cell_count(), j),
            forall|k: int| j <= k < self.cell_count() ==> self.records[k] == other.records[k],
            forall|k: int| j < k < self.cell_count() ==> self.entries[k] == other.entries[k],
        ensures
            self.cell(j) == other.cell(j),
            self.pruned_from(j) == other.pruned_from(j),
    {
        assert(self.record(j) == other.record(j));
        assert(self.children(j) =~= other.children(j)) by {
            assert forall|c: int| 0 <= c < self.record(j).ref_count() implies self.children(j)[c]
                == other.children(j)[c] by {
                assert(j < self.record(j).reference(c) < self.cell_count());
            }
        }
        assert forall|k: u32| j <= k < self.cell_count() implies self.record(k as int)
            == other.record(k as int) by {}
        assert(self.pruned_from(j + 1) =~= other.pruned_from(j + 1));
        assert(self.pruned_from(j) =~= other.pruned_from(j));
    }

    /// Adding a cell before a tail leaves what the tail's cells store, and it
    /// stores the new cell after them.
    pub proof fn lemma_puts_frame(self, other: Tail, i: int, marker: u8)
        requires
            0 <= i <= self.cell_count(),
            self.ref_size == other.ref_size,
            self.records.len() == other.records.len(),
            self.entries.len() == other.entries.len() == self.records.len(),
            forall|k: int|
                i <= k < self.cell_count() ==> #[trigger] self.record(k).children_follow(
                    self.cell_count(),
                    k,
                ),
            forall|k: int| i <= k < self.cell_count() ==> self.records[k] == other.records[k],
            forall|k: int| i <= k < self.cell_count() ==> self.entries[k] == other.entries[k],
        ensures
            self.puts_from(i, marker) == other.puts_from(i, marker),
        decreases self.cell_count() - i,
    {
        if i < self.cell_count() {
            self.lemma_puts_frame(other, i + 1, marker);
            assert(self.record(i).children_follow(self.cell_count(), i));
            self.lemma_cell_frame(other, i);
        }
    }

    /// The summaries of a tail are determined by its records: two tails in
    /// order that hold the same records hold the same summaries, and store
    /// the same.
    pub proof fn lemma_same_records_same_summaries(self, other: Tail, i: int, marker: u8)
        requires
            self.ref_size == other.ref_size,
            0 <= i <= self.cell_count(),
            self.records.len() == other.records.len(),
            self.entries.len() == other.entries.len() == self.records.len(),
            forall|k: int| i <= k < self.cell_count() ==> #[trigger] self.cell_ok(k),
            forall|k: int| i <= k < self.cell_count() ==> #[trigger] other.cell_ok(k),
            forall|k: int| i <= k < self.cell_count() ==> self.records[k] == other.records[k],
        ensures
            forall|k: int| i <= k < self.cell_count() ==> self.entries[k] == other.entries[k],
            self.puts_from(i, marker) == other.puts_from(i, marker),
        decreases self.cell_count() - i,
    {
        reveal(Tail::cell_ok);
        if i < self.cell_count() {
            self.lemma_same_records_same_summaries(other, i + 1, marker);
            assert(self.cell_ok(i));
            assert(other.cell_ok(i));
            self.lemma_cell_frame(other, i);
            let cx = self.cell(i);
            cx.lemma_summary_unique(self.entries[i], other.entries[i]);
        }
    }
}

impl Tail {
    /// The cell that was added before a tail is seen with the summaries that
    /// the tail holds of its children, and the pruned branches of the tail.
    pub proof fn lemma_grown_cell(self, record: Seq<u8>, entry: HashesEntry)
        requires
            self.wf(),
            self.first > 0,
        ensures
            self.grown(record, entry).record(self.first - 1) == (Record {
                bytes: record,
                ref_size: self.ref_size,
            }),
            self.grown(record, entry).pruned_from(self.first) == self.pruned_from(self.first),
            (Record { bytes: record, ref_size: self.ref_size }).children_follow(
                self.cell_count(),
                self.first - 1,
            ) ==> self.grown(record, entry).children(self.first - 1) == Seq::new(
                (Record { bytes: record, ref_size: self.ref_size }).ref_count() as nat,
                |c: int|
                    self.entries[(Record { bytes: record, ref_size: self.ref_size }).reference(
                        c,
                    ) as int],
            ),
    {
        let grown = self.grown(record, entry);
        let rec = Record { bytes: record, ref_size: self.ref_size };
        assert(grown.pruned_from(self.first) =~= self.pruned_from(self.first));
        if rec.children_follow(self.cell_count(), self.first - 1) {
            assert(grown.children(self.first - 1) =~= Seq::new(
                rec.ref_count() as nat,
                |c: int| self.entries[rec.reference(c) as int],
            )) by {
                assert forall|c: int| 0 <= c < rec.ref_count() implies grown.children(
                    self.first - 1,
                )[c] == self.entries[rec.reference(c) as int] by {
                    assert(self.first - 1 < rec.reference(c) < self.cell_count());
                }
            }
        }
    }

    /// A cell of a tail is still in order when a cell is added before the
    /// tail.
    pub proof fn lemma_grown_keeps(self, record: Seq<u8>, entry: HashesEntry, k: int)
        requires
            self.wf(),
            self.first > 0,
            self.first <= k < self.cell_count(),
        ensures
            self.grown(record, entry).cell_ok(k),
            self.grown(record, entry).record(k).children_follow(self.cell_count(), k),
    {
        reveal(Tail::cell_ok);
        let grown = self.grown(record, entry);
        assert(self.cell_ok(k));
        assert(grown.record(k) == self.record(k));
        grown.lemma_cell_frame(self, k);
    }

    /// A tail with a cell in order added before it is in order.
    pub proof fn lemma_grown_wf(self, record: Seq<u8>, entry: HashesEntry)
        requires
            self.wf(),
            self.first > 0,
            self.grown(record, entry).cell_ok(self.first - 1),
        ensures
            self.grown(record, entry).wf(),
            extends(self, seq![record], self.grown(record, entry)),
    {
        let grown = self.grown(record, entry);
        assert forall|k: int| grown.first <= k < grown.cell_count() implies #[trigger] grown.cell_ok(
            k,
        ) by {
            if k >= self.first {
                self.lemma_grown_keeps(record, entry, k);
            }
        }
    }

    /// A tail with a cell added before it stores that cell after the
    /// others.
    pub proof fn lemma_grown_puts(self, record: Seq<u8>, entry: HashesEntry, marker: u8)
        requires
            self.wf(),
            self.first > 0,
        ensures
            self.grown(record, entry).puts_from(self.first - 1, marker) == self.puts_from(
                self.first,
                marker,
            ).push(
                (
                    self.grown(record, entry).cell(self.first - 1).key(),
                    self.grown(record, entry).cell(self.first - 1).value(marker),
                ),
            ),
    {
        let grown = self.grown(record, entry);
        assert forall|k: int| self.first <= k < self.cell_count() implies #[trigger] grown.record(
            k,
        ).children_follow(grown.cell_count(), k) by {
            self.lemma_grown_keeps(record, entry, k);
        }
        grown.lemma_puts_frame(self, self.first, marker);
    }

    /// A tail with a cell added before it knows that cell as a pruned branch
    /// if it is one, and the pruned branches it knew.
    pub proof fn lemma_grown_pruned(self, record: Seq<u8>, entry: HashesEntry)
        requires
            self.wf(),
            self.first > 0,
            (Record { bytes: record, ref_size: self.ref_size }).well_formed(),
        ensures
            self.grown(record, entry).pruned_from(self.first - 1) == if self.grown(
                record,
                entry,
            ).cell(self.first - 1).is_pruned() {
                self.pruned_from(self.first).insert(
                    (self.first - 1) as u32,
                    self.grown(record, entry).cell(self.first - 1).data.subrange(
                        0,
                        self.grown(record, entry).cell(self.first - 1).data_size(),
                    ),
                )
            } else {
                self.pruned_from(self.first)
            },
    {
        let grown = self.grown(record, entry);
        let j = self.first - 1;
        let rec = Record { bytes: record, ref_size: self.ref_size };
        rec.lemma_bit_len_bound();
        assert(grown.record(j) == rec);
        let cx = grown.cell(j);
        assert(cx.data.subrange(0, cx.data_size()) == grown.cell_data(j));
        assert forall|k: u32| self.first <= k < self.cell_count() implies grown.record(k as int)
            == self.record(k as int) && grown.cell_data(k as int) == self.cell_data(k as int) by {}
        if cx.is_pruned() {
            assert(grown.pruned_from(j) =~= self.pruned_from(self.first).insert(
                j as u32,
                cx.data.subrange(0, cx.data_size()),
            ));
        } else {
            assert(grown.pruned_from(j) =~= self.pruned_from(self.first));
        }
    }
}

impl Tail {
    /// Finalising the same bag twice gives every cell the same summary and
    /// stores the same records under the same representation hashes, in the
    /// same order.
    pub proof fn lemma_same_bag_same_store(self, other: Tail, marker: u8)
        requires
            self.wf(),
            other.wf(),
            self.first == 0,
            other.first == 0,
            self.ref_size == other.ref_size,
            self.records == other.records,
        ensures
            self.entries == other.entries,
            self.puts_from(0, marker) == other.puts_from(0, marker),
    {
        self.lemma_same_records_same_summaries(other, 0, marker);
        assert(self.entries =~= other.entries);
    }

    /// Every record that is stored begins with the marker of the
    /// transaction.
    pub proof fn lemma_stored_with_marker(self, i: int, marker: u8, k: int)
        requires
            0 <= i <= self.cell_count(),
            0 <= k < self.puts_from(i, marker).len(),
        ensures
            self.puts_from(i, marker)[k].1.len() > 0,
            self.puts_from(i, marker)[k].1[0] == marker,
        decreases self.cell_count() - i,
    {
        lemma_puts_len(self, i, marker);
        if i < self.cell_count() {
            lemma_puts_len(self, i + 1, marker);
            if k < self.puts_from(i + 1, marker).len() {
                self.lemma_stored_with_marker(i + 1, marker, k);
            } else {
                self.cell(i).lemma_value_starts_with_marker(marker);
            }
        }
    }

    /// Every child of a finalised cell stands behind it in the bag.
    pub proof fn lemma_children_follow(self, j: int, c: int)
        requires
            self.wf(),
            self.first <= j < self.cell_count(),
            0 <= c < self.record(j).ref_count(),
        ensures
            j < self.record(j).reference(c) < self.cell_count(),
    {
        reveal(Tail::cell_ok);
        assert(self.cell_ok(j));
    }

    /// No depth in the summary of a finalised cell is over `MAX_DEPTH`.
    pub proof fn lemma_depth_bound(self, j: int, level: int)
        requires
            self.wf(),
            self.first <= j < self.cell_count(),
            0 <= level < 4,
        ensures
            self.entries[j].depths@[level] <= crate::cell::MAX_DEPTH,
    {
        reveal(Tail::cell_ok);
        assert(self.cell_ok(j));
        self.cell(j).lemma_summary_depth_bound(self.entries[j], level);
    }
}

/// Cells added before a tail in two goes are added before it.
pub proof fn lemma_extends_twice(
    tail: Tail,
    later: Seq<Seq<u8>>,
    middle: Tail,
    earlier: Seq<Seq<u8>>,
    grown: Tail,
)
    requires
        extends(tail, later, middle),
        extends(middle, earlier, grown),
        0 <= middle.first,
        tail.first <= tail.cell_count(),
    ensures
        extends(tail, earlier + later, grown),
{
    assert forall|k: int| 0 <= k < (earlier + later).len() implies grown.records[grown.first + k]
        == (earlier + later)[k] by {
        if k >= earlier.len() {
            assert(middle.records[middle.first + (k - earlier.len())] == later[k - earlier.len()]);
        }
    }
}

/// Where no summary puts the next cell in order, the records cannot be
/// added before the tail at all.
pub proof fn lemma_no_extension(
    tail: Tail,
    records: Seq<Seq<u8>>,
    middle: Tail,
    done: Seq<Seq<u8>>,
    record: Seq<u8>,
    grown: Tail,
)
    requires
        tail.wf(),
        middle.wf(),
        middle.first > 0,
        extends(tail, done, middle),
        records.len() > done.len(),
        records.len() <= tail.first,
        records.subrange(records.len() - done.len(), records.len() as int) == done,
        records[records.len() - done.len() - 1] == record,
        forall|entry: HashesEntry|
            !(#[trigger] middle.grown(record, entry)).cell_ok(middle.first - 1),
    ensures
        !(extends(tail, records, grown) && grown.wf()),
{
    if extends(tail, records, grown) && grown.wf() {
        let j = middle.first - 1;
        let n = tail.cell_count();
        let shift = records.len() - done.len();
        assert forall|k: int| j < k < n implies grown.records[k] == middle.records[k] by {
            if k < tail.first {
                assert(grown.records[grown.first + (k - grown.first)] == records[k - grown.first]);
                assert(middle.records[middle.first + (k - middle.first)] == done[k - middle.first]);
                assert(done[k - middle.first] == records[shift + (k - middle.first)]);
            }
        }
        assert(grown.records[grown.first + (j - grown.first)] == records[j - grown.first]);
        assert(grown.records[j] == record);
        grown.lemma_same_records_same_summaries(middle, j + 1, 0);
        let candidate = middle.grown(record, grown.entries[j]);
        assert(grown.cell_ok(j));
        assert(grown.record(j).children_follow(n, j)) by {
            reveal(Tail::cell_ok);
        }
        grown.lemma_cell_frame(candidate, j);
        assert(candidate.cell_ok(j)) by {
            reveal(Tail::cell_ok);
            assert(candidate.record(j) == grown.record(j));
        }
    }
}

/// A tail with cells added before it stores as many cells more.
pub proof fn lemma_puts_extended(tail: Tail, records: Seq<Seq<u8>>, grown: Tail, marker: u8)
    requires
        tail.wf(),
        grown.wf(),
        extends(tail, records, grown),
    ensures
        grown.puts_from(grown.first, marker).len() == tail.puts_from(tail.first, marker).len()
            + records.len(),
{
    lemma_puts_len(tail, tail.first, marker);
    lemma_puts_len(grown, grown.first, marker);
}

/// A tail stores one cell for every cell it holds.
pub proof fn lemma_puts_len(tail: Tail, i: int, marker: u8)
    requires
        0 <= i <= tail.cell_count(),
    ensures
        tail.puts_from(i, marker).len() == tail.cell_count() - i,
    decreases tail.cell_count() - i,
{
    if i < tail.cell_count() {
        lemma_puts_len(tail, i + 1, marker);
    }
}

/// Writing the summary of cell `j` into the scratch space leaves the
/// summaries of the other cells.
pub proof fn lemma_slot_written(scratch: Seq<u8>, j: int, bytes: Seq<u8>, k: int)
    requires
        0 <= j,
        0 <= k,
        bytes.len() == HashesEntry::LEN,
        j * HashesEntry::LEN + HashesEntry::LEN <= scratch.len(),
        k * HashesEntry::LEN + HashesEntry::LEN <= scratch.len(),
    ensures
        slot(overwritten(scratch, j * HashesEntry::LEN, bytes), k) == if k == j {
            bytes
        } else {
            slot(scratch, k)
        },
{
    let after = overwritten(scratch, j * HashesEntry::LEN, bytes);
    if k == j {
        assert(slot(after, k) =~= bytes);
    } else {
        if k > j {
            assert(k * HashesEntry::LEN >= j * HashesEntry::LEN + HashesEntry::LEN)
                by (nonlinear_arith)
                requires
                    k > j,
            ;
        } else {
            assert(k * HashesEntry::LEN + HashesEntry::LEN <= j * HashesEntry::LEN)
                by (nonlinear_arith)
                requires
                    k < j,
            ;
        }
        assert(slot(after, k) =~= slot(scratch, k));
    }
}

/// The number of cells after which the cells that wait are handed out to be
/// written, at the end of a chunk.
pub const CELLS_PER_BATCH: u64 = 1_000_000;

/// The bytes that hold the summary of cell `j` in the scratch space.
pub open spec fn slot(scratch: Seq<u8>, j: int) -> Seq<u8> {
    scratch.subrange(j * HashesEntry::LEN, j * HashesEntry::LEN + HashesEntry::LEN)
}

/// Whether `grown` is `tail` with the cells of `records` before it: the
/// last of them stands right before the first cell of `tail`.
pub open spec fn extends(tail: Tail, records: Seq<Seq<u8>>, grown: Tail) -> bool {
    &&& grown.ref_size == tail.ref_size
    &&& grown.first == tail.first - records.len()
    &&& grown.records.len() == tail.records.len()
    &&& grown.entries.len() == tail.entries.len()
    &&& forall|k: int| 0 <= k < records.len() ==> grown.records[grown.first + k] == records[k]
    &&& forall|j: int|
        tail.first <= j < tail.cell_count() ==> grown.records[j] == tail.records[j]
            && grown.entries[j] == tail.entries[j]
}

/// The chunk that ends before place `pos` of the spill file: the place it
/// begins at, and its records. `None` if no chunk ends there.
pub open spec fn chunk_before(file: Seq<u8>, pos: int) -> Option<(int, Seq<Seq<u8>>)> {
    if pos < 4 || pos > file.len() {
        None
    } else {
        let size = u32_from_le(file.subrange(pos - 4, pos)) as int;
        let start = pos - 4 - size;
        if size == 0 || start < 0 {
            None
        } else {
            match chunk_records(file.subrange(start, pos - 4)) {
                Some(records) => Some((start, records)),
                None => None,
            }
        }
    }
}

/// The pass peels off the spill file what the stream put there: of a file
/// that holds records, the chunk before its end holds the last of them, and
/// what stands before that chunk holds the others.
pub proof fn lemma_last_chunk_of_file(file: Seq<u8>)
    requires
        file.len() > 0,
        crate::shard_state::spill::file_records(file) is Some,
    ensures
        chunk_before(file, file.len() as int) is Some,
        crate::shard_state::spill::file_records(
            file.subrange(0, chunk_before(file, file.len() as int).unwrap().0),
        ) is Some,
        crate::shard_state::spill::file_records(file).unwrap()
            == crate::shard_state::spill::file_records(
            file.subrange(0, chunk_before(file, file.len() as int).unwrap().0),
        ).unwrap() + chunk_before(file, file.len() as int).unwrap().1,
{
    reveal(crate::shard_state::spill::file_records);
}

/// What one step of the pass asks of its caller.
#[derive(Debug)]
pub enum FinalizeStep {
    /// A chunk was finalised; the pass goes on.
    Continue,
    /// A chunk was finalised, and these cells are to be written to the cell
    /// store before the pass goes on.
    Flush(Vec<StoredCell>),
    /// Every cell was finalised: the representation hash of the root cell,
    /// and the last cells to be written to the cell store.
    Done([u8; 32], Vec<StoredCell>),
}

/// The backward pass over the spill file of a transaction.
pub struct Finalization {
    transaction: ShardStateReplaceTransaction,
    header: BocHeader,
    ctx: FinalizationContext,
    scratch: Vec<u8>,
    file_pos: usize,
    cell_index: u64,
    tail: Ghost<Tail>,
    handed_out: Ghost<nat>,
}

impl Finalization {
    /// The cells finalised so far, in contracts.
    pub closed spec fn tail(&self) -> Tail {
        self.tail@
    }

    /// The place in the spill file before which nothing was read yet.
    pub closed spec fn file_pos(&self) -> nat {
        self.file_pos as nat
    }

    /// The number of stored cells that were handed out to be written.
    pub closed spec fn handed_out(&self) -> nat {
        self.handed_out@
    }

    /// The marker that every cell is stored with.
    pub closed spec fn marker(&self) -> u8 {
        self.transaction.marker()
    }

    /// The header of the bag.
    pub closed spec fn header(&self) -> BocHeader {
        self.header
    }

    /// The cells that wait to be written, in contracts.
    pub closed spec fn waiting(&self) -> Seq<(Seq<u8>, Seq<u8>)> {
        batch_view(self.ctx.write_batch@)
    }

    /// The pass is in order: every cell finalised so far is, the scratch
    /// space holds their summaries, and the cells that wait are those stored
    /// since the last were handed out.
    pub closed spec fn wf(&self) -> bool {
        let tail = self.tail@;
        &&& tail.wf()
        &&& tail.ref_size == self.header.ref_size
        &&& tail.first == self.cell_index
        &&& tail.cell_count() == self.header.cell_count
        &&& self.scratch@.len() == tail.cell_count() * HashesEntry::LEN
        &&& forall|j: int|
            tail.first <= j < tail.cell_count() ==> #[trigger] slot(self.scratch@, j)
                == tail.entries[j].encoding()
        &&& pruned_data(self.ctx.pruned_branches@) == tail.pruned_from(tail.first)
        &&& self.handed_out@ <= tail.puts_from(tail.first, self.marker()).len()
        &&& batch_view(self.ctx.write_batch@) == tail.puts_from(tail.first, self.marker()).skip(
            self.handed_out@ as int,
        )
    }

    /// What `wf` says of the parts that contracts name.
    pub proof fn lemma_wf(&self)
        requires
            self.wf(),
        ensures
            self.tail().wf(),
            self.tail().ref_size == self.header().ref_size,
            self.tail().cell_count() == self.header().cell_count,
            self.handed_out() <= self.tail().puts_from(self.tail().first, self.marker()).len(),
            self.waiting() == self.tail().puts_from(self.tail().first, self.marker()).skip(
                self.handed_out() as int,
            ),
    {
    }

    /// Reads the summaries of the children of `cell`, the cell before those
    /// finalised so far, from the scratch space.
    fn load_children(&mut self, cell: &RawCell)
        requires
            old(self).wf(),
            old(self).tail().first > 0,
            cell.reference_indices@.len() <= 4,
            forall|k: int|
                0 <= k < cell.reference_indices@.len() ==> old(self).tail().first - 1
                    < #[trigger] cell.reference_indices@[k] < old(self).tail().cell_count(),
        ensures
            final(self).wf(),
            final(self).tail() == old(self).tail(),
            final(self).handed_out() == old(self).handed_out(),
            final(self).file_pos() == old(self).file_pos(),
            final(self).marker() == old(self).marker(),
            final(self).header() == old(self).header(),
            final(self).cell_index == old(self).cell_index,
            final(self).scratch@ == old(self).scratch@,
            final(self).ctx.pruned_branches@ == old(self).ctx.pruned_branches@,
            final(self).ctx.write_batch@ == old(self).ctx.write_batch@,
            final(self).ctx.entries_buffer.children@ == Seq::new(
                cell.reference_indices@.len(),
                |c: int| old(self).tail().entries[cell.reference_indices@[c] as int],
            ),
    {
        let ghost tail = self.tail@;
        let ghost n = tail.cell_count();
        let total = self.scratch.len();
        self.ctx.entries_buffer.children.clear();
        let count = cell.reference_indices.len();
        let mut c: usize = 0;
        while c < count
            invariant
                c <= count == cell.reference_indices@.len() <= 4,
                self.ctx.entries_buffer.children@.len() == c,
                self.scratch@ == old(self).scratch@,
                total == self.scratch@.len() == n * HashesEntry::LEN,
                tail.entries.len() == n,
                tail == old(self).tail(),
                forall|k: int|
                    0 <= k < count ==> tail.first - 1 < #[trigger] cell.reference_indices@[k] < n,
                forall|k: int|
                    tail.first <= k < n ==> #[trigger] slot(self.scratch@, k)
                        == tail.entries[k].encoding(),
                forall|k: int|
                    0 <= k < c ==> self.ctx.entries_buffer.children@[k]
                        == tail.entries[cell.reference_indices@[k] as int],
                self.ctx.pruned_branches@ == old(self).ctx.pruned_branches@,
                self.ctx.write_batch@ == old(self).ctx.write_batch@,
                self.tail@ == old(self).tail@,
                self.handed_out@ == old(self).handed_out@,
                self.file_pos == old(self).file_pos,
                self.cell_index == old(self).cell_index,
                self.header == old(self).header,
                self.transaction.marker() == old(self).transaction.marker(),
            decreases count - c,
        {
            let child = cell.reference_indices[c] as usize;
            assert(child * HashesEntry::LEN + HashesEntry::LEN <= n * HashesEntry::LEN)
                by (nonlinear_arith)
                requires
                    child < n,
            ;
            let entry = HashesEntry::from_bytes(self.scratch.as_slice(), child * HashesEntry::LEN);
            proof {
                let kept = tail.entries[child as int];
                let rest = self.scratch@.skip(child * HashesEntry::LEN + HashesEntry::LEN);
                assert(slot(self.scratch@, child as int) == kept.encoding());
                assert(self.scratch@.skip((child * HashesEntry::LEN) as int) =~= kept.encoding()
                    + rest);
                kept.lemma_decoding_of_encoding(entry, rest);
            }
            self.ctx.entries_buffer.children.push(entry);
            c += 1;
        }
        assert(self.ctx.entries_buffer.children@ =~= Seq::new(
            cell.reference_indices@.len(),
            |c: int| tail.entries[cell.reference_indices@[c] as int],
        ));
    }

    /// Finalises the cell that stands before the cells finalised so far,
    /// from its record.
    ///
    /// Fails with `InvalidCell` exactly when no summary puts that cell in
    /// order.
    #[verifier::rlimit(100)]
    fn finalize_record(&mut self, record: &[u8]) -> (r: Result<(), ReplaceTransactionError>)
        requires
            old(self).wf(),
            old(self).tail().first > 0,
        ensures
            match r {
                Ok(()) => {
                    &&& final(self).wf()
                    &&& extends(old(self).tail(), seq![record@], final(self).tail())
                    &&& final(self).handed_out() == old(self).handed_out()
                    &&& final(self).file_pos() == old(self).file_pos()
                    &&& final(self).marker() == old(self).marker()
                    &&& final(self).header() == old(self).header()
                },
                Err(e) => {
                    &&& e == ReplaceTransactionError::InvalidCell
                    &&& forall|entry: HashesEntry|
                        !(#[trigger] old(self).tail().grown(record@, entry)).cell_ok(
                            old(self).tail().first - 1,
                        )
                },
            },
    {
        let ghost tail = self.tail@;
        let ghost n = tail.cell_count();
        let index = self.cell_index - 1;
        let ghost j = index as int;
        let ghost rec = Record { bytes: record@, ref_size: tail.ref_size };
        let cell = match RawCell::from_stored_data(
            record,
            self.header.ref_size,
            self.header.cell_count as usize,
            index as usize,
        ) {
            Ok(cell) => cell,
            Err(e) => {
                proof {
                    reveal(Tail::cell_ok);
                    assert forall|entry: HashesEntry|
                        !(#[trigger] tail.grown(record@, entry)).cell_ok(j) by {
                        tail.lemma_grown_cell(record@, entry);
                    }
                }
                return Err(e);
            },
        };
        self.load_children(&cell);
        let ghost cx = cell_input(
            cell,
            self.ctx.entries_buffer.children@,
            self.ctx.pruned_branches@,
        );
        proof {
            assert forall|entry: HashesEntry|
                (#[trigger] tail.grown(record@, entry)).cell(j) == cx by {
                tail.lemma_grown_cell(record@, entry);
                let grown = tail.grown(record@, entry);
                assert(grown.children(j) =~= cx.children);
            }
        }
        match self.transaction.finalize_cell(&mut self.ctx, index as u32, &cell) {
            Ok(()) => {},
            Err(e) => {
                proof {
                    reveal(Tail::cell_ok);
                }
                return Err(e);
            },
        }
        let entry = self.ctx.entries_buffer.current;
        let bytes = entry.to_bytes();
        assert(index * HashesEntry::LEN + HashesEntry::LEN <= n * HashesEntry::LEN)
            by (nonlinear_arith)
            requires
                index < n,
        ;
        let ghost before = self.scratch@;
        let total = self.scratch.len();
        copy_into_vec(&mut self.scratch, index as usize * HashesEntry::LEN, bytes.as_slice());
        self.cell_index = index;
        proof {
            let grown = tail.grown(record@, entry);
            self.tail = Ghost(grown);
            assert(grown.cell(j) == cx);
            tail.lemma_grown_cell(record@, entry);
            assert(grown.cell_ok(j)) by {
                reveal(Tail::cell_ok);
            }
            tail.lemma_grown_wf(record@, entry);
            tail.lemma_grown_puts(record@, entry, self.marker());
            tail.lemma_grown_pruned(record@, entry);
            assert forall|k: int| j <= k < n implies #[trigger] slot(self.scratch@, k)
                == grown.entries[k].encoding() by {
                assert(k * HashesEntry::LEN + HashesEntry::LEN <= n * HashesEntry::LEN)
                    by (nonlinear_arith)
                    requires
                        k < n,
                ;
                lemma_slot_written(before, j, bytes@, k);
                if k > j {
                    assert(slot(before, k) == tail.entries[k].encoding());
                }
            }
            let puts = tail.puts_from(j + 1, self.marker());
            assert(batch_view(self.ctx.write_batch@) =~= grown.puts_from(j, self.marker()).skip(
                self.handed_out@ as int,
            ));
        }
        Ok(())
    }
}

impl ShardStateReplaceTransaction {
    /// Ends the reading of the stream and begins the backward pass over the
    /// spill file, which is `cells_file_len` bytes long.
    ///
    /// Fails with `InvalidShardStatePacket` exactly when no header was read,
    /// or the summaries of the cells cannot be addressed.
    pub fn finalize(self, cells_file_len: usize) -> (r: Result<
        Finalization,
        ReplaceTransactionError,
    >)
        requires
            self.wf(),
        ensures
            match r {
                Ok(pass) => {
                    &&& self@.header is Some
                    &&& pass.wf()
                    &&& pass.header() == self@.header.unwrap()
                    &&& pass.marker() == self.marker()
                    &&& pass.file_pos() == cells_file_len
                    &&& pass.handed_out() == 0
                    &&& pass.tail().first == pass.header().cell_count
                    &&& pass.waiting().len() == 0
                },
                Err(e) => {
                    &&& e == ReplaceTransactionError::InvalidShardStatePacket
                    &&& (self@.header is None || self@.header.unwrap().cell_count
                        * HashesEntry::LEN > usize::MAX)
                },
            },
    {
        Finalization::new(self, cells_file_len)
    }
}

impl Finalization {
    /// Begins the pass over a spill file of `cells_file_len` bytes.
    ///
    /// Fails with `InvalidShardStatePacket` exactly when the transaction has
    /// read no header, or the summaries of its cells cannot be addressed.
    pub fn new(transaction: ShardStateReplaceTransaction, cells_file_len: usize) -> (r: Result<
        Finalization,
        ReplaceTransactionError,
    >)
        requires
            transaction.wf(),
        ensures
            match r {
                Ok(pass) => {
                    &&& transaction@.header is Some
                    &&& transaction@.header.unwrap().cell_count * HashesEntry::LEN <= usize::MAX
                    &&& pass.wf()
                    &&& pass.header() == transaction@.header.unwrap()
                    &&& pass.marker() == transaction.marker()
                    &&& pass.file_pos() == cells_file_len
                    &&& pass.handed_out() == 0
                    &&& pass.tail().first == pass.header().cell_count
                    &&& pass.waiting().len() == 0
                },
                Err(e) => {
                    &&& e == ReplaceTransactionError::InvalidShardStatePacket
                    &&& (transaction@.header is None || transaction@.header.unwrap().cell_count
                        * HashesEntry::LEN > usize::MAX)
                },
            },
    {
        let header = match transaction.header() {
            Some(header) => *header,
            None => {
                return Err(ReplaceTransactionError::InvalidShardStatePacket);
            },
        };
        if header.cell_count > (usize::MAX / HashesEntry::LEN) as u64 {
            assert(header.cell_count * HashesEntry::LEN > usize::MAX) by (nonlinear_arith)
                requires
                    header.cell_count > usize::MAX / HashesEntry::LEN,
                    HashesEntry::LEN == 160,
            ;
            return Err(ReplaceTransactionError::InvalidShardStatePacket);
        }
        assert(header.cell_count * HashesEntry::LEN <= usize::MAX) by (nonlinear_arith)
            requires
                header.cell_count <= usize::MAX / HashesEntry::LEN,
                HashesEntry::LEN == 160,
        ;
        let count = header.cell_count as usize;
        let scratch: Vec<u8> = vec![0u8; count * HashesEntry::LEN];
        let ghost tail = Tail {
            ref_size: header.ref_size as int,
            first: count as int,
            records: Seq::new(count as nat, |i: int| Seq::<u8>::empty()),
            entries: Seq::new(count as nat, |i: int| HashesEntry::cleared()),
        };
        let ctx = FinalizationContext::new();
        let pass = Finalization {
            transaction,
            header,
            ctx,
            scratch,
            file_pos: cells_file_len,
            cell_index: header.cell_count,
            tail: Ghost(tail),
            handed_out: Ghost(0),
        };
        proof {
            assert(tail.pruned_from(tail.first) =~= Map::<u32, Seq<u8>>::empty());
            assert(batch_view(pass.ctx.write_batch@) =~= Seq::empty());
            assert(tail.puts_from(tail.first, pass.marker()) =~= Seq::empty());
            assert(batch_view(pass.ctx.write_batch@) =~= tail.puts_from(
                tail.first,
                pass.marker(),
            ).skip(0));
        }
        Ok(pass)
    }

    /// The number of bytes of scratch space that the summaries take.
    pub fn scratch_len(&self) -> (r: usize)
        requires
            self.wf(),
        ensures
            r == self.header().cell_count * HashesEntry::LEN,
    {
        self.scratch.len()
    }

    /// Whether nothing of the spill file is left to read.
    pub fn at_start_of_file(&self) -> (r: bool)
        ensures
            r == (self.file_pos() == 0),
    {
        self.file_pos == 0
    }

    /// Hands out the cells that wait.
    fn take_batch(&mut self) -> (batch: Vec<StoredCell>)
        requires
            old(self).wf(),
        ensures
            final(self).wf(),
            batch_view(batch@) == old(self).waiting(),
            final(self).waiting().len() == 0,
            final(self).handed_out() == old(self).handed_out() + old(self).waiting().len(),
            final(self).tail() == old(self).tail(),
            final(self).file_pos() == old(self).file_pos(),
            final(self).marker() == old(self).marker(),
            final(self).header() == old(self).header(),
            final(self).scratch@ == old(self).scratch@,
            final(self).cell_index == old(self).cell_index,
    {
        let mut batch: Vec<StoredCell> = Vec::new();
        core::mem::swap(&mut self.ctx.write_batch, &mut batch);
        proof {
            let puts = self.tail@.puts_from(self.tail@.first, self.marker());
            self.handed_out = Ghost(puts.len());
            assert(batch_view(self.ctx.write_batch@) =~= puts.skip(puts.len() as int));
        }
        batch
    }

    /// The last step of the pass, at the start of the file.
    fn step_at_start(&mut self) -> (r: Result<FinalizeStep, ReplaceTransactionError>)
        requires
            old(self).wf(),
            old(self).file_pos() == 0,
        ensures
            ({
                let tail = old(self).tail();
                if tail.first == 0 && old(self).header().root_index < tail.cell_count() {
                    &&& r matches Ok(FinalizeStep::Done(root, batch))
                    &&& root@ == tail.entries[old(self).header().root_index as int].repr_hash()
                    &&& batch_view(batch@) == old(self).waiting()
                    &&& final(self).wf()
                    &&& final(self).tail() == tail
                    &&& final(self).file_pos() == 0
                    &&& final(self).waiting().len() == 0
                } else {
                    r matches Err(ReplaceTransactionError::InvalidShardStatePacket)
                }
            }),
    {
        let ghost tail = self.tail@;
        if self.cell_index != 0 || self.header.root_index >= self.header.cell_count {
            return Err(ReplaceTransactionError::InvalidShardStatePacket);
        }
        let root_index = self.header.root_index as usize;
        let total = self.scratch.len();
        assert(root_index * HashesEntry::LEN + HashesEntry::LEN <= tail.cell_count()
            * HashesEntry::LEN) by (nonlinear_arith)
            requires
                root_index < tail.cell_count(),
        ;
        let entry = HashesEntry::from_bytes(self.scratch.as_slice(), root_index * HashesEntry::LEN);
        proof {
            let kept = tail.entries[root_index as int];
            let rest = self.scratch@.skip(root_index * HashesEntry::LEN + HashesEntry::LEN);
            assert(slot(self.scratch@, root_index as int) == kept.encoding());
            assert(self.scratch@.skip((root_index * HashesEntry::LEN) as int) =~= kept.encoding()
                + rest);
            kept.lemma_decoding_of_encoding(entry, rest);
        }
        let root = entry.hash(3);
        let batch = self.take_batch();
        Ok(FinalizeStep::Done(root, batch))
    }

    /// Hands out the cells that wait if they are more than
    /// `CELLS_PER_BATCH`.
    fn flush_if_due(&mut self) -> (r: FinalizeStep)
        requires
            old(self).wf(),
        ensures
            final(self).wf(),
            final(self).tail() == old(self).tail(),
            final(self).file_pos() == old(self).file_pos(),
            final(self).marker() == old(self).marker(),
            final(self).header() == old(self).header(),
            if old(self).waiting().len() > CELLS_PER_BATCH {
                &&& r matches FinalizeStep::Flush(batch)
                &&& batch_view(batch@) == old(self).waiting()
                &&& final(self).waiting().len() == 0
            } else {
                &&& r matches FinalizeStep::Continue
                &&& final(self).handed_out() == old(self).handed_out()
                &&& final(self).waiting() == old(self).waiting()
            },
    {
        if self.ctx.write_batch.len() as u64 > CELLS_PER_BATCH {
            let batch = self.take_batch();
            FinalizeStep::Flush(batch)
        } else {
            FinalizeStep::Continue
        }
    }

    /// Takes one step of the pass over the spill file `cells_file`: the
    /// chunk that ends where the last step began is finalised, from its last
    /// cell to its first. Once more than `CELLS_PER_BATCH` cells wait, they
    /// are handed out. When nothing of the file is left, the step hands out
    /// the representation hash of the root cell and the cells that still
    /// wait.
    ///
    /// Fails with `InvalidShardStatePacket` exactly when no chunk ends at
    /// that place, the chunk holds more cells than are left, or, at the
    /// start of the file, cells are left or the root is no cell of the bag.
    /// Fails with `InvalidCell` exactly when the chunk is in order and its
    /// cells cannot be added before those finalised so far.
    #[verifier::rlimit(50)]
    pub fn step(&mut self, cells_file: &[u8]) -> (r: Result<FinalizeStep, ReplaceTransactionError>)
        requires
            old(self).wf(),
        ensures
            ({
                let tail = old(self).tail();
                let marker = old(self).marker();
                if old(self).file_pos() == 0 {
                    if tail.first == 0 && old(self).header().root_index < tail.cell_count() {
                        &&& r matches Ok(FinalizeStep::Done(root, batch))
                        &&& root@ == tail.entries[old(self).header().root_index as int].repr_hash()
                        &&& batch_view(batch@) == old(self).waiting()
                        &&& final(self).wf()
                        &&& final(self).tail() == tail
                        &&& final(self).file_pos() == 0
                        &&& final(self).waiting().len() == 0
                    } else {
                        r matches Err(ReplaceTransactionError::InvalidShardStatePacket)
                    }
                } else {
                    match chunk_before(cells_file@, old(self).file_pos() as int) {
                        None => r matches Err(ReplaceTransactionError::InvalidShardStatePacket),
                        Some((start, records)) => if records.len() > tail.first {
                            r matches Err(ReplaceTransactionError::InvalidShardStatePacket)
                        } else if exists|grown: Tail|
                            #[trigger] extends(tail, records, grown) && grown.wf() {
                            &&& final(self).wf()
                            &&& extends(tail, records, final(self).tail())
                            &&& final(self).file_pos() == start
                            &&& final(self).marker() == marker
                            &&& final(self).header() == old(self).header()
                            &&& if old(self).waiting().len() + records.len() > CELLS_PER_BATCH {
                                &&& r matches Ok(FinalizeStep::Flush(batch))
                                &&& batch_view(batch@) == final(self).tail().puts_from(
                                    final(self).tail().first,
                                    marker,
                                ).skip(old(self).handed_out() as int)
                                &&& final(self).waiting().len() == 0
                            } else {
                                &&& r matches Ok(FinalizeStep::Continue)
                                &&& final(self).handed_out() == old(self).handed_out()
                            }
                        } else {
                            r matches Err(ReplaceTransactionError::InvalidCell)
                        },
                    }
                }
            }),
    {
        let ghost tail = self.tail@;
        if self.file_pos == 0 {
            return self.step_at_start();
        }
        let len = cells_file.len();
        if self.file_pos < 4 || self.file_pos > len {
            return Err(ReplaceTransactionError::InvalidShardStatePacket);
        }
        let size = read_u32_le(cells_file, self.file_pos - 4) as usize;
        if size == 0 || size > self.file_pos - 4 {
            return Err(ReplaceTransactionError::InvalidShardStatePacket);
        }
        let start = self.file_pos - 4 - size;
        let chunk = &cells_file[start..self.file_pos - 4];
        let count = match crate::shard_state::spill::count_records(chunk) {
            Some(count) => count,
            None => {
                return Err(ReplaceTransactionError::InvalidShardStatePacket);
            },
        };
        if count as u64 > self.cell_index {
            return Err(ReplaceTransactionError::InvalidShardStatePacket);
        }
        let ghost records = chunk_records(chunk@).unwrap();
        let ghost waiting = self.waiting();
        match self.process_chunk(chunk) {
            Ok(()) => {},
            Err(e) => {
                return Err(e);
            },
        }
        self.file_pos = start;
        proof {
            lemma_puts_extended(tail, records, self.tail@, self.marker());
            assert(self.waiting().len() == waiting.len() + records.len());
        }
        Ok(self.flush_if_due())
    }

    /// Finalises the cells of a chunk, from its last record to its first.
    ///
    /// Fails with `InvalidCell` exactly when the cells of the chunk cannot be
    /// added before those finalised so far.
    fn process_chunk(&mut self, chunk: &[u8]) -> (r: Result<(), ReplaceTransactionError>)
        requires
            old(self).wf(),
            chunk_records(chunk@) is Some,
            chunk_records(chunk@).unwrap().len() <= old(self).tail().first,
        ensures
            match r {
                Ok(()) => {
                    &&& final(self).wf()
                    &&& extends(
                        old(self).tail(),
                        chunk_records(chunk@).unwrap(),
                        final(self).tail(),
                    )
                    &&& final(self).handed_out() == old(self).handed_out()
                    &&& final(self).file_pos() == old(self).file_pos()
                    &&& final(self).marker() == old(self).marker()
                    &&& final(self).header() == old(self).header()
                },
                Err(e) => {
                    &&& e == ReplaceTransactionError::InvalidCell
                    &&& forall|grown: Tail|
                        !(#[trigger] extends(
                            old(self).tail(),
                            chunk_records(chunk@).unwrap(),
                            grown,
                        ) && grown.wf())
                },
            },
    {
        let ghost tail = self.tail@;
        let ghost records = chunk_records(chunk@).unwrap();
        let ghost done = Seq::<Seq<u8>>::empty();
        let mut pos = chunk.len();
        proof {
            assert(chunk@.subrange(0, pos as int) =~= chunk@);
            assert(records + done =~= records);
        }
        while pos > 0
            invariant
                pos <= chunk@.len(),
                self.wf(),
                tail == old(self).tail(),
                tail.wf(),
                records == chunk_records(chunk@).unwrap(),
                records.len() <= tail.first,
                chunk_records(chunk@.subrange(0, pos as int)) is Some,
                chunk_records(chunk@.subrange(0, pos as int)).unwrap() + done == records,
                extends(tail, done, self.tail()),
                self.handed_out() == old(self).handed_out(),
                self.file_pos() == old(self).file_pos(),
                self.marker() == old(self).marker(),
                self.header() == old(self).header(),
            decreases pos,
        {
            let ghost front = chunk@.subrange(0, pos as int);
            let ghost middle = self.tail@;
            let len = chunk[pos - 1] as usize;
            proof {
                crate::shard_state::spill::lemma_chunk_records_last(front);
                assert(front.last() == chunk@[pos - 1]);
            }
            let start = pos - 1 - len;
            let ghost record = chunk@.subrange(start as int, pos - 1);
            proof {
                assert(front.subrange(0, start as int) =~= chunk@.subrange(0, start as int));
                assert(front.subrange(start as int, pos - 1) =~= record);
                let before = chunk_records(chunk@.subrange(0, start as int)).unwrap();
                assert(before.push(record) + done =~= before + (seq![record] + done));
                assert(records.subrange(records.len() - done.len(), records.len() as int)
                    =~= done);
                assert(records[records.len() - done.len() - 1] == record);
            }
            match self.finalize_record(&chunk[start..pos - 1]) {
                Ok(()) => {},
                Err(e) => {
                    proof {
                        assert forall|grown: Tail|
                            !(#[trigger] extends(tail, records, grown) && grown.wf()) by {
                            lemma_no_extension(tail, records, middle, done, record, grown);
                        }
                    }
                    return Err(e);
                },
            }
            proof {
                lemma_extends_twice(tail, done, middle, seq![record], self.tail@);
                done = seq![record] + done;
            }
            pos = start;
        }
        proof {
            crate::shard_state::spill::lemma_empty_chunk();
            assert(chunk@.subrange(0, 0) =~= Seq::<u8>::empty());
            assert(Seq::<Seq<u8>>::empty() + done =~= done);
        }
        Ok(())
    }
}

} // verus!
