//! The layout of the spill file that holds the records of the cells.
//!
//! Every record is followed by one byte that holds its length, so that the
//! records of a chunk can be peeled from its end. Every chunk is followed by
//! its length in four bytes, little-endian, so that the chunks of the file
//! can be peeled from its end.

use crate::codec::{lemma_u32_roundtrip, u32_from_le, u32_le};
use vstd::prelude::*;

verus! {

/// The longest record that a length byte can state.
pub const MAX_RECORD_LEN: usize = 255;

/// The bytes of a chunk that holds `records`.
#[verifier::opaque]
pub open spec fn chunk_of(records: Seq<Seq<u8>>) -> Seq<u8>
    decreases records.len(),
{
    if records.len() == 0 {
        Seq::empty()
    } else {
        chunk_of(records.drop_last()) + records.last() + seq![records.last().len() as u8]
    }
}

/// The records that a chunk holds, first to last; `None` if a length byte
/// states more bytes than stand before it.
#[verifier::opaque]
pub open spec fn chunk_records(chunk: Seq<u8>) -> Option<Seq<Seq<u8>>>
    decreases chunk.len(),
{
    if chunk.len() == 0 {
        Some(Seq::empty())
    } else {
        let len = chunk.last() as int;
        let start = chunk.len() - 1 - len;
        if start < 0 {
            None
        } else {
            match chunk_records(chunk.subrange(0, start)) {
                Some(records) => Some(records.push(chunk.subrange(start, chunk.len() - 1))),
                None => None,
            }
        }
    }
}

/// The records that a spill file holds, first to last; `None` if the file is
/// not a sequence of chunks with their lengths, or a chunk is empty.
#[verifier::opaque]
pub open spec fn file_records(file: Seq<u8>) -> Option<Seq<Seq<u8>>>
    decreases file.len(),
{
    if file.len() == 0 {
        Some(Seq::empty())
    } else if file.len() < 4 {
        None
    } else {
        let size = u32_from_le(file.subrange(file.len() - 4, file.len() as int)) as int;
        let start = file.len() - 4 - size;
        if size == 0 || start < 0 {
            None
        } else {
            match (
                file_records(file.subrange(0, start)),
                chunk_records(file.subrange(start, file.len() - 4)),
            ) {
                (Some(before), Some(records)) => Some(before + records),
                _ => None,
            }
        }
    }
}

/// The bytes that close a chunk in the file: its length.
pub open spec fn chunk_tail(records: Seq<Seq<u8>>) -> Seq<u8> {
    u32_le(chunk_of(records).len() as u32)
}

/// A chunk is as long as its records and their length bytes.
pub proof fn lemma_chunk_of_push(records: Seq<Seq<u8>>, record: Seq<u8>)
    ensures
        chunk_of(records.push(record)) == chunk_of(records) + record + seq![record.len() as u8],
        chunk_of(records.push(record)).len() == chunk_of(records).len() + record.len() + 1,
{
    reveal(chunk_of);
    assert(records.push(record).drop_last() =~= records);
}

/// The chunk of two lists of records is as long as their two chunks.
pub proof fn lemma_chunk_of_concat_len(a: Seq<Seq<u8>>, b: Seq<Seq<u8>>)
    ensures
        chunk_of(a + b).len() == chunk_of(a).len() + chunk_of(b).len(),
    decreases b.len(),
{
    if b.len() == 0 {
        assert(a + b =~= a);
        lemma_empty_chunk();
        assert(b =~= Seq::<Seq<u8>>::empty());
    } else {
        lemma_chunk_of_concat_len(a, b.drop_last());
        assert((a + b.drop_last()).push(b.last()) =~= a + b);
        assert(b.drop_last().push(b.last()) =~= b);
        lemma_chunk_of_push(a + b.drop_last(), b.last());
        lemma_chunk_of_push(b.drop_last(), b.last());
    }
}

/// A chunk without records is empty, and so is a file without chunks.
pub proof fn lemma_empty_chunk()
    ensures
        chunk_of(Seq::<Seq<u8>>::empty()) == Seq::<u8>::empty(),
        chunk_records(Seq::<u8>::empty()) == Some(Seq::<Seq<u8>>::empty()),
        file_records(Seq::<u8>::empty()) == Some(Seq::<Seq<u8>>::empty()),
{
    reveal(chunk_of);
    reveal(chunk_records);
    reveal(file_records);
}

/// Peeling the records off a chunk gives back the records it was made of.
pub proof fn lemma_chunk_roundtrip(records: Seq<Seq<u8>>)
    requires
        forall|i: int| 0 <= i < records.len() ==> (#[trigger] records[i]).len() <= MAX_RECORD_LEN,
    ensures
        chunk_records(chunk_of(records)) == Some(records),
    decreases records.len(),
{
    reveal(chunk_of);
    reveal(chunk_records);
    if records.len() > 0 {
        let before = records.drop_last();
        let last = records.last();
        let chunk = chunk_of(records);
        lemma_chunk_roundtrip(before);
        assert(chunk.last() == last.len() as u8);
        let start = chunk.len() - 1 - last.len();
        assert(chunk.subrange(0, start) =~= chunk_of(before));
        assert(chunk.subrange(start, chunk.len() - 1) =~= last);
        assert(before.push(last) =~= records);
    } else {
        assert(chunk_of(records) =~= Seq::<u8>::empty());
    }
}

/// The records of a chunk are those before its last record, and then its
/// last record, which its last byte states the length of.
pub proof fn lemma_chunk_records_last(chunk: Seq<u8>)
    requires
        chunk.len() > 0,
    ensures
        chunk.len() - 1 - chunk.last() < 0 ==> chunk_records(chunk) is None,
        chunk.len() - 1 - chunk.last() >= 0 ==> chunk_records(chunk) == match chunk_records(
            chunk.subrange(0, chunk.len() - 1 - chunk.last()),
        ) {
            Some(records) => Some(
                records.push(
                    chunk.subrange(chunk.len() - 1 - chunk.last(), chunk.len() - 1),
                ),
            ),
            None => None,
        },
{
    reveal(chunk_records);
}

/// Counts the records of a chunk; `None` if a length byte states more bytes
/// than stand before it.
pub fn count_records(chunk: &[u8]) -> (r: Option<usize>)
    ensures
        match chunk_records(chunk@) {
            Some(records) => r == Some(records.len() as usize) && records.len() <= chunk@.len(),
            None => r.is_none(),
        },
{
    let mut pos = chunk.len();
    let mut count: usize = 0;
    let ghost rest = Seq::<Seq<u8>>::empty();
    proof {
        assert(chunk@.subrange(0, pos as int) =~= chunk@);
        match chunk_records(chunk@) {
            Some(records) => {
                assert(records + rest =~= records);
            },
            None => {},
        }
    }
    while pos > 0
        invariant
            pos <= chunk@.len(),
            count == rest.len(),
            count + pos <= chunk@.len(),
            chunk_records(chunk@) == match chunk_records(chunk@.subrange(0, pos as int)) {
                Some(records) => Some(records + rest),
                None => None,
            },
        decreases pos,
    {
        let ghost front = chunk@.subrange(0, pos as int);
        let len = chunk[pos - 1] as usize;
        proof {
            lemma_chunk_records_last(front);
            assert(front.last() == chunk@[pos - 1]);
        }
        if len + 1 > pos {
            return None;
        }
        proof {
            let start = pos - 1 - len;
            assert(front.subrange(0, start) =~= chunk@.subrange(0, start));
            let record = front.subrange(start, pos - 1);
            match chunk_records(chunk@.subrange(0, start)) {
                Some(records) => {
                    assert(records.push(record) + rest =~= records + (seq![record] + rest));
                },
                None => {},
            }
            rest = seq![record] + rest;
        }
        pos = pos - 1 - len;
        count = count + 1;
    }
    proof {
        lemma_empty_chunk();
        assert(chunk@.subrange(0, 0) =~= Seq::<u8>::empty());
        assert(Seq::<Seq<u8>>::empty() + rest =~= rest);
    }
    Some(count)
}

/// A file that a chunk with its length was appended to holds the records it
/// held before, and then those of the chunk.
pub proof fn lemma_file_append(file: Seq<u8>, records: Seq<Seq<u8>>)
    requires
        file_records(file) is Some,
        records.len() > 0,
        chunk_of(records).len() <= u32::MAX,
        forall|i: int| 0 <= i < records.len() ==> (#[trigger] records[i]).len() <= MAX_RECORD_LEN,
    ensures
        file_records(file + chunk_of(records) + chunk_tail(records)) == Some(
            file_records(file).unwrap() + records,
        ),
{
    reveal(file_records);
    let chunk = chunk_of(records);
    let grown = file + chunk + chunk_tail(records);
    lemma_u32_roundtrip(chunk.len() as u32);
    lemma_chunk_roundtrip(records);
    lemma_chunk_of_push(records.drop_last(), records.last());
    assert(records.drop_last().push(records.last()) =~= records);
    assert(chunk.len() > 0);
    assert(grown.subrange(grown.len() - 4, grown.len() as int) =~= chunk_tail(records));
    let start = grown.len() - 4 - chunk.len();
    assert(start == file.len());
    assert(grown.subrange(0, start) =~= file);
    assert(grown.subrange(start, grown.len() - 4) =~= chunk);
}

} // verus!
