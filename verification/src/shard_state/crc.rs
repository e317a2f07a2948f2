//! The CRC-32C checksum (Castagnoli polynomial, reflected) that closes a bag
//! of cells.

use vstd::prelude::*;

verus! {

/// The reflected Castagnoli polynomial.
pub const CRC32C_POLY: u32 = 0x82F6_3B78;

/// The state of a checksum before any byte.
pub const CRC32C_INIT: u32 = 0xFFFF_FFFF;

/// The state after one more bit.
pub open spec fn crc_bit(state: u32) -> u32 {
    if state & 1 == 1 {
        (state >> 1) ^ CRC32C_POLY
    } else {
        state >> 1
    }
}

/// The state after one more byte: the byte is folded into the low bits, then
/// eight bits are shifted out.
pub open spec fn crc_byte(state: u32, byte: u8) -> u32 {
    crc_bit(crc_bit(crc_bit(crc_bit(crc_bit(crc_bit(crc_bit(crc_bit(state ^ (byte as u32)))))))))
}

/// The state after the bytes of `data`.
pub open spec fn crc_fold(state: u32, data: Seq<u8>) -> u32
    decreases data.len(),
{
    if data.len() == 0 {
        state
    } else {
        crc_byte(crc_fold(state, data.drop_last()), data.last())
    }
}

/// The checksum that a state stands for.
pub open spec fn crc_value(state: u32) -> u32 {
    state ^ CRC32C_INIT
}

/// The CRC-32C checksum of `data`.
pub open spec fn crc32c(data: Seq<u8>) -> u32 {
    crc_value(crc_fold(CRC32C_INIT, data))
}

/// Folding two strings one after the other is folding their concatenation.
pub proof fn lemma_crc_fold_concat(state: u32, a: Seq<u8>, b: Seq<u8>)
    ensures
        crc_fold(state, a + b) == crc_fold(crc_fold(state, a), b),
    decreases b.len(),
{
    if b.len() == 0 {
        assert(a + b =~= a);
    } else {
        assert((a + b).drop_last() =~= a + b.drop_last());
        lemma_crc_fold_concat(state, a, b.drop_last());
    }
}

/// The state after the bytes of `data`.
pub fn crc_update(state: u32, data: &[u8]) -> (r: u32)
    ensures
        r == crc_fold(state, data@),
{
    let mut crc = state;
    let mut i: usize = 0;
    assert(data@.subrange(0, 0) =~= Seq::<u8>::empty());
    while i < data.len()
        invariant
            i <= data@.len(),
            crc == crc_fold(state, data@.subrange(0, i as int)),
        decreases data@.len() - i,
    {
        let mut x = crc ^ (data[i] as u32);
        x = crc_bit_exec(x);
        x = crc_bit_exec(x);
        x = crc_bit_exec(x);
        x = crc_bit_exec(x);
        x = crc_bit_exec(x);
        x = crc_bit_exec(x);
        x = crc_bit_exec(x);
        x = crc_bit_exec(x);
        proof {
            let next = data@.subrange(0, i + 1);
            assert(next.drop_last() =~= data@.subrange(0, i as int));
            assert(next.last() == data@[i as int]);
        }
        crc = x;
        i += 1;
    }
    assert(data@.subrange(0, i as int) =~= data@);
    crc
}

/// The state after one more bit.
fn crc_bit_exec(state: u32) -> (r: u32)
    ensures
        r == crc_bit(state),
{
    if state & 1 == 1 {
        (state >> 1) ^ CRC32C_POLY
    } else {
        state >> 1
    }
}

/// The CRC-32C checksum of `data`.
pub fn checksum(data: &[u8]) -> (r: u32)
    ensures
        r == crc32c(data@),
{
    crc_update(CRC32C_INIT, data) ^ CRC32C_INIT
}

} // verus!
