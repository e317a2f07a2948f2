//! Fixed-width integers as byte strings, little- and big-endian.

use vstd::arithmetic::div_mod::{
    lemma_div_denominator, lemma_fundamental_div_mod, lemma_fundamental_div_mod_converse,
};
use vstd::prelude::*;

verus! {

/// The two bytes of `x`, low byte first.
#[verifier::opaque]
pub open spec fn u16_le(x: u16) -> Seq<u8> {
    seq![(x % 256) as u8, (x / 256) as u8]
}

/// The two bytes of `x`, high byte first.
#[verifier::opaque]
pub open spec fn u16_be(x: u16) -> Seq<u8> {
    seq![(x / 256) as u8, (x % 256) as u8]
}

/// The four bytes of `x`, low byte first.
#[verifier::opaque]
pub open spec fn u32_le(x: u32) -> Seq<u8> {
    seq![
        (x % 256) as u8,
        (x / 0x100 % 256) as u8,
        (x / 0x1_0000 % 256) as u8,
        (x / 0x100_0000) as u8,
    ]
}

/// The eight bytes of `x`, low byte first.
#[verifier::opaque]
pub open spec fn u64_le(x: u64) -> Seq<u8> {
    u32_le((x % 0x1_0000_0000) as u32) + u32_le((x / 0x1_0000_0000) as u32)
}

/// The two's complement bit pattern of `x`.
pub open spec fn i32_bits(x: i32) -> u32 {
    if x >= 0 {
        x as u32
    } else {
        (x + 0x1_0000_0000) as u32
    }
}

/// The signed number whose two's complement bit pattern is `x`.
pub open spec fn i32_of_bits(x: u32) -> i32 {
    if x < 0x8000_0000 {
        x as i32
    } else {
        (x - 0x1_0000_0000) as i32
    }
}

/// The four bytes of the two's complement pattern of `x`, low byte first.
pub open spec fn i32_le(x: i32) -> Seq<u8> {
    u32_le(i32_bits(x))
}

/// The number that two little-endian bytes stand for.
#[verifier::opaque]
pub open spec fn u16_from_le(s: Seq<u8>) -> u16
    recommends
        s.len() == 2,
{
    (s[0] as int + 256 * (s[1] as int)) as u16
}

/// The number that two big-endian bytes stand for.
#[verifier::opaque]
pub open spec fn u16_from_be(s: Seq<u8>) -> u16
    recommends
        s.len() == 2,
{
    (256 * (s[0] as int) + s[1] as int) as u16
}

/// The number that four little-endian bytes stand for.
#[verifier::opaque]
pub open spec fn u32_from_le(s: Seq<u8>) -> u32
    recommends
        s.len() == 4,
{
    (s[0] as int + 0x100 * (s[1] as int) + 0x1_0000 * (s[2] as int) + 0x100_0000 * (s[3] as int)) as u32
}

/// The number that eight little-endian bytes stand for.
#[verifier::opaque]
pub open spec fn u64_from_le(s: Seq<u8>) -> u64
    recommends
        s.len() == 8,
{
    (u32_from_le(s.subrange(0, 4)) as int + 0x1_0000_0000 * (u32_from_le(s.subrange(4, 8)) as int)) as u64
}

/// The signed number that four little-endian bytes stand for.
pub open spec fn i32_from_le(s: Seq<u8>) -> i32
    recommends
        s.len() == 4,
{
    i32_of_bits(u32_from_le(s))
}

/// The value of a big-endian byte string of any length.
pub open spec fn be_value(s: Seq<u8>) -> nat
    decreases s.len(),
{
    if s.len() == 0 {
        0
    } else {
        256 * be_value(s.drop_last()) + s.last() as nat
    }
}

/// Decoding undoes encoding, and the encodings have their fixed widths.
pub proof fn lemma_u16_roundtrip(x: u16)
    ensures
        u16_le(x).len() == 2,
        u16_be(x).len() == 2,
        u16_from_le(u16_le(x)) == x,
        u16_from_be(u16_be(x)) == x,
{
    reveal(u16_le);
    reveal(u16_be);
    reveal(u16_from_le);
    reveal(u16_from_be);
}

/// Two bytes are the encoding of the number they decode to.
pub proof fn lemma_u16_bytes_roundtrip(s: Seq<u8>)
    requires
        s.len() == 2,
    ensures
        u16_le(u16_from_le(s)) == s,
        u16_be(u16_from_be(s)) == s,
{
    reveal(u16_le);
    reveal(u16_be);
    reveal(u16_from_le);
    reveal(u16_from_be);
    let a = s[0] as int;
    let b = s[1] as int;
    lemma_fundamental_div_mod_converse(a + 256 * b, 256, b, a);
    lemma_fundamental_div_mod_converse(256 * a + b, 256, a, b);
    assert(u16_le(u16_from_le(s)) =~= s);
    assert(u16_be(u16_from_be(s)) =~= s);
}

/// The four byte values of a number put it together again.
proof fn lemma_u32_parts(x: int, a: int, b: int, c: int, d: int)
    requires
        0 <= a < 256,
        0 <= b < 256,
        0 <= c < 256,
        0 <= d < 256,
        x == a + 0x100 * b + 0x1_0000 * c + 0x100_0000 * d,
    ensures
        x % 256 == a,
        x / 0x100 % 256 == b,
        x / 0x1_0000 % 256 == c,
        x / 0x100_0000 == d,
        0 <= x < 0x1_0000_0000,
{
    lemma_fundamental_div_mod_converse(x, 256, b + 0x100 * c + 0x1_0000 * d, a);
    lemma_fundamental_div_mod_converse(x / 0x100, 256, c + 0x100 * d, b);
    lemma_fundamental_div_mod_converse(x, 0x1_0000, c + 0x100 * d, a + 0x100 * b);
    lemma_fundamental_div_mod_converse(x / 0x1_0000, 256, d, c);
    lemma_fundamental_div_mod_converse(x, 0x100_0000, d, a + 0x100 * b + 0x1_0000 * c);
}

/// Decoding undoes encoding, and the encoding is four bytes long.
pub proof fn lemma_u32_roundtrip(x: u32)
    ensures
        u32_le(x).len() == 4,
        u32_from_le(u32_le(x)) == x,
{
    reveal(u32_le);
    reveal(u32_from_le);
    let xi = x as int;
    let a = xi % 256;
    let b = xi / 0x100 % 256;
    let c = xi / 0x1_0000 % 256;
    let d = xi / 0x100_0000;
    lemma_fundamental_div_mod(xi, 256);
    lemma_fundamental_div_mod(xi / 0x100, 256);
    lemma_fundamental_div_mod(xi / 0x1_0000, 256);
    lemma_div_denominator(xi, 0x100, 0x100);
    lemma_div_denominator(xi, 0x1_0000, 0x100);
    assert(xi / 0x100 / 0x100 == xi / 0x1_0000);
    assert(xi / 0x1_0000 / 0x100 == xi / 0x100_0000);
    assert(xi == a + 0x100 * b + 0x1_0000 * c + 0x100_0000 * d);
}

/// Four bytes are the encoding of the number they decode to.
pub proof fn lemma_u32_bytes_roundtrip(s: Seq<u8>)
    requires
        s.len() == 4,
    ensures
        u32_le(u32_from_le(s)) == s,
{
    reveal(u32_le);
    reveal(u32_from_le);
    let a = s[0] as int;
    let b = s[1] as int;
    let c = s[2] as int;
    let d = s[3] as int;
    let x = a + 0x100 * b + 0x1_0000 * c + 0x100_0000 * d;
    lemma_u32_parts(x, a, b, c, d);
    assert(u32_from_le(s) == x);
    assert(u32_le(u32_from_le(s)) =~= s);
}

/// Decoding undoes encoding, and the encoding is eight bytes long.
pub proof fn lemma_u64_roundtrip(x: u64)
    ensures
        u64_le(x).len() == 8,
        u64_from_le(u64_le(x)) == x,
{
    reveal(u64_le);
    reveal(u64_from_le);
    let lo = (x % 0x1_0000_0000) as u32;
    let hi = (x / 0x1_0000_0000) as u32;
    lemma_fundamental_div_mod(x as int, 0x1_0000_0000);
    lemma_u32_roundtrip(lo);
    lemma_u32_roundtrip(hi);
    assert(u64_le(x).subrange(0, 4) =~= u32_le(lo));
    assert(u64_le(x).subrange(4, 8) =~= u32_le(hi));
}

/// Eight bytes are the encoding of the number they decode to.
pub proof fn lemma_u64_bytes_roundtrip(s: Seq<u8>)
    requires
        s.len() == 8,
    ensures
        u64_le(u64_from_le(s)) == s,
{
    reveal(u64_le);
    reveal(u64_from_le);
    let lo = u32_from_le(s.subrange(0, 4));
    let hi = u32_from_le(s.subrange(4, 8));
    lemma_u32_bytes_roundtrip(s.subrange(0, 4));
    lemma_u32_bytes_roundtrip(s.subrange(4, 8));
    let x = lo as int + 0x1_0000_0000 * (hi as int);
    lemma_fundamental_div_mod_converse(x, 0x1_0000_0000, hi as int, lo as int);
    assert(u64_from_le(s) == x);
    assert(u64_le(u64_from_le(s)) =~= s.subrange(0, 4) + s.subrange(4, 8));
    assert(s.subrange(0, 4) + s.subrange(4, 8) =~= s);
}

/// Decoding undoes encoding of a signed number.
pub proof fn lemma_i32_roundtrip(x: i32)
    ensures
        i32_le(x).len() == 4,
        i32_of_bits(i32_bits(x)) == x,
        i32_from_le(i32_le(x)) == x,
{
    lemma_u32_roundtrip(i32_bits(x));
}

/// Four bytes are the signed encoding of the number they decode to.
pub proof fn lemma_i32_bytes_roundtrip(s: Seq<u8>)
    requires
        s.len() == 4,
    ensures
        i32_le(i32_from_le(s)) == s,
{
    lemma_u32_bytes_roundtrip(s);
    assert(i32_bits(i32_of_bits(u32_from_le(s))) == u32_from_le(s));
}

/// Appends `data` to `buf`.
pub fn push_bytes(buf: &mut Vec<u8>, data: &[u8])
    ensures
        final(buf)@ == old(buf)@ + data@,
{
    buf.extend_from_slice(data);
    assert(buf@ =~= old(buf)@ + data@);
}

/// Appends the little-endian encoding of `x` to `buf`.
pub fn push_u16_le(buf: &mut Vec<u8>, x: u16)
    ensures
        final(buf)@ == old(buf)@ + u16_le(x),
{
    proof {
        reveal(u16_le);
    }
    buf.push((x % 256) as u8);
    buf.push((x / 256) as u8);
    assert(buf@ =~= old(buf)@ + u16_le(x));
}

/// Appends the big-endian encoding of `x` to `buf`.
pub fn push_u16_be(buf: &mut Vec<u8>, x: u16)
    ensures
        final(buf)@ == old(buf)@ + u16_be(x),
{
    proof {
        reveal(u16_be);
    }
    buf.push((x / 256) as u8);
    buf.push((x % 256) as u8);
    assert(buf@ =~= old(buf)@ + u16_be(x));
}

/// Appends the little-endian encoding of `x` to `buf`.
pub fn push_u32_le(buf: &mut Vec<u8>, x: u32)
    ensures
        final(buf)@ == old(buf)@ + u32_le(x),
{
    proof {
        reveal(u32_le);
    }
    buf.push((x % 256) as u8);
    buf.push((x / 0x100 % 256) as u8);
    buf.push((x / 0x1_0000 % 256) as u8);
    buf.push((x / 0x100_0000) as u8);
    assert(buf@ =~= old(buf)@ + u32_le(x));
}

/// Appends the little-endian encoding of `x` to `buf`.
pub fn push_u64_le(buf: &mut Vec<u8>, x: u64)
    ensures
        final(buf)@ == old(buf)@ + u64_le(x),
{
    proof {
        reveal(u64_le);
    }
    let ghost before = buf@;
    push_u32_le(buf, (x % 0x1_0000_0000) as u32);
    push_u32_le(buf, (x / 0x1_0000_0000) as u32);
    assert(buf@ =~= before + u64_le(x));
}

/// Appends the little-endian two's complement encoding of `x` to `buf`.
pub fn push_i32_le(buf: &mut Vec<u8>, x: i32)
    ensures
        final(buf)@ == old(buf)@ + i32_le(x),
{
    let bits: u32 = if x >= 0 {
        x as u32
    } else {
        (x as i64 + 0x1_0000_0000) as u32
    };
    push_u32_le(buf, bits);
}

/// Reads two little-endian bytes at `pos`.
pub fn read_u16_le(data: &[u8], pos: usize) -> (x: u16)
    requires
        pos + 2 <= data@.len(),
    ensures
        x == u16_from_le(data@.subrange(pos as int, pos + 2)),
{
    proof {
        reveal(u16_from_le);
    }
    data[pos] as u16 + 256 * (data[pos + 1] as u16)
}

/// Reads two big-endian bytes at `pos`.
pub fn read_u16_be(data: &[u8], pos: usize) -> (x: u16)
    requires
        pos + 2 <= data@.len(),
    ensures
        x == u16_from_be(data@.subrange(pos as int, pos + 2)),
{
    proof {
        reveal(u16_from_be);
    }
    256 * (data[pos] as u16) + data[pos + 1] as u16
}

/// Reads four little-endian bytes at `pos`.
pub fn read_u32_le(data: &[u8], pos: usize) -> (x: u32)
    requires
        pos + 4 <= data@.len(),
    ensures
        x == u32_from_le(data@.subrange(pos as int, pos + 4)),
{
    proof {
        reveal(u32_from_le);
    }
    data[pos] as u32 + 0x100 * (data[pos + 1] as u32) + 0x1_0000 * (data[pos + 2] as u32)
        + 0x100_0000 * (data[pos + 3] as u32)
}

/// Reads eight little-endian bytes at `pos`.
pub fn read_u64_le(data: &[u8], pos: usize) -> (x: u64)
    requires
        pos + 8 <= data@.len(),
    ensures
        x == u64_from_le(data@.subrange(pos as int, pos + 8)),
{
    proof {
        reveal(u64_from_le);
    }
    let len = data.len();
    let lo = read_u32_le(data, pos);
    let hi = read_u32_le(data, pos + 4);
    proof {
        let s = data@.subrange(pos as int, pos + 8);
        assert(s.subrange(0, 4) =~= data@.subrange(pos as int, pos + 4));
        assert(s.subrange(4, 8) =~= data@.subrange(pos + 4, pos + 8));
    }
    lo as u64 + 0x1_0000_0000 * (hi as u64)
}

/// Reads four little-endian bytes at `pos` as a signed number.
pub fn read_i32_le(data: &[u8], pos: usize) -> (x: i32)
    requires
        pos + 4 <= data@.len(),
    ensures
        x == i32_from_le(data@.subrange(pos as int, pos + 4)),
{
    let bits = read_u32_le(data, pos);
    if bits < 0x8000_0000 {
        bits as i32
    } else {
        (bits as i64 - 0x1_0000_0000) as i32
    }
}

/// Reads `n` big-endian bytes at `pos` as one number.
pub fn read_be_uint(data: &[u8], pos: usize, n: usize) -> (x: u64)
    requires
        n <= 8,
        pos + n <= data@.len(),
    ensures
        x == be_value(data@.subrange(pos as int, pos + n)),
{
    let len = data.len();
    let mut x: u64 = 0;
    let mut i: usize = 0;
    proof {
        lemma_be_value_bound(data@.subrange(pos as int, pos as int));
    }
    while i < n
        invariant
            i <= n <= 8,
            pos + n <= data@.len() == len,
            x == be_value(data@.subrange(pos as int, pos + i)),
            be_value(data@.subrange(pos as int, pos + i)) < vstd::arithmetic::power::pow(256, i as nat),
        decreases n - i,
    {
        proof {
            let s = data@.subrange(pos as int, pos + i + 1);
            assert(s.drop_last() =~= data@.subrange(pos as int, pos + i));
            lemma_be_value_bound(s);
            lemma_pow256_small(i as nat);
        }
        x = x * 256 + data[pos + i] as u64;
        i += 1;
    }
    x
}

/// A big-endian string of `n` bytes stands for a number below `256^n`.
pub proof fn lemma_be_value_bound(s: Seq<u8>)
    ensures
        be_value(s) < vstd::arithmetic::power::pow(256, s.len()),
    decreases s.len(),
{
    reveal(vstd::arithmetic::power::pow);
    if s.len() > 0 {
        lemma_be_value_bound(s.drop_last());
        let p = vstd::arithmetic::power::pow(256, s.drop_last().len());
        assert(vstd::arithmetic::power::pow(256, s.len()) == 256 * p);
        assert(256 * be_value(s.drop_last()) + 255 < 256 * p) by (nonlinear_arith)
            requires
                be_value(s.drop_last()) < p,
        ;
    }
}

/// A big-endian number of at most four bytes fits in 32 bits.
pub proof fn lemma_pow256_u32(n: nat)
    requires
        n <= 4,
    ensures
        vstd::arithmetic::power::pow(256, n) <= 0x1_0000_0000,
{
    reveal_with_fuel(vstd::arithmetic::power::pow, 5);
}

/// `256^i` fits in 56 bits for `i` below 8.
proof fn lemma_pow256_small(i: nat)
    requires
        i < 8,
    ensures
        vstd::arithmetic::power::pow(256, i) <= 0x100_0000_0000_0000,
{
    reveal_with_fuel(vstd::arithmetic::power::pow, 9);
}

/// Copies the 32 bytes at `pos` into an array.
pub fn read_bytes32(data: &[u8], pos: usize) -> (out: [u8; 32])
    requires
        pos + 32 <= data@.len(),
    ensures
        out@ == data@.subrange(pos as int, pos + 32),
{
    let len = data.len();
    let mut out = [0u8; 32];
    let mut i: usize = 0;
    while i < 32
        invariant
            i <= 32,
            pos + 32 <= data@.len() == len,
            forall|j: int| 0 <= j < i ==> out@[j] == data@[pos + j],
        decreases 32 - i,
    {
        out[i] = data[pos + i];
        i += 1;
    }
    assert(out@ =~= data@.subrange(pos as int, pos + 32));
    out
}

/// `dst` with the bytes from `pos` on replaced by those of `src`.
pub open spec fn overwritten(dst: Seq<u8>, pos: int, src: Seq<u8>) -> Seq<u8> {
    dst.subrange(0, pos) + src + dst.subrange(pos + src.len(), dst.len() as int)
}

/// Writes `src` over the bytes of `dst` that start at `pos`.
pub fn copy_into(dst: &mut [u8], pos: usize, src: &[u8])
    requires
        pos + src@.len() <= old(dst)@.len(),
    ensures
        final(dst)@ == overwritten(old(dst)@, pos as int, src@),
{
    let n = src.len();
    let total = dst.len();
    let mut i: usize = 0;
    while i < n
        invariant
            i <= n == src@.len(),
            pos + n <= total == dst@.len() == old(dst)@.len(),
            forall|j: int| 0 <= j < pos ==> dst@[j] == old(dst)@[j],
            forall|j: int| 0 <= j < i ==> dst@[pos + j] == src@[j],
            forall|j: int| pos + i <= j < total ==> dst@[j] == old(dst)@[j],
        decreases n - i,
    {
        dst[pos + i] = src[i];
        i += 1;
    }
    assert(dst@ =~= overwritten(old(dst)@, pos as int, src@));
}

/// Writes `src` over the bytes of the vector `dst` that start at `pos`.
pub fn copy_into_vec(dst: &mut Vec<u8>, pos: usize, src: &[u8])
    requires
        pos + src@.len() <= old(dst)@.len(),
    ensures
        final(dst)@ == overwritten(old(dst)@, pos as int, src@),
{
    copy_into(dst.as_mut_slice(), pos, src);
}

/// Whether two 32-byte strings are equal.
pub fn bytes32_eq(a: &[u8; 32], b: &[u8; 32]) -> (r: bool)
    ensures
        r == (a@ == b@),
{
    let mut i: usize = 0;
    while i < 32
        invariant
            i <= 32,
            forall|j: int| 0 <= j < i ==> a@[j] == b@[j],
        decreases 32 - i,
    {
        if a[i] != b[i] {
            return false;
        }
        i += 1;
    }
    assert(a@ =~= b@);
    true
}

} // verus!
