//! Big-endian integers as they travel on the wire.
use vstd::prelude::*;

verus! {

/// The four bytes of `n`, most significant first.
pub open spec fn be_u32_bytes(n: u32) -> Seq<u8> {
    seq![
        (n / 0x100_0000) as u8,
        ((n / 0x1_0000) % 0x100) as u8,
        ((n / 0x100) % 0x100) as u8,
        (n % 0x100) as u8,
    ]
}

/// The number that four bytes, most significant first, stand for.
pub open spec fn be_u32_value(b: Seq<u8>) -> u32
    recommends
        b.len() == 4,
{
    (b[0] as int * 0x100_0000 + b[1] as int * 0x1_0000 + b[2] as int * 0x100 + b[3] as int) as u32
}

/// The two bytes of a port, most significant first, as a number.
pub open spec fn be_u16_value(hi: u8, lo: u8) -> u16 {
    (hi * 0x100 + lo) as u16
}

/// Reading back the four bytes of a number gives the number.
pub proof fn lemma_be_u32_roundtrip(n: u32)
    ensures
        be_u32_bytes(n).len() == 4,
        be_u32_value(be_u32_bytes(n)) == n,
{
    let x0: u32 = n / 0x100_0000;
    let x1: u32 = (n / 0x1_0000) % 0x100;
    let x2: u32 = (n / 0x100) % 0x100;
    let x3: u32 = n % 0x100;
    assert(x0 < 0x100 && x0 * 0x100_0000 + x1 * 0x1_0000 + x2 * 0x100 + x3 == n) by (nonlinear_arith)
        requires
            x0 == n / 0x100_0000,
            x1 == (n / 0x1_0000) % 0x100,
            x2 == (n / 0x100) % 0x100,
            x3 == n % 0x100,
    ;
}

/// Appends the four bytes of `n`, most significant first.
pub fn push_u32_be(out: &mut Vec<u8>, n: u32)
    ensures
        final(out)@ == old(out)@ + be_u32_bytes(n),
{
    let x0: u32 = n >> 24;
    let x1: u32 = (n >> 16) & 0xff;
    let x2: u32 = (n >> 8) & 0xff;
    let x3: u32 = n & 0xff;
    assert(x0 == n / 0x100_0000 && x1 == (n / 0x1_0000) % 0x100 && x2 == (n / 0x100) % 0x100
        && x3 == n % 0x100) by (bit_vector)
        requires
            x0 == n >> 24,
            x1 == (n >> 16) & 0xff,
            x2 == (n >> 8) & 0xff,
            x3 == n & 0xff,
    ;
    let b0 = x0 as u8;
    let b1 = x1 as u8;
    let b2 = x2 as u8;
    let b3 = x3 as u8;
    out.push(b0);
    out.push(b1);
    out.push(b2);
    out.push(b3);
    assert(final(out)@ =~= old(out)@ + be_u32_bytes(n));
}

/// The number that the four bytes at `at` stand for, most significant first.
pub fn read_u32_be(bytes: &[u8], at: usize) -> (r: u32)
    requires
        at + 4 <= bytes@.len(),
    ensures
        r == be_u32_value(bytes@.subrange(at as int, at + 4)),
{
    let b0 = bytes[at];
    let b1 = bytes[at + 1];
    let b2 = bytes[at + 2];
    let b3 = bytes[at + 3];
    let x0 = b0 as u32;
    let x1 = b1 as u32;
    let x2 = b2 as u32;
    let x3 = b3 as u32;
    let r: u32 = (x0 << 24) | (x1 << 16) | (x2 << 8) | x3;
    assert(r == x0 * 0x100_0000 + x1 * 0x1_0000 + x2 * 0x100 + x3) by (bit_vector)
        requires
            r == (x0 << 24) | (x1 << 16) | (x2 << 8) | x3,
            x0 < 0x100,
            x1 < 0x100,
            x2 < 0x100,
            x3 < 0x100,
    ;
    r
}

} // verus!
