//! Big-endian 32-bit fields of the wire format.

use vstd::prelude::*;

verus! {

/// The 32-bit value read big-endian from four bytes.
pub open spec fn u32_of_be(b0: u8, b1: u8, b2: u8, b3: u8) -> u32 {
    ((b0 as u32) << 24) | ((b1 as u32) << 16) | ((b2 as u32) << 8) | (b3 as u32)
}

/// The four bytes of a 32-bit value, big-endian.
pub open spec fn be_of_u32(x: u32) -> Seq<u8> {
    seq![
        ((x >> 24) & 0xff) as u8,
        ((x >> 16) & 0xff) as u8,
        ((x >> 8) & 0xff) as u8,
        (x & 0xff) as u8,
    ]
}

/// Writing a value big-endian and reading it back gives the value.
pub proof fn lemma_u32_be_round_trip(x: u32)
    ensures
        u32_of_be(be_of_u32(x)[0], be_of_u32(x)[1], be_of_u32(x)[2], be_of_u32(x)[3]) == x,
{
    let b0 = ((x >> 24) & 0xff) as u8;
    let b1 = ((x >> 16) & 0xff) as u8;
    let b2 = ((x >> 8) & 0xff) as u8;
    let b3 = (x & 0xff) as u8;
    assert(((b0 as u32) << 24) | ((b1 as u32) << 16) | ((b2 as u32) << 8) | (b3 as u32) == x)
        by (bit_vector)
        requires
            b0 == ((x >> 24) & 0xff) as u8,
            b1 == ((x >> 16) & 0xff) as u8,
            b2 == ((x >> 8) & 0xff) as u8,
            b3 == (x & 0xff) as u8,
    ;
}

/// If the four bytes at `off` hold the big-endian form of `x`, reading them
/// back big-endian gives `x`.
pub proof fn lemma_be_of_u32_parts(x: u32, b: Seq<u8>, off: int)
    requires
        0 <= off,
        off + 4 <= b.len(),
        b.subrange(off, off + 4) == be_of_u32(x),
    ensures
        u32_of_be(b[off], b[off + 1], b[off + 2], b[off + 3]) == x,
{
    assert(b[off] == be_of_u32(x)[0]);
    assert(b[off + 1] == be_of_u32(x)[1]);
    assert(b[off + 2] == be_of_u32(x)[2]);
    assert(b[off + 3] == be_of_u32(x)[3]);
    lemma_u32_be_round_trip(x);
}

/// Reads the 32-bit big-endian field starting at `i`.
pub fn read_u32_be(b: &[u8], i: usize) -> (x: u32)
    requires
        i + 4 <= b@.len(),
    ensures
        x == u32_of_be(b@[i as int], b@[i + 1], b@[i + 2], b@[i + 3]),
{
    let x0 = b[i] as u32;
    let x1 = b[i + 1] as u32;
    let x2 = b[i + 2] as u32;
    let x3 = b[i + 3] as u32;
    (x0 << 24) | (x1 << 16) | (x2 << 8) | x3
}

/// Appends the 32-bit value big-endian.
pub fn push_u32_be(v: &mut Vec<u8>, x: u32)
    ensures
        final(v)@ == old(v)@ + be_of_u32(x),
{
    proof {
        assert(forall|y: u32| (y & 0xffu32) <= 0xffu32) by (bit_vector);
    }
    v.push(((x >> 24) & 0xff) as u8);
    v.push(((x >> 16) & 0xff) as u8);
    v.push(((x >> 8) & 0xff) as u8);
    v.push((x & 0xff) as u8);
    proof {
        assert(v@ =~= old(v)@ + be_of_u32(x));
    }
}

} // verus!
