//! Big-endian integer fields shared by the TFTP and DHCP codecs.

use vstd::prelude::*;

verus! {

/// The value of two bytes read as a big-endian 16-bit integer.
pub open spec fn u16_of_be(hi: u8, lo: u8) -> u16 {
    (hi as u16 * 256 + lo as u16) as u16
}

/// The two big-endian bytes of a 16-bit integer, high byte first.
pub open spec fn be_of_u16(v: u16) -> Seq<u8> {
    seq![(v / 256) as u8, (v % 256) as u8]
}

/// The value of four bytes read as a big-endian 32-bit integer.
pub open spec fn u32_of_be(b0: u8, b1: u8, b2: u8, b3: u8) -> u32 {
    (b0 as u32 * 0x1000000 + b1 as u32 * 0x10000 + b2 as u32 * 0x100 + b3 as u32) as u32
}

/// The four big-endian bytes of a 32-bit integer, high byte first.
pub open spec fn be_of_u32(v: u32) -> Seq<u8> {
    seq![
        (v / 0x1000000) as u8,
        ((v / 0x10000) % 0x100) as u8,
        ((v / 0x100) % 0x100) as u8,
        (v % 0x100) as u8,
    ]
}

pub proof fn lemma_u16_be_round_trip(v: u16)
    ensures
        u16_of_be(be_of_u16(v)[0], be_of_u16(v)[1]) == v,
{
}

pub proof fn lemma_u32_be_round_trip(v: u32)
    ensures
        u32_of_be(be_of_u32(v)[0], be_of_u32(v)[1], be_of_u32(v)[2], be_of_u32(v)[3]) == v,
{
}

/// Reads a big-endian 16-bit integer from `data` at `pos`.
pub fn read_u16(data: &[u8], pos: usize) -> (r: u16)
    requires
        pos + 2 <= data@.len(),
    ensures
        r == u16_of_be(data@[pos as int], data@[pos + 1]),
{
    let hi = data[pos];
    let lo = data[pos + 1];
    hi as u16 * 256 + lo as u16
}

/// Appends a 16-bit integer to `out` as two big-endian bytes.
pub fn write_u16(out: &mut Vec<u8>, v: u16)
    ensures
        final(out)@ == old(out)@ + be_of_u16(v),
{
    out.push((v / 256) as u8);
    out.push((v % 256) as u8);
    assert(out@ =~= old(out)@ + be_of_u16(v));
}

/// Appends every byte of `b` to `out`, in order.
pub fn append_bytes(out: &mut Vec<u8>, b: &[u8])
    ensures
        final(out)@ == old(out)@ + b@,
{
    let mut i: usize = 0;
    while i < b.len()
        invariant
            i <= b@.len(),
            out@ == old(out)@ + b@.take(i as int),
        decreases b@.len() - i,
    {
        out.push(b[i]);
        proof {
            assert(old(out)@ + b@.take(i + 1) =~= (old(out)@ + b@.take(i as int)).push(
                b@[i as int],
            ));
        }
        i += 1;
    }
    proof {
        assert(b@.take(b@.len() as int) =~= b@);
    }
}

/// Reads a big-endian 32-bit integer from `data` at `pos`.
pub fn read_u32(data: &[u8], pos: usize) -> (r: u32)
    requires
        pos + 4 <= data@.len(),
    ensures
        r == u32_of_be(data@[pos as int], data@[pos + 1], data@[pos + 2], data@[pos + 3]),
{
    let b0 = data[pos];
    let b1 = data[pos + 1];
    let b2 = data[pos + 2];
    let b3 = data[pos + 3];
    b0 as u32 * 0x1000000 + b1 as u32 * 0x10000 + b2 as u32 * 0x100 + b3 as u32
}

/// Appends a 32-bit integer to `out` as four big-endian bytes.
pub fn write_u32(out: &mut Vec<u8>, v: u32)
    ensures
        final(out)@ == old(out)@ + be_of_u32(v),
{
    out.push((v / 0x1000000) as u8);
    out.push(((v / 0x10000) % 0x100) as u8);
    out.push(((v / 0x100) % 0x100) as u8);
    out.push((v % 0x100) as u8);
    assert(out@ =~= old(out)@ + be_of_u32(v));
}

} // verus!
