//! Big-endian integer fields of the wire format, and small byte helpers
//! shared by the message codec.
//!
//! Every multi-byte integer on the wire is big-endian, two bytes for a
//! `u16` and four for a `u32`.

use vstd::prelude::*;

verus! {

/// The two big-endian bytes of a `u16`.
pub open spec fn spec_be16(x: u16) -> Seq<u8> {
    seq![(x / 0x100) as u8, (x % 0x100) as u8]
}

/// The four big-endian bytes of a `u32`.
pub open spec fn spec_be32(x: u32) -> Seq<u8> {
    seq![
        (x / 0x1000000) as u8,
        ((x / 0x10000) % 0x100) as u8,
        ((x / 0x100) % 0x100) as u8,
        (x % 0x100) as u8,
    ]
}

/// The `u16` read from two big-endian bytes.
pub open spec fn spec_from_be16(b: Seq<u8>) -> u16
    recommends
        b.len() == 2,
{
    (b[0] as u16 * 0x100 + b[1] as u16) as u16
}

/// The `u32` read from four big-endian bytes.
pub open spec fn spec_from_be32(b: Seq<u8>) -> u32
    recommends
        b.len() == 4,
{
    (b[0] as u32 * 0x1000000 + b[1] as u32 * 0x10000 + b[2] as u32 * 0x100 + b[3] as u32) as u32
}

/// Reading back the two big-endian bytes of a `u16` yields the same value.
pub proof fn lemma_be16_round_trip(x: u16)
    ensures
        spec_from_be16(spec_be16(x)) == x,
{
}

/// Reading back the four big-endian bytes of a `u32` yields the same value.
pub proof fn lemma_be32_round_trip(x: u32)
    ensures
        spec_from_be32(spec_be32(x)) == x,
{
}

/// Two big-endian bytes determine the `u16` and the `u16` determines the bytes.
pub proof fn lemma_be16_of_from(b: Seq<u8>)
    requires
        b.len() == 2,
    ensures
        spec_be16(spec_from_be16(b)) =~= b,
{
}

/// Four big-endian bytes determine the `u32` and the `u32` determines the bytes.
pub proof fn lemma_be32_of_from(b: Seq<u8>)
    requires
        b.len() == 4,
    ensures
        spec_be32(spec_from_be32(b)) =~= b,
{
    let x = spec_from_be32(b);
    assert(x / 0x1000000 == b[0] && (x / 0x10000) % 0x100 == b[1] && (x / 0x100) % 0x100 == b[2]
        && x % 0x100 == b[3]) by (nonlinear_arith)
        requires
            x == b[0] as u32 * 0x1000000 + b[1] as u32 * 0x10000 + b[2] as u32 * 0x100 + b[3] as u32,
            b[0] < 0x100 && b[1] < 0x100 && b[2] < 0x100 && b[3] < 0x100,
    ;
}

/// Appends the two big-endian bytes of `x` to `out`.
pub fn put_u16_be(out: &mut Vec<u8>, x: u16)
    ensures
        final(out)@ == old(out)@ + spec_be16(x),
{
    out.push((x / 0x100) as u8);
    out.push((x % 0x100) as u8);
    assert(out@ =~= old(out)@ + spec_be16(x));
}

/// Appends the four big-endian bytes of `x` to `out`.
pub fn put_u32_be(out: &mut Vec<u8>, x: u32)
    ensures
        final(out)@ == old(out)@ + spec_be32(x),
{
    out.push((x / 0x1000000) as u8);
    out.push(((x / 0x10000) % 0x100) as u8);
    out.push(((x / 0x100) % 0x100) as u8);
    out.push((x % 0x100) as u8);
    assert(out@ =~= old(out)@ + spec_be32(x));
}

/// Reads the big-endian `u16` at `off`.
pub fn read_u16_be(b: &[u8], off: usize) -> (r: u16)
    requires
        off + 2 <= b@.len(),
    ensures
        r == spec_from_be16(b@.subrange(off as int, off + 2)),
{
    let r: u16 = b[off] as u16 * 0x100 + b[off + 1] as u16;
    proof {
        let s = b@.subrange(off as int, off + 2);
        assert(s[0] == b@[off as int] && s[1] == b@[off + 1]);
    }
    r
}

/// Reads the big-endian `u32` at `off`.
pub fn read_u32_be(b: &[u8], off: usize) -> (r: u32)
    requires
        off + 4 <= b@.len(),
    ensures
        r == spec_from_be32(b@.subrange(off as int, off + 4)),
{
    let r: u32 = b[off] as u32 * 0x1000000 + b[off + 1] as u32 * 0x10000 + b[off + 2] as u32 * 0x100
        + b[off + 3] as u32;
    proof {
        let s = b@.subrange(off as int, off + 4);
        assert(s[0] == b@[off as int] && s[1] == b@[off + 1] && s[2] == b@[off + 2]);
        assert(s[3] == b@[off + 3]);
    }
    r
}

/// Appends every byte of `src` to `out`.
pub fn put_bytes(out: &mut Vec<u8>, src: &[u8])
    ensures
        final(out)@ == old(out)@ + src@,
{
    let mut i: usize = 0;
    while i < src.len()
        invariant
            i <= src@.len(),
            out@ == old(out)@ + src@.subrange(0, i as int),
        decreases src@.len() - i,
    {
        out.push(src[i]);
        assert(out@ =~= old(out)@ + src@.subrange(0, i + 1));
        i = i + 1;
    }
    assert(out@ =~= old(out)@ + src@);
}

/// Copies `n` bytes of `b` starting at `off` into a fresh vector.
pub fn read_bytes(b: &[u8], off: usize, n: usize) -> (r: Vec<u8>)
    requires
        off + n <= b@.len(),
    ensures
        r@ == b@.subrange(off as int, off + n),
{
    let blen: usize = b.len();
    let mut out: Vec<u8> = Vec::new();
    let mut i: usize = 0;
    while i < n
        invariant
            i <= n,
            off + n <= blen,
            blen == b@.len(),
            out@ == b@.subrange(off as int, off + i),
        decreases n - i,
    {
        out.push(b[off + i]);
        assert(out@ =~= b@.subrange(off as int, off + i + 1));
        i = i + 1;
    }
    out
}

/// Appends every element of `src` to `out`.
pub fn vec_extend<T: Copy>(out: &mut Vec<T>, src: &Vec<T>)
    ensures
        final(out)@ == old(out)@ + src@,
{
    let mut i: usize = 0;
    while i < src.len()
        invariant
            i <= src@.len(),
            out@ == old(out)@ + src@.subrange(0, i as int),
        decreases src@.len() - i,
    {
        out.push(src[i]);
        assert(out@ =~= old(out)@ + src@.subrange(0, i + 1));
        i = i + 1;
    }
    assert(out@ =~= old(out)@ + src@);
}

/// Whether two byte slices hold the same bytes.
pub fn bytes_eq(a: &[u8], b: &[u8]) -> (r: bool)
    ensures
        r == (a@ == b@),
{
    if a.len() != b.len() {
        assert(a@ != b@);
        return false;
    }
    let mut i: usize = 0;
    while i < a.len()
        invariant
            i <= a@.len(),
            a@.len() == b@.len(),
            forall|j: int| 0 <= j < i ==> a@[j] == b@[j],
        decreases a@.len() - i,
    {
        if a[i] != b[i] {
            return false;
        }
        i = i + 1;
    }
    assert(a@ =~= b@);
    true
}

} // verus!
