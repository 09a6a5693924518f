//! Little-endian byte-order helpers shared by the token marshaling
//! protocol and the binary module parser.

use vstd::prelude::*;

verus! {

/// Four little-endian bytes of a 32-bit value.
pub open spec fn le32(x: u32) -> Seq<u8> {
    seq![
        (x & 0xff) as u8,
        ((x >> 8) & 0xff) as u8,
        ((x >> 16) & 0xff) as u8,
        ((x >> 24) & 0xff) as u8,
    ]
}

/// The 32-bit value held by the first four bytes, little-endian.
pub open spec fn rd32(b: Seq<u8>) -> u32
    recommends
        b.len() == 4,
{
    (b[0] as u32) | (b[1] as u32) << 8 | (b[2] as u32) << 16 | (b[3] as u32) << 24
}

pub proof fn lemma_le32_rt(x: u32)
    ensures
        le32(x).len() == 4,
        rd32(le32(x)) == x,
{
    let b0 = (x & 0xff) as u8;
    let b1 = ((x >> 8) & 0xff) as u8;
    let b2 = ((x >> 16) & 0xff) as u8;
    let b3 = ((x >> 24) & 0xff) as u8;
    assert((b0 as u32) | (b1 as u32) << 8 | (b2 as u32) << 16 | (b3 as u32) << 24 == x) by {
        assert(((((x & 0xff) as u8) as u32) | ((((x >> 8) & 0xff) as u8) as u32) << 8 | ((((x
            >> 16) & 0xff) as u8) as u32) << 16 | ((((x >> 24) & 0xff) as u8) as u32) << 24)
            == x) by (bit_vector);
    }
}

/// Two little-endian bytes of a 16-bit value.
pub open spec fn le16(x: u16) -> Seq<u8> {
    seq![(x & 0xff) as u8, ((x >> 8) & 0xff) as u8]
}

/// The 16-bit value held by the first two bytes, little-endian.
pub open spec fn rd16(b: Seq<u8>) -> u16
    recommends
        b.len() == 2,
{
    (b[0] as u16) | (b[1] as u16) << 8
}

/// Eight little-endian bytes of a 64-bit value.
pub open spec fn le64(x: u64) -> Seq<u8> {
    seq![
        (x & 0xff) as u8,
        ((x >> 8) & 0xff) as u8,
        ((x >> 16) & 0xff) as u8,
        ((x >> 24) & 0xff) as u8,
        ((x >> 32) & 0xff) as u8,
        ((x >> 40) & 0xff) as u8,
        ((x >> 48) & 0xff) as u8,
        ((x >> 56) & 0xff) as u8,
    ]
}

/// The 64-bit value held by the first eight bytes, little-endian.
pub open spec fn rd64(b: Seq<u8>) -> u64
    recommends
        b.len() == 8,
{
    (b[0] as u64) | (b[1] as u64) << 8 | (b[2] as u64) << 16 | (b[3] as u64) << 24 | (
    b[4] as u64) << 32 | (b[5] as u64) << 40 | (b[6] as u64) << 48 | (b[7] as u64) << 56
}

/// Appends the four little-endian bytes of `x`.
pub fn push_le32(out: &mut Vec<u8>, x: u32)
    ensures
        final(out)@ == old(out)@ + le32(x),
{
    out.push((x & 0xff) as u8);
    out.push(((x >> 8) & 0xff) as u8);
    out.push(((x >> 16) & 0xff) as u8);
    out.push(((x >> 24) & 0xff) as u8);
    assert(out@ =~= old(out)@ + le32(x));
}

pub proof fn lemma_le64_rt(x: u64)
    ensures
        le64(x).len() == 8,
        rd64(le64(x)) == x,
{
    assert(((((x & 0xff) as u8) as u64) | ((((x >> 8) & 0xff) as u8) as u64) << 8 | ((((x
        >> 16) & 0xff) as u8) as u64) << 16 | ((((x >> 24) & 0xff) as u8) as u64) << 24 | ((((x
        >> 32) & 0xff) as u8) as u64) << 32 | ((((x >> 40) & 0xff) as u8) as u64) << 40 | ((((x
        >> 48) & 0xff) as u8) as u64) << 48 | ((((x >> 56) & 0xff) as u8) as u64) << 56) == x)
        by (bit_vector);
}

/// Reads the 32-bit little-endian value at `i`.
pub fn rd32_at(b: &Vec<u8>, i: usize) -> (x: u32)
    requires
        i + 4 <= b@.len(),
    ensures
        x == rd32(b@.subrange(i as int, i + 4)),
{
    let n = b.len();
    let x = (b[i] as u32) | (b[i + 1] as u32) << 8 | (b[i + 2] as u32) << 16 | (b[i + 3]
        as u32) << 24;
    proof {
        let s = b@.subrange(i as int, i + 4);
        assert(s[0] == b@[i as int] && s[1] == b@[i + 1] && s[2] == b@[i + 2] && s[3] == b@[i
            + 3]);
    }
    x
}

/// Reads the 64-bit little-endian value at `i`.
pub fn rd64_at(b: &Vec<u8>, i: usize) -> (x: u64)
    requires
        i + 8 <= b@.len(),
    ensures
        x == rd64(b@.subrange(i as int, i + 8)),
{
    let n = b.len();
    let x = (b[i] as u64) | (b[i + 1] as u64) << 8 | (b[i + 2] as u64) << 16 | (b[i + 3]
        as u64) << 24 | (b[i + 4] as u64) << 32 | (b[i + 5] as u64) << 40 | (b[i + 6]
        as u64) << 48 | (b[i + 7] as u64) << 56;
    proof {
        let s = b@.subrange(i as int, i + 8);
        assert(s[0] == b@[i as int] && s[1] == b@[i + 1] && s[2] == b@[i + 2] && s[3] == b@[i
            + 3] && s[4] == b@[i + 4] && s[5] == b@[i + 5] && s[6] == b@[i + 6] && s[7] == b@[i
            + 7]);
    }
    x
}

/// A copy of a byte vector.
pub fn clone_bytes(src: &Vec<u8>) -> (r: Vec<u8>)
    ensures
        r@ == src@,
{
    let mut r: Vec<u8> = Vec::new();
    let mut i: usize = 0;
    while i < src.len()
        invariant
            i <= src@.len(),
            r@ == src@.take(i as int),
        decreases src@.len() - i,
    {
        r.push(src[i]);
        assert(r@ =~= src@.take(i + 1));
        i += 1;
    }
    proof {
        assert(src@.take(src@.len() as int) =~= src@);
    }
    r
}

/// The bytes of `b` from `start` on.
pub fn bytes_from(b: &Vec<u8>, start: usize) -> (r: Vec<u8>)
    requires
        start <= b@.len(),
    ensures
        r@ == b@.skip(start as int),
{
    let n = b.len();
    let mut r: Vec<u8> = Vec::new();
    let mut i: usize = start;
    while i < n
        invariant
            start <= i <= n,
            n == b@.len(),
            r@ == b@.subrange(start as int, i as int),
        decreases n - i,
    {
        r.push(b[i]);
        assert(r@ =~= b@.subrange(start as int, i + 1));
        i += 1;
    }
    proof {
        assert(r@ =~= b@.skip(start as int));
    }
    r
}

/// Whether two byte vectors hold the same bytes.
pub fn bytes_eq(a: &Vec<u8>, b: &Vec<u8>) -> (r: bool)
    ensures
        r == (a@ == b@),
{
    if a.len() != b.len() {
        return false;
    }
    let mut i: usize = 0;
    while i < a.len()
        invariant
            i <= a@.len(),
            a@.len() == b@.len(),
            forall|k: int| 0 <= k < i ==> a@[k] == b@[k],
        decreases a@.len() - i,
    {
        if a[i] != b[i] {
            return false;
        }
        i += 1;
    }
    proof {
        assert(a@ =~= b@);
    }
    true
}

} // verus!
