//! Big-endian byte-level encoding of the fixed-width integers the wire
//! format uses, with the facts that relate reading back to writing.
use vstd::prelude::*;

verus! {

/// The two big-endian bytes of a 16-bit value.
pub open spec fn be16(n: u16) -> Seq<u8> {
    seq![(n >> 8) as u8, n as u8]
}

/// The four big-endian bytes of a 32-bit value.
pub open spec fn be32(n: u32) -> Seq<u8> {
    seq![(n >> 24) as u8, (n >> 16) as u8, (n >> 8) as u8, n as u8]
}

/// The eight big-endian bytes of a 64-bit value.
pub open spec fn be64(n: u64) -> Seq<u8> {
    seq![
        (n >> 56) as u8,
        (n >> 48) as u8,
        (n >> 40) as u8,
        (n >> 32) as u8,
        (n >> 24) as u8,
        (n >> 16) as u8,
        (n >> 8) as u8,
        n as u8,
    ]
}

/// The four big-endian bytes of a 32-bit signed value, in two's complement.
pub open spec fn be32i(n: i32) -> Seq<u8> {
    be32(n as u32)
}

/// The 16-bit value read from two big-endian bytes.
pub open spec fn from_be16(b0: u8, b1: u8) -> u16 {
    ((b0 as u16) << 8) | (b1 as u16)
}

/// The 32-bit value read from four big-endian bytes.
pub open spec fn from_be32(b0: u8, b1: u8, b2: u8, b3: u8) -> u32 {
    ((b0 as u32) << 24) | ((b1 as u32) << 16) | ((b2 as u32) << 8) | (b3 as u32)
}

/// The 64-bit value read from eight big-endian bytes.
pub open spec fn from_be64(b: Seq<u8>) -> u64
    recommends
        b.len() == 8,
{
    ((b[0] as u64) << 56) | ((b[1] as u64) << 48) | ((b[2] as u64) << 40) | ((b[3] as u64) << 32)
        | ((b[4] as u64) << 24) | ((b[5] as u64) << 16) | ((b[6] as u64) << 8) | (b[7] as u64)
}

/// Reading two written big-endian bytes gives the value back.
pub broadcast proof fn lemma_be16_roundtrip(n: u16)
    ensures
        #![trigger be16(n)]
        from_be16(be16(n)[0], be16(n)[1]) == n,
{
    assert((((n >> 8) as u8 as u16) << 8 | (n as u8 as u16)) == n) by (bit_vector);
}

/// Reading four written big-endian bytes gives the value back.
pub broadcast proof fn lemma_be32_roundtrip(n: u32)
    ensures
        #![trigger be32(n)]
        from_be32(be32(n)[0], be32(n)[1], be32(n)[2], be32(n)[3]) == n,
{
    assert((((n >> 24) as u8 as u32) << 24 | ((n >> 16) as u8 as u32) << 16 | ((n >> 8) as u8
        as u32) << 8 | (n as u8 as u32)) == n) by (bit_vector);
}

/// Reading eight written big-endian bytes gives the value back.
pub broadcast proof fn lemma_be64_roundtrip(n: u64)
    ensures
        #![trigger be64(n)]
        from_be64(be64(n)) == n,
{
    assert((((n >> 56) as u8 as u64) << 56 | ((n >> 48) as u8 as u64) << 48 | ((n >> 40) as u8
        as u64) << 40 | ((n >> 32) as u8 as u64) << 32 | ((n >> 24) as u8 as u64) << 24 | ((n >> 16)
        as u8 as u64) << 16 | ((n >> 8) as u8 as u64) << 8 | (n as u8 as u64)) == n)
        by (bit_vector);
}

/// A signed 32-bit value survives the trip through its unsigned bit pattern.
pub broadcast proof fn lemma_i32_u32_roundtrip(n: i32)
    ensures
        #![trigger n as u32]
        (n as u32) as i32 == n,
{
    assert((n as u32) as i32 == n) by (bit_vector);
}

/// Appends the two big-endian bytes of a 16-bit value.
pub fn put_be16(out: &mut Vec<u8>, n: u16)
    ensures
        final(out)@ == old(out)@ + be16(n),
{
    out.push((n >> 8) as u8);
    out.push(n as u8);
    assert(out@ =~= old(out)@ + be16(n));
}

/// Appends the four big-endian bytes of a 32-bit value.
pub fn put_be32(out: &mut Vec<u8>, n: u32)
    ensures
        final(out)@ == old(out)@ + be32(n),
{
    out.push((n >> 24) as u8);
    out.push((n >> 16) as u8);
    out.push((n >> 8) as u8);
    out.push(n as u8);
    assert(out@ =~= old(out)@ + be32(n));
}

/// Appends the eight big-endian bytes of a 64-bit value.
pub fn put_be64(out: &mut Vec<u8>, n: u64)
    ensures
        final(out)@ == old(out)@ + be64(n),
{
    out.push((n >> 56) as u8);
    out.push((n >> 48) as u8);
    out.push((n >> 40) as u8);
    out.push((n >> 32) as u8);
    out.push((n >> 24) as u8);
    out.push((n >> 16) as u8);
    out.push((n >> 8) as u8);
    out.push(n as u8);
    assert(out@ =~= old(out)@ + be64(n));
}

/// Appends all bytes of a slice.
pub fn put_bytes(out: &mut Vec<u8>, b: &[u8])
    ensures
        final(out)@ == old(out)@ + b@,
{
    let n = b.len();
    let mut i: usize = 0;
    while i < n
        invariant
            n == b@.len(),
            i <= n,
            out@ == old(out)@ + b@.take(i as int),
        decreases n - i,
    {
        out.push(b[i]);
        assert(out@ =~= old(out)@ + b@.take(i + 1));
        i = i + 1;
    }
    assert(out@ =~= old(out)@ + b@);
}

/// A region that holds a concatenation splits into its two parts.
pub proof fn lemma_split(s: Seq<u8>, i: int, a: Seq<u8>, b: Seq<u8>)
    requires
        0 <= i,
        i + a.len() + b.len() <= s.len(),
        s.subrange(i, i + a.len() + b.len()) == a + b,
    ensures
        s.subrange(i, i + a.len()) == a,
        s.subrange(i + a.len(), i + a.len() + b.len()) == b,
{
    let whole = s.subrange(i, i + a.len() + b.len());
    assert forall|k: int| 0 <= k < a.len() implies s.subrange(i, i + a.len())[k] == a[k] by {
        assert(whole[k] == (a + b)[k]);
    }
    assert(s.subrange(i, i + a.len()) =~= a);
    assert forall|k: int| 0 <= k < b.len() implies s.subrange(
        i + a.len(),
        i + a.len() + b.len(),
    )[k] == b[k] by {
        assert(whole[a.len() + k] == (a + b)[a.len() + k]);
    }
    assert(s.subrange(i + a.len(), i + a.len() + b.len()) =~= b);
}

/// A one-byte region pins the byte.
pub proof fn lemma_read_u8(s: Seq<u8>, i: int, v: u8)
    requires
        0 <= i,
        i + 1 <= s.len(),
        s.subrange(i, i + 1) == seq![v],
    ensures
        s[i] == v,
{
    assert(s.subrange(i, i + 1)[0] == v);
}

/// A written 16-bit value reads back.
pub proof fn lemma_read_be16(s: Seq<u8>, i: int, n: u16)
    requires
        0 <= i,
        i + 2 <= s.len(),
        s.subrange(i, i + 2) == be16(n),
    ensures
        from_be16(s[i], s[i + 1]) == n,
{
    assert(s[i] == be16(n)[0]) by {
        assert(s.subrange(i, i + 2)[0] == be16(n)[0]);
    }
    assert(s[i + 1] == be16(n)[1]) by {
        assert(s.subrange(i, i + 2)[1] == be16(n)[1]);
    }
    lemma_be16_roundtrip(n);
}

/// A written 32-bit value reads back.
pub proof fn lemma_read_be32(s: Seq<u8>, i: int, n: u32)
    requires
        0 <= i,
        i + 4 <= s.len(),
        s.subrange(i, i + 4) == be32(n),
    ensures
        from_be32(s[i], s[i + 1], s[i + 2], s[i + 3]) == n,
{
    assert forall|k: int| 0 <= k < 4 implies s[i + k] == be32(n)[k] by {
        assert(s.subrange(i, i + 4)[k] == be32(n)[k]);
    }
    lemma_be32_roundtrip(n);
}

/// A written 64-bit value reads back.
pub proof fn lemma_read_be64(s: Seq<u8>, i: int, n: u64)
    requires
        0 <= i,
        i + 8 <= s.len(),
        s.subrange(i, i + 8) == be64(n),
    ensures
        from_be64(s.subrange(i, i + 8)) == n,
{
    lemma_be64_roundtrip(n);
}

} // verus!
