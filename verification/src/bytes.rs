//! Big-endian integer encodings shared by the wire formats.
use vstd::prelude::*;

verus! {

/// The two big-endian bytes of a `u16`.
pub open spec fn u16_be(v: u16) -> Seq<u8> {
    seq![(v >> 8u16) as u8, v as u8]
}

/// The `u16` whose big-endian bytes are `b0, b1`.
pub open spec fn u16_of(b0: u8, b1: u8) -> u16 {
    ((b0 as u16) << 8u16) | (b1 as u16)
}

/// The `u16` read big-endian at offset `at` of `s`.
pub open spec fn u16_at(s: Seq<u8>, at: int) -> u16 {
    u16_of(s[at], s[at + 1])
}

/// The four big-endian bytes of a `u32`.
pub open spec fn u32_be(v: u32) -> Seq<u8> {
    seq![(v >> 24u32) as u8, (v >> 16u32) as u8, (v >> 8u32) as u8, v as u8]
}

/// The `u32` whose big-endian bytes are `b0..b3`.
pub open spec fn u32_of(b0: u8, b1: u8, b2: u8, b3: u8) -> u32 {
    ((b0 as u32) << 24u32) | ((b1 as u32) << 16u32) | ((b2 as u32) << 8u32) | (b3 as u32)
}

/// The `u32` read big-endian at offset `at` of `s`.
pub open spec fn u32_at(s: Seq<u8>, at: int) -> u32 {
    u32_of(s[at], s[at + 1], s[at + 2], s[at + 3])
}

/// The eight big-endian bytes of a `u64`.
pub open spec fn u64_be(v: u64) -> Seq<u8> {
    seq![
        (v >> 56u64) as u8,
        (v >> 48u64) as u8,
        (v >> 40u64) as u8,
        (v >> 32u64) as u8,
        (v >> 24u64) as u8,
        (v >> 16u64) as u8,
        (v >> 8u64) as u8,
        v as u8,
    ]
}

/// The `u64` whose big-endian bytes are `b0..b7`.
pub open spec fn u64_of(b0: u8, b1: u8, b2: u8, b3: u8, b4: u8, b5: u8, b6: u8, b7: u8) -> u64 {
    ((b0 as u64) << 56u64) | ((b1 as u64) << 48u64) | ((b2 as u64) << 40u64) | ((b3 as u64)
        << 32u64) | ((b4 as u64) << 24u64) | ((b5 as u64) << 16u64) | ((b6 as u64) << 8u64) | (
    b7 as u64)
}

/// The `u64` read big-endian at offset `at` of `s`.
pub open spec fn u64_at(s: Seq<u8>, at: int) -> u64 {
    u64_of(s[at], s[at + 1], s[at + 2], s[at + 3], s[at + 4], s[at + 5], s[at + 6], s[at + 7])
}

/// Reading back the bytes of a `u16` gives the value.
pub proof fn lemma_u16_round_trip(v: u16)
    ensures
        u16_at(u16_be(v), 0) == v,
{
    assert(u16_of((v >> 8u16) as u8, v as u8) == v) by (bit_vector);
}

/// Reading back the bytes of a `u32` gives the value.
pub proof fn lemma_u32_round_trip(v: u32)
    ensures
        u32_at(u32_be(v), 0) == v,
{
    assert(u32_of((v >> 24u32) as u8, (v >> 16u32) as u8, (v >> 8u32) as u8, v as u8) == v)
        by (bit_vector);
}

/// Reading back the bytes of a `u64` gives the value.
pub proof fn lemma_u64_round_trip(v: u64)
    ensures
        u64_at(u64_be(v), 0) == v,
{
    assert(u64_of(
        (v >> 56u64) as u8,
        (v >> 48u64) as u8,
        (v >> 40u64) as u8,
        (v >> 32u64) as u8,
        (v >> 24u64) as u8,
        (v >> 16u64) as u8,
        (v >> 8u64) as u8,
        v as u8,
    ) == v) by (bit_vector);
}

/// The bytes of the `u16` read from two bytes are those bytes.
pub proof fn lemma_u16_bytes(b0: u8, b1: u8)
    ensures
        u16_be(u16_of(b0, b1)) == seq![b0, b1],
{
    let v = u16_of(b0, b1);
    assert((v >> 8u16) as u8 == b0 && v as u8 == b1) by (bit_vector)
        requires
            v == ((b0 as u16) << 8u16) | (b1 as u16),
    ;
    assert(u16_be(v) =~= seq![b0, b1]);
}

/// Appends the big-endian bytes of `v`.
pub fn push_u16_be(out: &mut Vec<u8>, v: u16)
    ensures
        final(out)@ == old(out)@ + u16_be(v),
{
    out.push((v >> 8u16) as u8);
    out.push(v as u8);
    assert(final(out)@ =~= old(out)@ + u16_be(v));
}

/// Appends the big-endian bytes of `v`.
pub fn push_u32_be(out: &mut Vec<u8>, v: u32)
    ensures
        final(out)@ == old(out)@ + u32_be(v),
{
    out.push((v >> 24u32) as u8);
    out.push((v >> 16u32) as u8);
    out.push((v >> 8u32) as u8);
    out.push(v as u8);
    assert(final(out)@ =~= old(out)@ + u32_be(v));
}

/// Appends the big-endian bytes of `v`.
pub fn push_u64_be(out: &mut Vec<u8>, v: u64)
    ensures
        final(out)@ == old(out)@ + u64_be(v),
{
    out.push((v >> 56u64) as u8);
    out.push((v >> 48u64) as u8);
    out.push((v >> 40u64) as u8);
    out.push((v >> 32u64) as u8);
    out.push((v >> 24u64) as u8);
    out.push((v >> 16u64) as u8);
    out.push((v >> 8u64) as u8);
    out.push(v as u8);
    assert(final(out)@ =~= old(out)@ + u64_be(v));
}

/// Appends all bytes of `src`.
pub fn push_all(out: &mut Vec<u8>, src: &[u8])
    ensures
        final(out)@ == old(out)@ + src@,
{
    let ghost start = out@;
    let mut i: usize = 0;
    while i < src.len()
        invariant
            i <= src.len(),
            out@ == start + src@.subrange(0, i as int),
        decreases src.len() - i,
    {
        out.push(src[i]);
        i = i + 1;
        assert(out@ =~= start + src@.subrange(0, i as int));
    }
    assert(src@.subrange(0, src.len() as int) =~= src@);
}

/// Appends `n` zero bytes.
pub fn push_zeros(out: &mut Vec<u8>, n: usize)
    ensures
        final(out)@ == old(out)@ + Seq::new(n as nat, |i: int| 0u8),
{
    let ghost start = out@;
    let mut i: usize = 0;
    while i < n
        invariant
            i <= n,
            out@ == start + Seq::new(i as nat, |j: int| 0u8),
        decreases n - i,
    {
        out.push(0u8);
        i = i + 1;
        assert(out@ =~= start + Seq::new(i as nat, |j: int| 0u8));
    }
}

/// The `u16` read big-endian at `at`.
pub fn read_u16_be(b: &[u8], at: usize) -> (r: u16)
    requires
        at + 2 <= b@.len(),
    ensures
        r == u16_at(b@, at as int),
{
    ((b[at] as u16) << 8u16) | (b[at + 1] as u16)
}

/// The `u32` read big-endian at `at`.
pub fn read_u32_be(b: &[u8], at: usize) -> (r: u32)
    requires
        at + 4 <= b@.len(),
    ensures
        r == u32_at(b@, at as int),
{
    ((b[at] as u32) << 24u32) | ((b[at + 1] as u32) << 16u32) | ((b[at + 2] as u32) << 8u32) | (
    b[at + 3] as u32)
}

/// The `u64` read big-endian at `at`.
pub fn read_u64_be(b: &[u8], at: usize) -> (r: u64)
    requires
        at + 8 <= b@.len(),
    ensures
        r == u64_at(b@, at as int),
{
    ((b[at] as u64) << 56u64) | ((b[at + 1] as u64) << 48u64) | ((b[at + 2] as u64) << 40u64) | ((
    b[at + 3] as u64) << 32u64) | ((b[at + 4] as u64) << 24u64) | ((b[at + 5] as u64) << 16u64) | ((
    b[at + 6] as u64) << 8u64) | (b[at + 7] as u64)
}

/// A copy of `b[start..end]`.
pub fn copy_range(b: &[u8], start: usize, end: usize) -> (r: Vec<u8>)
    requires
        start <= end <= b@.len(),
    ensures
        r@ == b@.subrange(start as int, end as int),
{
    let mut out: Vec<u8> = Vec::new();
    let mut i: usize = start;
    while i < end
        invariant
            start <= i <= end,
            end <= b@.len(),
            out@ == b@.subrange(start as int, i as int),
        decreases end - i,
    {
        out.push(b[i]);
        i = i + 1;
        assert(out@ =~= b@.subrange(start as int, i as int));
    }
    out
}

/// Whether `b[start..end]` holds only zero bytes.
pub fn all_zero(b: &[u8], start: usize, end: usize) -> (r: bool)
    requires
        start <= end <= b@.len(),
    ensures
        r <==> forall|i: int| start <= i < end ==> b@[i] == 0,
{
    let mut i: usize = start;
    while i < end
        invariant
            start <= i <= end,
            end <= b@.len(),
            forall|j: int| start <= j < i ==> b@[j] == 0,
        decreases end - i,
    {
        if b[i] != 0 {
            return false;
        }
        i = i + 1;
    }
    true
}

/// Overwrites all of `dst` with `src[start..start + N]`.
pub fn fill_array<const N: usize>(dst: &mut [u8; N], src: &[u8], start: usize)
    requires
        start + N <= src@.len(),
    ensures
        final(dst)@ == src@.subrange(start as int, start + N),
{
    let mut i: usize = 0;
    while i < N
        invariant
            i <= N,
            start + N <= src.len(),
            dst@.len() == N,
            forall|j: int| 0 <= j < i ==> dst@[j] == src@[start + j],
        decreases N - i,
    {
        dst[i] = src[start + i];
        i = i + 1;
    }
    assert(dst@ =~= src@.subrange(start as int, start + N));
}

/// A vector holding the bytes of an array.
pub fn array_to_vec<const N: usize>(a: &[u8; N]) -> (r: Vec<u8>)
    ensures
        r@ == a@,
{
    let mut out: Vec<u8> = Vec::new();
    let mut i: usize = 0;
    while i < N
        invariant
            i <= N,
            a@.len() == N,
            out@ == a@.subrange(0, i as int),
        decreases N - i,
    {
        out.push(a[i]);
        i = i + 1;
        assert(out@ =~= a@.subrange(0, i as int));
    }
    assert(a@.subrange(0, N as int) =~= a@);
    out
}

/// Whether two byte strings are equal.
pub fn bytes_equal(a: &[u8], b: &[u8]) -> (r: bool)
    ensures
        r == (a@ == b@),
{
    if a.len() != b.len() {
        return false;
    }
    let mut i: usize = 0;
    while i < a.len()
        invariant
            i <= a@.len(),
            a@.len() == b@.len(),
            forall|j: int| 0 <= j < i ==> a@[j] == b@[j],
        decreases a@.len() - i,
    {
        if a[i] != b[i] {
            return false;
        }
        i = i + 1;
    }
    assert(a@ =~= b@);
    true
}

/// Whether `b` starts with `prefix`.
pub fn has_prefix(b: &[u8], prefix: &[u8]) -> (r: bool)
    ensures
        r == (prefix@.len() <= b@.len() && b@.subrange(0, prefix@.len() as int) == prefix@),
{
    if prefix.len() > b.len() {
        return false;
    }
    let mut i: usize = 0;
    while i < prefix.len()
        invariant
            i <= prefix@.len() <= b@.len(),
            forall|j: int| 0 <= j < i ==> b@[j] == prefix@[j],
        decreases prefix@.len() - i,
    {
        if b[i] != prefix[i] {
            assert(b@.subrange(0, prefix@.len() as int)[i as int] != prefix@[i as int]);
            return false;
        }
        i = i + 1;
    }
    assert(b@.subrange(0, prefix@.len() as int) =~= prefix@);
    true
}

} // verus!
