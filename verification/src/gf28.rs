//! Arithmetic in GF(2^8) with reduction polynomial 0x11d, and a (16, 10)
//! Reed-Solomon erasure code over it.
use vstd::prelude::*;
use crate::gf28_mds::generator_entry;
use crate::text::{ascii_chars, decimal, lemma_decimal_ascii, push_decimal, string_from_ascii, is_ascii_bytes};

verus! {

pub const PRIMITIVE_POLYNOMIAL_MASK_0X1D: u8 = 0x1D;

/// Multiplication by x: shift left, reducing by 0x1d when a bit falls off.
pub open spec fn xtime(a: u8) -> u8 {
    if a & 0x80u8 != 0 {
        ((a << 1u8) ^ 0x1du8) as u8
    } else {
        (a << 1u8) as u8
    }
}

/// The GF(2^8) product: the sum of `x^i * a` over the set bits `i` of `b`.
pub open spec fn gf_mul(a: u8, b: u8) -> u8 {
    let a1 = xtime(a);
    let a2 = xtime(a1);
    let a3 = xtime(a2);
    let a4 = xtime(a3);
    let a5 = xtime(a4);
    let a6 = xtime(a5);
    let a7 = xtime(a6);
    ((if b & 1u8 != 0 { a } else { 0u8 }) ^ (if b & 2u8 != 0 { a1 } else { 0u8 }) ^ (if b & 4u8
        != 0 { a2 } else { 0u8 }) ^ (if b & 8u8 != 0 { a3 } else { 0u8 }) ^ (if b & 16u8 != 0 {
        a4
    } else {
        0u8
    }) ^ (if b & 32u8 != 0 { a5 } else { 0u8 }) ^ (if b & 64u8 != 0 { a6 } else { 0u8 }) ^ (if b
        & 128u8 != 0 { a7 } else { 0u8 })) as u8
}

pub proof fn lemma_gf_mul_step(a: u8, b: u8)
    ensures
        gf_mul(a, b) == (if b & 1u8 != 0 { a } else { 0u8 }) ^ gf_mul(xtime(a), b >> 1u8),
{
    assert(gf_mul(a, b) == (if b & 1u8 != 0 { a } else { 0u8 }) ^ gf_mul(xtime(a), b >> 1u8))
        by (bit_vector);
}

pub proof fn lemma_gf_mul_distrib_right(a: u8, b: u8, c: u8)
    ensures
        gf_mul(a, b ^ c) == gf_mul(a, b) ^ gf_mul(a, c),
{
    assert(gf_mul(a, b ^ c) == gf_mul(a, b) ^ gf_mul(a, c)) by (bit_vector);
}

#[verifier::rlimit(100)]
pub proof fn lemma_gf_mul_comm(a: u8, b: u8)
    ensures
        gf_mul(a, b) == gf_mul(b, a),
{
    assert(gf_mul(a, b) == gf_mul(b, a)) by (bit_vector);
}


#[verifier::rlimit(100)]
pub proof fn lemma_gf_mul_xtime(a: u8, b: u8)
    ensures
        gf_mul(xtime(a), b) == xtime(gf_mul(a, b)),
{
    assert(gf_mul(xtime(a), b) == xtime(gf_mul(a, b))) by (bit_vector);
}

pub proof fn lemma_gf_mul_zero(b: u8)
    ensures
        gf_mul(0u8, b) == 0u8,
        gf_mul(b, 0u8) == 0u8,
{
    assert(gf_mul(0u8, b) == 0u8) by (bit_vector);
    assert(gf_mul(b, 0u8) == 0u8) by (bit_vector);
}

/// Multiplication distributes over XOR in its first argument.
pub proof fn lemma_gf_mul_distrib_left(a: u8, b: u8, c: u8)
    ensures
        gf_mul(a ^ b, c) == gf_mul(a, c) ^ gf_mul(b, c),
{
    lemma_gf_mul_comm(a ^ b, c);
    lemma_gf_mul_distrib_right(c, a, b);
    lemma_gf_mul_comm(a, c);
    lemma_gf_mul_comm(b, c);
}

/// `(a * b) * c == (a * c) * b`.
proof fn lemma_gf_mul_swap(a: u8, b: u8, c: u8)
    ensures
        gf_mul(gf_mul(a, b), c) == gf_mul(gf_mul(a, c), b),
{
    let a1 = xtime(a);
    let a2 = xtime(a1);
    let a3 = xtime(a2);
    let a4 = xtime(a3);
    let a5 = xtime(a4);
    let a6 = xtime(a5);
    let a7 = xtime(a6);
    lemma_gf_mul_xtime(a, b);
    lemma_gf_mul_xtime(a1, b);
    lemma_gf_mul_xtime(a2, b);
    lemma_gf_mul_xtime(a3, b);
    lemma_gf_mul_xtime(a4, b);
    lemma_gf_mul_xtime(a5, b);
    lemma_gf_mul_xtime(a6, b);
    lemma_gf_mul_zero(b);
    let v0 = if c & 1u8 != 0 { a } else { 0u8 };
    let v1 = if c & 2u8 != 0 { a1 } else { 0u8 };
    let v2 = if c & 4u8 != 0 { a2 } else { 0u8 };
    let v3 = if c & 8u8 != 0 { a3 } else { 0u8 };
    let v4 = if c & 16u8 != 0 { a4 } else { 0u8 };
    let v5 = if c & 32u8 != 0 { a5 } else { 0u8 };
    let v6 = if c & 64u8 != 0 { a6 } else { 0u8 };
    let v7 = if c & 128u8 != 0 { a7 } else { 0u8 };
    assert(gf_mul(a, c) == v0 ^ v1 ^ v2 ^ v3 ^ v4 ^ v5 ^ v6 ^ v7);
    lemma_gf_mul_distrib_left(v0 ^ v1 ^ v2 ^ v3 ^ v4 ^ v5 ^ v6, v7, b);
    lemma_gf_mul_distrib_left(v0 ^ v1 ^ v2 ^ v3 ^ v4 ^ v5, v6, b);
    lemma_gf_mul_distrib_left(v0 ^ v1 ^ v2 ^ v3 ^ v4, v5, b);
    lemma_gf_mul_distrib_left(v0 ^ v1 ^ v2 ^ v3, v4, b);
    lemma_gf_mul_distrib_left(v0 ^ v1 ^ v2, v3, b);
    lemma_gf_mul_distrib_left(v0 ^ v1, v2, b);
    lemma_gf_mul_distrib_left(v0, v1, b);
}

/// Multiplication is associative.
pub proof fn lemma_gf_mul_assoc(a: u8, b: u8, c: u8)
    ensures
        gf_mul(gf_mul(a, b), c) == gf_mul(a, gf_mul(b, c)),
{
    lemma_gf_mul_comm(a, gf_mul(b, c));
    lemma_gf_mul_swap(b, c, a);
    lemma_gf_mul_comm(b, a);
    lemma_gf_mul_swap(a, b, c);
    lemma_gf_mul_swap(a, c, b);
}

/// `res * base^exp`, by repeated squaring from the low bit of `exp`.
pub open spec fn gf_pow_sq(res: u8, base: u8, exp: nat) -> u8
    decreases exp,
{
    if exp == 0 {
        res
    } else {
        gf_pow_sq(
            if exp % 2 == 1 {
                gf_mul(res, base)
            } else {
                res
            },
            gf_mul(base, base),
            exp / 2,
        )
    }
}

/// The multiplicative inverse `a^254` (and 0 for 0).
pub open spec fn gf_inv(a: u8) -> u8 {
    if a == 0 {
        0
    } else {
        gf_pow_sq(1, a, 254)
    }
}

/// `a^254` written out: the product of `a^2, a^4, ..., a^128`.
pub open spec fn gf_pow_254(a: u8) -> u8 {
    let s1 = gf_mul(a, a);
    let s2 = gf_mul(s1, s1);
    let s3 = gf_mul(s2, s2);
    let s4 = gf_mul(s3, s3);
    let s5 = gf_mul(s4, s4);
    let s6 = gf_mul(s5, s5);
    let s7 = gf_mul(s6, s6);
    gf_mul(gf_mul(gf_mul(gf_mul(gf_mul(gf_mul(gf_mul(1u8, s1), s2), s3), s4), s5), s6), s7)
}

proof fn lemma_pow_254_unrolled(a: u8)
    ensures
        gf_pow_sq(1, a, 254) == gf_pow_254(a),
{
    reveal_with_fuel(gf_pow_sq, 10);
}

/// Every non-zero element times its inverse is one.
#[verifier::rlimit(100)]
pub proof fn lemma_gf_inv_is_inverse(a: u8)
    requires
        a != 0,
    ensures
        gf_mul(a, gf_inv(a)) == 1,
{
    lemma_pow_254_unrolled(a);
    let s1 = gf_mul(a, a);
    let s2 = gf_mul(s1, s1);
    let s3 = gf_mul(s2, s2);
    let s4 = gf_mul(s3, s3);
    let s5 = gf_mul(s4, s4);
    let s6 = gf_mul(s5, s5);
    let s7 = gf_mul(s6, s6);
    let t1 = gf_mul(1u8, s1);
    let t2 = gf_mul(t1, s2);
    let t3 = gf_mul(t2, s3);
    let t4 = gf_mul(t3, s4);
    let t5 = gf_mul(t4, s5);
    let t6 = gf_mul(t5, s6);
    let t7 = gf_mul(t6, s7);
    assert(gf_mul(a, t7) == 1u8) by (bit_vector)
        requires
            a != 0,
            s1 == gf_mul(a, a),
            s2 == gf_mul(s1, s1),
            s3 == gf_mul(s2, s2),
            s4 == gf_mul(s3, s3),
            s5 == gf_mul(s4, s4),
            s6 == gf_mul(s5, s5),
            s7 == gf_mul(s6, s6),
            t1 == gf_mul(1u8, s1),
            t2 == gf_mul(t1, s2),
            t3 == gf_mul(t2, s3),
            t4 == gf_mul(t3, s4),
            t5 == gf_mul(t4, s5),
            t6 == gf_mul(t5, s6),
            t7 == gf_mul(t6, s7),
    ;
}

pub proof fn lemma_gf_mul_one(b: u8)
    ensures
        gf_mul(1u8, b) == b,
        gf_mul(b, 1u8) == b,
{
    assert(gf_mul(1u8, b) == b && gf_mul(b, 1u8) == b) by (bit_vector);
}

pub proof fn lemma_xor_assoc(x: u8, y: u8, z: u8)
    ensures
        (x ^ y) ^ z == x ^ (y ^ z),
{
    assert((x ^ y) ^ z == x ^ (y ^ z)) by (bit_vector);
}

pub proof fn lemma_xor_comm(x: u8, y: u8)
    ensures
        x ^ y == y ^ x,
{
    assert(x ^ y == y ^ x) by (bit_vector);
}

pub proof fn lemma_xor_zero(x: u8)
    ensures
        x ^ 0u8 == x,
        0u8 ^ x == x,
        x ^ x == 0u8,
{
    assert(x ^ 0u8 == x && 0u8 ^ x == x && x ^ x == 0u8) by (bit_vector);
}

/// Multiplies in GF(2^8) by shift-and-add over the bits of `b`.
pub fn gf_mul_0x1d(a: u8, b: u8) -> (r: u8)
    ensures
        r == gf_mul(a, b),
{
    let mut x = a;
    let mut y = b;
    let mut res: u8 = 0;
    let mut k: u8 = 8;
    assert(b >> 8u8 == 0u8) by (bit_vector);
    proof {
        lemma_xor_zero(gf_mul(a, b));
    }
    while k > 0
        invariant
            k <= 8,
            y >> k == 0u8,
            res ^ gf_mul(x, y) == gf_mul(a, b),
        decreases k,
    {
        proof {
            lemma_gf_mul_step(x, y);
        }
        let t: u8 = if y & 1 != 0 {
            x
        } else {
            0
        };
        let high_bit_set = (x & 0x80) != 0;
        let mut nx: u8 = x << 1;
        if high_bit_set {
            nx = nx ^ PRIMITIVE_POLYNOMIAL_MASK_0X1D;
        }
        assert(nx == xtime(x));
        let ny = y >> 1;
        let nres = res ^ t;
        assert((res ^ t) ^ gf_mul(nx, ny) == res ^ gf_mul(x, y) && ny >> ((k - 1) as u8) == 0u8)
            by (bit_vector)
            requires
                gf_mul(x, y) == t ^ gf_mul(nx, ny),
                ny == y >> 1u8,
                y >> k == 0u8,
                k >= 1,
        ;
        x = nx;
        y = ny;
        res = nres;
        k = k - 1;
    }
    assert(y >> 0u8 == y) by (bit_vector);
    proof {
        lemma_gf_mul_zero(x);
        lemma_xor_zero(res);
    }
    res
}

/// The multiplicative inverse, `a^254` by square-and-multiply (0 for 0).
pub fn gf_inv_0x1d(a: u8) -> (r: u8)
    ensures
        r == gf_inv(a),
        a != 0 ==> gf_mul(a, r) == 1,
{
    if a == 0 {
        return 0;
    }
    let mut res: u8 = 1;
    let mut base = a;
    let mut exp: u32 = 254;
    while exp > 0
        invariant
            gf_pow_sq(res, base, exp as nat) == gf_pow_sq(1, a, 254),
        decreases exp,
    {
        assert((exp & 1u32 != 0) == (exp % 2 == 1) && exp >> 1u32 == exp / 2) by (bit_vector);
        if (exp & 1) != 0 {
            res = gf_mul_0x1d(res, base);
        }
        base = gf_mul_0x1d(base, base);
        exp = exp >> 1;
    }
    proof {
        lemma_gf_inv_is_inverse(a);
    }
    res
}

/// Zeroes `slice[actual_len..max_len]` when the slice reaches `max_len` and
/// the symbol is shorter; otherwise leaves it unchanged.
pub fn align_simd_symbol_slice(slice: &mut [u8], actual_len: usize, max_len: usize)
    ensures
        final(slice)@.len() == old(slice)@.len(),
        forall|i: int|
            0 <= i < old(slice)@.len() ==> #[trigger] final(slice)@[i] == if actual_len < max_len
                && old(slice)@.len() >= max_len && actual_len <= i < max_len {
                0u8
            } else {
                old(slice)@[i]
            },
{
    if actual_len < max_len && slice.len() >= max_len {
        let mut i = actual_len;
        while i < max_len
            invariant
                actual_len <= i <= max_len <= slice@.len(),
                slice@.len() == old(slice)@.len(),
                forall|j: int|
                    0 <= j < slice@.len() ==> #[trigger] slice@[j] == if actual_len <= j < i {
                        0u8
                    } else {
                        old(slice)@[j]
                    },
            decreases max_len - i,
        {
            slice[i] = 0;
            i = i + 1;
        }
    }
}


/// `x` to the power `n` in GF(2^8).
pub open spec fn gf_pow(x: u8, n: nat) -> u8
    decreases n,
{
    if n == 0 {
        1
    } else {
        gf_mul(gf_pow(x, (n - 1) as nat), x)
    }
}

/// The byte at `i`, or zero past the end.
pub open spec fn byte_at(s: Seq<u8>, i: int) -> u8 {
    if 0 <= i < s.len() {
        s[i]
    } else {
        0
    }
}

/// The XOR over `j < n` of `u[j] * rows[j][b]` (a missing byte counts as 0).
pub open spec fn col_dot(u: Seq<u8>, rows: Seq<Seq<u8>>, b: int, n: nat) -> u8
    decreases n,
{
    if n == 0 {
        0
    } else {
        col_dot(u, rows, b, (n - 1) as nat) ^ gf_mul(u[n - 1], byte_at(rows[n - 1], b))
    }
}

/// The generator of the systematic (16, 10) code: ten unit rows (the data
/// shards themselves) followed by the six parity rows, the Vandermonde rows
/// for the points 11..=16 brought to systematic form (see `gf28_mds`).
pub open spec fn systematic_generator() -> Seq<Seq<u8>> {
    Seq::new(16, |r: int| Seq::new(10, |c: int| generator_entry(r as u8, c as u8)))
}

/// Parity row `i` (generator row `10 + i`) as a vector.
fn parity_row(i: usize) -> (r: Vec<u8>)
    requires
        i < 6,
    ensures
        r@ == systematic_generator()[10 + i],
{
    let r: Vec<u8> = if i == 0 {
        vec![154u8, 41, 179, 8, 10, 12, 14, 180, 44, 153]
    } else if i == 1 {
        vec![34u8, 75, 104, 187, 156, 254, 216, 10, 14, 5]
    } else if i == 2 {
        vec![45u8, 84, 120, 242, 226, 216, 201, 67, 127, 61]
    } else if i == 3 {
        vec![52u8, 101, 80, 232, 216, 129, 176, 8, 12, 5]
    } else if i == 4 {
        vec![57u8, 126, 70, 216, 17, 95, 151, 8, 248, 241]
    } else {
        vec![13u8, 146, 126, 39, 248, 57, 13, 143, 160, 36]
    };
    assert(r@ =~= systematic_generator()[10 + i]);
    r
}

/// A Reed-Solomon (16, 10) code over GF(2^8).
pub struct ReedSolomon16_10 {
    pub k: usize,
    pub n: usize,
    pub gen_matrix: Vec<Vec<u8>>,
}

/// The views of a vector of byte vectors.
pub open spec fn rows_view(v: Seq<Vec<u8>>) -> Seq<Seq<u8>> {
    v.map_values(|r: Vec<u8>| r@)
}

impl Default for ReedSolomon16_10 {
    fn default() -> (rs: Self)
        ensures
            rs.k == 10,
            rs.n == 16,
            rs.generator() == systematic_generator(),
            rs.shape_ok(),
    {
        Self::new()
    }
}

impl ReedSolomon16_10 {
    /// The generator matrix as plain rows.
    pub open spec fn generator(&self) -> Seq<Seq<u8>> {
        rows_view(self.gen_matrix@)
    }

    /// The generator has `n` rows of at least `k` entries.
    pub open spec fn shape_ok(&self) -> bool {
        &&& self.gen_matrix@.len() >= self.n
        &&& forall|r: int| 0 <= r < self.n ==> #[trigger] self.gen_matrix@[r]@.len() >= self.k
    }

    /// The systematic (16, 10) code: the first ten shards are the data.
    pub fn new() -> (rs: Self)
        ensures
            rs.k == 10,
            rs.n == 16,
            rs.generator() == systematic_generator(),
            rs.shape_ok(),
    {
        let k: usize = 10;
        let n: usize = 16;
        let mut gen_matrix: Vec<Vec<u8>> = Vec::new();
        let mut row: usize = 0;
        while row < n
            invariant
                row <= n == 16,
                k == 10,
                gen_matrix@.len() == row,
                forall|r: int| 0 <= r < row ==> #[trigger] gen_matrix@[r]@ == systematic_generator()[r],
            decreases n - row,
        {
            let matrix_row = if row < k {
                let u = unit_row(k, row);
                assert(u@ =~= systematic_generator()[row as int]);
                u
            } else {
                parity_row(row - k)
            };
            gen_matrix.push(matrix_row);
            row = row + 1;
        }
        let rs = Self { k, n, gen_matrix };
        assert(rs.generator() =~= systematic_generator());
        rs
    }
}

/// `"Expected "` as bytes.
pub open spec fn msg_expected() -> Seq<u8> {
    seq![
        0x45u8, 0x78, 0x70, 0x65, 0x63, 0x74, 0x65, 0x64, 0x20,
    ]
}

fn msg_expected_bytes() -> (r: Vec<u8>)
    ensures
        r@ == msg_expected(),
        is_ascii_bytes(r@),
{
    let r: Vec<u8> = vec![
        0x45u8, 0x78, 0x70, 0x65, 0x63, 0x74, 0x65, 0x64, 0x20,
    ];
    assert(r@ =~= msg_expected());
    r
}

/// `" data shards, got "` as bytes.
pub open spec fn msg_data_shards_got() -> Seq<u8> {
    seq![
        0x20u8, 0x64, 0x61, 0x74, 0x61, 0x20, 0x73, 0x68, 0x61, 0x72, 0x64, 0x73, 0x2c, 0x20, 0x67,
        0x6f, 0x74, 0x20,
    ]
}

fn msg_data_shards_got_bytes() -> (r: Vec<u8>)
    ensures
        r@ == msg_data_shards_got(),
        is_ascii_bytes(r@),
{
    let r: Vec<u8> = vec![
        0x20u8, 0x64, 0x61, 0x74, 0x61, 0x20, 0x73, 0x68, 0x61, 0x72, 0x64, 0x73, 0x2c, 0x20, 0x67,
        0x6f, 0x74, 0x20,
    ];
    assert(r@ =~= msg_data_shards_got());
    r
}

/// `"All data shards must have identical byte length"` as bytes.
pub open spec fn msg_identical_length() -> Seq<u8> {
    seq![
        0x41u8, 0x6c, 0x6c, 0x20, 0x64, 0x61, 0x74, 0x61, 0x20, 0x73, 0x68, 0x61, 0x72, 0x64, 0x73,
        0x20, 0x6d, 0x75, 0x73, 0x74, 0x20, 0x68, 0x61, 0x76, 0x65, 0x20, 0x69, 0x64, 0x65, 0x6e,
        0x74, 0x69, 0x63, 0x61, 0x6c, 0x20, 0x62, 0x79, 0x74, 0x65, 0x20, 0x6c, 0x65, 0x6e, 0x67,
        0x74, 0x68,
    ]
}

fn msg_identical_length_bytes() -> (r: Vec<u8>)
    ensures
        r@ == msg_identical_length(),
        is_ascii_bytes(r@),
{
    let r: Vec<u8> = vec![
        0x41u8, 0x6c, 0x6c, 0x20, 0x64, 0x61, 0x74, 0x61, 0x20, 0x73, 0x68, 0x61, 0x72, 0x64, 0x73,
        0x20, 0x6d, 0x75, 0x73, 0x74, 0x20, 0x68, 0x61, 0x76, 0x65, 0x20, 0x69, 0x64, 0x65, 0x6e,
        0x74, 0x69, 0x63, 0x61, 0x6c, 0x20, 0x62, 0x79, 0x74, 0x65, 0x20, 0x6c, 0x65, 0x6e, 0x67,
        0x74, 0x68,
    ];
    assert(r@ =~= msg_identical_length());
    r
}

/// `" shard options, got "` as bytes.
pub open spec fn msg_shard_options_got() -> Seq<u8> {
    seq![
        0x20u8, 0x73, 0x68, 0x61, 0x72, 0x64, 0x20, 0x6f, 0x70, 0x74, 0x69, 0x6f, 0x6e, 0x73, 0x2c,
        0x20, 0x67, 0x6f, 0x74, 0x20,
    ]
}

fn msg_shard_options_got_bytes() -> (r: Vec<u8>)
    ensures
        r@ == msg_shard_options_got(),
        is_ascii_bytes(r@),
{
    let r: Vec<u8> = vec![
        0x20u8, 0x73, 0x68, 0x61, 0x72, 0x64, 0x20, 0x6f, 0x70, 0x74, 0x69, 0x6f, 0x6e, 0x73, 0x2c,
        0x20, 0x67, 0x6f, 0x74, 0x20,
    ];
    assert(r@ =~= msg_shard_options_got());
    r
}

/// `"Insufficient shards for reconstruction: found "` as bytes.
pub open spec fn msg_insufficient() -> Seq<u8> {
    seq![
        0x49u8, 0x6e, 0x73, 0x75, 0x66, 0x66, 0x69, 0x63, 0x69, 0x65, 0x6e, 0x74, 0x20, 0x73, 0x68,
        0x61, 0x72, 0x64, 0x73, 0x20, 0x66, 0x6f, 0x72, 0x20, 0x72, 0x65, 0x63, 0x6f, 0x6e, 0x73,
        0x74, 0x72, 0x75, 0x63, 0x74, 0x69, 0x6f, 0x6e, 0x3a, 0x20, 0x66, 0x6f, 0x75, 0x6e, 0x64,
        0x20,
    ]
}

fn msg_insufficient_bytes() -> (r: Vec<u8>)
    ensures
        r@ == msg_insufficient(),
        is_ascii_bytes(r@),
{
    let r: Vec<u8> = vec![
        0x49u8, 0x6e, 0x73, 0x75, 0x66, 0x66, 0x69, 0x63, 0x69, 0x65, 0x6e, 0x74, 0x20, 0x73, 0x68,
        0x61, 0x72, 0x64, 0x73, 0x20, 0x66, 0x6f, 0x72, 0x20, 0x72, 0x65, 0x63, 0x6f, 0x6e, 0x73,
        0x74, 0x72, 0x75, 0x63, 0x74, 0x69, 0x6f, 0x6e, 0x3a, 0x20, 0x66, 0x6f, 0x75, 0x6e, 0x64,
        0x20,
    ];
    assert(r@ =~= msg_insufficient());
    r
}

/// `", needed "` as bytes.
pub open spec fn msg_needed() -> Seq<u8> {
    seq![
        0x2cu8, 0x20, 0x6e, 0x65, 0x65, 0x64, 0x65, 0x64, 0x20,
    ]
}

fn msg_needed_bytes() -> (r: Vec<u8>)
    ensures
        r@ == msg_needed(),
        is_ascii_bytes(r@),
{
    let r: Vec<u8> = vec![
        0x2cu8, 0x20, 0x6e, 0x65, 0x65, 0x64, 0x65, 0x64, 0x20,
    ];
    assert(r@ =~= msg_needed());
    r
}

/// `"Galois submatrix is singular; reconstruction failed"` as bytes.
pub open spec fn msg_singular() -> Seq<u8> {
    seq![
        0x47u8, 0x61, 0x6c, 0x6f, 0x69, 0x73, 0x20, 0x73, 0x75, 0x62, 0x6d, 0x61, 0x74, 0x72, 0x69,
        0x78, 0x20, 0x69, 0x73, 0x20, 0x73, 0x69, 0x6e, 0x67, 0x75, 0x6c, 0x61, 0x72, 0x3b, 0x20,
        0x72, 0x65, 0x63, 0x6f, 0x6e, 0x73, 0x74, 0x72, 0x75, 0x63, 0x74, 0x69, 0x6f, 0x6e, 0x20,
        0x66, 0x61, 0x69, 0x6c, 0x65, 0x64,
    ]
}

fn msg_singular_bytes() -> (r: Vec<u8>)
    ensures
        r@ == msg_singular(),
        is_ascii_bytes(r@),
{
    let r: Vec<u8> = vec![
        0x47u8, 0x61, 0x6c, 0x6f, 0x69, 0x73, 0x20, 0x73, 0x75, 0x62, 0x6d, 0x61, 0x74, 0x72, 0x69,
        0x78, 0x20, 0x69, 0x73, 0x20, 0x73, 0x69, 0x6e, 0x67, 0x75, 0x6c, 0x61, 0x72, 0x3b, 0x20,
        0x72, 0x65, 0x63, 0x6f, 0x6e, 0x73, 0x74, 0x72, 0x75, 0x63, 0x74, 0x69, 0x6f, 0x6e, 0x20,
        0x66, 0x61, 0x69, 0x6c, 0x65, 0x64,
    ];
    assert(r@ =~= msg_singular());
    r
}

/// `"Expected {k} data shards, got {got}"`.
pub open spec fn expected_data_shards_message(k: nat, got: nat) -> Seq<u8> {
    msg_expected() + decimal(k) + msg_data_shards_got() + decimal(got)
}

/// `"Expected {n} shard options, got {got}"`.
pub open spec fn expected_options_message(n: nat, got: nat) -> Seq<u8> {
    msg_expected() + decimal(n) + msg_shard_options_got() + decimal(got)
}

/// `"Insufficient shards for reconstruction: found {found}, needed {k}"`.
pub open spec fn insufficient_message(found: nat, k: nat) -> Seq<u8> {
    msg_insufficient() + decimal(found) + msg_needed() + decimal(k)
}

/// `prefix + decimal(x) + middle + decimal(y)` as a `String`.
fn two_number_message(prefix: Vec<u8>, x: u64, middle: Vec<u8>, y: u64) -> (s: String)
    requires
        is_ascii_bytes(prefix@),
        is_ascii_bytes(middle@),
    ensures
        s@ == ascii_chars(prefix@ + decimal(x as nat) + middle@ + decimal(y as nat)),
{
    let mut out = prefix;
    push_decimal(&mut out, x);
    crate::bytes::push_all(&mut out, middle.as_slice());
    push_decimal(&mut out, y);
    proof {
        lemma_decimal_ascii(x as nat);
        lemma_decimal_ascii(y as nat);
        crate::text::lemma_ascii_concat(prefix@, decimal(x as nat));
        crate::text::lemma_ascii_concat(prefix@ + decimal(x as nat), middle@);
        crate::text::lemma_ascii_concat(prefix@ + decimal(x as nat) + middle@, decimal(y as nat));
    }
    string_from_ascii(out)
}

/// The bytes of each shard.
pub open spec fn slices_view(v: Seq<&[u8]>) -> Seq<Seq<u8>> {
    v.map_values(|s: &[u8]| s@)
}

/// Whether all shards have the length of the first.
pub open spec fn same_lengths(rows: Seq<Seq<u8>>) -> bool {
    forall|i: int| 0 <= i < rows.len() ==> #[trigger] rows[i].len() == rows[0].len()
}

impl ReedSolomon16_10 {
    /// Encodes `k` equally long data shards into `n` shards: shard `r` is the
    /// generator row `r` applied bytewise to the data shards.
    pub fn encode(&self, data_shards: &[&[u8]]) -> (r: Result<Vec<Vec<u8>>, String>)
        requires
            data_shards@.len() == self.k ==> self.k >= 1 && self.shape_ok(),
        ensures
            data_shards@.len() != self.k ==> (r matches Err(e) && e@ == ascii_chars(
                expected_data_shards_message(self.k as nat, data_shards@.len()),
            )),
            data_shards@.len() == self.k && !same_lengths(slices_view(data_shards@)) ==> (r matches Err(
                e,
            ) && e@ == ascii_chars(msg_identical_length())),
            data_shards@.len() == self.k && same_lengths(slices_view(data_shards@)) ==> (r matches Ok(
                shards,
            ) && encoded_by(self.generator(), self.n as nat, self.k as nat, slices_view(data_shards@), rows_view(shards@))),
            self.k == 10 && self.n == 16 && self.generator() == systematic_generator() && data_shards@.len()
                == 10 && same_lengths(slices_view(data_shards@)) ==> (r matches Ok(shards) && forall|i: int|
                0 <= i < 10 ==> #[trigger] shards@[i]@ == data_shards@[i]@),
    {
        if data_shards.len() != self.k {
            return Err(
                two_number_message(
                    msg_expected_bytes(),
                    self.k as u64,
                    msg_data_shards_got_bytes(),
                    data_shards.len() as u64,
                ),
            );
        }
        let ghost data = slices_view(data_shards@);
        let chunk_len = data_shards[0].len();
        let mut i: usize = 0;
        while i < data_shards.len()
            invariant
                i <= data_shards@.len(),
                data == slices_view(data_shards@),
                chunk_len == data[0].len(),
                data_shards@.len() >= 1,
                data_shards@.len() == self.k,
                forall|j: int| 0 <= j < i ==> #[trigger] data[j].len() == chunk_len,
            decreases data_shards@.len() - i,
        {
            if data_shards[i].len() != chunk_len {
                assert(data[i as int].len() != data[0].len());
                assert(!same_lengths(data));
                let msg = msg_identical_length_bytes();
                return Err(string_from_ascii(msg));
            }
            i = i + 1;
        }
        assert(same_lengths(data));
        let mut all_shards: Vec<Vec<u8>> = Vec::new();
        let mut row: usize = 0;
        while row < self.n
            invariant
                self.shape_ok(),
                self.k >= 1,
                data_shards@.len() == self.k,
                data == slices_view(data_shards@),
                same_lengths(data),
                chunk_len == data[0].len(),
                row <= self.n,
                all_shards@.len() == row,
                forall|r: int| 0 <= r < row ==> #[trigger] encoded_row(self.generator()[r], self.k as nat, data, all_shards@[r]@),
            decreases self.n - row,
        {
            let mut shard: Vec<u8> = Vec::new();
            crate::bytes::push_zeros(&mut shard, chunk_len);
            let ghost coefs = self.generator()[row as int];
            assert forall|b: int| 0 <= b < chunk_len implies #[trigger] shard@[b] == col_dot(coefs, data, b, 0) by {}
            let mut col: usize = 0;
            while col < self.k
                invariant
                    self.shape_ok(),
                    data_shards@.len() == self.k,
                    data == slices_view(data_shards@),
                    same_lengths(data),
                    chunk_len == data[0].len(),
                    row < self.n,
                    coefs == self.generator()[row as int],
                    col <= self.k,
                    shard@.len() == chunk_len,
                    forall|b: int| 0 <= b < chunk_len ==> #[trigger] shard@[b] == col_dot(coefs, data, b, col as nat),
                decreases self.k - col,
            {
                let coef = self.gen_matrix[row][col];
                let d_chunk = data_shards[col];
                assert(d_chunk@ == data[col as int]);
                assert(data[col as int].len() == chunk_len);
                let mut b: usize = 0;
                while b < d_chunk.len()
                    invariant
                        d_chunk@ == data[col as int],
                        d_chunk@.len() == chunk_len,
                        shard@.len() == chunk_len,
                        col < data.len(),
                        coef == coefs[col as int],
                        b <= chunk_len,
                        forall|x: int| 0 <= x < b ==> #[trigger] shard@[x] == col_dot(coefs, data, x, (col + 1) as nat),
                        forall|x: int| b <= x < chunk_len ==> #[trigger] shard@[x] == col_dot(coefs, data, x, col as nat),
                    decreases chunk_len - b,
                {
                    let prod = gf_mul_0x1d(coef, d_chunk[b]);
                    let v = shard[b] ^ prod;
                    shard.set(b, v);
                    assert(byte_at(data[col as int], b as int) == d_chunk@[b as int]);
                    b = b + 1;
                }
                col = col + 1;
            }
            all_shards.push(shard);
            row = row + 1;
        }
        assert(rows_view(all_shards@).len() == self.n);
        assert forall|r: int| 0 <= r < self.n implies #[trigger] encoded_row(self.generator()[r], self.k as nat, data, rows_view(all_shards@)[r]) by {
            assert(rows_view(all_shards@)[r] == all_shards@[r]@);
        }
        proof {
            if self.k == 10 && self.n == 16 && self.generator() == systematic_generator() {
                lemma_systematic_keeps_data(data, rows_view(all_shards@));
                assert forall|i: int| 0 <= i < 10 implies #[trigger] all_shards@[i]@ == data_shards@[i]@ by {
                    assert(rows_view(all_shards@)[i] == all_shards@[i]@);
                    assert(data[i] == data_shards@[i]@);
                }
            }
        }
        Ok(all_shards)
    }
}

/// Encoding with the systematic generator keeps the data: the first ten
/// shards are the ten data shards themselves.
pub proof fn lemma_systematic_keeps_data(data: Seq<Seq<u8>>, shards: Seq<Seq<u8>>)
    requires
        data.len() == 10,
        same_lengths(data),
        encoded_by(systematic_generator(), 16, 10, data, shards),
    ensures
        forall|i: int| 0 <= i < 10 ==> #[trigger] shards[i] == data[i],
{
    assert forall|i: int| 0 <= i < 10 implies #[trigger] shards[i] == data[i] by {
        let g = systematic_generator()[i];
        assert(encoded_row(g, 10, data, shards[i]));
        assert forall|b: int| 0 <= b < shards[i].len() implies shards[i][b] == data[i][b] by {
            assert(forall|j: int| 0 <= j < 10 ==> #[trigger] g[j] == if j == i { 1u8 } else { 0u8 });
            lemma_col_dot_unit(g, data, b, 10, i);
            assert(data[i].len() == data[0].len());
        }
        assert(shards[i] =~= data[i]);
    }
}

/// Shard `out` is the generator row `coefs` applied to the data bytewise.
pub open spec fn encoded_row(coefs: Seq<u8>, k: nat, data: Seq<Seq<u8>>, out: Seq<u8>) -> bool {
    &&& out.len() == data[0].len()
    &&& forall|b: int| 0 <= b < out.len() ==> #[trigger] out[b] == col_dot(coefs, data, b, k)
}

/// `shards` are the `n` shards that the first `n` generator rows make of `data`.
pub open spec fn encoded_by(g: Seq<Seq<u8>>, n: nat, k: nat, data: Seq<Seq<u8>>, shards: Seq<Seq<u8>>) -> bool {
    &&& shards.len() == n
    &&& forall|r: int| 0 <= r < n ==> #[trigger] encoded_row(g[r], k, data, shards[r])
}

pub proof fn lemma_xor_swap4(a: u8, b: u8, c: u8, d: u8)
    ensures
        (a ^ b) ^ (c ^ d) == (a ^ c) ^ (b ^ d),
{
    assert((a ^ b) ^ (c ^ d) == (a ^ c) ^ (b ^ d)) by (bit_vector);
}

/// `col_dot` only reads the first `n` coefficients.
pub(crate) proof fn lemma_col_dot_ext(u: Seq<u8>, v: Seq<u8>, rows: Seq<Seq<u8>>, b: int, n: nat)
    requires
        n <= u.len(),
        n <= v.len(),
        forall|j: int| 0 <= j < n ==> #[trigger] u[j] == v[j],
    ensures
        col_dot(u, rows, b, n) == col_dot(v, rows, b, n),
    decreases n,
{
    if n > 0 {
        lemma_col_dot_ext(u, v, rows, b, (n - 1) as nat);
    }
}

/// With all coefficients zero the sum is zero.
proof fn lemma_col_dot_zero(u: Seq<u8>, rows: Seq<Seq<u8>>, b: int, n: nat)
    requires
        n <= u.len(),
        forall|j: int| 0 <= j < n ==> #[trigger] u[j] == 0u8,
    ensures
        col_dot(u, rows, b, n) == 0u8,
    decreases n,
{
    if n > 0 {
        lemma_col_dot_zero(u, rows, b, (n - 1) as nat);
        lemma_gf_mul_zero(byte_at(rows[n - 1], b));
        lemma_xor_zero(0u8);
    }
}

/// Scaling every coefficient by `s` scales the sum by `s`.
proof fn lemma_col_dot_scale(u: Seq<u8>, v: Seq<u8>, s: u8, rows: Seq<Seq<u8>>, b: int, n: nat)
    requires
        n <= u.len(),
        n <= v.len(),
        forall|j: int| 0 <= j < n ==> #[trigger] v[j] == gf_mul(u[j], s),
    ensures
        col_dot(v, rows, b, n) == gf_mul(col_dot(u, rows, b, n), s),
    decreases n,
{
    if n == 0 {
        lemma_gf_mul_zero(s);
    } else {
        let m = (n - 1) as nat;
        lemma_col_dot_scale(u, v, s, rows, b, m);
        let x = byte_at(rows[m as int], b);
        lemma_gf_mul_swap(u[m as int], s, x);
        lemma_gf_mul_distrib_left(col_dot(u, rows, b, m), gf_mul(u[m as int], x), s);
    }
}

/// Adding coefficient vectors adds the sums.
proof fn lemma_col_dot_add(u: Seq<u8>, w: Seq<u8>, v: Seq<u8>, rows: Seq<Seq<u8>>, b: int, n: nat)
    requires
        n <= u.len(),
        n <= v.len(),
        n <= w.len(),
        forall|j: int| 0 <= j < n ==> #[trigger] v[j] == u[j] ^ w[j],
    ensures
        col_dot(v, rows, b, n) == col_dot(u, rows, b, n) ^ col_dot(w, rows, b, n),
    decreases n,
{
    if n == 0 {
        lemma_xor_zero(0u8);
    } else {
        let m = (n - 1) as nat;
        lemma_col_dot_add(u, w, v, rows, b, m);
        let x = byte_at(rows[m as int], b);
        lemma_gf_mul_distrib_left(u[m as int], w[m as int], x);
        lemma_xor_swap4(
            col_dot(u, rows, b, m),
            col_dot(w, rows, b, m),
            gf_mul(u[m as int], x),
            gf_mul(w[m as int], x),
        );
    }
}

/// `v = u + f * w` coefficientwise gives `sum(v) = sum(u) + f * sum(w)`.
proof fn lemma_col_dot_axpy(
    u: Seq<u8>,
    w: Seq<u8>,
    v: Seq<u8>,
    f: u8,
    rows: Seq<Seq<u8>>,
    b: int,
    n: nat,
)
    requires
        n <= u.len(),
        n <= v.len(),
        n <= w.len(),
        forall|j: int| 0 <= j < n ==> #[trigger] v[j] == u[j] ^ gf_mul(f, w[j]),
    ensures
        col_dot(v, rows, b, n) == col_dot(u, rows, b, n) ^ gf_mul(f, col_dot(w, rows, b, n)),
    decreases n,
{
    let fw = Seq::new(n, |j: int| gf_mul(w[j], f));
    assert forall|j: int| 0 <= j < n implies #[trigger] v[j] == u[j] ^ fw[j] by {
        lemma_gf_mul_comm(f, w[j]);
    }
    lemma_col_dot_add(u, fw, v, rows, b, n);
    lemma_col_dot_scale(w, fw, f, rows, b, n);
    lemma_gf_mul_comm(f, col_dot(w, rows, b, n));
}

/// A unit coefficient vector picks out one row.
pub(crate) proof fn lemma_col_dot_unit(u: Seq<u8>, rows: Seq<Seq<u8>>, b: int, n: nat, i: int)
    requires
        n <= u.len(),
        0 <= i < n,
        forall|j: int| 0 <= j < n ==> #[trigger] u[j] == if j == i { 1u8 } else { 0u8 },
    ensures
        col_dot(u, rows, b, n) == byte_at(rows[i], b),
    decreases n,
{
    let m = (n - 1) as nat;
    let x = byte_at(rows[m as int], b);
    if m as int == i {
        lemma_col_dot_zero(u, rows, b, m);
        lemma_gf_mul_one(x);
        lemma_xor_zero(x);
    } else {
        lemma_col_dot_unit(u, rows, b, m, i);
        lemma_gf_mul_zero(x);
        lemma_xor_zero(byte_at(rows[i], b));
    }
}

/// The bytes of a shard that may be missing (empty when missing).
pub open spec fn opt_bytes(o: Option<Vec<u8>>) -> Seq<u8> {
    match o {
        Some(v) => v@,
        None => Seq::empty(),
    }
}

/// The indices below `upto` whose shard is present, in order.
pub open spec fn present_indices(surv: Seq<Option<Vec<u8>>>, upto: int) -> Seq<int>
    decreases upto,
{
    if upto <= 0 {
        Seq::empty()
    } else {
        let p = present_indices(surv, upto - 1);
        if surv[upto - 1] is Some {
            p.push(upto - 1)
        } else {
            p
        }
    }
}

/// The first `k` present indices (all of them when fewer are present).
pub open spec fn chosen_indices(surv: Seq<Option<Vec<u8>>>, k: nat) -> Seq<int> {
    let p = present_indices(surv, surv.len() as int);
    if p.len() > k {
        p.take(k as int)
    } else {
        p
    }
}

/// The generator rows of the chosen shards, cut to `k` columns.
pub open spec fn chosen_rows(g: Seq<Seq<u8>>, a: Seq<int>, k: nat) -> Seq<Seq<u8>> {
    a.map_values(|j: int| g[j].take(k as int))
}

/// The bytes of the chosen shards.
pub open spec fn chosen_shards(surv: Seq<Option<Vec<u8>>>, a: Seq<int>) -> Seq<Seq<u8>> {
    a.map_values(|j: int| opt_bytes(surv[j]))
}

/// `nm` is a `k x k` matrix with `nm * s0 = I` over GF(2^8).
pub open spec fn is_left_inverse(nm: Seq<Seq<u8>>, s0: Seq<Seq<u8>>, k: nat) -> bool {
    &&& nm.len() == k
    &&& forall|r: int| 0 <= r < k ==> #[trigger] nm[r].len() == k
    &&& forall|r: int, c: int|
        0 <= r < k && 0 <= c < k ==> #[trigger] col_dot(nm[r], s0, c, k) == if r == c {
            1u8
        } else {
            0u8
        }
}

/// `rec` is what the elimination path of `decode` returns: `k` shards of the
/// first chosen shard's length, each the product of a left inverse of the
/// chosen generator rows with the chosen shards.
pub open spec fn decode_solution(
    g: Seq<Seq<u8>>,
    k: nat,
    surv: Seq<Option<Vec<u8>>>,
    rec: Seq<Seq<u8>>,
) -> bool {
    let a = chosen_indices(surv, k);
    let chunk = opt_bytes(surv[a[0]]).len();
    &&& rec.len() == k
    &&& forall|i: int| 0 <= i < k ==> #[trigger] rec[i].len() == chunk
    &&& exists|nm: Seq<Seq<u8>>|
        #![trigger is_left_inverse(nm, chosen_rows(g, a, k), k)]
        is_left_inverse(nm, chosen_rows(g, a, k), k) && forall|i: int, b: int|
            0 <= i < k && 0 <= b < chunk ==> #[trigger] rec[i][b] == col_dot(
                nm[i],
                chosen_shards(surv, a),
                b,
                k,
            )
}

/// The views of a vector of indices.
pub open spec fn index_view(v: Seq<usize>) -> Seq<int> {
    v.map_values(|x: usize| x as int)
}

proof fn lemma_present_prefix(surv: Seq<Option<Vec<u8>>>, m: int, m2: int)
    requires
        0 <= m <= m2,
    ensures
        present_indices(surv, m).len() <= present_indices(surv, m2).len(),
        present_indices(surv, m2).take(present_indices(surv, m).len() as int) == present_indices(surv, m),
    decreases m2,
{
    if m2 > m {
        lemma_present_prefix(surv, m, m2 - 1);
        let p = present_indices(surv, m2 - 1);
        assert(present_indices(surv, m2).take(p.len() as int) =~= p);
        assert(present_indices(surv, m2).take(present_indices(surv, m).len() as int) =~= p.take(
            present_indices(surv, m).len() as int,
        ));
    } else {
        assert(present_indices(surv, m).take(present_indices(surv, m).len() as int) =~= present_indices(surv, m));
    }
}

pub proof fn lemma_present_bounds(surv: Seq<Option<Vec<u8>>>, m: int)
    requires
        0 <= m <= surv.len(),
    ensures
        forall|j: int|
            0 <= j < present_indices(surv, m).len() ==> 0 <= #[trigger] present_indices(surv, m)[j] < m
                && surv[present_indices(surv, m)[j]] is Some,
        forall|i: int, j: int|
            0 <= i < j < present_indices(surv, m).len() ==> #[trigger] present_indices(surv, m)[i]
                < #[trigger] present_indices(surv, m)[j],
        present_indices(surv, m).len() <= m,
    decreases m,
{
    if m > 0 {
        lemma_present_bounds(surv, m - 1);
    }
}

/// A copy of the first `len` bytes of `v`.
fn copy_prefix(v: &Vec<u8>, len: usize) -> (r: Vec<u8>)
    requires
        len <= v@.len(),
    ensures
        r@ == v@.take(len as int),
{
    let r = crate::bytes::copy_range(v.as_slice(), 0, len);
    assert(r@ =~= v@.take(len as int));
    r
}

fn scale_row(row: &Vec<u8>, s: u8, k: usize) -> (out: Vec<u8>)
    requires
        row@.len() >= k,
    ensures
        out@.len() == k,
        forall|j: int| 0 <= j < k ==> #[trigger] out@[j] == gf_mul(row@[j], s),
{
    let mut out: Vec<u8> = Vec::new();
    let mut j: usize = 0;
    while j < k
        invariant
            j <= k <= row@.len(),
            out@.len() == j,
            forall|x: int| 0 <= x < j ==> #[trigger] out@[x] == gf_mul(row@[x], s),
        decreases k - j,
    {
        out.push(gf_mul_0x1d(row[j], s));
        j = j + 1;
    }
    out
}

fn axpy_row(dst: &Vec<u8>, src: &Vec<u8>, f: u8, k: usize) -> (out: Vec<u8>)
    requires
        dst@.len() >= k,
        src@.len() >= k,
    ensures
        out@.len() == k,
        forall|j: int| 0 <= j < k ==> #[trigger] out@[j] == dst@[j] ^ gf_mul(f, src@[j]),
{
    let mut out: Vec<u8> = Vec::new();
    let mut j: usize = 0;
    while j < k
        invariant
            j <= k <= dst@.len(),
            k <= src@.len(),
            out@.len() == j,
            forall|x: int| 0 <= x < j ==> #[trigger] out@[x] == dst@[x] ^ gf_mul(f, src@[x]),
        decreases k - j,
    {
        out.push(dst[j] ^ gf_mul_0x1d(f, src[j]));
        j = j + 1;
    }
    out
}

/// `nm * s0 = m` on the first `k` columns.
pub open spec fn product_holds(m: Seq<Seq<u8>>, nm: Seq<Seq<u8>>, s0: Seq<Seq<u8>>, k: nat) -> bool {
    forall|r: int, c: int|
        0 <= r < k && 0 <= c < k ==> #[trigger] col_dot(nm[r], s0, c, k) == m[r][c]
}

/// The first `t` columns of `m` are unit columns.
pub open spec fn unit_columns(m: Seq<Seq<u8>>, k: nat, t: int) -> bool {
    forall|r: int, c: int|
        0 <= r < k && 0 <= c < t ==> #[trigger] m[r][c] == if r == c {
            1u8
        } else {
            0u8
        }
}

/// `k` rows of at least `k` entries.
pub open spec fn square(m: Seq<Seq<u8>>, k: nat) -> bool {
    &&& m.len() == k
    &&& forall|r: int| 0 <= r < k ==> #[trigger] m[r].len() >= k
}

proof fn lemma_swap_step(m: Seq<Seq<u8>>, nm: Seq<Seq<u8>>, s0: Seq<Seq<u8>>, k: nat, t: int, p: int)
    requires
        square(m, k),
        square(nm, k),
        product_holds(m, nm, s0, k),
        unit_columns(m, k, t),
        0 <= t <= p < k,
    ensures
        ({
            let m2 = m.update(t, m[p]).update(p, m[t]);
            let nm2 = nm.update(t, nm[p]).update(p, nm[t]);
            &&& square(m2, k)
            &&& square(nm2, k)
            &&& product_holds(m2, nm2, s0, k)
            &&& unit_columns(m2, k, t)
            &&& m2[t] == m[p]
        }),
{
    let m2 = m.update(t, m[p]).update(p, m[t]);
    let nm2 = nm.update(t, nm[p]).update(p, nm[t]);
    assert forall|r: int| 0 <= r < k implies m2[r] == m[if r == p { t } else if r == t { p } else { r }]
        && nm2[r] == nm[if r == p { t } else if r == t { p } else { r }] by {}
    assert forall|r: int, c: int| 0 <= r < k && 0 <= c < k implies #[trigger] col_dot(nm2[r], s0, c, k) == m2[r][c] by {
        let q = if r == p { t } else if r == t { p } else { r };
        assert(col_dot(nm[q], s0, c, k) == m[q][c]);
    }
    assert forall|r: int, c: int| 0 <= r < k && 0 <= c < t implies #[trigger] m2[r][c] == if r == c {
        1u8
    } else {
        0u8
    } by {
        let q = if r == p { t } else if r == t { p } else { r };
        assert(m[q][c] == if q == c { 1u8 } else { 0u8 });
    }
}

proof fn lemma_scale_step(
    m: Seq<Seq<u8>>,
    nm: Seq<Seq<u8>>,
    s0: Seq<Seq<u8>>,
    k: nat,
    t: int,
    s: u8,
    mrow: Seq<u8>,
    nrow: Seq<u8>,
)
    requires
        square(m, k),
        square(nm, k),
        product_holds(m, nm, s0, k),
        unit_columns(m, k, t),
        0 <= t < k,
        mrow.len() == k,
        nrow.len() == k,
        forall|j: int| 0 <= j < k ==> #[trigger] mrow[j] == gf_mul(m[t][j], s),
        forall|j: int| 0 <= j < k ==> #[trigger] nrow[j] == gf_mul(nm[t][j], s),
    ensures
        square(m.update(t, mrow), k),
        square(nm.update(t, nrow), k),
        product_holds(m.update(t, mrow), nm.update(t, nrow), s0, k),
        unit_columns(m.update(t, mrow), k, t),
{
    let m2 = m.update(t, mrow);
    let nm2 = nm.update(t, nrow);
    assert forall|r: int, c: int| 0 <= r < k && 0 <= c < k implies #[trigger] col_dot(nm2[r], s0, c, k) == m2[r][c] by {
        if r == t {
            lemma_col_dot_scale(nm[t], nrow, s, s0, c, k);
            assert(col_dot(nm[t], s0, c, k) == m[t][c]);
        } else {
            assert(col_dot(nm[r], s0, c, k) == m[r][c]);
        }
    }
    assert forall|r: int, c: int| 0 <= r < k && 0 <= c < t implies #[trigger] m2[r][c] == if r == c {
        1u8
    } else {
        0u8
    } by {
        assert(m[r][c] == if r == c { 1u8 } else { 0u8 });
        if r == t {
            lemma_gf_mul_zero(s);
        }
    }
}

proof fn lemma_axpy_step(
    m: Seq<Seq<u8>>,
    nm: Seq<Seq<u8>>,
    s0: Seq<Seq<u8>>,
    k: nat,
    t: int,
    r: int,
    f: u8,
    mrow: Seq<u8>,
    nrow: Seq<u8>,
)
    requires
        square(m, k),
        square(nm, k),
        product_holds(m, nm, s0, k),
        unit_columns(m, k, t),
        0 <= t < k,
        0 <= r < k,
        r != t,
        mrow.len() == k,
        nrow.len() == k,
        forall|j: int| 0 <= j < k ==> #[trigger] mrow[j] == m[r][j] ^ gf_mul(f, m[t][j]),
        forall|j: int| 0 <= j < k ==> #[trigger] nrow[j] == nm[r][j] ^ gf_mul(f, nm[t][j]),
    ensures
        square(m.update(r, mrow), k),
        square(nm.update(r, nrow), k),
        product_holds(m.update(r, mrow), nm.update(r, nrow), s0, k),
        unit_columns(m.update(r, mrow), k, t),
{
    let m2 = m.update(r, mrow);
    let nm2 = nm.update(r, nrow);
    assert forall|x: int, c: int| 0 <= x < k && 0 <= c < k implies #[trigger] col_dot(nm2[x], s0, c, k) == m2[x][c] by {
        if x == r {
            lemma_col_dot_axpy(nm[r], nm[t], nrow, f, s0, c, k);
            assert(col_dot(nm[t], s0, c, k) == m[t][c]);
            assert(col_dot(nm[r], s0, c, k) == m[r][c]);
        } else {
            assert(col_dot(nm[x], s0, c, k) == m[x][c]);
        }
    }
    assert forall|x: int, c: int| 0 <= x < k && 0 <= c < t implies #[trigger] m2[x][c] == if x == c {
        1u8
    } else {
        0u8
    } by {
        assert(m[x][c] == if x == c { 1u8 } else { 0u8 });
        if x == r {
            assert(m[t][c] == 0u8);
            lemma_gf_mul_zero(f);
            lemma_xor_zero(m[r][c]);
        }
    }
}

/// A byte vector as a one-column matrix.
pub open spec fn column(z: Seq<u8>) -> Seq<Seq<u8>> {
    z.map_values(|v: u8| seq![v])
}

/// `x` is a non-zero vector of length `k` that the first `k` rows of `s0`
/// send to zero.
pub open spec fn kernel_vector(s0: Seq<Seq<u8>>, k: nat, x: Seq<u8>) -> bool {
    &&& x.len() == k
    &&& exists|c: int| 0 <= c < k && x[c] != 0u8
    &&& forall|j: int| 0 <= j < k ==> #[trigger] col_dot(s0[j], column(x), 0, k) == 0u8
}

/// The first `k` rows of `s0` are singular: some non-zero vector is sent to
/// zero.
pub open spec fn has_kernel(s0: Seq<Seq<u8>>, k: nat) -> bool {
    exists|x: Seq<u8>| #[trigger] kernel_vector(s0, k, x)
}

/// `nm * z = 0` on the first `k` rows.
pub open spec fn annihilates(nm: Seq<Seq<u8>>, z: Seq<u8>, k: nat) -> bool {
    forall|r: int| 0 <= r < k ==> #[trigger] col_dot(nm[r], column(z), 0, k) == 0u8
}

/// `nm * z = 0` holds of no non-zero vector `z` of length `k`.
pub open spec fn injective_rows(nm: Seq<Seq<u8>>, k: nat) -> bool {
    forall|z: Seq<u8>|
        z.len() == k && #[trigger] annihilates(nm, z, k) ==> (forall|j: int| 0 <= j < k ==> #[trigger] z[j] == 0u8)
}

proof fn lemma_xor_cases(a: u8, b: u8, c: u8)
    ensures
        (a ^ b) ^ 0u8 == a ^ b,
        (0u8 ^ b) ^ c == c ^ b,
        (a ^ 0u8) ^ c == a ^ c,
{
    assert((a ^ b) ^ 0u8 == a ^ b && (0u8 ^ b) ^ c == c ^ b && (a ^ 0u8) ^ c == a ^ c) by (bit_vector);
}

/// A sum whose terms vanish outside `c1` and `c2` is the sum of those two.
proof fn lemma_col_dot_two_terms(u: Seq<u8>, rows: Seq<Seq<u8>>, b: int, n: nat, c1: int, c2: int)
    requires
        c1 != c2,
        forall|j: int|
            0 <= j < n && j != c1 && j != c2 ==> #[trigger] gf_mul(u[j], byte_at(rows[j], b)) == 0u8,
    ensures
        col_dot(u, rows, b, n) == (if 0 <= c1 < n {
            gf_mul(u[c1], byte_at(rows[c1], b))
        } else {
            0u8
        }) ^ (if 0 <= c2 < n {
            gf_mul(u[c2], byte_at(rows[c2], b))
        } else {
            0u8
        }),
    decreases n,
{
    if n == 0 {
        lemma_xor_zero(0u8);
    } else {
        let m = (n - 1) as nat;
        lemma_col_dot_two_terms(u, rows, b, m, c1, c2);
        let t1 = gf_mul(u[c1], byte_at(rows[c1], b));
        let t2 = gf_mul(u[c2], byte_at(rows[c2], b));
        let a1 = if 0 <= c1 < m { t1 } else { 0u8 };
        let a2 = if 0 <= c2 < m { t2 } else { 0u8 };
        lemma_xor_cases(a1, a2, gf_mul(u[m as int], byte_at(rows[m as int], b)));
        lemma_xor_comm(a1, a2);
    }
}

/// A sum over zero entries is zero.
pub(crate) proof fn lemma_col_dot_zero_rows(u: Seq<u8>, rows: Seq<Seq<u8>>, b: int, n: nat)
    requires
        forall|j: int| 0 <= j < n ==> #[trigger] byte_at(rows[j], b) == 0u8,
    ensures
        col_dot(u, rows, b, n) == 0u8,
{
    assert forall|j: int| 0 <= j < n implies #[trigger] gf_mul(u[j], byte_at(rows[j], b)) == 0u8 by {
        lemma_gf_mul_zero(u[j]);
    }
    lemma_col_dot_two_terms(u, rows, b, n, -1, -2);
    lemma_xor_zero(0u8);
}

/// The identity matrix is injective.
proof fn lemma_injective_identity(nm: Seq<Seq<u8>>, k: nat)
    requires
        nm.len() == k,
        forall|r: int, c: int|
            0 <= r < k && 0 <= c < k ==> #[trigger] nm[r][c] == if r == c { 1u8 } else { 0u8 },
        forall|r: int| 0 <= r < k ==> #[trigger] nm[r].len() == k,
    ensures
        injective_rows(nm, k),
{
    assert forall|z: Seq<u8>|
        z.len() == k && annihilates(nm, z, k)
        implies (forall|j: int| 0 <= j < k ==> #[trigger] z[j] == 0u8) by {
        assert forall|j: int| 0 <= j < k implies #[trigger] z[j] == 0u8 by {
            assert(col_dot(nm[j], column(z), 0, k) == 0u8);
            assert forall|c: int| 0 <= c < k implies #[trigger] nm[j][c] == if c == j { 1u8 } else { 0u8 } by {
                assert(nm[j][c] == if j == c { 1u8 } else { 0u8 });
            }
            lemma_col_dot_unit(nm[j], column(z), 0, k, j);
            assert(column(z)[j] == seq![z[j]]);
            assert(byte_at(column(z)[j], 0) == z[j]);
        }
    }
}

/// Swapping two rows keeps a matrix injective.
proof fn lemma_injective_swap(nm: Seq<Seq<u8>>, k: nat, t: int, p: int)
    requires
        injective_rows(nm, k),
        nm.len() == k,
        0 <= t <= p < k,
    ensures
        injective_rows(nm.update(t, nm[p]).update(p, nm[t]), k),
{
    let nm2 = nm.update(t, nm[p]).update(p, nm[t]);
    assert forall|z: Seq<u8>|
        z.len() == k && annihilates(nm2, z, k)
        implies (forall|j: int| 0 <= j < k ==> #[trigger] z[j] == 0u8) by {
        assert forall|r: int| 0 <= r < k implies #[trigger] col_dot(nm[r], column(z), 0, k) == 0u8 by {
            if r == p {
                assert(nm2[t] == nm[r]);
                assert(col_dot(nm2[t], column(z), 0, k) == 0u8);
            } else if r == t {
                assert(nm2[p] == nm[r]);
                assert(col_dot(nm2[p], column(z), 0, k) == 0u8);
            } else {
                assert(nm2[r] == nm[r]);
                assert(col_dot(nm2[r], column(z), 0, k) == 0u8);
            }
        }
        assert(annihilates(nm, z, k));
    }
}

/// `gf_mul(a, s) == 0` with `s` non-zero forces `a == 0`.
pub(crate) proof fn lemma_gf_mul_cancel(a: u8, s: u8)
    requires
        s != 0,
        gf_mul(a, s) == 0u8,
    ensures
        a == 0u8,
{
    lemma_gf_inv_is_inverse(s);
    lemma_gf_mul_assoc(a, s, gf_inv(s));
    lemma_gf_mul_zero(gf_inv(s));
    lemma_gf_mul_one(a);
}

/// Scaling a row by a non-zero factor keeps a matrix injective.
proof fn lemma_injective_scale(nm: Seq<Seq<u8>>, k: nat, t: int, s: u8, nrow: Seq<u8>)
    requires
        injective_rows(nm, k),
        nm.len() == k,
        0 <= t < k,
        s != 0,
        nm[t].len() >= k,
        nrow.len() == k,
        forall|j: int| 0 <= j < k ==> #[trigger] nrow[j] == gf_mul(nm[t][j], s),
    ensures
        injective_rows(nm.update(t, nrow), k),
{
    let nm2 = nm.update(t, nrow);
    assert forall|z: Seq<u8>|
        z.len() == k && annihilates(nm2, z, k)
        implies (forall|j: int| 0 <= j < k ==> #[trigger] z[j] == 0u8) by {
        assert forall|r: int| 0 <= r < k implies #[trigger] col_dot(nm[r], column(z), 0, k) == 0u8 by {
            assert(col_dot(nm2[r], column(z), 0, k) == 0u8);
            if r == t {
                lemma_col_dot_scale(nm[t], nrow, s, column(z), 0, k);
                lemma_gf_mul_cancel(col_dot(nm[t], column(z), 0, k), s);
            }
        }
        assert(annihilates(nm, z, k));
    }
}

/// Adding a multiple of row `t` to another row keeps a matrix injective.
proof fn lemma_injective_axpy(nm: Seq<Seq<u8>>, k: nat, t: int, r: int, f: u8, nrow: Seq<u8>)
    requires
        injective_rows(nm, k),
        nm.len() == k,
        0 <= t < k,
        0 <= r < k,
        r != t,
        nm[t].len() >= k,
        nm[r].len() >= k,
        nrow.len() == k,
        forall|j: int| 0 <= j < k ==> #[trigger] nrow[j] == nm[r][j] ^ gf_mul(f, nm[t][j]),
    ensures
        injective_rows(nm.update(r, nrow), k),
{
    let nm2 = nm.update(r, nrow);
    assert forall|z: Seq<u8>|
        z.len() == k && annihilates(nm2, z, k)
        implies (forall|j: int| 0 <= j < k ==> #[trigger] z[j] == 0u8) by {
        assert forall|x: int| 0 <= x < k implies #[trigger] col_dot(nm[x], column(z), 0, k) == 0u8 by {
            assert(col_dot(nm2[x], column(z), 0, k) == 0u8);
            if x == r {
                assert(col_dot(nm2[t], column(z), 0, k) == 0u8);
                lemma_col_dot_axpy(nm[r], nm[t], nrow, f, column(z), 0, k);
                lemma_gf_mul_zero(f);
                lemma_xor_zero(col_dot(nm[r], column(z), 0, k));
            }
        }
        assert(annihilates(nm, z, k));
    }
}

/// When elimination finds no pivot in column `i` (the earlier columns being
/// unit columns and column `i` zero from row `i` down) while `nm * s0 = m`
/// with `nm` injective, `s0` has no left inverse.
proof fn lemma_no_pivot_no_inverse(m: Seq<Seq<u8>>, nm: Seq<Seq<u8>>, s0: Seq<Seq<u8>>, k: nat, i: int)
    requires
        square(m, k),
        square(nm, k),
        s0.len() == k,
        forall|j: int| 0 <= j < k ==> #[trigger] s0[j].len() == k,
        product_holds(m, nm, s0, k),
        unit_columns(m, k, i),
        0 <= i < k,
        forall|r: int| i <= r < k ==> #[trigger] m[r][i] == 0u8,
        injective_rows(nm, k),
    ensures
        forall|l: Seq<Seq<u8>>| !#[trigger] is_left_inverse(l, s0, k),
        has_kernel(s0, k),
{
    let x = Seq::new(k, |c: int| if c < i { m[c][i] } else if c == i { 1u8 } else { 0u8 });
    let cx = column(x);
    assert forall|r: int| 0 <= r < k implies #[trigger] col_dot(m[r], cx, 0, k) == 0u8 by {
        assert forall|c: int| 0 <= c < k implies #[trigger] byte_at(cx[c], 0) == x[c] by {}
        if r < i {
            assert forall|j: int| 0 <= j < k && j != r && j != i implies #[trigger] gf_mul(
                m[r][j],
                byte_at(cx[j], 0),
            ) == 0u8 by {
                if j < i {
                    assert(m[r][j] == if r == j { 1u8 } else { 0u8 });
                    lemma_gf_mul_zero(byte_at(cx[j], 0));
                } else {
                    lemma_gf_mul_zero(m[r][j]);
                }
            }
            lemma_col_dot_two_terms(m[r], cx, 0, k, r, i);
            assert(m[r][r] == 1u8);
            lemma_gf_mul_one(m[r][i]);
            lemma_xor_zero(m[r][i]);
        } else {
            assert forall|j: int| 0 <= j < k && j != i && j != -1 implies #[trigger] gf_mul(
                m[r][j],
                byte_at(cx[j], 0),
            ) == 0u8 by {
                if j < i {
                    assert(m[r][j] == if r == j { 1u8 } else { 0u8 });
                    lemma_gf_mul_zero(byte_at(cx[j], 0));
                } else {
                    lemma_gf_mul_zero(m[r][j]);
                }
            }
            lemma_col_dot_two_terms(m[r], cx, 0, k, i, -1);
            lemma_gf_mul_zero(1u8);
            lemma_xor_zero(0u8);
        }
    }
    let y = Seq::new(k, |j: int| col_dot(s0[j], cx, 0, k));
    let cy = column(y);
    assert forall|j: int| 0 <= j < k implies #[trigger] byte_at(cy[j], 0) == col_dot(s0[j], cx, 0, k) by {}
    assert forall|j: int| 0 <= j < k implies #[trigger] s0[j].len() >= k by {}
    assert forall|r: int| 0 <= r < k implies #[trigger] col_dot(nm[r], cy, 0, k) == 0u8 by {
        lemma_col_dot_exchange(nm[r], cy, s0, cx, 0, k, k);
        let pv = Seq::new(k, |c: int| col_dot(nm[r], s0, c, k));
        assert forall|c: int| 0 <= c < k implies #[trigger] pv[c] == m[r][c] by {}
        lemma_col_dot_ext(pv, m[r], cx, 0, k);
    }
    assert(y.len() == k);
    assert(annihilates(nm, y, k));
    assert(forall|j: int| 0 <= j < k ==> #[trigger] y[j] == 0u8);
    assert forall|j: int| 0 <= j < k implies #[trigger] col_dot(s0[j], column(x), 0, k) == 0u8 by {
        assert(y[j] == 0u8);
    }
    assert(x[i] != 0u8);
    assert(kernel_vector(s0, k, x));
    assert forall|l: Seq<Seq<u8>>| !#[trigger] is_left_inverse(l, s0, k) by {
        if is_left_inverse(l, s0, k) {
            assert forall|j: int| 0 <= j < k implies #[trigger] byte_at(cy[j], 0) == 0u8 by {
                assert(y[j] == 0u8);
            }
            lemma_col_dot_zero_rows(l[i], cy, 0, k);
            lemma_col_dot_exchange(l[i], cy, s0, cx, 0, k, k);
            let pv = Seq::new(k, |c: int| col_dot(l[i], s0, c, k));
            assert forall|c: int| 0 <= c < k implies #[trigger] pv[c] == if c == i { 1u8 } else { 0u8 } by {
                assert(col_dot(l[i], s0, c, k) == if i == c { 1u8 } else { 0u8 });
            }
            lemma_col_dot_unit(pv, cx, 0, k, i);
            assert(byte_at(cx[i], 0) == 1u8);
        }
    }
}

/// Copies the bytes of a present shard.
fn shard_bytes(o: &Option<Vec<u8>>) -> (r: Vec<u8>)
    ensures
        r@ == opt_bytes(*o),
{
    match o {
        Some(v) => crate::bytes::copy_range(v.as_slice(), 0, v.len()),
        None => Vec::new(),
    }
}

fn shard_len(o: &Option<Vec<u8>>) -> (r: usize)
    ensures
        r == opt_bytes(*o).len(),
{
    match o {
        Some(v) => v.len(),
        None => 0,
    }
}

impl ReedSolomon16_10 {
    /// The first `k` surviving shard indices, scanning from 0.
    fn choose_available(&self, surviving_shards: &[Option<Vec<u8>>]) -> (avail: Vec<usize>)
        requires
            self.k >= 1,
        ensures
            index_view(avail@) == chosen_indices(surviving_shards@, self.k as nat),
    {
        let ghost surv = surviving_shards@;
        let mut avail: Vec<usize> = Vec::new();
        let mut idx: usize = 0;
        while idx < surviving_shards.len()
            invariant_except_break
                idx <= surv.len(),
                surv == surviving_shards@,
                index_view(avail@) == present_indices(surv, idx as int),
                avail@.len() < self.k,
            ensures
                index_view(avail@) == chosen_indices(surv, self.k as nat),
            decreases surv.len() - idx,
        {
            if surviving_shards[idx].is_some() {
                avail.push(idx);
                assert(index_view(avail@) =~= present_indices(surv, idx + 1));
                if avail.len() == self.k {
                    proof {
                        lemma_present_prefix(surv, idx + 1, surv.len() as int);
                        let p = present_indices(surv, surv.len() as int);
                        if p.len() > self.k {
                            assert(p.take(self.k as int) =~= present_indices(surv, idx + 1));
                        } else {
                            assert(p.take(present_indices(surv, idx + 1).len() as int) =~= p);
                        }
                    }
                    break;
                }
            } else {
                assert(index_view(avail@) =~= present_indices(surv, idx + 1));
            }
            idx = idx + 1;
        }
        avail
    }
}

/// The row of the identity matrix with a one at `i`.
fn unit_row(k: usize, i: usize) -> (r: Vec<u8>)
    requires
        i < k,
    ensures
        r@.len() == k,
        forall|j: int| 0 <= j < k ==> #[trigger] r@[j] == if j == i { 1u8 } else { 0u8 },
{
    let mut r: Vec<u8> = Vec::new();
    let mut j: usize = 0;
    while j < k
        invariant
            j <= k,
            i < k,
            r@.len() == j,
            forall|x: int| 0 <= x < j ==> #[trigger] r@[x] == if x == i { 1u8 } else { 0u8 },
        decreases k - j,
    {
        r.push(if j == i { 1u8 } else { 0u8 });
        j = j + 1;
    }
    r
}

impl ReedSolomon16_10 {
    /// Inverts the generator rows of the chosen shards by Gauss-Jordan
    /// elimination; `None` when a column has no non-zero pivot.
    fn invert_chosen_rows(&self, avail: &Vec<usize>) -> (r: Option<Vec<Vec<u8>>>)
        requires
            self.k >= 1,
            self.shape_ok(),
            avail@.len() == self.k,
            forall|j: int| 0 <= j < self.k ==> #[trigger] avail@[j] < self.n,
        ensures
            r matches Some(inv) ==> is_left_inverse(
                rows_view(inv@),
                chosen_rows(self.generator(), index_view(avail@), self.k as nat),
                self.k as nat,
            ),
            r is None ==> forall|l: Seq<Seq<u8>>|
                !#[trigger] is_left_inverse(
                    l,
                    chosen_rows(self.generator(), index_view(avail@), self.k as nat),
                    self.k as nat,
                ),
            r is None ==> has_kernel(
                chosen_rows(self.generator(), index_view(avail@), self.k as nat),
                self.k as nat,
            ),
    {
        let k = self.k;
        let ghost kk = k as nat;
        let ghost s0 = chosen_rows(self.generator(), index_view(avail@), kk);
        let mut sub: Vec<Vec<u8>> = Vec::new();
        let mut inv: Vec<Vec<u8>> = Vec::new();
        let mut j: usize = 0;
        while j < k
            invariant
                j <= k == self.k,
                kk == k as nat,
                self.shape_ok(),
                avail@.len() == k,
                forall|x: int| 0 <= x < k ==> #[trigger] avail@[x] < self.n,
                s0 == chosen_rows(self.generator(), index_view(avail@), kk),
                sub@.len() == j,
                inv@.len() == j,
                forall|x: int| 0 <= x < j ==> #[trigger] sub@[x]@ == s0[x],
                forall|x: int| 0 <= x < j ==> (#[trigger] sub@[x])@.len() == k,
                forall|x: int| 0 <= x < j ==> (#[trigger] inv@[x])@.len() == k,
                forall|x: int, y: int| 0 <= x < j && 0 <= y < k ==> #[trigger] inv@[x]@[y] == if x == y { 1u8 } else { 0u8 },
            decreases k - j,
        {
            let g = avail[j];
            assert(self.gen_matrix@[g as int]@.len() >= k);
            let row = copy_prefix(&self.gen_matrix[g], k);
            assert(index_view(avail@)[j as int] == g as int);
            assert(self.generator()[g as int] == self.gen_matrix@[g as int]@);
            assert(s0[j as int] == self.generator()[index_view(avail@)[j as int]].take(kk as int));
            assert(row@ == s0[j as int]);
            sub.push(row);
            inv.push(unit_row(k, j));
            j = j + 1;
        }
        proof {
            let m = rows_view(sub@);
            let nm = rows_view(inv@);
            assert(m =~= s0);
            assert forall|r: int, c: int| 0 <= r < kk && 0 <= c < kk implies #[trigger] col_dot(nm[r], s0, c, kk) == m[r][c] by {
                lemma_col_dot_unit(nm[r], s0, c, kk, r);
            }
            assert forall|r: int, c: int| 0 <= r < kk && 0 <= c < kk implies #[trigger] nm[r][c] == if r == c { 1u8 } else { 0u8 } by {
                assert(inv@[r]@[c] == if r == c { 1u8 } else { 0u8 });
            }
            lemma_injective_identity(nm, kk);
        }
        let mut i: usize = 0;
        while i < k
            invariant
                k == self.k,
                kk == k as nat,
                i <= k,
                sub@.len() == k,
                inv@.len() == k,
                square(rows_view(sub@), kk),
                square(rows_view(inv@), kk),
                forall|x: int| 0 <= x < k ==> (#[trigger] inv@[x])@.len() == k,
                forall|x: int| 0 <= x < k ==> (#[trigger] sub@[x])@.len() >= k,
                product_holds(rows_view(sub@), rows_view(inv@), s0, kk),
                unit_columns(rows_view(sub@), kk, i as int),
                injective_rows(rows_view(inv@), kk),
                s0 == chosen_rows(self.generator(), index_view(avail@), kk),
                s0.len() == kk,
                forall|x: int| 0 <= x < kk ==> (#[trigger] s0[x]).len() == kk,
            decreases k - i,
        {
            let mut p: usize = i;
            while p < k && sub[p][i] == 0
                invariant
                    i <= p <= k,
                    i < k,
                    sub@.len() == k,
                    forall|x: int| 0 <= x < k ==> (#[trigger] sub@[x])@.len() >= k,
                    kk == k as nat,
                    forall|x: int| i <= x < p ==> #[trigger] sub@[x]@[i as int] == 0u8,
                decreases k - p,
            {
                p = p + 1;
            }
            if p == k {
                proof {
                    lemma_no_pivot_no_inverse(rows_view(sub@), rows_view(inv@), s0, kk, i as int);
                }
                return None;
            }
            if p != i {
                let ghost m0 = rows_view(sub@);
                let ghost n0 = rows_view(inv@);
                proof {
                    lemma_swap_step(m0, n0, s0, kk, i as int, p as int);
                    lemma_injective_swap(n0, kk, i as int, p as int);
                }
                let si = copy_prefix(&sub[i], sub[i].len());
                let sp = copy_prefix(&sub[p], sub[p].len());
                let ni = copy_prefix(&inv[i], inv[i].len());
                let np = copy_prefix(&inv[p], inv[p].len());
                assert(si@ == sub@[i as int]@ && sp@ == sub@[p as int]@);
                assert(ni@ == inv@[i as int]@ && np@ == inv@[p as int]@);
                sub.set(i, sp);
                sub.set(p, si);
                inv.set(i, np);
                inv.set(p, ni);
                assert(rows_view(sub@) =~= m0.update(i as int, m0[p as int]).update(p as int, m0[i as int]));
                assert(rows_view(inv@) =~= n0.update(i as int, n0[p as int]).update(p as int, n0[i as int]));
            }
            let pivot = sub[i][i];
            assert(pivot != 0);
            let inv_p = gf_inv_0x1d(pivot);
            let ghost m1 = rows_view(sub@);
            let ghost n1 = rows_view(inv@);
            let new_row = scale_row(&sub[i], inv_p, k);
            let new_inv_row = scale_row(&inv[i], inv_p, k);
            proof {
                lemma_scale_step(m1, n1, s0, kk, i as int, inv_p, new_row@, new_inv_row@);
                lemma_gf_mul_comm(pivot, inv_p);
                lemma_gf_mul_zero(pivot);
                lemma_injective_scale(n1, kk, i as int, inv_p, new_inv_row@);
            }
            sub.set(i, new_row);
            inv.set(i, new_inv_row);
            assert(rows_view(sub@) =~= m1.update(i as int, new_row@));
            assert(rows_view(inv@) =~= n1.update(i as int, new_inv_row@));
            assert(sub@[i as int]@[i as int] == 1u8);
            let mut r: usize = 0;
            while r < k
                invariant
                    k == self.k,
                    kk == k as nat,
                    i < k,
                    r <= k,
                    sub@.len() == k,
                    inv@.len() == k,
                    square(rows_view(sub@), kk),
                    square(rows_view(inv@), kk),
                    forall|x: int| 0 <= x < k ==> (#[trigger] inv@[x])@.len() == k,
                    forall|x: int| 0 <= x < k ==> (#[trigger] sub@[x])@.len() >= k,
                    product_holds(rows_view(sub@), rows_view(inv@), s0, kk),
                    unit_columns(rows_view(sub@), kk, i as int),
                    injective_rows(rows_view(inv@), kk),
                    s0.len() == kk,
                    forall|x: int| 0 <= x < kk ==> (#[trigger] s0[x]).len() == kk,
                    sub@[i as int]@[i as int] == 1u8,
                    forall|x: int| 0 <= x < r && x != i ==> #[trigger] sub@[x]@[i as int] == 0u8,
                decreases k - r,
            {
                if r != i && sub[r][i] != 0 {
                    let factor = sub[r][i];
                    let ghost m2 = rows_view(sub@);
                    let ghost n2 = rows_view(inv@);
                    let row_r = axpy_row(&sub[r], &sub[i], factor, k);
                    let inv_r = axpy_row(&inv[r], &inv[i], factor, k);
                    proof {
                        lemma_axpy_step(m2, n2, s0, kk, i as int, r as int, factor, row_r@, inv_r@);
                        lemma_injective_axpy(n2, kk, i as int, r as int, factor, inv_r@);
                        lemma_gf_mul_one(factor);
                        lemma_xor_zero(factor);
                    }
                    sub.set(r, row_r);
                    inv.set(r, inv_r);
                    assert(rows_view(sub@) =~= m2.update(r as int, row_r@));
                    assert(rows_view(inv@) =~= n2.update(r as int, inv_r@));
                }
                r = r + 1;
            }
            proof {
                let m3 = rows_view(sub@);
                assert forall|x: int, c: int| 0 <= x < kk && 0 <= c < i + 1 implies #[trigger] m3[x][c] == if x == c {
                    1u8
                } else {
                    0u8
                } by {
                    if c == i {
                        if x != i {
                            assert(sub@[x]@[i as int] == 0u8);
                        }
                    }
                }
            }
            i = i + 1;
        }
        proof {
            let m = rows_view(sub@);
            let nm = rows_view(inv@);
            assert forall|r: int, c: int| 0 <= r < kk && 0 <= c < kk implies #[trigger] col_dot(nm[r], s0, c, kk) == if r == c {
                1u8
            } else {
                0u8
            } by {
                assert(col_dot(nm[r], s0, c, kk) == m[r][c]);
            }
        }
        Some(inv)
    }
}

/// `rs` is the systematic (16, 10) code and `surv` holds sixteen slots of
/// which at least ten are present.
pub open spec fn systematic_ten(rs: ReedSolomon16_10, surv: Seq<Option<Vec<u8>>>) -> bool {
    &&& rs.k == 10
    &&& rs.n == 16
    &&& rs.generator() == systematic_generator()
    &&& surv.len() == 16
    &&& chosen_indices(surv, 10).len() == 10
}

/// The present slots of `surv` are shards of the systematic encoding
/// `shards` of the ten equally long data shards `data`.
pub open spec fn shards_of(data: Seq<Seq<u8>>, shards: Seq<Seq<u8>>, surv: Seq<Option<Vec<u8>>>) -> bool {
    &&& data.len() == 10
    &&& same_lengths(data)
    &&& encoded_by(systematic_generator(), 16, 10, data, shards)
    &&& forall|j: int| 0 <= j < 16 && (#[trigger] surv[j]) is Some ==> opt_bytes(surv[j]) == shards[j]
}

/// The identity index sequence `0, 1, ..., k - 1`.
pub open spec fn first_indices(k: nat) -> Seq<int> {
    Seq::new(k, |j: int| j)
}

impl ReedSolomon16_10 {
    /// Reconstructs the `k` data shards from the first `k` surviving shards:
    /// see the contract for each outcome.
    pub fn decode(&self, surviving_shards: &[Option<Vec<u8>>]) -> (r: Result<Vec<Vec<u8>>, String>)
        requires
            surviving_shards@.len() == self.n ==> self.k >= 1 && self.shape_ok(),
            surviving_shards@.len() == self.n && chosen_indices(surviving_shards@, self.k as nat).len()
                == self.k && chosen_indices(surviving_shards@, self.k as nat) != first_indices(
                self.k as nat,
            ) ==> forall|j: int|
                0 <= j < self.k ==> #[trigger] opt_bytes(
                    surviving_shards@[chosen_indices(surviving_shards@, self.k as nat)[j]],
                ).len() <= opt_bytes(
                    surviving_shards@[chosen_indices(surviving_shards@, self.k as nat)[0]],
                ).len(),
        ensures
            ({
                let surv = surviving_shards@;
                let k = self.k as nat;
                let a = chosen_indices(surv, k);
                if surv.len() != self.n {
                    r matches Err(e) && e@ == ascii_chars(
                        expected_options_message(self.n as nat, surv.len()),
                    )
                } else if a.len() < k {
                    r matches Err(e) && e@ == ascii_chars(insufficient_message(a.len(), k))
                } else if a == first_indices(k) {
                    r matches Ok(res) && res@.len() == k && forall|i: int|
                        0 <= i < k ==> #[trigger] res@[i]@ == opt_bytes(surv[i])
                } else {
                    match r {
                        Ok(rec) => decode_solution(self.generator(), k, surv, rows_view(rec@)),
                        Err(e) => e@ == ascii_chars(msg_singular()) && forall|l: Seq<Seq<u8>>|
                            !#[trigger] is_left_inverse(l, chosen_rows(self.generator(), a, k), k),
                    }
                }
            }),
            systematic_ten(*self, surviving_shards@) ==> r is Ok,
            systematic_ten(*self, surviving_shards@) ==> forall|data: Seq<Seq<u8>>, shards: Seq<Seq<u8>>|
                #[trigger] shards_of(data, shards, surviving_shards@) ==> (r matches Ok(rec) && rows_view(
                    rec@,
                ) == data),
    {
        if surviving_shards.len() != self.n {
            return Err(
                two_number_message(
                    msg_expected_bytes(),
                    self.n as u64,
                    msg_shard_options_got_bytes(),
                    surviving_shards.len() as u64,
                ),
            );
        }
        let ghost surv = surviving_shards@;
        let ghost kk = self.k as nat;
        let avail = self.choose_available(surviving_shards);
        let ghost a = index_view(avail@);
        proof {
            lemma_present_bounds(surv, surv.len() as int);
            let p = present_indices(surv, surv.len() as int);
            assert forall|j: int| 0 <= j < a.len() implies 0 <= #[trigger] a[j] < surv.len() && surv[a[j]] is Some by {
                assert(a[j] == p[j]);
            }
        }
        if avail.len() < self.k {
            return Err(
                two_number_message(
                    msg_insufficient_bytes(),
                    avail.len() as u64,
                    msg_needed_bytes(),
                    self.k as u64,
                ),
            );
        }
        let k = self.k;
        assert forall|j: int| 0 <= j < k implies #[trigger] avail@[j] < self.n by {
            assert(a[j] == avail@[j] as int);
        }
        let chunk_len = shard_len(&surviving_shards[avail[0]]);
        let mut identity = true;
        let mut j: usize = 0;
        while j < k
            invariant
                j <= k == avail@.len(),
                a == index_view(avail@),
                identity <==> forall|x: int| 0 <= x < j ==> #[trigger] a[x] == x,
            decreases k - j,
        {
            assert(a[j as int] == avail@[j as int] as int);
            if avail[j] != j {
                identity = false;
            }
            j = j + 1;
        }
        if identity {
            assert(a =~= first_indices(kk));
            let mut result: Vec<Vec<u8>> = Vec::new();
            let mut i: usize = 0;
            while i < k
                invariant
                    i <= k,
                    k <= surv.len(),
                    surv == surviving_shards@,
                    result@.len() == i,
                    forall|x: int| 0 <= x < i ==> #[trigger] result@[x]@ == opt_bytes(surv[x]),
                decreases k - i,
            {
                result.push(shard_bytes(&surviving_shards[i]));
                i = i + 1;
            }
            proof {
                assert forall|data: Seq<Seq<u8>>, shards: Seq<Seq<u8>>|
                    systematic_ten(*self, surv) && #[trigger] shards_of(data, shards, surv) implies rows_view(
                        result@,
                    ) == data by {
                    let rec = rows_view(result@);
                    assert forall|i: int| 0 <= i < 10 implies #[trigger] rec[i] == opt_bytes(surv[i]) by {
                        assert(rec[i] == result@[i]@);
                    }
                    lemma_systematic_decode_returns_data(data, shards, surv, rec);
                }
            }
            return Ok(result);
        }
        assert(a != first_indices(kk)) by {
            let x = choose|x: int| 0 <= x < k && a[x] != x;
            assert(first_indices(kk)[x] == x);
        }
        let inv = match self.invert_chosen_rows(&avail) {
            Some(inv) => inv,
            None => {
                proof {
                    if systematic_ten(*self, surv) {
                        crate::gf28_mds::lemma_chosen_rows_nonsingular(surv);
                    }
                }
                return Err(string_from_ascii(msg_singular_bytes()));
            },
        };
        let ghost nm = rows_view(inv@);
        let ghost shards = chosen_shards(surv, a);
        let mut reconstructed: Vec<Vec<u8>> = Vec::new();
        let mut row_idx: usize = 0;
        while row_idx < k
            invariant
                k == self.k,
                kk == k as nat,
                row_idx <= k,
                inv@.len() == k,
                nm == rows_view(inv@),
                is_left_inverse(nm, chosen_rows(self.generator(), a, kk), kk),
                a == index_view(avail@),
                avail@.len() == k,
                surv == surviving_shards@,
                shards == chosen_shards(surv, a),
                forall|x: int| 0 <= x < k ==> 0 <= #[trigger] a[x] < surv.len(),
                forall|x: int| 0 <= x < k ==> surv[#[trigger] a[x]] is Some,
                chunk_len == opt_bytes(surv[a[0]]).len(),
                forall|x: int| 0 <= x < k ==> #[trigger] opt_bytes(surv[a[x]]).len() <= chunk_len,
                reconstructed@.len() == row_idx,
                forall|x: int| 0 <= x < row_idx ==> (#[trigger] reconstructed@[x])@.len() == chunk_len,
                forall|x: int, b: int| 0 <= x < row_idx && 0 <= b < chunk_len ==> #[trigger] reconstructed@[x]@[b] == col_dot(nm[x], shards, b, kk),
            decreases k - row_idx,
        {
            let mut rec_bytes: Vec<u8> = Vec::new();
            crate::bytes::push_zeros(&mut rec_bytes, chunk_len);
            let mut col_idx: usize = 0;
            assert(nm[row_idx as int] == inv@[row_idx as int]@);
            while col_idx < k
                invariant
                    k == self.k,
                    kk == k as nat,
                    row_idx < k,
                    col_idx <= k,
                    inv@.len() == k,
                    nm == rows_view(inv@),
                    nm[row_idx as int] == inv@[row_idx as int]@,
                    nm[row_idx as int].len() == k,
                    a == index_view(avail@),
                    avail@.len() == k,
                    surv == surviving_shards@,
                    shards == chosen_shards(surv, a),
                    forall|x: int| 0 <= x < k ==> 0 <= #[trigger] a[x] < surv.len(),
                    forall|x: int| 0 <= x < k ==> surv[#[trigger] a[x]] is Some,
                    forall|x: int| 0 <= x < k ==> #[trigger] opt_bytes(surv[a[x]]).len() <= chunk_len,
                    rec_bytes@.len() == chunk_len,
                    forall|b: int| 0 <= b < chunk_len ==> #[trigger] rec_bytes@[b] == col_dot(nm[row_idx as int], shards, b, col_idx as nat),
                decreases k - col_idx,
            {
                let coef = inv[row_idx][col_idx];
                let idx = avail[col_idx];
                assert(a[col_idx as int] == idx as int);
                assert(shards[col_idx as int] == opt_bytes(surv[a[col_idx as int]]));
                match &surviving_shards[idx] {
                    Some(s_chunk) => {
                        let ghost chunk_view = s_chunk@;
                        assert(chunk_view == shards[col_idx as int]);
                        let mut b: usize = 0;
                        while b < s_chunk.len()
                            invariant
                                s_chunk@ == chunk_view,
                                chunk_view.len() <= chunk_len,
                                rec_bytes@.len() == chunk_len,
                                chunk_view == shards[col_idx as int],
                                col_idx < k,
                                coef == nm[row_idx as int][col_idx as int],
                                b <= chunk_view.len(),
                                forall|x: int| 0 <= x < b ==> #[trigger] rec_bytes@[x] == col_dot(nm[row_idx as int], shards, x, (col_idx + 1) as nat),
                                forall|x: int| b <= x < chunk_len ==> #[trigger] rec_bytes@[x] == col_dot(nm[row_idx as int], shards, x, col_idx as nat),
                            decreases chunk_view.len() - b,
                        {
                            let v = rec_bytes[b] ^ gf_mul_0x1d(coef, s_chunk[b]);
                            rec_bytes.set(b, v);
                            b = b + 1;
                        }
                        proof {
                            assert forall|x: int| s_chunk@.len() <= x < chunk_len implies #[trigger] rec_bytes@[x] == col_dot(nm[row_idx as int], shards, x, (col_idx + 1) as nat) by {
                                assert(byte_at(shards[col_idx as int], x) == 0u8);
                                lemma_gf_mul_zero(coef);
                                lemma_xor_zero(col_dot(nm[row_idx as int], shards, x, col_idx as nat));
                            }
                        }
                    },
                    None => {
                        assert(false);
                    },
                }
                col_idx = col_idx + 1;
            }
            reconstructed.push(rec_bytes);
            row_idx = row_idx + 1;
        }
        proof {
            let rec = rows_view(reconstructed@);
            assert(is_left_inverse(nm, chosen_rows(self.generator(), a, kk), kk));
            assert forall|i: int, b: int| 0 <= i < kk && 0 <= b < chunk_len implies #[trigger] rec[i][b] == col_dot(nm[i], chosen_shards(surv, a), b, kk) by {
                assert(rec[i] == reconstructed@[i]@);
            }
            assert forall|i: int| 0 <= i < kk implies #[trigger] rec[i].len() == chunk_len by {
                assert(rec[i] == reconstructed@[i]@);
            }
            assert(decode_solution(self.generator(), kk, surv, rec));
            assert forall|data: Seq<Seq<u8>>, shards: Seq<Seq<u8>>|
                systematic_ten(*self, surv) && #[trigger] shards_of(data, shards, surv) implies rec == data by {
                lemma_systematic_decode_returns_data(data, shards, surv, rec);
            }
        }
        Ok(reconstructed)
    }
}

/// Exchanging the order of a double sum: applying `u` to rows that are
/// themselves `s0`-combinations of `d` equals applying `u * s0` to `d`.
pub(crate) proof fn lemma_col_dot_exchange(
    u: Seq<u8>,
    t: Seq<Seq<u8>>,
    s0: Seq<Seq<u8>>,
    d: Seq<Seq<u8>>,
    b: int,
    k: nat,
    m: nat,
)
    requires
        m <= k,
        u.len() >= k,
        s0.len() >= k,
        t.len() >= k,
        forall|j: int| 0 <= j < k ==> #[trigger] s0[j].len() >= k,
        forall|j: int| 0 <= j < k ==> #[trigger] byte_at(t[j], b) == col_dot(s0[j], d, b, k),
    ensures
        col_dot(u, t, b, m) == col_dot(Seq::new(k, |c: int| col_dot(u, s0, c, m)), d, b, k),
    decreases m,
{
    if m == 0 {
        lemma_col_dot_zero(Seq::new(k, |c: int| col_dot(u, s0, c, 0)), d, b, k);
    } else {
        let m1 = (m - 1) as nat;
        lemma_col_dot_exchange(u, t, s0, d, b, k, m1);
        let p = Seq::new(k, |c: int| col_dot(u, s0, c, m1));
        let p2 = Seq::new(k, |c: int| col_dot(u, s0, c, m));
        let w = u[m1 as int];
        let row = s0[m1 as int];
        let q = Seq::new(k, |c: int| gf_mul(row[c], w));
        lemma_col_dot_scale(row, q, w, d, b, k);
        lemma_gf_mul_comm(col_dot(row, d, b, k), w);
        assert forall|c: int| 0 <= c < k implies #[trigger] p2[c] == p[c] ^ q[c] by {
            assert(byte_at(row, c) == row[c]);
            lemma_gf_mul_comm(w, row[c]);
        }
        lemma_col_dot_add(p, q, p2, d, b, k);
    }
}

/// With the systematic generator, every successful decode gives back the
/// data: when the surviving shards are shards of an encoding of `data` and at
/// least ten survive, both the direct path (the first ten shards) and the
/// elimination path yield the ten data shards.
pub proof fn lemma_systematic_decode_returns_data(
    data: Seq<Seq<u8>>,
    shards: Seq<Seq<u8>>,
    surv: Seq<Option<Vec<u8>>>,
    rec: Seq<Seq<u8>>,
)
    requires
        data.len() == 10,
        same_lengths(data),
        encoded_by(systematic_generator(), 16, 10, data, shards),
        surv.len() == 16,
        forall|j: int| 0 <= j < 16 && (#[trigger] surv[j]) is Some ==> opt_bytes(surv[j]) == shards[j],
        chosen_indices(surv, 10).len() == 10,
        if chosen_indices(surv, 10) == first_indices(10) {
            rec.len() == 10 && forall|i: int| 0 <= i < 10 ==> #[trigger] rec[i] == opt_bytes(surv[i])
        } else {
            decode_solution(systematic_generator(), 10, surv, rec)
        },
    ensures
        rec == data,
{
    if chosen_indices(surv, 10) == first_indices(10) {
        lemma_systematic_keeps_data(data, shards);
        lemma_present_bounds(surv, 16);
        let p = present_indices(surv, 16);
        assert forall|i: int| 0 <= i < 10 implies #[trigger] rec[i] == data[i] by {
            assert(chosen_indices(surv, 10)[i] == i);
            if p.len() > 10 {
                assert(p.take(10)[i] == p[i]);
            }
            assert(surv[p[i]] is Some);
            assert(rec[i] == opt_bytes(surv[i]));
        }
        assert(rec =~= data);
    } else {
        assert forall|r: int| 0 <= r < 16 implies #[trigger] systematic_generator()[r].len() >= 10 by {}
        lemma_decode_recovers_encoded_data(systematic_generator(), 16, 10, data, shards, surv, rec);
        assert(rec =~= data);
    }
}

/// Decoding recovers the data: when the surviving shards are shards of an
/// encoding of `data`, at least `k` survive and decoding took the
/// elimination path, every reconstructed shard is the data shard.
pub proof fn lemma_decode_recovers_encoded_data(
    g: Seq<Seq<u8>>,
    n: nat,
    k: nat,
    data: Seq<Seq<u8>>,
    shards: Seq<Seq<u8>>,
    surv: Seq<Option<Vec<u8>>>,
    rec: Seq<Seq<u8>>,
)
    requires
        k >= 1,
        data.len() == k,
        same_lengths(data),
        g.len() >= n,
        forall|r: int| 0 <= r < n ==> #[trigger] g[r].len() >= k,
        encoded_by(g, n, k, data, shards),
        surv.len() == n,
        forall|j: int| 0 <= j < n && (#[trigger] surv[j]) is Some ==> opt_bytes(surv[j]) == shards[j],
        chosen_indices(surv, k).len() == k,
        decode_solution(g, k, surv, rec),
    ensures
        rec.len() == k,
        forall|i: int| 0 <= i < k ==> #[trigger] rec[i] == data[i],
{
    let a = chosen_indices(surv, k);
    lemma_present_bounds(surv, surv.len() as int);
    let p = present_indices(surv, surv.len() as int);
    assert forall|j: int| 0 <= j < k implies 0 <= #[trigger] a[j] < n && surv[a[j]] is Some by {
        assert(a[j] == p[j]);
    }
    let t = chosen_shards(surv, a);
    let s0 = chosen_rows(g, a, k);
    let chunk = opt_bytes(surv[a[0]]).len();
    assert(chunk == data[0].len()) by {
        assert(encoded_row(g[a[0]], k, data, shards[a[0]]));
    }
    let nm = choose|nm: Seq<Seq<u8>>|
        #![trigger is_left_inverse(nm, chosen_rows(g, a, k), k)]
        is_left_inverse(nm, chosen_rows(g, a, k), k) && forall|i: int, b: int|
            0 <= i < k && 0 <= b < chunk ==> #[trigger] rec[i][b] == col_dot(nm[i], t, b, k);
    assert forall|i: int| 0 <= i < k implies #[trigger] rec[i] == data[i] by {
        assert(rec[i].len() == chunk);
        assert forall|b: int| 0 <= b < chunk implies rec[i][b] == data[i][b] by {
            assert forall|j: int| 0 <= j < k implies #[trigger] byte_at(t[j], b) == col_dot(s0[j], data, b, k) by {
                assert(t[j] == opt_bytes(surv[a[j]]));
                assert(t[j] == shards[a[j]]);
                assert(encoded_row(g[a[j]], k, data, shards[a[j]]));
                assert(s0[j] == g[a[j]].take(k as int));
                lemma_col_dot_ext(s0[j], g[a[j]], data, b, k);
            }
            assert forall|j: int| 0 <= j < k implies #[trigger] s0[j].len() >= k by {
                assert(s0[j] == g[a[j]].take(k as int));
            }
            lemma_col_dot_exchange(nm[i], t, s0, data, b, k, k);
            let pv = Seq::new(k, |c: int| col_dot(nm[i], s0, c, k));
            assert forall|c: int| 0 <= c < k implies #[trigger] pv[c] == if c == i { 1u8 } else { 0u8 } by {
                assert(col_dot(nm[i], s0, c, k) == if i == c { 1u8 } else { 0u8 });
            }
            lemma_col_dot_unit(pv, data, b, k, i);
            assert(rec[i][b] == col_dot(nm[i], t, b, k));
        }
        assert(rec[i] =~= data[i]);
    }
}

} // verus!
