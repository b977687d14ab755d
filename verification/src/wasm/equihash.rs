//! The browser's proof-of-work worker pool and the nonce it reports.
use vstd::prelude::*;
use crate::text::{ascii_chars, decimal, is_ascii_bytes, lemma_ascii_concat, push_ascii, push_decimal_ascii, string_from_ascii};

verus! {

pub struct WebWorkerEquihashSolver {
    pub shared_buffer_size_mb: usize,
    pub num_workers: usize,
}

/// The XOR of `0..n`.
pub open spec fn xor_upto(n: nat) -> u64
    decreases n,
{
    if n == 0 {
        0
    } else {
        xor_upto((n - 1) as nat) ^ ((n - 1) as u64)
    }
}

/// The lowercase hexadecimal digits of `n`, without leading zeros.
pub open spec fn hex(n: nat) -> Seq<u8>
    decreases n,
{
    if n < 16 {
        seq![hex_digit(n)]
    } else {
        hex(n / 16).push(hex_digit(n % 16))
    }
}

pub open spec fn hex_digit(d: nat) -> u8 {
    if d < 10 {
        (48 + d) as u8
    } else {
        (87 + d) as u8
    }
}

proof fn lemma_hex_ascii(n: nat)
    ensures
        is_ascii_bytes(hex(n)),
    decreases n,
{
    if n >= 16 {
        lemma_hex_ascii(n / 16);
    }
}

fn push_hex(out: &mut Vec<u8>, n: u64)
    requires
        is_ascii_bytes(old(out)@),
    ensures
        final(out)@ == old(out)@ + hex(n as nat),
        is_ascii_bytes(final(out)@),
    decreases n,
{
    if n >= 16 {
        push_hex(out, n / 16);
    }
    let d = n % 16;
    let c: u8 = if d < 10 { 48 + d as u8 } else { 87 + d as u8 };
    out.push(c);
    proof {
        lemma_hex_ascii(n as nat);
    }
}

/// `"precomputed_equihash_win_"` as bytes.
pub open spec fn nonce_prefix() -> Seq<u8> {
    seq![
        0x70u8, 0x72, 0x65, 0x63, 0x6f, 0x6d, 0x70, 0x75, 0x74, 0x65, 0x64, 0x5f, 0x65, 0x71, 0x75,
        0x69, 0x68, 0x61, 0x73, 0x68, 0x5f, 0x77, 0x69, 0x6e, 0x5f,
    ]
}

/// `"_nonce_"` as bytes.
pub open spec fn nonce_infix() -> Seq<u8> {
    seq![0x5fu8, 0x6e, 0x6f, 0x6e, 0x63, 0x65, 0x5f]
}

impl WebWorkerEquihashSolver {
    /// Four workers sharing one 8 MB buffer.
    pub fn new() -> (r: Self)
        ensures
            r.shared_buffer_size_mb == 8,
            r.num_workers == 4,
    {
        Self { shared_buffer_size_mb: 8, num_workers: 4 }
    }

    /// The nonce the background solve reports for `epoch_window`:
    /// `precomputed_equihash_win_{epoch}_nonce_{work:x}`, the work being the
    /// XOR of `0..10000`.
    pub fn solve_background_puzzle(&self, epoch_window: u64) -> (r: String)
        ensures
            r@ == ascii_chars(nonce_prefix() + decimal(epoch_window as nat) + nonce_infix() + hex(
                xor_upto(10000) as nat,
            )),
    {
        let mut sim_work: u64 = 0;
        let mut i: u64 = 0;
        while i < 10000
            invariant
                i <= 10000,
                sim_work == xor_upto(i as nat),
            decreases 10000 - i,
        {
            sim_work = sim_work ^ i;
            i = i + 1;
        }
        let mut out: Vec<u8> = vec![
            0x70u8, 0x72, 0x65, 0x63, 0x6f, 0x6d, 0x70, 0x75, 0x74, 0x65, 0x64, 0x5f, 0x65, 0x71, 0x75,
            0x69, 0x68, 0x61, 0x73, 0x68, 0x5f, 0x77, 0x69, 0x6e, 0x5f,
        ];
        assert(out@ =~= nonce_prefix());
        push_decimal_ascii(&mut out, epoch_window);
        let infix: Vec<u8> = vec![0x5fu8, 0x6e, 0x6f, 0x6e, 0x63, 0x65, 0x5f];
        assert(infix@ =~= nonce_infix());
        push_ascii(&mut out, infix.as_slice());
        push_hex(&mut out, sim_work);
        string_from_ascii(out)
    }
}

} // verus!
