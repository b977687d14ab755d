//! A small rateless fountain code over GF(2): the k source symbols are sent
//! as they are, then repair symbols that XOR a pseudo-random subset of them;
//! a peeling decoder resolves equations with one unknown until the block is
//! recovered or it stalls. It is a prototype for comparing recovery against
//! the fixed Reed-Solomon code, not RaptorQ.
use vstd::prelude::*;
use crate::text::{ascii_chars, decimal, is_ascii_bytes, push_ascii, push_decimal_ascii, string_from_ascii};
use crate::bytes::{bytes_equal, copy_range, push_all, push_zeros};

verus! {

/// `"k out of supported range 1..=256, got "` as bytes.
pub open spec fn msg_k_range() -> Seq<u8> {
    seq![
        0x6bu8, 0x20, 0x6f, 0x75, 0x74, 0x20, 0x6f, 0x66, 0x20, 0x73, 0x75, 0x70, 0x70, 0x6f, 0x72,
        0x74, 0x65, 0x64, 0x20, 0x72, 0x61, 0x6e, 0x67, 0x65, 0x20, 0x31, 0x2e, 0x2e, 0x3d, 0x32,
        0x35, 0x36, 0x2c, 0x20, 0x67, 0x6f, 0x74, 0x20,
    ]
}

fn msg_k_range_bytes() -> (r: Vec<u8>)
    ensures
        r@ == msg_k_range(),
        is_ascii_bytes(r@),
{
    let r: Vec<u8> = vec![
        0x6bu8, 0x20, 0x6f, 0x75, 0x74, 0x20, 0x6f, 0x66, 0x20, 0x73, 0x75, 0x70, 0x70, 0x6f, 0x72,
        0x74, 0x65, 0x64, 0x20, 0x72, 0x61, 0x6e, 0x67, 0x65, 0x20, 0x31, 0x2e, 0x2e, 0x3d, 0x32,
        0x35, 0x36, 0x2c, 0x20, 0x67, 0x6f, 0x74, 0x20,
    ];
    assert(r@ =~= msg_k_range());
    r
}

/// `"symbol_len out of supported range 1..=4096, got "` as bytes.
pub open spec fn msg_symbol_len_range() -> Seq<u8> {
    seq![
        0x73u8, 0x79, 0x6d, 0x62, 0x6f, 0x6c, 0x5f, 0x6c, 0x65, 0x6e, 0x20, 0x6f, 0x75, 0x74, 0x20,
        0x6f, 0x66, 0x20, 0x73, 0x75, 0x70, 0x70, 0x6f, 0x72, 0x74, 0x65, 0x64, 0x20, 0x72, 0x61,
        0x6e, 0x67, 0x65, 0x20, 0x31, 0x2e, 0x2e, 0x3d, 0x34, 0x30, 0x39, 0x36, 0x2c, 0x20, 0x67,
        0x6f, 0x74, 0x20,
    ]
}

fn msg_symbol_len_range_bytes() -> (r: Vec<u8>)
    ensures
        r@ == msg_symbol_len_range(),
        is_ascii_bytes(r@),
{
    let r: Vec<u8> = vec![
        0x73u8, 0x79, 0x6d, 0x62, 0x6f, 0x6c, 0x5f, 0x6c, 0x65, 0x6e, 0x20, 0x6f, 0x75, 0x74, 0x20,
        0x6f, 0x66, 0x20, 0x73, 0x75, 0x70, 0x70, 0x6f, 0x72, 0x74, 0x65, 0x64, 0x20, 0x72, 0x61,
        0x6e, 0x67, 0x65, 0x20, 0x31, 0x2e, 0x2e, 0x3d, 0x34, 0x30, 0x39, 0x36, 0x2c, 0x20, 0x67,
        0x6f, 0x74, 0x20,
    ];
    assert(r@ =~= msg_symbol_len_range());
    r
}

/// `"need at least one source symbol"` as bytes.
pub open spec fn msg_need_source() -> Seq<u8> {
    seq![
        0x6eu8, 0x65, 0x65, 0x64, 0x20, 0x61, 0x74, 0x20, 0x6c, 0x65, 0x61, 0x73, 0x74, 0x20, 0x6f,
        0x6e, 0x65, 0x20, 0x73, 0x6f, 0x75, 0x72, 0x63, 0x65, 0x20, 0x73, 0x79, 0x6d, 0x62, 0x6f,
        0x6c,
    ]
}

fn msg_need_source_bytes() -> (r: Vec<u8>)
    ensures
        r@ == msg_need_source(),
        is_ascii_bytes(r@),
{
    let r: Vec<u8> = vec![
        0x6eu8, 0x65, 0x65, 0x64, 0x20, 0x61, 0x74, 0x20, 0x6c, 0x65, 0x61, 0x73, 0x74, 0x20, 0x6f,
        0x6e, 0x65, 0x20, 0x73, 0x6f, 0x75, 0x72, 0x63, 0x65, 0x20, 0x73, 0x79, 0x6d, 0x62, 0x6f,
        0x6c,
    ];
    assert(r@ =~= msg_need_source());
    r
}

/// `"symbol "` as bytes.
pub open spec fn msg_symbol() -> Seq<u8> {
    seq![
        0x73u8, 0x79, 0x6d, 0x62, 0x6f, 0x6c, 0x20,
    ]
}

fn msg_symbol_bytes() -> (r: Vec<u8>)
    ensures
        r@ == msg_symbol(),
        is_ascii_bytes(r@),
{
    let r: Vec<u8> = vec![
        0x73u8, 0x79, 0x6d, 0x62, 0x6f, 0x6c, 0x20,
    ];
    assert(r@ =~= msg_symbol());
    r
}

/// `" length "` as bytes.
pub open spec fn msg_length() -> Seq<u8> {
    seq![
        0x20u8, 0x6c, 0x65, 0x6e, 0x67, 0x74, 0x68, 0x20,
    ]
}

fn msg_length_bytes() -> (r: Vec<u8>)
    ensures
        r@ == msg_length(),
        is_ascii_bytes(r@),
{
    let r: Vec<u8> = vec![
        0x20u8, 0x6c, 0x65, 0x6e, 0x67, 0x74, 0x68, 0x20,
    ];
    assert(r@ =~= msg_length());
    r
}

/// `" != expected "` as bytes.
pub open spec fn msg_ne_expected() -> Seq<u8> {
    seq![
        0x20u8, 0x21, 0x3d, 0x20, 0x65, 0x78, 0x70, 0x65, 0x63, 0x74, 0x65, 0x64, 0x20,
    ]
}

fn msg_ne_expected_bytes() -> (r: Vec<u8>)
    ensures
        r@ == msg_ne_expected(),
        is_ascii_bytes(r@),
{
    let r: Vec<u8> = vec![
        0x20u8, 0x21, 0x3d, 0x20, 0x65, 0x78, 0x70, 0x65, 0x63, 0x74, 0x65, 0x64, 0x20,
    ];
    assert(r@ =~= msg_ne_expected());
    r
}

/// `"k must be > 0"` as bytes.
pub open spec fn msg_k_positive() -> Seq<u8> {
    seq![
        0x6bu8, 0x20, 0x6d, 0x75, 0x73, 0x74, 0x20, 0x62, 0x65, 0x20, 0x3e, 0x20, 0x30,
    ]
}

fn msg_k_positive_bytes() -> (r: Vec<u8>)
    ensures
        r@ == msg_k_positive(),
        is_ascii_bytes(r@),
{
    let r: Vec<u8> = vec![
        0x6bu8, 0x20, 0x6d, 0x75, 0x73, 0x74, 0x20, 0x62, 0x65, 0x20, 0x3e, 0x20, 0x30,
    ];
    assert(r@ =~= msg_k_positive());
    r
}

/// `"joined length "` as bytes.
pub open spec fn msg_joined_length() -> Seq<u8> {
    seq![
        0x6au8, 0x6f, 0x69, 0x6e, 0x65, 0x64, 0x20, 0x6c, 0x65, 0x6e, 0x67, 0x74, 0x68, 0x20,
    ]
}

fn msg_joined_length_bytes() -> (r: Vec<u8>)
    ensures
        r@ == msg_joined_length(),
        is_ascii_bytes(r@),
{
    let r: Vec<u8> = vec![
        0x6au8, 0x6f, 0x69, 0x6e, 0x65, 0x64, 0x20, 0x6c, 0x65, 0x6e, 0x67, 0x74, 0x68, 0x20,
    ];
    assert(r@ =~= msg_joined_length());
    r
}

/// `" < expected "` as bytes.
pub open spec fn msg_lt_expected() -> Seq<u8> {
    seq![
        0x20u8, 0x3c, 0x20, 0x65, 0x78, 0x70, 0x65, 0x63, 0x74, 0x65, 0x64, 0x20,
    ]
}

fn msg_lt_expected_bytes() -> (r: Vec<u8>)
    ensures
        r@ == msg_lt_expected(),
        is_ascii_bytes(r@),
{
    let r: Vec<u8> = vec![
        0x20u8, 0x3c, 0x20, 0x65, 0x78, 0x70, 0x65, 0x63, 0x74, 0x65, 0x64, 0x20,
    ];
    assert(r@ =~= msg_lt_expected());
    r
}

/// `"incomplete: "` as bytes.
pub open spec fn msg_incomplete() -> Seq<u8> {
    seq![
        0x69u8, 0x6e, 0x63, 0x6f, 0x6d, 0x70, 0x6c, 0x65, 0x74, 0x65, 0x3a, 0x20,
    ]
}

fn msg_incomplete_bytes() -> (r: Vec<u8>)
    ensures
        r@ == msg_incomplete(),
        is_ascii_bytes(r@),
{
    let r: Vec<u8> = vec![
        0x69u8, 0x6e, 0x63, 0x6f, 0x6d, 0x70, 0x6c, 0x65, 0x74, 0x65, 0x3a, 0x20,
    ];
    assert(r@ =~= msg_incomplete());
    r
}

/// `"/"` as bytes.
pub open spec fn msg_slash() -> Seq<u8> {
    seq![
        0x2fu8,
    ]
}

fn msg_slash_bytes() -> (r: Vec<u8>)
    ensures
        r@ == msg_slash(),
        is_ascii_bytes(r@),
{
    let r: Vec<u8> = vec![
        0x2fu8,
    ];
    assert(r@ =~= msg_slash());
    r
}

/// `" symbols"` as bytes.
pub open spec fn msg_symbols() -> Seq<u8> {
    seq![
        0x20u8, 0x73, 0x79, 0x6d, 0x62, 0x6f, 0x6c, 0x73,
    ]
}

fn msg_symbols_bytes() -> (r: Vec<u8>)
    ensures
        r@ == msg_symbols(),
        is_ascii_bytes(r@),
{
    let r: Vec<u8> = vec![
        0x20u8, 0x73, 0x79, 0x6d, 0x62, 0x6f, 0x6c, 0x73,
    ];
    assert(r@ =~= msg_symbols());
    r
}

/// `"symbol length "` as bytes.
pub open spec fn msg_symbol_length() -> Seq<u8> {
    seq![
        0x73u8, 0x79, 0x6d, 0x62, 0x6f, 0x6c, 0x20, 0x6c, 0x65, 0x6e, 0x67, 0x74, 0x68, 0x20,
    ]
}

fn msg_symbol_length_bytes() -> (r: Vec<u8>)
    ensures
        r@ == msg_symbol_length(),
        is_ascii_bytes(r@),
{
    let r: Vec<u8> = vec![
        0x73u8, 0x79, 0x6d, 0x62, 0x6f, 0x6c, 0x20, 0x6c, 0x65, 0x6e, 0x67, 0x74, 0x68, 0x20,
    ];
    assert(r@ =~= msg_symbol_length());
    r
}

/// `" != "` as bytes.
pub open spec fn msg_ne() -> Seq<u8> {
    seq![
        0x20u8, 0x21, 0x3d, 0x20,
    ]
}

fn msg_ne_bytes() -> (r: Vec<u8>)
    ensures
        r@ == msg_ne(),
        is_ascii_bytes(r@),
{
    let r: Vec<u8> = vec![
        0x20u8, 0x21, 0x3d, 0x20,
    ];
    assert(r@ =~= msg_ne());
    r
}

/// `"index "` as bytes.
pub open spec fn msg_index() -> Seq<u8> {
    seq![
        0x69u8, 0x6e, 0x64, 0x65, 0x78, 0x20,
    ]
}

fn msg_index_bytes() -> (r: Vec<u8>)
    ensures
        r@ == msg_index(),
        is_ascii_bytes(r@),
{
    let r: Vec<u8> = vec![
        0x69u8, 0x6e, 0x64, 0x65, 0x78, 0x20,
    ];
    assert(r@ =~= msg_index());
    r
}

/// `" out of range"` as bytes.
pub open spec fn msg_out_of_range() -> Seq<u8> {
    seq![
        0x20u8, 0x6f, 0x75, 0x74, 0x20, 0x6f, 0x66, 0x20, 0x72, 0x61, 0x6e, 0x67, 0x65,
    ]
}

fn msg_out_of_range_bytes() -> (r: Vec<u8>)
    ensures
        r@ == msg_out_of_range(),
        is_ascii_bytes(r@),
{
    let r: Vec<u8> = vec![
        0x20u8, 0x6f, 0x75, 0x74, 0x20, 0x6f, 0x66, 0x20, 0x72, 0x61, 0x6e, 0x67, 0x65,
    ];
    assert(r@ =~= msg_out_of_range());
    r
}

/// `"conflict recovering symbol "` as bytes.
pub open spec fn msg_conflict() -> Seq<u8> {
    seq![
        0x63u8, 0x6f, 0x6e, 0x66, 0x6c, 0x69, 0x63, 0x74, 0x20, 0x72, 0x65, 0x63, 0x6f, 0x76, 0x65,
        0x72, 0x69, 0x6e, 0x67, 0x20, 0x73, 0x79, 0x6d, 0x62, 0x6f, 0x6c, 0x20,
    ]
}

fn msg_conflict_bytes() -> (r: Vec<u8>)
    ensures
        r@ == msg_conflict(),
        is_ascii_bytes(r@),
{
    let r: Vec<u8> = vec![
        0x63u8, 0x6f, 0x6e, 0x66, 0x6c, 0x69, 0x63, 0x74, 0x20, 0x72, 0x65, 0x63, 0x6f, 0x76, 0x65,
        0x72, 0x69, 0x6e, 0x67, 0x20, 0x73, 0x79, 0x6d, 0x62, 0x6f, 0x6c, 0x20,
    ];
    assert(r@ =~= msg_conflict());
    r
}

/// `"failed to recover with "` as bytes.
pub open spec fn msg_failed_recover() -> Seq<u8> {
    seq![
        0x66u8, 0x61, 0x69, 0x6c, 0x65, 0x64, 0x20, 0x74, 0x6f, 0x20, 0x72, 0x65, 0x63, 0x6f, 0x76,
        0x65, 0x72, 0x20, 0x77, 0x69, 0x74, 0x68, 0x20,
    ]
}

fn msg_failed_recover_bytes() -> (r: Vec<u8>)
    ensures
        r@ == msg_failed_recover(),
        is_ascii_bytes(r@),
{
    let r: Vec<u8> = vec![
        0x66u8, 0x61, 0x69, 0x6c, 0x65, 0x64, 0x20, 0x74, 0x6f, 0x20, 0x72, 0x65, 0x63, 0x6f, 0x76,
        0x65, 0x72, 0x20, 0x77, 0x69, 0x74, 0x68, 0x20,
    ];
    assert(r@ =~= msg_failed_recover());
    r
}

/// One encoded symbol; ids below k are the source symbols themselves.
#[derive(Debug, Clone, PartialEq, Eq)]
pub struct FountainSymbol {
    pub esi: u32,
    pub data: Vec<u8>,
}

#[derive(Debug, Clone, Copy, PartialEq, Eq, Structural)]
pub struct FountainConfig {
    pub k: usize,
    pub symbol_len: usize,
}

/// `msg + decimal(x)` as a string.
fn message_with_number(mut msg: Vec<u8>, x: u64) -> (s: String)
    requires
        is_ascii_bytes(msg@),
    ensures
        s@ == ascii_chars(msg@ + decimal(x as nat)),
{
    let ghost m = msg@;
    push_decimal_ascii(&mut msg, x);
    string_from_ascii(msg)
}

/// What `FountainConfig::new` refuses, as the message it gives.
pub open spec fn config_error(k: nat, symbol_len: nat) -> Option<Seq<u8>> {
    if k == 0 || k > 256 {
        Some(msg_k_range() + decimal(k))
    } else if symbol_len == 0 || symbol_len > 4096 {
        Some(msg_symbol_len_range() + decimal(symbol_len))
    } else {
        None
    }
}

impl FountainConfig {
    /// A block of 1 to 256 symbols of 1 to 4096 bytes.
    pub fn new(k: usize, symbol_len: usize) -> (r: Result<Self, String>)
        ensures
            match config_error(k as nat, symbol_len as nat) {
                Some(m) => r matches Err(e) && e@ == ascii_chars(m),
                None => r == Ok::<Self, String>(FountainConfig { k, symbol_len }),
            },
    {
        if k == 0 || k > 256 {
            return Err(message_with_number(msg_k_range_bytes(), k as u64));
        }
        if symbol_len == 0 || symbol_len > 4096 {
            return Err(message_with_number(msg_symbol_len_range_bytes(), symbol_len as u64));
        }
        Ok(Self { k, symbol_len })
    }
}

/// The linear congruential step used to pick repair neighbors.
pub open spec fn lcg_step(seed: u32) -> u32 {
    ((seed as nat * 1664525 + 1013904223) % 0x1_0000_0000) as u32
}

fn lcg(seed: u32) -> (r: u32)
    ensures
        r == lcg_step(seed),
{
    seed.wrapping_mul(1664525).wrapping_add(1013904223)
}

/// How many source symbols repair symbol `esi` combines: 1 for a source
/// symbol; otherwise 2, 3 or 4 (capped at k) by a draw below 50, 80 or 95,
/// else `k / 2` kept within 2 and k.
pub open spec fn degree(esi: u32, k: nat) -> nat {
    if esi < k {
        1
    } else {
        let r = lcg_step(esi ^ 0xA5A5_5A5Au32) % 100;
        let want: nat = if r < 50 {
            2
        } else if r < 80 {
            3
        } else if r < 95 {
            4
        } else {
            0
        };
        if want > 0 {
            if want <= k { want } else { k }
        } else {
            let h = k / 2;
            if h < 2 {
                2
            } else if h > k {
                k
            } else {
                h
            }
        }
    }
}

/// Where the degree draw would ask to clamp into an empty range: a repair
/// symbol of a one-symbol block whose draw is 95 or more.
pub open spec fn degree_panics(esi: u32, k: nat) -> bool {
    esi >= k && k < 2 && lcg_step(esi ^ 0xA5A5_5A5Au32) % 100 >= 95
}

fn degree_for_esi(esi: u32, k: usize) -> (d: usize)
    requires
        1 <= k <= 256,
        !degree_panics(esi, k as nat),
    ensures
        d == degree(esi, k as nat),
{
    if (esi as usize) < k {
        return 1;
    }
    let r = lcg(esi ^ 0xA5A5_5A5A) % 100;
    if r < 50 {
        if 2 <= k { 2 } else { k }
    } else if r < 80 {
        if 3 <= k { 3 } else { k }
    } else if r < 95 {
        if 4 <= k { 4 } else { k }
    } else {
        let h = k / 2;
        if h < 2 {
            2
        } else if h > k {
            k
        } else {
            h
        }
    }
}

/// The distinct indices drawn for a repair symbol: each step advances the
/// generator and takes its value modulo k, skipping repeats, until `d` are
/// found (or the step budget runs out).
pub open spec fn pick_distinct(state: u32, k: nat, d: nat, acc: Seq<usize>, fuel: nat) -> Seq<usize>
    decreases fuel,
{
    if acc.len() >= d || fuel == 0 {
        acc
    } else {
        let s2 = lcg_step(state);
        let idx = (s2 as nat % k) as usize;
        pick_distinct(
            s2,
            k,
            d,
            if acc.contains(idx) {
                acc
            } else {
                acc.push(idx)
            },
            (fuel - 1) as nat,
        )
    }
}

/// The generator has period 2^32, so this many steps reach every residue.
pub open spec fn pick_budget() -> nat {
    0x1_0000_0000
}

/// `x` inserted into the increasing sequence `s` before its first larger element.
pub open spec fn insert_sorted(s: Seq<usize>, x: usize) -> Seq<usize>
    decreases s.len(),
{
    if s.len() == 0 {
        seq![x]
    } else if x < s[0] {
        seq![x] + s
    } else {
        seq![s[0]] + insert_sorted(s.drop_first(), x)
    }
}

/// `s` sorted by successive insertion.
pub open spec fn sort_seq(s: Seq<usize>) -> Seq<usize>
    decreases s.len(),
{
    if s.len() == 0 {
        s
    } else {
        insert_sorted(sort_seq(s.drop_last()), s.last())
    }
}

/// The source symbols that symbol `esi` combines, in increasing order.
#[verifier::opaque]
pub open spec fn neighbor_list(esi: u32, k: nat) -> Seq<usize> {
    if esi < k {
        seq![esi as usize]
    } else {
        sort_seq(
            pick_distinct(
                lcg_step(((esi as nat + 1) % 0x1_0000_0000) as u32),
                k,
                degree(esi, k),
                Seq::empty(),
                pick_budget(),
            ),
        )
    }
}

proof fn lemma_insert_sorted_split(s: Seq<usize>, x: usize, p: int)
    requires
        0 <= p <= s.len(),
        forall|i: int| 0 <= i < p ==> #[trigger] s[i] <= x,
        p < s.len() ==> x < s[p],
    ensures
        insert_sorted(s, x) == s.take(p).push(x) + s.skip(p),
    decreases s.len(),
{
    if s.len() == 0 {
        assert(s.take(p).push(x) + s.skip(p) =~= seq![x]);
    } else if p == 0 {
        assert(s.take(0).push(x) + s.skip(0) =~= seq![x] + s);
    } else {
        lemma_insert_sorted_split(s.drop_first(), x, p - 1);
        assert(seq![s[0]] + (s.drop_first().take(p - 1).push(x) + s.drop_first().skip(p - 1))
            =~= s.take(p).push(x) + s.skip(p));
    }
}

/// Inserts `x` before the first element larger than it.
fn sorted_insert(v: &mut Vec<usize>, x: usize)
    ensures
        final(v)@ == insert_sorted(old(v)@, x),
{
    let mut p: usize = 0;
    while p < v.len() && v[p] <= x
        invariant
            p <= v@.len(),
            v@ == old(v)@,
            forall|i: int| 0 <= i < p ==> #[trigger] v@[i] <= x,
        decreases v@.len() - p,
    {
        p = p + 1;
    }
    proof {
        lemma_insert_sorted_split(v@, x, p as int);
    }
    v.insert(p, x);
    assert(v@ =~= old(v)@.take(p as int).push(x) + old(v)@.skip(p as int));
}

fn contains_index(v: &Vec<usize>, x: usize) -> (r: bool)
    ensures
        r == v@.contains(x),
{
    let mut i: usize = 0;
    while i < v.len()
        invariant
            i <= v@.len(),
            forall|j: int| 0 <= j < i ==> #[trigger] v@[j] != x,
        decreases v@.len() - i,
    {
        if v[i] == x {
            assert(v@[i as int] == x);
            return true;
        }
        i = i + 1;
    }
    false
}

/// The neighbor indices of symbol `esi`.
fn neighbors(esi: u32, k: usize) -> (out: Vec<usize>)
    requires
        1 <= k <= 256,
        !degree_panics(esi, k as nat),
    ensures
        out@ == neighbor_list(esi, k as nat),
{
    reveal(neighbor_list);
    if (esi as usize) < k {
        let mut v: Vec<usize> = Vec::new();
        v.push(esi as usize);
        assert(v@ =~= seq![esi as usize]);
        return v;
    }
    let d = degree_for_esi(esi, k);
    let mut picked: Vec<usize> = Vec::new();
    let mut state = lcg(esi.wrapping_add(1));
    let ghost start = state;
    let mut steps: u64 = 0;
    while picked.len() < d && steps < 0x1_0000_0000
        invariant
            1 <= k <= 256,
            d == degree(esi, k as nat),
            steps <= 0x1_0000_0000,
            pick_distinct(start, k as nat, d as nat, Seq::empty(), pick_budget()) == pick_distinct(
                state,
                k as nat,
                d as nat,
                picked@,
                (pick_budget() - steps) as nat,
            ),
        decreases 0x1_0000_0000 - steps,
    {
        state = lcg(state);
        let idx = (state as usize) % k;
        if !contains_index(&picked, idx) {
            picked.push(idx);
        }
        steps = steps + 1;
    }
    let mut out: Vec<usize> = Vec::new();
    let mut i: usize = 0;
    assert(picked@.take(0) =~= Seq::<usize>::empty());
    while i < picked.len()
        invariant
            i <= picked@.len(),
            out@ == sort_seq(picked@.take(i as int)),
        decreases picked@.len() - i,
    {
        let x = picked[i];
        sorted_insert(&mut out, x);
        assert(picked@.take(i + 1).drop_last() =~= picked@.take(i as int));
        i = i + 1;
    }
    assert(picked@.take(picked@.len() as int) =~= picked@);
    out
}

proof fn lemma_pick_bound(state: u32, k: nat, d: nat, acc: Seq<usize>, fuel: nat)
    requires
        1 <= k <= 256,
        forall|i: int| 0 <= i < acc.len() ==> #[trigger] acc[i] < k,
    ensures
        forall|i: int| 0 <= i < pick_distinct(state, k, d, acc, fuel).len() ==> #[trigger] pick_distinct(state, k, d, acc, fuel)[i] < k,
    decreases fuel,
{
    if !(acc.len() >= d || fuel == 0) {
        let s2 = lcg_step(state);
        let idx = (s2 as nat % k) as usize;
        let next = if acc.contains(idx) { acc } else { acc.push(idx) };
        assert(idx < k);
        assert(forall|i: int| 0 <= i < next.len() ==> #[trigger] next[i] < k);
        lemma_pick_bound(s2, k, d, next, (fuel - 1) as nat);
        assert(pick_distinct(state, k, d, acc, fuel) == pick_distinct(s2, k, d, next, (fuel - 1) as nat));
    }
}

proof fn lemma_insert_sorted_bound(s: Seq<usize>, x: usize, k: nat)
    requires
        x < k,
        forall|i: int| 0 <= i < s.len() ==> #[trigger] s[i] < k,
    ensures
        forall|i: int| 0 <= i < insert_sorted(s, x).len() ==> #[trigger] insert_sorted(s, x)[i] < k,
        insert_sorted(s, x).len() == s.len() + 1,
    decreases s.len(),
{
    if s.len() > 0 && x >= s[0] {
        lemma_insert_sorted_bound(s.drop_first(), x, k);
        let t = insert_sorted(s.drop_first(), x);
        assert forall|i: int| 0 <= i < insert_sorted(s, x).len() implies #[trigger] insert_sorted(s, x)[i] < k by {
            if i > 0 {
                assert(insert_sorted(s, x)[i] == t[i - 1]);
            }
        }
    }
}

proof fn lemma_sort_bound(s: Seq<usize>, k: nat)
    requires
        forall|i: int| 0 <= i < s.len() ==> #[trigger] s[i] < k,
    ensures
        forall|i: int| 0 <= i < sort_seq(s).len() ==> #[trigger] sort_seq(s)[i] < k,
        sort_seq(s).len() == s.len(),
    decreases s.len(),
{
    if s.len() > 0 {
        lemma_sort_bound(s.drop_last(), k);
        lemma_insert_sorted_bound(sort_seq(s.drop_last()), s.last(), k);
    }
}

/// Every neighbor is a source index.
pub proof fn lemma_neighbors_in_range(esi: u32, k: nat)
    requires
        1 <= k <= 256,
    ensures
        forall|i: int| 0 <= i < neighbor_list(esi, k).len() ==> #[trigger] neighbor_list(esi, k)[i] < k,
{
    reveal(neighbor_list);
    if esi >= k {
        let p = pick_distinct(
            lcg_step(((esi as nat + 1) % 0x1_0000_0000) as u32),
            k,
            degree(esi, k),
            Seq::empty(),
            pick_budget(),
        );
        lemma_pick_bound(lcg_step(((esi as nat + 1) % 0x1_0000_0000) as u32), k, degree(esi, k), Seq::empty(), pick_budget());
        lemma_sort_bound(p, k);
    }
}

/// The XOR at byte `b` of the symbols `idxs[..n]` of `src` (missing bytes as 0).
pub open spec fn xor_at(src: Seq<Seq<u8>>, idxs: Seq<usize>, n: nat, b: int) -> u8
    decreases n,
{
    if n == 0 {
        0
    } else {
        xor_at(src, idxs, (n - 1) as nat, b) ^ crate::gf28::byte_at(src[idxs[n - 1] as int], b)
    }
}

/// The data of symbol `esi` of block `src`: the XOR of its neighbors, `len`
/// bytes long (for a source id, the source symbol itself).
#[verifier::opaque]
pub open spec fn symbol_data(src: Seq<Seq<u8>>, esi: u32, k: nat, len: nat) -> Seq<u8> {
    Seq::new(len, |b: int| xor_at(src, neighbor_list(esi, k), neighbor_list(esi, k).len(), b))
}

/// The first symbol whose length differs from the first one's, if any.
pub open spec fn first_length_mismatch(src: Seq<Seq<u8>>, upto: int) -> Option<int>
    decreases upto,
{
    if upto <= 0 {
        None
    } else {
        match first_length_mismatch(src, upto - 1) {
            Some(i) => Some(i),
            None => if src[upto - 1].len() != src[0].len() {
                Some(upto - 1)
            } else {
                None
            },
        }
    }
}

pub open spec fn vecs_view(v: Seq<Vec<u8>>) -> Seq<Seq<u8>> {
    v.map_values(|x: Vec<u8>| x@)
}

/// `"symbol {i} length {len} != expected {expected}"`.
pub open spec fn length_mismatch_message(i: nat, len: nat, expected: nat) -> Seq<u8> {
    msg_symbol() + decimal(i) + msg_length() + decimal(len) + msg_ne_expected() + decimal(expected)
}

/// The encoder's output for source block `src`: the source symbols with ids
/// `0..k`, then `repair` repair symbols with ids `k, k + 1, ...`.
pub open spec fn encoded_symbols(src: Seq<Seq<u8>>, repair: nat, out: Seq<FountainSymbol>) -> bool {
    let k = src.len();
    &&& out.len() == k + repair
    &&& forall|i: int| 0 <= i < k ==> #[trigger] out[i].esi == i && out[i].data@ == src[i]
    &&& forall|j: int|
        k <= j < k + repair ==> #[trigger] out[j].esi == j as u32 && out[j].data@ == symbol_data(
            src,
            j as u32,
            k,
            src[0].len(),
        )
}

/// The bytewise XOR of the source symbols `neigh`.
fn xor_of(source_symbols: &[Vec<u8>], neigh: &Vec<usize>, symbol_len: usize) -> (data: Vec<u8>)
    requires
        forall|x: int| 0 <= x < neigh@.len() ==> #[trigger] neigh@[x] < source_symbols@.len(),
        forall|x: int| 0 <= x < source_symbols@.len() ==> (#[trigger] source_symbols@[x])@.len() == symbol_len,
    ensures
        data@ == Seq::new(symbol_len as nat, |b: int| xor_at(vecs_view(source_symbols@), neigh@, neigh@.len(), b)),
{
    let ghost src = vecs_view(source_symbols@);
    let mut data: Vec<u8> = Vec::new();
    push_zeros(&mut data, symbol_len);
    let mut t: usize = 0;
    while t < neigh.len()
        invariant
            t <= neigh@.len(),
            forall|x: int| 0 <= x < neigh@.len() ==> #[trigger] neigh@[x] < source_symbols@.len(),
            src == vecs_view(source_symbols@),
            forall|x: int| 0 <= x < source_symbols@.len() ==> (#[trigger] source_symbols@[x])@.len() == symbol_len,
            data@.len() == symbol_len,
            forall|b: int| 0 <= b < symbol_len ==> #[trigger] data@[b] == xor_at(src, neigh@, t as nat, b),
        decreases neigh@.len() - t,
    {
        let idx = neigh[t];
        let sym = &source_symbols[idx];
        assert(sym@ == src[idx as int]);
        let mut b: usize = 0;
        while b < symbol_len
            invariant
                b <= symbol_len,
                sym@.len() == symbol_len,
                sym@ == src[neigh@[t as int] as int],
                t < neigh@.len(),
                data@.len() == symbol_len,
                forall|x: int| 0 <= x < b ==> #[trigger] data@[x] == xor_at(src, neigh@, (t + 1) as nat, x),
                forall|x: int| b <= x < symbol_len ==> #[trigger] data@[x] == xor_at(src, neigh@, t as nat, x),
            decreases symbol_len - b,
        {
            let v = data[b] ^ sym[b];
            data.set(b, v);
            b = b + 1;
        }
        t = t + 1;
    }
    assert(data@ =~= Seq::new(symbol_len as nat, |b: int| xor_at(src, neigh@, neigh@.len(), b)));
    data
}

/// Encodes the source symbols followed by `repair_count` repair symbols
/// with ids `k, k + 1, ...`.
pub fn fountain_encode(source_symbols: &[Vec<u8>], repair_count: usize) -> (r: Result<
    Vec<FountainSymbol>,
    String,
>)
    requires
        source_symbols@.len() + repair_count <= usize::MAX,
        source_symbols@.len() <= 256 ==> forall|j: int|
            0 <= j < repair_count ==> !#[trigger] degree_panics(
                (source_symbols@.len() + j) as u32,
                source_symbols@.len() as nat,
            ),
    ensures
        ({
            let src = vecs_view(source_symbols@);
            let k = src.len();
            if k == 0 {
                r matches Err(e) && e@ == ascii_chars(msg_need_source())
            } else if first_length_mismatch(src, k as int) is Some {
                let i = first_length_mismatch(src, k as int)->0;
                r matches Err(e) && e@ == ascii_chars(length_mismatch_message(i as nat, src[i].len(), src[0].len()))
            } else if config_error(k, src[0].len()) is Some {
                r matches Err(e) && e@ == ascii_chars(config_error(k, src[0].len())->0)
            } else {
                r matches Ok(out) && encoded_symbols(src, repair_count as nat, out@)
            }
        }),
{
    let ghost src = vecs_view(source_symbols@);
    if source_symbols.len() == 0 {
        return Err(string_from_ascii(msg_need_source_bytes()));
    }
    let k = source_symbols.len();
    let symbol_len = source_symbols[0].len();
    let mut i: usize = 0;
    while i < k
        invariant
            i <= k == src.len(),
            src == vecs_view(source_symbols@),
            symbol_len == src[0].len(),
            first_length_mismatch(src, i as int) is None,
        decreases k - i,
    {
        assert(src[i as int] == source_symbols@[i as int]@);
        if source_symbols[i].len() != symbol_len {
            let mut m = msg_symbol_bytes();
            push_decimal_ascii(&mut m, i as u64);
            let l = msg_length_bytes();
            push_ascii(&mut m, l.as_slice());
            push_decimal_ascii(&mut m, source_symbols[i].len() as u64);
            let e = msg_ne_expected_bytes();
            push_ascii(&mut m, e.as_slice());
            push_decimal_ascii(&mut m, symbol_len as u64);
            proof {
                lemma_first_mismatch_stable(src, i as int + 1, k as int);
            }
            return Err(string_from_ascii(m));
        }
        i = i + 1;
    }
    if let Err(e) = FountainConfig::new(k, symbol_len) {
        return Err(e);
    }
    proof {
        lemma_no_mismatch(src, k as int);
    }
    let mut out: Vec<FountainSymbol> = Vec::new();
    let mut s: usize = 0;
    while s < k
        invariant
            s <= k == src.len(),
            k <= 256,
            src == vecs_view(source_symbols@),
            out@.len() == s,
            forall|x: int| 0 <= x < s ==> #[trigger] out@[x].esi == x && out@[x].data@ == src[x],
        decreases k - s,
    {
        let data = copy_range(source_symbols[s].as_slice(), 0, source_symbols[s].len());
        assert(data@ =~= src[s as int]);
        out.push(FountainSymbol { esi: s as u32, data });
        s = s + 1;
    }
    assert forall|x: int| 0 <= x < k implies (#[trigger] source_symbols@[x])@.len() == symbol_len by {
        assert(src[x] == source_symbols@[x]@);
    }
    let mut rr: usize = 0;
    while rr < repair_count
        invariant
            1 <= k <= 256,
            k == src.len(),
            k + repair_count <= usize::MAX,
            symbol_len == src[0].len(),
            src == vecs_view(source_symbols@),
            forall|x: int| 0 <= x < k ==> (#[trigger] source_symbols@[x])@.len() == symbol_len,
            forall|j: int|
                0 <= j < repair_count ==> !#[trigger] degree_panics((k + j) as u32, k as nat),
            rr <= repair_count,
            out@.len() == k + rr,
            forall|x: int| 0 <= x < k ==> #[trigger] out@[x].esi == x && out@[x].data@ == src[x],
            forall|j: int| k <= j < k + rr ==> #[trigger] out@[j].esi == j as u32 && out@[j].data@ == symbol_data(src, j as u32, k as nat, symbol_len as nat),
        decreases repair_count - rr,
    {
        let esi = (k + rr) as u32;
        assert(!degree_panics((k + rr) as u32, k as nat));
        let neigh = neighbors(esi, k);
        proof {
            lemma_neighbors_in_range(esi, k as nat);
        }
        let data = xor_of(source_symbols, &neigh, symbol_len);
        assert(data@ =~= symbol_data(src, esi, k as nat, symbol_len as nat)) by {
            reveal(symbol_data);
        }
        let ghost prev = out@;
        out.push(FountainSymbol { esi, data });
        assert forall|x: int| 0 <= x < k implies #[trigger] out@[x].esi == x && out@[x].data@ == src[x] by {
            assert(out@[x] == prev[x]);
        }
        assert forall|j: int| k <= j < k + rr + 1 implies #[trigger] out@[j].esi == j as u32 && out@[j].data@
            == symbol_data(src, j as u32, k as nat, symbol_len as nat) by {
            if j < k + rr {
                assert(out@[j] == prev[j]);
            }
        }
        rr = rr + 1;
    }
    assert(first_length_mismatch(src, k as int) is None);
    assert(config_error(k as nat, src[0].len()) is None);
    assert(encoded_symbols(src, repair_count as nat, out@));
    Ok(out)
}

/// The symbol length `split_payload` picks: `ceil(n / k)`, at least 1.
pub open spec fn split_len(n: nat, k: nat) -> nat {
    let c = (n + k - 1) / (k as int);
    if c <= 0 {
        1
    } else {
        c as nat
    }
}

/// Symbol `i` of the split: bytes `i * len .. (i + 1) * len` of the payload,
/// zero past its end.
pub open spec fn split_row(payload: Seq<u8>, len: nat, i: int) -> Seq<u8> {
    Seq::new(len, |b: int| crate::gf28::byte_at(payload, i * len + b))
}

/// The payload cut into `k` symbols of `split_len` bytes.
pub open spec fn split_symbols(payload: Seq<u8>, k: nat) -> Seq<Seq<u8>> {
    Seq::new(k, |i: int| split_row(payload, split_len(payload.len(), k), i))
}

pub(crate) proof fn lemma_split_len_bound(n: nat, k: nat)
    requires
        k >= 1,
    ensures
        split_len(n, k) >= 1,
        n <= k * split_len(n, k) <= n + k,
{
    let c = (n + k - 1) / (k as int);
    vstd::arithmetic::div_mod::lemma_fundamental_div_mod(n + k - 1, k as int);
    let r = (n + k - 1) % (k as int);
    assert(0 <= r < k);
    assert(k * c + r == n + k - 1);
    if c <= 0 {
        assert(c == 0);
        assert(k * c == 0) by (nonlinear_arith)
            requires
                c == 0,
        ;
        assert(n == 0);
    } else {
        assert(k * split_len(n, k) == k * c);
    }
}

/// Cuts `payload` into `k` symbols of equal length, the last ones padded
/// with zeros.
pub fn split_payload(payload: &[u8], k: usize) -> (r: Result<Vec<Vec<u8>>, String>)
    requires
        payload@.len() + k <= usize::MAX,
    ensures
        k == 0 ==> (r matches Err(e) && e@ == ascii_chars(msg_k_positive())),
        k > 0 ==> (r matches Ok(v) && vecs_view(v@) == split_symbols(payload@, k as nat)),
{
    if k == 0 {
        return Err(string_from_ascii(msg_k_positive_bytes()));
    }
    let n = payload.len();
    let c = (n + k - 1) / k;
    let symbol_len = if c == 0 { 1 } else { c };
    proof {
        lemma_split_len_bound(n as nat, k as nat);
        assert(symbol_len == split_len(n as nat, k as nat));
    }
    let ghost want = split_symbols(payload@, k as nat);
    let mut symbols: Vec<Vec<u8>> = Vec::new();
    let mut i: usize = 0;
    while i < k
        invariant
            i <= k,
            n == payload@.len(),
            n + k <= usize::MAX,
            symbol_len == split_len(n as nat, k as nat),
            symbol_len >= 1,
            k * symbol_len <= n + k,
            want == split_symbols(payload@, k as nat),
            symbols@.len() == i,
            forall|x: int| 0 <= x < i ==> (#[trigger] symbols@[x])@ == want[x],
        decreases k - i,
    {
        assert((i + 1) * symbol_len <= k * symbol_len) by (nonlinear_arith)
            requires
                i + 1 <= k,
        ;
        assert((i + 1) * symbol_len == i * symbol_len + symbol_len) by (nonlinear_arith);
        let start = i * symbol_len;
        let mut sym: Vec<u8> = Vec::new();
        let mut b: usize = 0;
        while b < symbol_len
            invariant
                b <= symbol_len,
                start + symbol_len <= n + k,
                n + k <= usize::MAX,
                n == payload@.len(),
                start == i * symbol_len,
                sym@.len() == b,
                forall|x: int| 0 <= x < b ==> #[trigger] sym@[x] == crate::gf28::byte_at(payload@, i * symbol_len + x),
            decreases symbol_len - b,
        {
            if start + b < n {
                sym.push(payload[start + b]);
            } else {
                sym.push(0u8);
            }
            b = b + 1;
        }
        assert(sym@ =~= want[i as int]);
        symbols.push(sym);
        i = i + 1;
    }
    assert(vecs_view(symbols@) =~= want);
    Ok(symbols)
}

proof fn lemma_flatten_prefix(rows: Seq<Seq<u8>>, i: int)
    requires
        0 <= i < rows.len(),
    ensures
        crate::shard_stream::flatten(rows.take(i + 1)) == crate::shard_stream::flatten(rows.take(i)) + rows[i],
{
    assert(rows.take(i + 1).drop_last() =~= rows.take(i));
}

/// Concatenates the symbols and keeps the first `total_len` bytes.
pub fn join_payload(symbols: &[Vec<u8>], total_len: usize) -> (r: Result<Vec<u8>, String>)
    ensures
        ({
            let all = crate::shard_stream::flatten(vecs_view(symbols@));
            &&& all.len() < total_len ==> (r matches Err(e) && e@ == ascii_chars(
                msg_joined_length() + decimal(all.len()) + msg_lt_expected() + decimal(total_len as nat),
            ))
            &&& all.len() >= total_len ==> (r matches Ok(v) && v@ == all.take(total_len as int))
        }),
{
    let ghost rows = vecs_view(symbols@);
    let mut out: Vec<u8> = Vec::new();
    let mut i: usize = 0;
    assert(rows.take(0) =~= Seq::<Seq<u8>>::empty());
    while i < symbols.len()
        invariant
            i <= symbols@.len(),
            rows == vecs_view(symbols@),
            out@ == crate::shard_stream::flatten(rows.take(i as int)),
        decreases symbols@.len() - i,
    {
        proof {
            lemma_flatten_prefix(rows, i as int);
        }
        push_all(&mut out, symbols[i].as_slice());
        i = i + 1;
    }
    assert(rows.take(symbols@.len() as int) =~= rows);
    if out.len() < total_len {
        let mut m = msg_joined_length_bytes();
        push_decimal_ascii(&mut m, out.len() as u64);
        let t = msg_lt_expected_bytes();
        push_ascii(&mut m, t.as_slice());
        push_decimal_ascii(&mut m, total_len as u64);
        return Err(string_from_ascii(m));
    }
    out.truncate(total_len);
    Ok(out)
}

proof fn lemma_no_mismatch(src: Seq<Seq<u8>>, upto: int)
    requires
        0 <= upto <= src.len(),
        first_length_mismatch(src, upto) is None,
    ensures
        forall|x: int| 0 <= x < upto ==> (#[trigger] src[x]).len() == src[0].len(),
    decreases upto,
{
    if upto > 0 {
        lemma_no_mismatch(src, upto - 1);
    }
}

proof fn lemma_first_mismatch_stable(src: Seq<Seq<u8>>, from: int, to: int)
    requires
        1 <= from <= to,
        first_length_mismatch(src, from) is Some,
    ensures
        first_length_mismatch(src, to) == first_length_mismatch(src, from),
    decreases to - from,
{
    if to > from {
        lemma_first_mismatch_stable(src, from, to - 1);
    }
}


pub(crate) proof fn lemma_flatten_len(rows: Seq<Seq<u8>>, len: nat)
    requires
        forall|i: int| 0 <= i < rows.len() ==> (#[trigger] rows[i]).len() == len,
    ensures
        crate::shard_stream::flatten(rows).len() == rows.len() * len,
    decreases rows.len(),
{
    if rows.len() > 0 {
        lemma_flatten_len(rows.drop_last(), len);
        let m = rows.len() - 1;
        assert(m * len + len == rows.len() * len) by (nonlinear_arith)
            requires
                m == rows.len() - 1,
        ;
    }
}

proof fn lemma_flatten_at(rows: Seq<Seq<u8>>, len: nat, i: int, b: int)
    requires
        forall|x: int| 0 <= x < rows.len() ==> (#[trigger] rows[x]).len() == len,
        0 <= i < rows.len(),
        0 <= b < len,
    ensures
        i * len + b < crate::shard_stream::flatten(rows).len(),
        crate::shard_stream::flatten(rows)[i * len + b] == rows[i][b],
    decreases rows.len(),
{
    let m = rows.len() - 1;
    let init = rows.drop_last();
    lemma_flatten_len(init, len);
    lemma_flatten_len(rows, len);
    assert(crate::shard_stream::flatten(rows) == crate::shard_stream::flatten(init) + rows.last());
    if i == m {
        assert(i * len + b - m * len == b);
    } else {
        lemma_flatten_at(init, len, i, b);
        assert(i * len + b < m * len) by (nonlinear_arith)
            requires
                0 <= i < m,
                0 <= b < len,
        ;
    }
    assert(i * len + b < rows.len() * len) by (nonlinear_arith)
        requires
            0 <= i < rows.len(),
            0 <= b < len,
    ;
}

/// Joining the split of a payload, cut to the payload's length, gives the
/// payload back.
pub proof fn lemma_split_join_round_trip(payload: Seq<u8>, k: nat)
    requires
        k >= 1,
    ensures
        crate::shard_stream::flatten(split_symbols(payload, k)).len() >= payload.len(),
        crate::shard_stream::flatten(split_symbols(payload, k)).take(payload.len() as int) == payload,
{
    let n = payload.len();
    let len = split_len(n, k);
    lemma_split_len_bound(n, k);
    let rows = split_symbols(payload, k);
    let all = crate::shard_stream::flatten(rows);
    assert forall|x: int| 0 <= x < rows.len() implies (#[trigger] rows[x]).len() == len by {}
    lemma_flatten_len(rows, len);
    assert(k * len == rows.len() * len);
    assert forall|x: int| 0 <= x < n implies all[x] == payload[x] by {
        vstd::arithmetic::div_mod::lemma_fundamental_div_mod(x, len as int);
        let i = x / (len as int);
        let b = x % (len as int);
        assert(0 <= b < len);
        assert(i >= 0) by (nonlinear_arith)
            requires
                x >= 0,
                len >= 1,
                i == x / (len as int),
        ;
        assert(i < k) by (nonlinear_arith)
            requires
                x == len * i + b,
                0 <= b,
                x < k * len,
                len >= 1,
        ;
        lemma_flatten_at(rows, len, i, b);
        assert(i * len + b == x) by (nonlinear_arith)
            requires
                x == len * i + b,
        ;
        assert(rows[i][b] == crate::gf28::byte_at(payload, i * len + b));
    }
    assert(all.take(n as int) =~= payload);
}

/// A source block: `k` symbols of `len` bytes.
pub open spec fn is_block(src: Seq<Seq<u8>>, k: nat, len: nat) -> bool {
    src.len() == k && forall|i: int| 0 <= i < k ==> (#[trigger] src[i]).len() == len
}

/// `data` is the XOR of the symbols `idxs` of `src`.
pub open spec fn equation_holds(src: Seq<Seq<u8>>, idxs: Seq<usize>, data: Seq<u8>) -> bool {
    forall|b: int| 0 <= b < data.len() ==> #[trigger] data[b] == xor_at(src, idxs, idxs.len(), b)
}

/// Every recovered slot holds the source symbol of the same index.
pub open spec fn slots_agree(slots: Seq<Option<Seq<u8>>>, src: Seq<Seq<u8>>) -> bool {
    forall|i: int| 0 <= i < slots.len() && (#[trigger] slots[i]) is Some ==> slots[i]->0 == src[i]
}

/// The XOR at byte `b` of the recovered slots among `idxs[..n]`.
pub open spec fn known_xor(slots: Seq<Option<Seq<u8>>>, idxs: Seq<usize>, n: nat, b: int) -> u8
    decreases n,
{
    if n == 0 {
        0
    } else {
        known_xor(slots, idxs, (n - 1) as nat, b) ^ match slots[idxs[n - 1] as int] {
            Some(d) => crate::gf28::byte_at(d, b),
            None => 0u8,
        }
    }
}

/// The indices among `idxs[..n]` whose slot is still empty, in order.
pub open spec fn unresolved(slots: Seq<Option<Seq<u8>>>, idxs: Seq<usize>, n: nat) -> Seq<usize>
    decreases n,
{
    if n == 0 {
        Seq::empty()
    } else {
        let rest = unresolved(slots, idxs, (n - 1) as nat);
        if slots[idxs[n - 1] as int] is None {
            rest.push(idxs[n - 1])
        } else {
            rest
        }
    }
}

/// An equation with the recovered symbols XORed out of its data.
pub open spec fn reduced_data(slots: Seq<Option<Seq<u8>>>, idxs: Seq<usize>, data: Seq<u8>) -> Seq<u8> {
    Seq::new(data.len(), |b: int| data[b] ^ known_xor(slots, idxs, idxs.len(), b))
}

pub open spec fn opt_view(o: Option<Vec<u8>>) -> Option<Seq<u8>> {
    match o {
        Some(v) => Some(v@),
        None => None,
    }
}

pub open spec fn slots_of(v: Seq<Option<Vec<u8>>>) -> Seq<Option<Seq<u8>>> {
    v.map_values(|o: Option<Vec<u8>>| opt_view(o))
}

pub open spec fn equations_of(v: Seq<(Vec<usize>, Vec<u8>)>) -> Seq<(Seq<usize>, Seq<u8>)> {
    v.map_values(|e: (Vec<usize>, Vec<u8>)| (e.0@, e.1@))
}

proof fn lemma_xor_at_prefix(src: Seq<Seq<u8>>, a: Seq<usize>, c: Seq<usize>, n: nat, b: int)
    requires
        n <= a.len(),
        n <= c.len(),
        forall|i: int| 0 <= i < n ==> a[i] == c[i],
    ensures
        xor_at(src, a, n, b) == xor_at(src, c, n, b),
    decreases n,
{
    if n > 0 {
        lemma_xor_at_prefix(src, a, c, (n - 1) as nat, b);
    }
}

proof fn lemma_reduce_at(slots: Seq<Option<Seq<u8>>>, src: Seq<Seq<u8>>, idxs: Seq<usize>, n: nat, b: int)
    requires
        n <= idxs.len(),
        slots_agree(slots, src),
        forall|x: int| 0 <= x < idxs.len() ==> #[trigger] idxs[x] < slots.len(),
    ensures
        known_xor(slots, idxs, n, b) ^ xor_at(src, unresolved(slots, idxs, n), unresolved(slots, idxs, n).len(), b)
            == xor_at(src, idxs, n, b),
    decreases n,
{
    if n > 0 {
        let m = (n - 1) as nat;
        lemma_reduce_at(slots, src, idxs, m, b);
        let x = idxs[m as int];
        let kk = known_xor(slots, idxs, m, b);
        let u = unresolved(slots, idxs, m);
        let xu = xor_at(src, u, u.len(), b);
        let s = crate::gf28::byte_at(src[x as int], b);
        assert(idxs[m as int] < slots.len());
        assert(xor_at(src, idxs, n, b) == xor_at(src, idxs, m, b) ^ s);
        if slots[x as int] is Some {
            assert(slots[x as int]->0 == src[x as int]);
            assert(known_xor(slots, idxs, n, b) == kk ^ s);
            assert(unresolved(slots, idxs, n) == u);
            crate::gf28::lemma_xor_assoc(kk, s, xu);
            crate::gf28::lemma_xor_comm(s, xu);
            crate::gf28::lemma_xor_assoc(kk, xu, s);
        } else {
            let u2 = u.push(x);
            assert(known_xor(slots, idxs, n, b) == kk ^ 0u8);
            assert(unresolved(slots, idxs, n) == u2);
            lemma_xor_at_prefix(src, u2, u, u.len(), b);
            assert(xor_at(src, u2, u2.len(), b) == xor_at(src, u2, u.len(), b) ^ s);
            crate::gf28::lemma_xor_zero(kk);
            crate::gf28::lemma_xor_assoc(kk, xu, s);
        }
    } else {
        crate::gf28::lemma_xor_zero(0u8);
    }
}

/// Removing the recovered symbols from an equation that holds of a block the
/// slots agree with leaves an equation that holds over the unresolved ones.
proof fn lemma_reduce_sound(slots: Seq<Option<Seq<u8>>>, src: Seq<Seq<u8>>, idxs: Seq<usize>, data: Seq<u8>)
    requires
        slots_agree(slots, src),
        forall|x: int| 0 <= x < idxs.len() ==> #[trigger] idxs[x] < slots.len(),
        equation_holds(src, idxs, data),
    ensures
        equation_holds(src, unresolved(slots, idxs, idxs.len()), reduced_data(slots, idxs, data)),
{
    let u = unresolved(slots, idxs, idxs.len());
    let r = reduced_data(slots, idxs, data);
    assert forall|b: int| 0 <= b < r.len() implies #[trigger] r[b] == xor_at(src, u, u.len(), b) by {
        lemma_reduce_at(slots, src, idxs, idxs.len(), b);
        let kk = known_xor(slots, idxs, idxs.len(), b);
        let xu = xor_at(src, u, u.len(), b);
        assert(data[b] == kk ^ xu);
        crate::gf28::lemma_xor_comm(kk, xu);
        crate::gf28::lemma_xor_assoc(xu, kk, kk);
        crate::gf28::lemma_xor_zero(kk);
        crate::gf28::lemma_xor_zero(xu);
    }
}

proof fn lemma_unresolved_props(slots: Seq<Option<Seq<u8>>>, idxs: Seq<usize>, n: nat)
    requires
        n <= idxs.len(),
        forall|x: int| 0 <= x < idxs.len() ==> #[trigger] idxs[x] < slots.len(),
    ensures
        unresolved(slots, idxs, n).len() <= n,
        forall|x: int| 0 <= x < unresolved(slots, idxs, n).len() ==> #[trigger] unresolved(slots, idxs, n)[x] < slots.len()
            && slots[unresolved(slots, idxs, n)[x] as int] is None,
    decreases n,
{
    if n > 0 {
        lemma_unresolved_props(slots, idxs, (n - 1) as nat);
        assert(idxs[n - 1] < slots.len());
    }
}

/// Strips the recovered symbols out of an equation: the unresolved indices
/// and the data with the recovered symbols XORed out.
fn reduce_equation(recovered: &Vec<Option<Vec<u8>>>, neigh: &Vec<usize>, data: &Vec<u8>) -> (res: (
    Vec<usize>,
    Vec<u8>,
))
    requires
        forall|x: int| 0 <= x < neigh@.len() ==> #[trigger] neigh@[x] < recovered@.len(),
        forall|i: int|
            0 <= i < recovered@.len() && (#[trigger] recovered@[i]) is Some ==> recovered@[i]->0@.len() == data@.len(),
    ensures
        res.0@ == unresolved(slots_of(recovered@), neigh@, neigh@.len()),
        res.1@ == reduced_data(slots_of(recovered@), neigh@, data@),
        res.0@.len() <= neigh@.len(),
        forall|x: int| 0 <= x < res.0@.len() ==> #[trigger] res.0@[x] < recovered@.len() && slots_of(recovered@)[res.0@[x] as int] is None,
{
    let ghost slots = slots_of(recovered@);
    let mut still: Vec<usize> = Vec::new();
    let mut out: Vec<u8> = Vec::new();
    push_all(&mut out, data.as_slice());
    assert forall|b: int| 0 <= b < data@.len() implies #[trigger] out@[b] == data@[b] ^ known_xor(slots, neigh@, 0, b) by {
        crate::gf28::lemma_xor_zero(data@[b]);
    }
    let mut t: usize = 0;
    while t < neigh.len()
        invariant
            t <= neigh@.len(),
            slots == slots_of(recovered@),
            forall|x: int| 0 <= x < neigh@.len() ==> #[trigger] neigh@[x] < recovered@.len(),
            forall|i: int|
                0 <= i < recovered@.len() && (#[trigger] recovered@[i]) is Some ==> recovered@[i]->0@.len() == data@.len(),
            still@ == unresolved(slots, neigh@, t as nat),
            out@.len() == data@.len(),
            forall|b: int| 0 <= b < data@.len() ==> #[trigger] out@[b] == data@[b] ^ known_xor(slots, neigh@, t as nat, b),
        decreases neigh@.len() - t,
    {
        let idx = neigh[t];
        match &recovered[idx] {
            Some(known) => {
                assert(slots[idx as int] == Some(known@));
                let mut b: usize = 0;
                while b < out.len()
                    invariant
                        b <= out@.len(),
                        out@.len() == data@.len(),
                        known@.len() == data@.len(),
                        slots[neigh@[t as int] as int] == Some(known@),
                        t < neigh@.len(),
                        forall|x: int| 0 <= x < b ==> #[trigger] out@[x] == data@[x] ^ known_xor(slots, neigh@, (t + 1) as nat, x),
                        forall|x: int| b <= x < data@.len() ==> #[trigger] out@[x] == data@[x] ^ known_xor(slots, neigh@, t as nat, x),
                    decreases out@.len() - b,
                {
                    let v = out[b] ^ known[b];
                    proof {
                        crate::gf28::lemma_xor_assoc(data@[b as int], known_xor(slots, neigh@, t as nat, b as int), known@[b as int]);
                    }
                    out.set(b, v);
                    b = b + 1;
                }
            },
            None => {
                assert(slots[idx as int] is None);
                still.push(idx);
                assert forall|x: int| 0 <= x < data@.len() implies #[trigger] out@[x] == data@[x] ^ known_xor(slots, neigh@, (t + 1) as nat, x) by {
                    crate::gf28::lemma_xor_zero(known_xor(slots, neigh@, t as nat, x));
                }
            },
        }
        t = t + 1;
    }
    proof {
        lemma_unresolved_props(slots, neigh@, neigh@.len());
    }
    assert(out@ =~= reduced_data(slots, neigh@, data@));
    (still, out)
}

/// How many of the first `n` slots are recovered.
pub open spec fn count_some(slots: Seq<Option<Seq<u8>>>, n: nat) -> nat
    decreases n,
{
    if n == 0 {
        0
    } else {
        count_some(slots, (n - 1) as nat) + if slots[n - 1] is Some {
            1nat
        } else {
            0nat
        }
    }
}

proof fn lemma_count_full(slots: Seq<Option<Seq<u8>>>, n: nat)
    ensures
        count_some(slots, n) <= n,
        count_some(slots, n) == n <==> forall|i: int| 0 <= i < n ==> (#[trigger] slots[i]) is Some,
    decreases n,
{
    if n > 0 {
        lemma_count_full(slots, (n - 1) as nat);
        if count_some(slots, n) == n {
            assert forall|i: int| 0 <= i < n implies (#[trigger] slots[i]) is Some by {
                if i < n - 1 {
                    assert(count_some(slots, (n - 1) as nat) == n - 1);
                }
            }
        }
    }
}

/// A peeling decoder for the fountain code: recovered source symbols, and
/// the pending equations over two or more unresolved ones.
#[derive(Debug, Clone)]
pub struct FountainDecoder {
    k: usize,
    symbol_len: usize,
    recovered: Vec<Option<Vec<u8>>>,
    equations: Vec<(Vec<usize>, Vec<u8>)>,
}

impl FountainDecoder {
    pub closed spec fn block_len(self) -> nat {
        self.k as nat
    }

    pub closed spec fn sym_len(self) -> nat {
        self.symbol_len as nat
    }

    /// The recovered source symbols, by index.
    pub closed spec fn slots(self) -> Seq<Option<Seq<u8>>> {
        slots_of(self.recovered@)
    }

    /// The pending equations: unresolved indices and the XOR of their symbols.
    pub closed spec fn pending(self) -> Seq<(Seq<usize>, Seq<u8>)> {
        equations_of(self.equations@)
    }

    pub open spec fn wf(self) -> bool {
        &&& 1 <= self.block_len() <= 256
        &&& 1 <= self.sym_len() <= 4096
        &&& self.slots().len() == self.block_len()
        &&& forall|i: int|
            0 <= i < self.slots().len() && (#[trigger] self.slots()[i]) is Some ==> self.slots()[i]->0.len()
                == self.sym_len()
        &&& forall|e: int| 0 <= e < self.pending().len() ==> (#[trigger] self.pending()[e]).1.len() == self.sym_len()
        &&& forall|e: int, x: int|
            0 <= e < self.pending().len() && 0 <= x < self.pending()[e].0.len() ==> #[trigger] self.pending()[e].0[x]
                < self.block_len()
    }

    /// What the decoder holds is true of the block `src`.
    pub open spec fn sound_for(self, src: Seq<Seq<u8>>) -> bool {
        &&& is_block(src, self.block_len(), self.sym_len())
        &&& slots_agree(self.slots(), src)
        &&& forall|e: int| 0 <= e < self.pending().len() ==> equation_holds(src, (#[trigger] self.pending()[e]).0, self.pending()[e].1)
    }

    /// Every source symbol is recovered.
    pub open spec fn complete(self) -> bool {
        forall|i: int| 0 <= i < self.block_len() ==> (#[trigger] self.slots()[i]) is Some
    }

    /// No pending equation can be peeled: each has two or more indices, all
    /// unresolved.
    pub open spec fn peeled(self) -> bool {
        forall|e: int| 0 <= e < self.pending().len() ==> (#[trigger] self.pending()[e]).0.len() >= 2 && forall|x: int|
            0 <= x < self.pending()[e].0.len() ==> (#[trigger] self.slots()[self.pending()[e].0[x] as int]) is None
    }

    /// An empty decoder for blocks of `k` symbols of `symbol_len` bytes.
    pub fn new(k: usize, symbol_len: usize) -> (r: Result<Self, String>)
        ensures
            match config_error(k as nat, symbol_len as nat) {
                Some(m) => r matches Err(e) && e@ == ascii_chars(m),
                None => r matches Ok(d) && d.wf() && d.block_len() == k && d.sym_len() == symbol_len
                    && d.pending().len() == 0 && forall|i: int| 0 <= i < k ==> (#[trigger] d.slots()[i]) is None,
            },
    {
        if let Err(e) = FountainConfig::new(k, symbol_len) {
            return Err(e);
        }
        let mut recovered: Vec<Option<Vec<u8>>> = Vec::new();
        let mut i: usize = 0;
        while i < k
            invariant
                i <= k,
                recovered@.len() == i,
                forall|x: int| 0 <= x < i ==> (#[trigger] recovered@[x]) is None,
            decreases k - i,
        {
            recovered.push(None);
            i = i + 1;
        }
        let d = FountainDecoder { k, symbol_len, recovered, equations: Vec::new() };
        assert(d.slots().len() == k);
        Ok(d)
    }

    /// How many source symbols are recovered.
    pub fn recovered_count(&self) -> (r: usize)
        ensures
            r == count_some(self.slots(), self.slots().len()),
    {
        let ghost slots = self.slots();
        let mut c: usize = 0;
        let mut i: usize = 0;
        while i < self.recovered.len()
            invariant
                i <= self.recovered@.len(),
                slots == self.slots(),
                slots.len() == self.recovered@.len(),
                c == count_some(slots, i as nat),
                c <= i,
            decreases self.recovered@.len() - i,
        {
            proof {
                lemma_count_full(slots, (i + 1) as nat);
            }
            if self.recovered[i].is_some() {
                assert(slots[i as int] is Some);
                c = c + 1;
            } else {
                assert(slots[i as int] is None);
            }
            i = i + 1;
        }
        c
    }

    /// Whether every source symbol is recovered.
    pub fn is_complete(&self) -> (r: bool)
        requires
            self.wf(),
        ensures
            r == self.complete(),
    {
        let c = self.recovered_count();
        proof {
            lemma_count_full(self.slots(), self.slots().len());
        }
        c == self.k
    }

    /// The recovered source symbols, once all are there.
    pub fn take_recovered(self) -> (r: Result<Vec<Vec<u8>>, String>)
        requires
            self.wf(),
        ensures
            !self.complete() ==> (r matches Err(e) && e@ == ascii_chars(
                msg_incomplete() + decimal(count_some(self.slots(), self.block_len())) + msg_slash() + decimal(
                    self.block_len(),
                ) + msg_symbols(),
            )),
            self.complete() ==> (r matches Ok(v) && v@.len() == self.block_len() && forall|i: int|
                0 <= i < self.block_len() ==> self.slots()[i] == Some((#[trigger] v@[i])@)),
    {
        if !self.is_complete() {
            let c = self.recovered_count();
            let mut m = msg_incomplete_bytes();
            push_decimal_ascii(&mut m, c as u64);
            let sl = msg_slash_bytes();
            push_ascii(&mut m, sl.as_slice());
            push_decimal_ascii(&mut m, self.k as u64);
            let sy = msg_symbols_bytes();
            push_ascii(&mut m, sy.as_slice());
            return Err(string_from_ascii(m));
        }
        let ghost slots = self.slots();
        let mut out: Vec<Vec<u8>> = Vec::new();
        let mut i: usize = 0;
        while i < self.recovered.len()
            invariant
                i <= self.recovered@.len(),
                slots == self.slots(),
                self.wf(),
                self.complete(),
                out@.len() == i,
                forall|x: int| 0 <= x < i ==> slots[x] == Some((#[trigger] out@[x])@),
            decreases self.recovered@.len() - i,
        {
            assert(slots[i as int] is Some);
            match &self.recovered[i] {
                Some(v) => {
                    let c = copy_range(v.as_slice(), 0, v.len());
                    assert(c@ =~= v@);
                    out.push(c);
                },
                None => {},
            }
            i = i + 1;
        }
        Ok(out)
    }
}

/// Symbol `s` carries the data block `src` gives its id.
pub open spec fn symbol_fits(src: Seq<Seq<u8>>, k: nat, len: nat, s: FountainSymbol) -> bool {
    s.data@ == symbol_data(src, s.esi, k, len)
}

proof fn lemma_single_equation(src: Seq<Seq<u8>>, idx: usize, data: Seq<u8>)
    requires
        equation_holds(src, seq![idx], data),
        data.len() == src[idx as int].len(),
    ensures
        data == src[idx as int],
{
    assert forall|b: int| 0 <= b < data.len() implies data[b] == src[idx as int][b] by {
        assert(data[b] == xor_at(src, seq![idx], 1, b));
        assert(xor_at(src, seq![idx], 1, b) == xor_at(src, seq![idx], 0, b) ^ crate::gf28::byte_at(src[idx as int], b));
        crate::gf28::lemma_xor_zero(src[idx as int][b]);
    }
    assert(data =~= src[idx as int]);
}

proof fn lemma_equations_update(v: Seq<(Vec<usize>, Vec<u8>)>, i: int, x: (Vec<usize>, Vec<u8>))
    requires
        0 <= i < v.len(),
    ensures
        equations_of(v.update(i, x)) == equations_of(v).update(i, (x.0@, x.1@)),
{
    assert(equations_of(v.update(i, x)) =~= equations_of(v).update(i, (x.0@, x.1@)));
}

proof fn lemma_equations_swap_remove(v: Seq<(Vec<usize>, Vec<u8>)>, i: int)
    requires
        0 <= i < v.len(),
    ensures
        equations_of(v.update(i, v.last()).drop_last()) == equations_of(v).update(i, equations_of(v).last()).drop_last(),
{
    assert(equations_of(v.update(i, v.last()).drop_last()) =~= equations_of(v).update(i, equations_of(v).last()).drop_last());
}

proof fn lemma_equations_push(v: Seq<(Vec<usize>, Vec<u8>)>, x: (Vec<usize>, Vec<u8>))
    ensures
        equations_of(v.push(x)) == equations_of(v).push((x.0@, x.1@)),
{
    assert(equations_of(v.push(x)) =~= equations_of(v).push((x.0@, x.1@)));
}

proof fn lemma_slots_update(v: Seq<Option<Vec<u8>>>, i: int, d: Vec<u8>)
    requires
        0 <= i < v.len(),
    ensures
        slots_of(v.update(i, Some(d))) == slots_of(v).update(i, Some(d@)),
{
    assert(slots_of(v.update(i, Some(d))) =~= slots_of(v).update(i, Some(d@)));
}

impl FountainDecoder {
    /// Stores `data` as source symbol `idx`; a different value already
    /// there is a conflict.
    fn recover(&mut self, idx: usize, data: Vec<u8>) -> (r: Result<(), String>)
        requires
            old(self).wf(),
            data@.len() == old(self).sym_len(),
        ensures
            final(self).wf(),
            final(self).block_len() == old(self).block_len(),
            final(self).sym_len() == old(self).sym_len(),
            final(self).pending() == old(self).pending(),
            idx >= old(self).block_len() ==> (r matches Err(e) && e@ == ascii_chars(
                msg_index() + decimal(idx as nat) + msg_out_of_range(),
            ) && final(self).slots() == old(self).slots()),
            idx < old(self).block_len() ==> match old(self).slots()[idx as int] {
                None => r is Ok && final(self).slots() == old(self).slots().update(idx as int, Some(data@)),
                Some(e) => final(self).slots() == old(self).slots() && if e == data@ {
                    r is Ok
                } else {
                    r matches Err(m) && m@ == ascii_chars(msg_conflict() + decimal(idx as nat))
                },
            },
            forall|src: Seq<Seq<u8>>|
                #[trigger] old(self).sound_for(src) && idx < old(self).block_len() && equation_holds(src, seq![idx], data@)
                    ==> r is Ok && final(self).sound_for(src),
    {
        if idx >= self.k {
            let mut m = msg_index_bytes();
            push_decimal_ascii(&mut m, idx as u64);
            let o = msg_out_of_range_bytes();
            push_ascii(&mut m, o.as_slice());
            return Err(string_from_ascii(m));
        }
        let ghost s0 = *self;
        assert forall|src: Seq<Seq<u8>>| #[trigger] s0.sound_for(src) && equation_holds(src, seq![idx], data@) implies data@
            == src[idx as int] by {
            lemma_single_equation(src, idx, data@);
        }
        if let Some(existing) = &self.recovered[idx] {
            assert(s0.slots()[idx as int] == Some(existing@));
            if !bytes_equal(existing.as_slice(), data.as_slice()) {
                let mut m = msg_conflict_bytes();
                push_decimal_ascii(&mut m, idx as u64);
                return Err(string_from_ascii(m));
            }
            return Ok(());
        }
        assert(s0.slots()[idx as int] is None);
        proof {
            lemma_slots_update(self.recovered@, idx as int, data);
        }
        self.recovered.set(idx, Some(data));
        assert(self.slots() == s0.slots().update(idx as int, Some(data@)));
        assert(self.pending() == s0.pending());
        assert forall|i: int| 0 <= i < self.slots().len() && (#[trigger] self.slots()[i]) is Some implies self.slots()[i]->0.len()
            == self.sym_len() by {
            if i != idx {
                assert(self.slots()[i] == s0.slots()[i]);
            }
        }
        assert forall|src: Seq<Seq<u8>>| #[trigger] s0.sound_for(src) && equation_holds(src, seq![idx], data@) implies self.sound_for(src) by {
            assert(data@ == src[idx as int]);
            assert forall|e: int| 0 <= e < self.pending().len() implies equation_holds(src, (#[trigger] self.pending()[e]).0, self.pending()[e].1) by {
                assert(self.pending()[e] == s0.pending()[e]);
            }
        }
        Ok(())
    }
}

/// Dropping pending equation `i` (by moving the last one into its place)
/// keeps the decoder well formed and sound.
proof fn lemma_drop_equation(d: FountainDecoder, d2: FountainDecoder, i: int)
    requires
        d.wf(),
        0 <= i < d.equations@.len(),
        d2.k == d.k,
        d2.symbol_len == d.symbol_len,
        d2.recovered@ == d.recovered@,
        d2.equations@ == d.equations@.update(i, d.equations@.last()).drop_last(),
    ensures
        d2.wf(),
        d2.slots() == d.slots(),
        d2.block_len() == d.block_len(),
        d2.sym_len() == d.sym_len(),
        d2.equations@.len() == d.equations@.len() - 1,
        forall|src: Seq<Seq<u8>>| #[trigger] d.sound_for(src) ==> d2.sound_for(src),
{
    lemma_equations_swap_remove(d.equations@, i);
    let p = d.pending();
    let p2 = d2.pending();
    assert(p2 == p.update(i, p.last()).drop_last());
    assert forall|e: int| 0 <= e < p2.len() implies #[trigger] p2[e] == p[if e == i { p.len() - 1 } else { e }] by {}
    assert forall|e: int| 0 <= e < p2.len() implies (#[trigger] p2[e]).1.len() == d2.sym_len() by {
        assert(p2[e] == p[if e == i { p.len() - 1 } else { e }]);
    }
    assert forall|e: int, x: int| 0 <= e < p2.len() && 0 <= x < p2[e].0.len() implies #[trigger] p2[e].0[x] < d2.block_len() by {
        let e2 = if e == i { p.len() - 1 } else { e };
        assert(p2[e] == p[e2]);
        assert(p[e2].0[x] < d.block_len());
    }
    assert forall|src: Seq<Seq<u8>>| #[trigger] d.sound_for(src) implies d2.sound_for(src) by {
        assert forall|e: int| 0 <= e < p2.len() implies equation_holds(src, (#[trigger] p2[e]).0, p2[e].1) by {
            assert(p2[e] == p[if e == i { p.len() - 1 } else { e }]);
        }
    }
}

/// Replacing pending equation `i` by one that holds wherever the old one did
/// keeps the decoder well formed and sound.
proof fn lemma_replace_equation(d: FountainDecoder, d2: FountainDecoder, i: int, eq: (Vec<usize>, Vec<u8>))
    requires
        d.wf(),
        0 <= i < d.equations@.len(),
        d2.k == d.k,
        d2.symbol_len == d.symbol_len,
        d2.recovered@ == d.recovered@,
        d2.equations@ == d.equations@.update(i, eq),
        eq.1@.len() == d.sym_len(),
        forall|x: int| 0 <= x < eq.0@.len() ==> #[trigger] eq.0@[x] < d.block_len(),
        forall|src: Seq<Seq<u8>>| #[trigger] d.sound_for(src) ==> equation_holds(src, eq.0@, eq.1@),
    ensures
        d2.wf(),
        d2.slots() == d.slots(),
        d2.block_len() == d.block_len(),
        d2.sym_len() == d.sym_len(),
        d2.equations@.len() == d.equations@.len(),
        d2.pending() == d.pending().update(i, (eq.0@, eq.1@)),
        forall|src: Seq<Seq<u8>>| #[trigger] d.sound_for(src) ==> d2.sound_for(src),
{
    lemma_equations_update(d.equations@, i, eq);
    let p = d.pending();
    let p2 = d2.pending();
    assert forall|e: int| 0 <= e < p2.len() implies (#[trigger] p2[e]).1.len() == d2.sym_len() by {
        if e != i {
            assert(p2[e] == p[e]);
        }
    }
    assert forall|e: int, x: int| 0 <= e < p2.len() && 0 <= x < p2[e].0.len() implies #[trigger] p2[e].0[x] < d2.block_len() by {
        if e != i {
            assert(p2[e] == p[e]);
            assert(p[e].0[x] < d.block_len());
        }
    }
    assert forall|src: Seq<Seq<u8>>| #[trigger] d.sound_for(src) implies d2.sound_for(src) by {
        assert forall|e: int| 0 <= e < p2.len() implies equation_holds(src, (#[trigger] p2[e]).0, p2[e].1) by {
            if e != i {
                assert(p2[e] == p[e]);
            }
        }
    }
}

/// Adding an equation that holds wherever the decoder is sound keeps it
/// well formed and sound.
proof fn lemma_add_equation(d: FountainDecoder, d2: FountainDecoder, eq: (Vec<usize>, Vec<u8>), fits: spec_fn(Seq<Seq<u8>>) -> bool)
    requires
        d.wf(),
        d2.k == d.k,
        d2.symbol_len == d.symbol_len,
        d2.recovered@ == d.recovered@,
        d2.equations@ == d.equations@.push(eq),
        eq.1@.len() == d.sym_len(),
        forall|x: int| 0 <= x < eq.0@.len() ==> #[trigger] eq.0@[x] < d.block_len(),
        forall|src: Seq<Seq<u8>>| #[trigger] d.sound_for(src) && fits(src) ==> equation_holds(src, eq.0@, eq.1@),
    ensures
        d2.wf(),
        d2.slots() == d.slots(),
        d2.block_len() == d.block_len(),
        d2.sym_len() == d.sym_len(),
        forall|src: Seq<Seq<u8>>| #[trigger] d.sound_for(src) && fits(src) ==> d2.sound_for(src),
{
    lemma_equations_push(d.equations@, eq);
    let p = d.pending();
    let p2 = d2.pending();
    assert forall|e: int| 0 <= e < p2.len() implies (#[trigger] p2[e]).1.len() == d2.sym_len() by {
        if e < p.len() {
            assert(p2[e] == p[e]);
        }
    }
    assert forall|e: int, x: int| 0 <= e < p2.len() && 0 <= x < p2[e].0.len() implies #[trigger] p2[e].0[x] < d2.block_len() by {
        if e < p.len() {
            assert(p2[e] == p[e]);
            assert(p[e].0[x] < d.block_len());
        }
    }
    assert forall|src: Seq<Seq<u8>>| #[trigger] d.sound_for(src) && fits(src) implies d2.sound_for(src) by {
        assert forall|e: int| 0 <= e < p2.len() implies equation_holds(src, (#[trigger] p2[e]).0, p2[e].1) by {
            if e < p.len() {
                assert(p2[e] == p[e]);
            }
        }
    }
}

impl FountainDecoder {
    /// Resolves pending equations until none has fewer than two unknowns.
    fn peel(&mut self) -> (r: Result<(), String>)
        requires
            old(self).wf(),
        ensures
            final(self).wf(),
            final(self).block_len() == old(self).block_len(),
            final(self).sym_len() == old(self).sym_len(),
            forall|i: int|
                0 <= i < old(self).block_len() && (#[trigger] old(self).slots()[i]) is Some ==> final(self).slots()[i]
                    == old(self).slots()[i],
            r is Ok,
            final(self).peeled(),
            old(self).pending().len() == 0 ==> (final(self).slots() == old(self).slots()
                && final(self).pending().len() == 0),
            forall|src: Seq<Seq<u8>>| #[trigger] old(self).sound_for(src) ==> r is Ok && final(self).sound_for(src),
    {
        let ghost s0 = *self;
        let mut progress = true;
        while progress
            invariant
                self.wf(),
                self.block_len() == s0.block_len(),
                self.sym_len() == s0.sym_len(),
                forall|i: int|
                    0 <= i < s0.block_len() && (#[trigger] s0.slots()[i]) is Some ==> self.slots()[i] == s0.slots()[i],
                forall|src: Seq<Seq<u8>>| #[trigger] s0.sound_for(src) ==> self.sound_for(src),
                s0.pending().len() == 0 ==> (self.slots() == s0.slots() && self.pending().len() == 0),
                !progress ==> self.peeled(),
            decreases self.equations@.len() + if progress { 1int } else { 0int },
        {
            let ghost len0 = self.equations@.len();
            progress = false;
            let mut i: usize = 0;
            while i < self.equations.len()
                invariant
                    self.wf(),
                    self.block_len() == s0.block_len(),
                    self.sym_len() == s0.sym_len(),
                    forall|i: int|
                        0 <= i < s0.block_len() && (#[trigger] s0.slots()[i]) is Some ==> self.slots()[i] == s0.slots()[i],
                    forall|src: Seq<Seq<u8>>| #[trigger] s0.sound_for(src) ==> self.sound_for(src),
                    s0.pending().len() == 0 ==> (self.slots() == s0.slots() && self.pending().len() == 0),
                    i <= self.equations@.len(),
                    progress ==> self.equations@.len() < len0,
                    !progress ==> self.equations@.len() == len0,
                    !progress ==> forall|e: int|
                        0 <= e < i ==> (#[trigger] self.pending()[e]).0.len() >= 2 && forall|x: int|
                            0 <= x < self.pending()[e].0.len() ==> (#[trigger] self.slots()[self.pending()[e].0[x] as int]) is None,
                decreases self.equations@.len() - i,
            {
                let ghost s1 = *self;
                assert(self.pending()[i as int] == (self.equations@[i as int].0@, self.equations@[i as int].1@));
                assert forall|x: int| 0 <= x < self.equations@[i as int].0@.len() implies #[trigger] self.equations@[i as int].0@[x]
                    < self.recovered@.len() by {
                    assert(self.pending()[i as int].0[x] < self.block_len());
                }
                assert forall|j: int| 0 <= j < self.recovered@.len() && (#[trigger] self.recovered@[j]) is Some implies self.recovered@[j]->0@.len()
                    == self.equations@[i as int].1@.len() by {
                    assert(self.slots()[j] == opt_view(self.recovered@[j]));
                }
                let (still, reduced) = reduce_equation(&self.recovered, &self.equations[i].0, &self.equations[i].1);
                assert forall|src: Seq<Seq<u8>>| #[trigger] s1.sound_for(src) implies equation_holds(src, still@, reduced@) by {
                    assert(equation_holds(src, s1.pending()[i as int].0, s1.pending()[i as int].1));
                    lemma_reduce_sound(s1.slots(), src, s1.pending()[i as int].0, s1.pending()[i as int].1);
                }
                if still.len() == 0 {
                    self.equations.swap_remove(i);
                    proof {
                        lemma_drop_equation(s1, *self, i as int);
                    }
                    progress = true;
                    continue;
                }
                if still.len() == 1 {
                    let idx = still[0];
                    assert(still@ =~= seq![idx]);
                    self.equations.swap_remove(i);
                    proof {
                        lemma_drop_equation(s1, *self, i as int);
                    }
                    let ghost s2 = *self;
                    let rr = self.recover(idx, reduced);
                    if let Err(e) = rr {
                        assert forall|src: Seq<Seq<u8>>| #[trigger] s0.sound_for(src) implies false by {
                            assert(s1.sound_for(src));
                            assert(s2.sound_for(src));
                        }
                        return Err(e);
                    }
                    progress = true;
                    continue;
                }
                let ghost eq = (still, reduced);
                self.equations.set(i, (still, reduced));
                proof {
                    lemma_replace_equation(s1, *self, i as int, eq);
                    assert(self.pending()[i as int] == (eq.0@, eq.1@));
                }
                i = i + 1;
            }
        }
        Ok(())
    }
}

proof fn lemma_symbol_data_len(src: Seq<Seq<u8>>, esi: u32, k: nat, len: nat)
    ensures
        symbol_data(src, esi, k, len).len() == len,
{
    reveal(symbol_data);
}

proof fn lemma_neighbors_of_source(esi: u32, k: nat)
    requires
        esi < k,
    ensures
        neighbor_list(esi, k) == seq![esi as usize],
{
    reveal(neighbor_list);
}

impl FountainDecoder {
    /// Takes in one encoded symbol and peels what it makes solvable; tells
    /// whether this symbol completed the block (true only on the call that
    /// completes it).
    pub fn ingest(&mut self, symbol: &FountainSymbol) -> (r: Result<bool, String>)
        requires
            old(self).wf(),
            !degree_panics(symbol.esi, old(self).block_len()),
        ensures
            final(self).wf(),
            final(self).block_len() == old(self).block_len(),
            final(self).sym_len() == old(self).sym_len(),
            symbol.data@.len() == old(self).sym_len() ==> r is Ok,
            symbol.data@.len() != old(self).sym_len() ==> (r matches Err(e) && e@ == ascii_chars(
                msg_symbol_length() + decimal(symbol.data@.len()) + msg_ne() + decimal(old(self).sym_len()),
            ) && *final(self) == *old(self)),
            forall|i: int|
                0 <= i < old(self).block_len() && (#[trigger] old(self).slots()[i]) is Some ==> final(self).slots()[i]
                    == old(self).slots()[i],
            r matches Ok(done) ==> done == (final(self).complete() && !old(self).complete()) && (
            final(self).peeled() || *final(self) == *old(self)),
            (symbol.esi < old(self).block_len() && r is Ok) ==> final(self).slots()[symbol.esi as int] is Some,
            (old(self).pending().len() == 0 && symbol.esi < old(self).block_len() && symbol.data@.len()
                == old(self).sym_len()) ==> (r is Ok && final(self).pending().len() == 0 && final(self).slots() == if old(
                self,
            ).slots()[symbol.esi as int] is Some {
                old(self).slots()
            } else {
                old(self).slots().update(symbol.esi as int, Some(symbol.data@))
            }),
            forall|src: Seq<Seq<u8>>|
                #![trigger old(self).sound_for(src)]
                #![trigger final(self).sound_for(src)]
                old(self).sound_for(src) && symbol_fits(src, old(self).block_len(), old(self).sym_len(), *symbol) ==> r is Ok
                    && final(self).sound_for(src),
    {
        if symbol.data.len() != self.symbol_len {
            let mut m = msg_symbol_length_bytes();
            push_decimal_ascii(&mut m, symbol.data.len() as u64);
            let n = msg_ne_bytes();
            push_ascii(&mut m, n.as_slice());
            push_decimal_ascii(&mut m, self.symbol_len as u64);
            assert forall|src: Seq<Seq<u8>>| #[trigger] self.sound_for(src) && symbol_fits(src, self.block_len(), self.sym_len(), *symbol) implies false by {
                lemma_symbol_data_len(src, symbol.esi, self.block_len(), self.sym_len());
            }
            return Err(string_from_ascii(m));
        }
        let ghost s0 = *self;
        let ghost k = self.k as nat;
        let ghost len = self.symbol_len as nat;
        let was_complete = self.is_complete();
        let neigh = neighbors(symbol.esi, self.k);
        proof {
            lemma_neighbors_in_range(symbol.esi, k);
        }
        assert forall|j: int| 0 <= j < self.recovered@.len() && (#[trigger] self.recovered@[j]) is Some implies self.recovered@[j]->0@.len()
            == symbol.data@.len() by {
            assert(self.slots()[j] == opt_view(self.recovered@[j]));
        }
        let (still, data) = reduce_equation(&self.recovered, &neigh, &symbol.data);
        let ghost fits = |src: Seq<Seq<u8>>| symbol_fits(src, k, len, *symbol);
        assert forall|src: Seq<Seq<u8>>| #[trigger] s0.sound_for(src) && fits(src) implies equation_holds(src, still@, data@) by {
            reveal(symbol_data);
            assert(equation_holds(src, neigh@, symbol.data@));
            lemma_reduce_sound(s0.slots(), src, neigh@, symbol.data@);
        }
        if symbol.esi < self.k as u32 {
            proof {
                lemma_neighbors_of_source(symbol.esi, k);
                let sl = s0.slots();
                assert(unresolved(sl, neigh@, 0) == Seq::<usize>::empty());
                assert(neigh@[0] == symbol.esi as usize);
                if sl[symbol.esi as int] is None {
                    assert(still@ == seq![symbol.esi as usize]);
                    assert forall|b: int| 0 <= b < data@.len() implies #[trigger] data@[b] == symbol.data@[b] by {
                        assert(known_xor(sl, neigh@, 1, b) == known_xor(sl, neigh@, 0, b) ^ 0u8);
                        crate::gf28::lemma_xor_zero(0u8);
                        crate::gf28::lemma_xor_zero(symbol.data@[b]);
                    }
                    assert(data@ =~= symbol.data@);
                } else {
                    assert(still@.len() == 0);
                }
            }
        }
        if still.len() == 0 {
            let done = self.is_complete();
            return Ok(done && !was_complete);
        }
        if still.len() == 1 {
            let idx = still[0];
            assert(still@ =~= seq![idx]);
            let ghost s1 = *self;
            let rr = self.recover(idx, data);
            if let Err(e) = rr {
                assert forall|src: Seq<Seq<u8>>| #[trigger] s0.sound_for(src) && fits(src) implies false by {
                    assert(s1.sound_for(src));
                }
                return Err(e);
            }
        } else {
            let ghost eq = (still, data);
            self.equations.push((still, data));
            proof {
                lemma_add_equation(s0, *self, eq, fits);
            }
        }
        let ghost s2 = *self;
        assert forall|i: int| 0 <= i < s0.block_len() && (#[trigger] s0.slots()[i]) is Some implies s2.slots()[i] == s0.slots()[i] by {
            if still@.len() == 1 && i == still@[0] {
            }
        }
        let p = self.peel();
        assert forall|i: int| 0 <= i < s0.block_len() && (#[trigger] s0.slots()[i]) is Some implies self.slots()[i] == s0.slots()[i] by {
            assert(s2.slots()[i] == s0.slots()[i]);
        }
        if let Err(e) = p {
            assert forall|src: Seq<Seq<u8>>| #[trigger] s0.sound_for(src) && fits(src) implies false by {
                assert(s2.sound_for(src));
            }
            return Err(e);
        }
        if symbol.esi < self.k as u32 {
            assert(still@ == seq![symbol.esi as usize]);
            assert(s2.slots()[symbol.esi as int] is Some);
            assert(self.slots()[symbol.esi as int] == s2.slots()[symbol.esi as int]);
        }
        let done = self.is_complete();
        Ok(done && !was_complete)
    }
}

/// A decoder that is complete and sound for `src` holds exactly `src`.
pub proof fn lemma_complete_decoder_holds_block(d: FountainDecoder, src: Seq<Seq<u8>>)
    requires
        d.wf(),
        d.sound_for(src),
        d.complete(),
    ensures
        forall|i: int| 0 <= i < d.block_len() ==> #[trigger] d.slots()[i] == Some(src[i]),
{
    assert forall|i: int| 0 <= i < d.block_len() implies #[trigger] d.slots()[i] == Some(src[i]) by {
        assert(d.slots()[i] is Some);
    }
}

/// A decoder with nothing recovered and nothing pending is sound for every
/// block of its shape.
pub proof fn lemma_empty_decoder_sound(d: FountainDecoder, src: Seq<Seq<u8>>)
    requires
        d.pending().len() == 0,
        forall|i: int| 0 <= i < d.block_len() ==> (#[trigger] d.slots()[i]) is None,
        d.slots().len() == d.block_len(),
        is_block(src, d.block_len(), d.sym_len()),
    ensures
        d.sound_for(src),
{
}

/// Every symbol the encoder puts out carries the data its id calls for.
pub proof fn lemma_encoded_symbols_fit(src: Seq<Seq<u8>>, repair: nat, out: Seq<FountainSymbol>)
    requires
        src.len() >= 1,
        is_block(src, src.len(), src[0].len()),
        encoded_symbols(src, repair, out),
    ensures
        forall|j: int| 0 <= j < out.len() ==> symbol_fits(src, src.len(), src[0].len(), #[trigger] out[j]),
{
    let k = src.len();
    let len = src[0].len();
    assert forall|j: int| 0 <= j < out.len() implies symbol_fits(src, k, len, #[trigger] out[j]) by {
        if j < k {
            assert(out[j].esi == j);
            lemma_neighbors_of_source(out[j].esi, k);
            reveal(symbol_data);
            let nl = neighbor_list(out[j].esi, k);
            assert forall|b: int| 0 <= b < len implies #[trigger] symbol_data(src, out[j].esi, k, len)[b] == src[j][b] by {
                assert(xor_at(src, nl, 1, b) == xor_at(src, nl, 0, b) ^ crate::gf28::byte_at(src[j], b));
                crate::gf28::lemma_xor_zero(src[j][b]);
            }
            assert(symbol_data(src, out[j].esi, k, len) =~= src[j]);
        }
    }
}

/// Some symbol among `symbols` has id `i`.
pub open spec fn has_symbol(symbols: Seq<FountainSymbol>, i: int) -> bool {
    exists|j: int| 0 <= j < symbols.len() && (#[trigger] symbols[j]).esi == i
}

/// Every source symbol id below `k` is among `symbols`.
pub open spec fn covers_sources(symbols: Seq<FountainSymbol>, k: nat) -> bool {
    forall|i: int| 0 <= i < k ==> #[trigger] has_symbol(symbols, i)
}

/// `src` is a block of `k` symbols of `len` bytes that every one of
/// `symbols` fits.
pub open spec fn block_fits(src: Seq<Seq<u8>>, k: nat, len: nat, symbols: Seq<FountainSymbol>) -> bool {
    &&& is_block(src, k, len)
    &&& forall|j: int| 0 <= j < symbols.len() ==> symbol_fits(src, k, len, #[trigger] symbols[j])
}

/// Decodes a payload of `total_len` bytes from the symbols of a block of `k`
/// symbols of `symbol_len` bytes, stopping once the block is complete.
pub fn try_decode_payload(symbols: &[FountainSymbol], k: usize, symbol_len: usize, total_len: usize) -> (r: Result<
    Vec<u8>,
    String,
>)
    requires
        1 <= k <= 256 ==> forall|j: int| 0 <= j < symbols@.len() ==> !degree_panics((#[trigger] symbols@[j]).esi, k as nat),
    ensures
        config_error(k as nat, symbol_len as nat) matches Some(m) ==> (r matches Err(e) && e@ == ascii_chars(m)),
        forall|src: Seq<Seq<u8>>|
            #[trigger] block_fits(src, k as nat, symbol_len as nat, symbols@) ==> {
                &&& r matches Ok(v) ==> v@ == crate::shard_stream::flatten(src).take(total_len as int)
                &&& (config_error(k as nat, symbol_len as nat) is None && total_len <= crate::shard_stream::flatten(src).len()
                    && covers_sources(symbols@, k as nat)) ==> r is Ok
            },
{
    let mut dec = match FountainDecoder::new(k, symbol_len) {
        Ok(d) => d,
        Err(e) => return Err(e),
    };
    assert forall|src: Seq<Seq<u8>>| #[trigger] block_fits(src, k as nat, symbol_len as nat, symbols@) implies dec.sound_for(src) by {
        lemma_empty_decoder_sound(dec, src);
    }
    let mut pos: usize = 0;
    let mut done = false;
    while pos < symbols.len() && !done
        invariant
            dec.wf(),
            dec.block_len() == k,
            dec.sym_len() == symbol_len,
            1 <= k <= 256,
            forall|j: int| 0 <= j < symbols@.len() ==> !degree_panics((#[trigger] symbols@[j]).esi, k as nat),
            pos <= symbols@.len(),
            done ==> dec.complete(),
            forall|src: Seq<Seq<u8>>| #[trigger] block_fits(src, k as nat, symbol_len as nat, symbols@) ==> dec.sound_for(src),
            forall|j: int| 0 <= j < pos && (#[trigger] symbols@[j]).esi < k ==> dec.slots()[symbols@[j].esi as int] is Some,
        decreases symbols@.len() - pos,
    {
        let ghost d0 = dec;
        match dec.ingest(&symbols[pos]) {
            Ok(d) => {
                done = d;
            },
            Err(e) => {
                assert forall|src: Seq<Seq<u8>>| #[trigger] block_fits(src, k as nat, symbol_len as nat, symbols@) implies false by {
                    assert(d0.sound_for(src));
                    assert(symbol_fits(src, k as nat, symbol_len as nat, symbols@[pos as int]));
                }
                return Err(e);
            },
        }
        assert forall|j: int| 0 <= j < pos + 1 && (#[trigger] symbols@[j]).esi < k implies dec.slots()[symbols@[j].esi as int] is Some by {
            if j < pos {
                assert(d0.slots()[symbols@[j].esi as int] is Some);
            }
        }
        assert forall|src: Seq<Seq<u8>>| #[trigger] block_fits(src, k as nat, symbol_len as nat, symbols@) implies dec.sound_for(src) by {
            assert(d0.sound_for(src));
            assert(symbol_fits(src, k as nat, symbol_len as nat, symbols@[pos as int]));
        }
        pos = pos + 1;
    }
    let ghost d1 = dec;
    let recovered = match dec.take_recovered() {
        Ok(v) => v,
        Err(e) => {
            assert forall|src: Seq<Seq<u8>>|
                #[trigger] block_fits(src, k as nat, symbol_len as nat, symbols@) && covers_sources(symbols@, k as nat) implies false by {
                assert forall|i: int| 0 <= i < k implies (#[trigger] d1.slots()[i]) is Some by {
                    assert(has_symbol(symbols@, i));
                    let j = choose|j: int| 0 <= j < symbols@.len() && (#[trigger] symbols@[j]).esi == i;
                    if !done {
                        assert(symbols@[j].esi < k);
                    }
                }
            }
            return Err(e);
        },
    };
    assert forall|src: Seq<Seq<u8>>| #[trigger] block_fits(src, k as nat, symbol_len as nat, symbols@) implies vecs_view(recovered@) == src by {
        lemma_complete_decoder_holds_block(d1, src);
        assert forall|i: int| 0 <= i < k implies #[trigger] vecs_view(recovered@)[i] == src[i] by {
            assert(d1.slots()[i] == Some(recovered@[i]@));
        }
        assert(vecs_view(recovered@) =~= src);
    }
    join_payload(recovered.as_slice(), total_len)
}

/// How many symbols of the stream (source symbols first, then
/// `max_repair` repair symbols) a decoder takes in before the payload's
/// block is complete.
pub fn progressive_recovery_count(payload: &[u8], k: usize, max_repair: usize) -> (r: Result<usize, String>)
    requires
        payload@.len() + k <= usize::MAX,
        k + max_repair <= usize::MAX,
        1 <= k <= 256 ==> forall|j: int| 0 <= j < max_repair ==> !#[trigger] degree_panics((k + j) as u32, k as nat),
    ensures
        k == 0 ==> (r matches Err(e) && e@ == ascii_chars(msg_k_positive())),
        k > 0 ==> match config_error(k as nat, split_len(payload@.len(), k as nat)) {
            Some(m) => r matches Err(e) && e@ == ascii_chars(m),
            None => r == Ok::<usize, String>(k),
        },
{
    let source = match split_payload(payload, k) {
        Ok(v) => v,
        Err(e) => return Err(e),
    };
    let ghost src = vecs_view(source@);
    proof {
        lemma_split_len_bound(payload@.len(), k as nat);
        assert(src[0].len() == split_len(payload@.len(), k as nat));
        assert forall|i: int| 0 <= i < k implies (#[trigger] src[i]).len() == src[0].len() by {}
        assert forall|i: int| 0 < i <= k implies first_length_mismatch(src, i) is None by {
            lemma_no_mismatch_block(src, i);
        }
    }
    assert(source@.len() == src.len());
    assert(src.len() == k);
    let symbol_len = source[0].len();
    assert(symbol_len == src[0].len());
    let symbols = match fountain_encode(source.as_slice(), max_repair) {
        Ok(v) => v,
        Err(e) => return Err(e),
    };
    let mut dec = match FountainDecoder::new(k, symbol_len) {
        Ok(d) => d,
        Err(e) => return Err(e),
    };
    let mut received: usize = 0;
    while received < symbols.len()
        invariant
            dec.wf(),
            dec.block_len() == k,
            dec.sym_len() == symbol_len,
            dec.pending().len() == 0,
            1 <= k <= 256,
            src.len() == k,
            symbol_len == src[0].len(),
            symbol_len == split_len(payload@.len(), k as nat),
            config_error(k as nat, symbol_len as nat) is None,
            forall|i: int| 0 <= i < k ==> (#[trigger] src[i]).len() == src[0].len(),
            encoded_symbols(src, max_repair as nat, symbols@),
            received < k,
            forall|i: int| 0 <= i < k ==> ((#[trigger] dec.slots()[i]) is Some <==> i < received),
        decreases symbols@.len() - received,
    {
        let ghost d0 = dec;
        assert(symbols@[received as int].esi == received);
        assert(symbols@[received as int].data@ == src[received as int]);
        assert(d0.slots()[received as int] is None);
        assert(!d0.complete());
        match dec.ingest(&symbols[received]) {
            Ok(done) => {
                if done {
                    assert(dec.complete());
                    assert(dec.slots()[k - 1] is Some);
                    assert(received + 1 == k);
                    return Ok(received + 1);
                }
                assert(!dec.complete());
            },
            Err(e) => {
                return Err(e);
            },
        }
        assert forall|i: int| 0 <= i < k implies ((#[trigger] dec.slots()[i]) is Some <==> i < received + 1) by {
            if i != received {
                assert(dec.slots()[i] == d0.slots()[i]);
            }
        }
        if received + 1 == k {
            assert(dec.complete());
        }
        received = received + 1;
    }
    let mut m = msg_failed_recover_bytes();
    push_decimal_ascii(&mut m, symbols.len() as u64);
    let sy = msg_symbols_bytes();
    push_ascii(&mut m, sy.as_slice());
    Err(string_from_ascii(m))
}

proof fn lemma_no_mismatch_block(src: Seq<Seq<u8>>, upto: int)
    requires
        0 <= upto <= src.len(),
        forall|i: int| 0 <= i < src.len() ==> (#[trigger] src[i]).len() == src[0].len(),
    ensures
        first_length_mismatch(src, upto) is None,
    decreases upto,
{
    if upto > 0 {
        lemma_no_mismatch_block(src, upto - 1);
    }
}

/// The symbols encoded from a payload's split fit that split, cover every
/// source id, and the split joins back to the payload: so decoding them
/// (or any subset that keeps the source symbols) gives the payload back.
pub proof fn lemma_encoded_payload_decodes(payload: Seq<u8>, k: nat, repair: nat, out: Seq<FountainSymbol>)
    requires
        k >= 1,
        encoded_symbols(split_symbols(payload, k), repair, out),
    ensures
        block_fits(split_symbols(payload, k), k, split_len(payload.len(), k), out),
        covers_sources(out, k),
        payload.len() <= crate::shard_stream::flatten(split_symbols(payload, k)).len(),
        crate::shard_stream::flatten(split_symbols(payload, k)).take(payload.len() as int) == payload,
{
    let src = split_symbols(payload, k);
    let len = split_len(payload.len(), k);
    assert(is_block(src, k, len));
    lemma_encoded_symbols_fit(src, repair, out);
    assert forall|i: int| 0 <= i < k implies #[trigger] has_symbol(out, i) by {
        assert(out[i].esi == i);
    }
    lemma_split_join_round_trip(payload, k);
}

} // verus!
