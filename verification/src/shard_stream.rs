//! One message as one erasure-coded block of authenticated cells: the message
//! is split into 10 data shards, extended to 16 with the Reed-Solomon code,
//! and each shard travels in its own secure cell; any 10 valid cells recover
//! the block.
use vstd::prelude::*;
use crate::gf28::{
    chosen_indices, col_dot, decode_solution, first_indices, opt_bytes, present_indices,
    rows_view, systematic_generator, ReedSolomon16_10,
};
use crate::secure_cell::{
    advanced_highest, decrypt_outcome, opened_payload, sealed_cell, seq_nonce, window_verdict, ReceiveCellError,
    SecureCellReceiver, SecureShardCell,
};
use crate::bytes::{
    all_zero, copy_range, lemma_u16_round_trip, lemma_u32_round_trip, lemma_u64_round_trip,
    push_all, push_u16_be, push_u32_be, push_u64_be, read_u16_be, read_u32_be, read_u64_be,
    u16_at, u16_be, u32_at, u32_be, u64_at, u64_be,
};

verus! {

pub const SHARD_STREAM_MAGIC: [u8; 4] = [0x53, 0x48, 0x44, 0x37];
pub const SHARD_STREAM_K: usize = 10;
pub const SHARD_STREAM_N: usize = 16;
pub const SHARD_STREAM_HEADER_SIZE: usize = 24;
pub const SHARD_STREAM_MAX_SYMBOL_BYTES: usize = 944 - SHARD_STREAM_HEADER_SIZE;
pub const SHARD_STREAM_FLAG_PARITY: u8 = 0x80;

#[derive(Debug, Clone, PartialEq, Eq)]
pub enum ShardStreamError {
    MessageTooLarge { got: usize, max: usize },
    Cell(ReceiveCellError),
    InvalidShardPayload,
    InvalidShardMagic,
    InvalidShardIndex(u8),
    InvalidCodecParameters { k: u8, n: u8 },
    ConflictingBlockMetadata,
    DuplicateShardIndex(u8),
    InsufficientValidShards { got: usize, need: usize },
    ErasureDecode(String),
    InvalidRecoveredLength { got: usize, expected: usize },
}

/// The plaintext of one shard cell.
#[derive(Debug, Clone, PartialEq, Eq)]
struct ShardPlaintext {
    block_id: u64,
    total_len: usize,
    symbol_len: usize,
    shard_index: usize,
    shard_bytes: Vec<u8>,
}

/// A shard plaintext as plain values: block id, total length, symbol length,
/// shard index, shard bytes.
pub type ShardModel = (u64, nat, nat, nat, Seq<u8>);

/// The 24-byte header, then the shard bytes: magic `SHD7`, the block id
/// (8 bytes), the total length (4), the symbol length (2), the shard index,
/// K = 10, N = 16, and three zero bytes.
pub open spec fn shard_plain_bytes(
    block_id: u64,
    total_len: u32,
    symbol_len: u16,
    shard_index: u8,
    shard_bytes: Seq<u8>,
) -> Seq<u8> {
    SHARD_STREAM_MAGIC@ + u64_be(block_id) + u32_be(total_len) + u16_be(symbol_len) + seq![
        shard_index,
        10u8,
        16u8,
        0u8,
        0u8,
        0u8,
    ] + shard_bytes
}

/// Reading a shard plaintext: too short or reserved bytes set is an invalid
/// payload, a wrong magic is refused, as are codec parameters other than
/// (10, 16), an index of 16 or more, and shard bytes that do not match the
/// declared symbol length.
pub open spec fn shard_plain_parse(b: Seq<u8>) -> Result<ShardModel, ShardStreamError> {
    if b.len() < SHARD_STREAM_HEADER_SIZE {
        Err(ShardStreamError::InvalidShardPayload)
    } else if b.take(4) != SHARD_STREAM_MAGIC@ {
        Err(ShardStreamError::InvalidShardMagic)
    } else if b[19] != 10 || b[20] != 16 {
        Err(ShardStreamError::InvalidCodecParameters { k: b[19], n: b[20] })
    } else if b[18] >= 16 {
        Err(ShardStreamError::InvalidShardIndex(b[18]))
    } else if b[21] != 0 || b[22] != 0 || b[23] != 0 {
        Err(ShardStreamError::InvalidShardPayload)
    } else if b.len() - 24 != u16_at(b, 16) {
        Err(ShardStreamError::InvalidShardPayload)
    } else {
        Ok((u64_at(b, 4), u32_at(b, 12) as nat, u16_at(b, 16) as nat, b[18] as nat, b.skip(24)))
    }
}

/// Reading what was written gives it back, for any shard index below 16
/// whose bytes match the declared symbol length.
pub proof fn lemma_shard_plain_round_trip(
    block_id: u64,
    total_len: u32,
    symbol_len: u16,
    shard_index: u8,
    shard_bytes: Seq<u8>,
)
    requires
        shard_index < 16,
        shard_bytes.len() == symbol_len,
    ensures
        shard_plain_parse(shard_plain_bytes(block_id, total_len, symbol_len, shard_index, shard_bytes))
            == Ok::<ShardModel, ShardStreamError>(
            (block_id, total_len as nat, symbol_len as nat, shard_index as nat, shard_bytes),
        ),
{
    let b = shard_plain_bytes(block_id, total_len, symbol_len, shard_index, shard_bytes);
    lemma_u64_round_trip(block_id);
    lemma_u32_round_trip(total_len);
    lemma_u16_round_trip(symbol_len);
    assert(b.take(4) =~= SHARD_STREAM_MAGIC@);
    assert(u64_at(b, 4) == u64_at(u64_be(block_id), 0));
    assert(u32_at(b, 12) == u32_at(u32_be(total_len), 0));
    assert(u16_at(b, 16) == u16_at(u16_be(symbol_len), 0));
    assert(b.skip(24) =~= shard_bytes);
}

impl ShardPlaintext {
    spec fn model(&self) -> ShardModel {
        (self.block_id, self.total_len as nat, self.symbol_len as nat, self.shard_index as nat, self.shard_bytes@)
    }

    fn encode(&self) -> (out: Vec<u8>)
        ensures
            out@ == shard_plain_bytes(
                self.block_id,
                self.total_len as u32,
                self.symbol_len as u16,
                self.shard_index as u8,
                self.shard_bytes@,
            ),
    {
        let mut out: Vec<u8> = Vec::new();
        push_all(&mut out, &SHARD_STREAM_MAGIC);
        push_u64_be(&mut out, self.block_id);
        push_u32_be(&mut out, self.total_len as u32);
        push_u16_be(&mut out, self.symbol_len as u16);
        out.push(self.shard_index as u8);
        out.push(10u8);
        out.push(16u8);
        out.push(0u8);
        out.push(0u8);
        out.push(0u8);
        push_all(&mut out, self.shard_bytes.as_slice());
        assert(out@ =~= shard_plain_bytes(
            self.block_id,
            self.total_len as u32,
            self.symbol_len as u16,
            self.shard_index as u8,
            self.shard_bytes@,
        ));
        out
    }

    fn decode(bytes: &[u8]) -> (r: Result<Self, ShardStreamError>)
        ensures
            match shard_plain_parse(bytes@) {
                Ok(m) => r matches Ok(p) && p.model() == m,
                Err(e) => r == Err::<Self, ShardStreamError>(e),
            },
    {
        if bytes.len() < SHARD_STREAM_HEADER_SIZE {
            return Err(ShardStreamError::InvalidShardPayload);
        }
        if !(bytes[0] == SHARD_STREAM_MAGIC[0] && bytes[1] == SHARD_STREAM_MAGIC[1] && bytes[2]
            == SHARD_STREAM_MAGIC[2] && bytes[3] == SHARD_STREAM_MAGIC[3]) {
            assert(bytes@.take(4) != SHARD_STREAM_MAGIC@) by {
                if bytes@.take(4) == SHARD_STREAM_MAGIC@ {
                    assert(bytes@.take(4)[0] == bytes@[0]);
                    assert(bytes@.take(4)[1] == bytes@[1]);
                    assert(bytes@.take(4)[2] == bytes@[2]);
                    assert(bytes@.take(4)[3] == bytes@[3]);
                }
            }
            return Err(ShardStreamError::InvalidShardMagic);
        }
        assert(bytes@.take(4) =~= SHARD_STREAM_MAGIC@);
        let block_id = read_u64_be(bytes, 4);
        let total_len = read_u32_be(bytes, 12) as usize;
        let symbol_len = read_u16_be(bytes, 16) as usize;
        let shard_index = bytes[18] as usize;
        let k = bytes[19];
        let n = bytes[20];
        if k as usize != SHARD_STREAM_K || n as usize != SHARD_STREAM_N {
            return Err(ShardStreamError::InvalidCodecParameters { k, n });
        }
        if shard_index >= SHARD_STREAM_N {
            return Err(ShardStreamError::InvalidShardIndex(shard_index as u8));
        }
        if !all_zero(bytes, 21, 24) {
            assert(bytes@[21] != 0 || bytes@[22] != 0 || bytes@[23] != 0) by {
                if bytes@[21] == 0 && bytes@[22] == 0 && bytes@[23] == 0 {
                    assert(bytes@.subrange(21, 24) =~= seq![0u8, 0u8, 0u8]);
                }
            }
            return Err(ShardStreamError::InvalidShardPayload);
        }
        let shard_bytes = copy_range(bytes, SHARD_STREAM_HEADER_SIZE, bytes.len());
        if shard_bytes.len() != symbol_len {
            return Err(ShardStreamError::InvalidShardPayload);
        }
        assert(shard_bytes@ =~= bytes@.skip(24));
        Ok(Self { block_id, total_len, symbol_len, shard_index, shard_bytes })
    }
}

/// The byte at `i`, or zero past the end.
pub open spec fn msg_byte(msg: Seq<u8>, i: int) -> u8 {
    if 0 <= i < msg.len() {
        msg[i]
    } else {
        0
    }
}

/// The symbol length of a message: a tenth of it rounded up, at least 1.
pub open spec fn symbol_len_for(len: nat) -> nat {
    let s = (len + 9) / 10;
    if s == 0 {
        1
    } else {
        s
    }
}

/// The 10 data shards of a message: consecutive symbol-length pieces,
/// zero-padded.
pub open spec fn stream_data(msg: Seq<u8>) -> Seq<Seq<u8>> {
    let sl = symbol_len_for(msg.len());
    Seq::new(10, |i: int| Seq::new(sl, |b: int| msg_byte(msg, i * sl + b)))
}

/// Shard `r` of a message's block: generator row `r` applied to the data.
pub open spec fn stream_shard(msg: Seq<u8>, r: int) -> Seq<u8> {
    let sl = symbol_len_for(msg.len());
    Seq::new(sl, |b: int| col_dot(systematic_generator()[r], stream_data(msg), b, 10))
}

/// The cell flags of shard `i`: the index, with the parity bit 0x80 set for `i >= 10`.
pub open spec fn shard_flags(i: int) -> u8 {
    if i >= 10 {
        (128 + i) as u8
    } else {
        i as u8
    }
}

/// An encoding as plain values: the message, the route tag, the block id,
/// the first sequence number, and which shard each of the given cells is
/// (-1 for a given cell that does not open).
pub type HonestCells = (Seq<u8>, Seq<u8>, u64, u64, Seq<int>);

/// How many of the first `n` given cells are shards (not -1).
pub open spec fn honest_count(idx: Seq<int>, n: int) -> nat
    decreases n,
{
    if n <= 0 {
        0
    } else {
        honest_count(idx, n - 1) + if idx[n - 1] >= 0 {
            1nat
        } else {
            0nat
        }
    }
}

/// The plaintext `encode_message` seals for shard `j` of the encoding `h`.
pub open spec fn honest_plain(h: HonestCells, j: int) -> Seq<u8> {
    shard_plain_bytes(h.2, h.0.len() as u32, symbol_len_for(h.0.len()) as u16, j as u8, stream_shard(h.0, j))
}

/// The sequence number of the `i`-th given cell of the encoding `h`.
pub open spec fn honest_seq(h: HonestCells, i: int) -> u64 {
    (h.3 + h.4[i]) as u64
}

/// `cells` hold at least ten distinct cells, unmodified, of the cells that
/// `encode_message` made of `h.0` under `key` (cell `i` being shard
/// `h.4[i]`); every other given cell (`h.4[i] == -1`) does not open under
/// `key`.
pub open spec fn honest_cells(cells: Seq<SecureShardCell>, key: Seq<u8>, h: HonestCells) -> bool {
    &&& h.0.len() <= 9200
    &&& h.3 + 15 <= u64::MAX
    &&& h.4.len() == cells.len()
    &&& honest_count(h.4, cells.len() as int) >= 10
    &&& forall|i: int| 0 <= i < cells.len() ==> -1 <= #[trigger] h.4[i] < 16
    &&& forall|i: int, j: int|
        0 <= i < j < cells.len() && h.4[i] >= 0 ==> #[trigger] h.4[i] != #[trigger] h.4[j]
    &&& forall|i: int|
        0 <= i < cells.len() && h.4[i] >= 0 ==> #[trigger] sealed_cell(
            cells[i],
            key,
            h.1,
            honest_seq(h, i),
            shard_flags(h.4[i]),
            honest_plain(h, h.4[i]),
        )
    &&& forall|i: int| 0 <= i < cells.len() && h.4[i] < 0 ==> #[trigger] decrypt_outcome(cells[i], key) is Err
}

/// Slot `j` after the first `n` honest cells: the shard, once one of them
/// carried it.
pub open spec fn honest_slot(h: HonestCells, n: int, j: int) -> Option<Seq<u8>> {
    if exists|i: int| 0 <= i < n && h.4[i] == j {
        Some(stream_shard(h.0, j))
    } else {
        None
    }
}

/// The reading after the first `n` honest cells: each was accepted, so the
/// later ones' sequence numbers are still fresh, the highest seen lies in
/// the block's range, the metadata is the block's and the slots hold their
/// shards.
pub open spec fn honest_state(
    h: HonestCells,
    n: int,
    acc: Set<u64>,
    high: Option<u64>,
    slots: Seq<Option<Seq<u8>>>,
    meta: Option<(u64, nat, nat)>,
    count: nat,
) -> bool {
    &&& count == honest_count(h.4, n)
    &&& forall|i: int| n <= i < h.4.len() && h.4[i] >= 0 ==> !acc.contains(#[trigger] honest_seq(h, i))
    &&& high matches Some(x) ==> h.3 <= x <= h.3 + 15
    &&& count == 0 ==> meta is None
    &&& count > 0 ==> meta == Some((h.2, h.0.len(), symbol_len_for(h.0.len())))
    &&& slots.len() == 16
    &&& forall|j: int| 0 <= j < 16 ==> #[trigger] slots[j] == honest_slot(h, n, j)
}

/// What ten or more shards of an honest selection have filled: the block's
/// metadata, and in each filled slot its shard.
pub open spec fn honest_filled(h: HonestCells, slots: Seq<Option<Seq<u8>>>, meta: Option<(u64, nat, nat)>) -> bool {
    &&& meta == Some((h.2, h.0.len(), symbol_len_for(h.0.len())))
    &&& forall|j: int| 0 <= j < 16 && (#[trigger] slots[j]) is Some ==> slots[j] == Some(stream_shard(h.0, j))
}

/// Once a shard is in, the reading holds the block's metadata and shards.
proof fn lemma_honest_filled(
    h: HonestCells,
    n: int,
    acc: Set<u64>,
    high: Option<u64>,
    slots: Seq<Option<Seq<u8>>>,
    meta: Option<(u64, nat, nat)>,
    count: nat,
)
    requires
        honest_state(h, n, acc, high, slots, meta, count),
        count > 0,
    ensures
        honest_filled(h, slots, meta),
{
    assert forall|j: int| 0 <= j < 16 && (#[trigger] slots[j]) is Some implies slots[j] == Some(stream_shard(h.0, j)) by {
        assert(slots[j] == honest_slot(h, n, j));
    }
}

/// The sixteen shards of a message's block.
pub open spec fn stream_shards(msg: Seq<u8>) -> Seq<Seq<u8>> {
    Seq::new(16, |j: int| stream_shard(msg, j))
}

/// A cell sealed for sequence number `seq` carries `seq` in its nonce.
proof fn lemma_sealed_sequence(c: SecureShardCell, seq: u64)
    requires
        c.seq_iv@ == seq_nonce(seq),
    ensures
        u64_at(c.seq_iv@, 4) == seq,
{
    lemma_u64_round_trip(seq);
    assert(u64_at(c.seq_iv@, 4) == u64_at(u64_be(seq), 0));
}

/// The plaintext of an honest shard reads back as that shard.
proof fn lemma_honest_parse(h: HonestCells, j: int)
    requires
        h.0.len() <= 9200,
        0 <= j < 16,
    ensures
        shard_plain_parse(honest_plain(h, j)) == Ok::<ShardModel, ShardStreamError>(
            (h.2, h.0.len(), symbol_len_for(h.0.len()), j as nat, stream_shard(h.0, j)),
        ),
{
    let sl = symbol_len_for(h.0.len());
    assert(sl <= 920);
    lemma_shard_plain_round_trip(h.2, h.0.len() as u32, sl as u16, j as u8, stream_shard(h.0, j));
}

/// The sixteen shards are the systematic encoding of the data shards.
proof fn lemma_stream_shards_encoded(msg: Seq<u8>)
    ensures
        crate::gf28::encoded_by(systematic_generator(), 16, 10, stream_data(msg), stream_shards(msg)),
        crate::gf28::same_lengths(stream_data(msg)),
        stream_data(msg).len() == 10,
{
    let d = stream_data(msg);
    assert forall|r: int| 0 <= r < 16 implies #[trigger] crate::gf28::encoded_row(
        systematic_generator()[r],
        10,
        d,
        stream_shards(msg)[r],
    ) by {}
}

/// The data shards, one after another and cut to the message's length, are
/// the message.
proof fn lemma_stream_data_joins(msg: Seq<u8>)
    ensures
        flatten(stream_data(msg)).len() >= msg.len(),
        flatten(stream_data(msg)).take(msg.len() as int) == msg,
{
    assert(crate::fountain::split_len(msg.len(), 10) == symbol_len_for(msg.len()));
    assert forall|i: int| 0 <= i < 10 implies #[trigger] stream_data(msg)[i] =~= crate::fountain::split_symbols(
        msg,
        10,
    )[i] by {}
    assert(stream_data(msg) =~= crate::fountain::split_symbols(msg, 10));
    crate::fountain::lemma_split_join_round_trip(msg, 10);
}

/// The shard-stream round trip: cells that hold ten or more distinct cells
/// of what `encode_message` made, unmodified and in any order, while every
/// other cell among them fails to open under the key, are an honest
/// selection, so `decode_message` gives the message back from them.
pub proof fn lemma_encoded_cells_are_honest(
    all: Seq<SecureShardCell>,
    key: Seq<u8>,
    msg: Seq<u8>,
    route_tag: Seq<u8>,
    block_id: u64,
    seq_base: u64,
    cells: Seq<SecureShardCell>,
    idx: Seq<int>,
)
    requires
        msg.len() <= 9200,
        seq_base + 15 <= u64::MAX,
        all.len() == 16,
        forall|i: int|
            0 <= i < 16 ==> #[trigger] sealed_cell(
                all[i],
                key,
                route_tag,
                (seq_base + i) as u64,
                shard_flags(i),
                shard_plain_bytes(
                    block_id,
                    msg.len() as u32,
                    symbol_len_for(msg.len()) as u16,
                    i as u8,
                    stream_shard(msg, i),
                ),
            ),
        idx.len() == cells.len(),
        honest_count(idx, idx.len() as int) >= 10,
        forall|i: int| 0 <= i < idx.len() ==> -1 <= #[trigger] idx[i] < 16,
        forall|i: int, j: int| 0 <= i < j < idx.len() && idx[i] >= 0 ==> #[trigger] idx[i] != #[trigger] idx[j],
        forall|i: int| 0 <= i < idx.len() && idx[i] >= 0 ==> #[trigger] cells[i] == all[idx[i]],
        forall|i: int| 0 <= i < idx.len() && idx[i] < 0 ==> #[trigger] decrypt_outcome(cells[i], key) is Err,
    ensures
        honest_cells(cells, key, (msg, route_tag, block_id, seq_base, idx)),
{
    let h: HonestCells = (msg, route_tag, block_id, seq_base, idx);
    assert forall|i: int| 0 <= i < cells.len() && h.4[i] >= 0 implies #[trigger] sealed_cell(
        cells[i],
        key,
        h.1,
        honest_seq(h, i),
        shard_flags(h.4[i]),
        honest_plain(h, h.4[i]),
    ) by {
        assert(cells[i] == all[idx[i]]);
        assert(0 <= idx[i] < 16);
        assert(sealed_cell(
            all[idx[i]],
            key,
            route_tag,
            (seq_base + idx[i]) as u64,
            shard_flags(idx[i]),
            shard_plain_bytes(
                block_id,
                msg.len() as u32,
                symbol_len_for(msg.len()) as u16,
                idx[i] as u8,
                stream_shard(msg, idx[i]),
            ),
        ));
    }
    assert forall|i: int| 0 <= i < cells.len() && h.4[i] < 0 implies #[trigger] decrypt_outcome(cells[i], key) is Err by {
        assert(decrypt_outcome(cells[i], key) is Err);
    }
}

/// The shard a cell carries under `key`, when its payload opens and parses.
pub open spec fn cell_shard(c: SecureShardCell, key: Seq<u8>) -> Option<ShardModel> {
    match opened_payload(c, key) {
        Some(p) => match shard_plain_parse(p) {
            Ok(m) => Some(m),
            Err(_) => None,
        },
        None => None,
    }
}

/// The bytes of the rows one after another.
pub open spec fn flatten(rows: Seq<Seq<u8>>) -> Seq<u8>
    decreases rows.len(),
{
    if rows.len() == 0 {
        Seq::empty()
    } else {
        flatten(rows.drop_last()) + rows.last()
    }
}

/// Splits, encodes and seals one message; see the contract.
pub struct SecureShardBlockCodec {
    rs: ReedSolomon16_10,
}

impl SecureShardBlockCodec {
    #[verifier::type_invariant]
    closed spec fn wf(&self) -> bool {
        &&& self.rs.k == 10
        &&& self.rs.n == 16
        &&& self.rs.generator() == systematic_generator()
        &&& self.rs.shape_ok()
    }

    pub fn new() -> (c: Self) {
        Self { rs: ReedSolomon16_10::new() }
    }

    /// The largest message of one block: 10 symbols of 920 bytes.
    pub fn max_message_bytes(&self) -> (m: usize)
        ensures
            m == 9200,
    {
        SHARD_STREAM_K * SHARD_STREAM_MAX_SYMBOL_BYTES
    }
}

/// Data shard `i` of `message` for symbol length `sl`.
fn data_shard(message: &[u8], sl: usize, i: usize) -> (shard: Vec<u8>)
    requires
        i < 10,
        sl <= 920,
    ensures
        shard@ == Seq::new(sl as nat, |b: int| msg_byte(message@, i * sl + b)),
{
    assert(i * sl <= 9 * 920) by (nonlinear_arith)
        requires
            i < 10,
            sl <= 920,
    ;
    let start = i * sl;
    let mut shard: Vec<u8> = Vec::new();
    let mut b: usize = 0;
    while b < sl
        invariant
            b <= sl <= 920,
            i < 10,
            start == i * sl,
            start <= 9 * 920,
            shard@.len() == b,
            forall|x: int| 0 <= x < b ==> #[trigger] shard@[x] == msg_byte(message@, i * sl + x),
        decreases sl - b,
    {
        let at = start + b;
        let v = if at < message.len() {
            message[at]
        } else {
            0u8
        };
        shard.push(v);
        b = b + 1;
    }
    assert(shard@ =~= Seq::new(sl as nat, |b: int| msg_byte(message@, i * sl + b)));
    shard
}

impl SecureShardBlockCodec {
    /// Splits `message` into 10 zero-padded symbols, extends them to 16
    /// shards and seals shard `i` in a cell with sequence `seq_base + i`.
    pub fn encode_message(
        &self,
        key: &[u8; 32],
        route_tag: [u8; 16],
        block_id: u64,
        seq_base: u64,
        message: &[u8],
    ) -> (r: Result<Vec<SecureShardCell>, ShardStreamError>)
        requires
            message@.len() <= 9200 ==> seq_base + 15 <= u64::MAX,
        ensures
            message@.len() > 9200 ==> r == Err::<Vec<SecureShardCell>, ShardStreamError>(
                ShardStreamError::MessageTooLarge { got: message@.len() as usize, max: 9200 },
            ),
            message@.len() <= 9200 ==> (r matches Ok(cells) && cells@.len() == 16 && forall|i: int|
                0 <= i < 16 ==> #[trigger] sealed_cell(
                    cells@[i],
                    key@,
                    route_tag@,
                    (seq_base + i) as u64,
                    shard_flags(i),
                    shard_plain_bytes(
                        block_id,
                        message@.len() as u32,
                        symbol_len_for(message@.len()) as u16,
                        i as u8,
                        stream_shard(message@, i),
                    ),
                )),
    {
        proof {
            use_type_invariant(self);
        }
        let max = self.max_message_bytes();
        if message.len() > max {
            return Err(ShardStreamError::MessageTooLarge { got: message.len(), max });
        }
        let q = (message.len() + 9) / 10;
        let symbol_len: usize = if q == 0 {
            1
        } else {
            q
        };
        if symbol_len > SHARD_STREAM_MAX_SYMBOL_BYTES {
            return Err(ShardStreamError::MessageTooLarge { got: message.len(), max });
        }
        let ghost data = stream_data(message@);
        let mut data_shards: Vec<Vec<u8>> = Vec::new();
        let mut idx: usize = 0;
        while idx < SHARD_STREAM_K
            invariant
                idx <= 10,
                symbol_len == symbol_len_for(message@.len()),
                symbol_len <= 920,
                data == stream_data(message@),
                data_shards@.len() == idx,
                forall|x: int| 0 <= x < idx ==> #[trigger] data_shards@[x]@ == data[x],
            decreases 10 - idx,
        {
            data_shards.push(data_shard(message, symbol_len, idx));
            idx = idx + 1;
        }
        let mut refs: Vec<&[u8]> = Vec::new();
        let mut j: usize = 0;
        while j < SHARD_STREAM_K
            invariant
                j <= 10,
                data_shards@.len() == 10,
                refs@.len() == j,
                forall|x: int| 0 <= x < j ==> (#[trigger] refs@[x])@ == data_shards@[x]@,
            decreases 10 - j,
        {
            refs.push(data_shards[j].as_slice());
            j = j + 1;
        }
        assert(crate::gf28::slices_view(refs@) =~= data);
        assert(crate::gf28::same_lengths(data));
        let encoded = match self.rs.encode(refs.as_slice()) {
            Ok(e) => e,
            Err(e) => return Err(ShardStreamError::ErasureDecode(e)),
        };
        let mut cells: Vec<SecureShardCell> = Vec::new();
        let mut i: usize = 0;
        while i < SHARD_STREAM_N
            invariant
                i <= 16,
                encoded@.len() == 16,
                crate::gf28::encoded_by(systematic_generator(), 16, 10, data, rows_view(encoded@)),
                data == stream_data(message@),
                symbol_len == symbol_len_for(message@.len()),
                symbol_len <= 920,
                message@.len() <= 9200,
                seq_base + 15 <= u64::MAX,
                cells@.len() == i,
                forall|x: int| 0 <= x < i ==> #[trigger] sealed_cell(
                    cells@[x],
                    key@,
                    route_tag@,
                    (seq_base + x) as u64,
                    shard_flags(x),
                    shard_plain_bytes(
                        block_id,
                        message@.len() as u32,
                        symbol_len_for(message@.len()) as u16,
                        x as u8,
                        stream_shard(message@, x),
                    ),
                ),
            decreases 16 - i,
        {
            let shard_bytes = copy_range(encoded[i].as_slice(), 0, encoded[i].len());
            proof {
                assert(crate::gf28::encoded_row(systematic_generator()[i as int], 10, data, rows_view(encoded@)[i as int]));
                assert(rows_view(encoded@)[i as int] == encoded@[i as int]@);
                assert(shard_bytes@ =~= stream_shard(message@, i as int));
            }
            let plain = ShardPlaintext {
                block_id,
                total_len: message.len(),
                symbol_len,
                shard_index: i,
                shard_bytes,
            };
            let payload = plain.encode();
            let flags: u8 = if i >= SHARD_STREAM_K {
                let idx8 = i as u8;
                assert(idx8 < 128u8 ==> 0x80u8 | idx8 == 128u8 + idx8) by (bit_vector);
                SHARD_STREAM_FLAG_PARITY | idx8
            } else {
                i as u8
            };
            let cell = match SecureShardCell::encrypt(key, route_tag, seq_base + i as u64, flags, payload.as_slice()) {
                Ok(c) => c,
                Err(e) => return Err(ShardStreamError::Cell(ReceiveCellError::Cell(e))),
            };
            cells.push(cell);
            i = i + 1;
        }
        Ok(cells)
    }
}

/// Filling one missing slot adds one present index.
proof fn lemma_present_fill(surv: Seq<Option<Vec<u8>>>, j: int, v: Vec<u8>, upto: int)
    requires
        0 <= j < surv.len(),
        surv[j] is None,
        0 <= upto <= surv.len(),
    ensures
        present_indices(surv.update(j, Some(v)), upto).len() == present_indices(surv, upto).len() + (
        if upto > j {
            1int
        } else {
            0int
        }),
    decreases upto,
{
    if upto > 0 {
        lemma_present_fill(surv, j, v, upto - 1);
    }
}

/// With exactly `k` present, the chosen indices are all of them.
proof fn lemma_chosen_all(surv: Seq<Option<Vec<u8>>>, k: nat)
    requires
        present_indices(surv, surv.len() as int).len() == k,
    ensures
        chosen_indices(surv, k) == present_indices(surv, surv.len() as int),
{
}

/// What an `Ok` from `decode_message` is made of: sixteen slots holding the
/// shards of cells that open under `key` and parse with the same block id,
/// total length and symbol length, ten of them present; the reconstructed
/// shards (the first ten slots themselves when those are the ten present,
/// otherwise a Reed-Solomon solution); and the message, their concatenation
/// cut to the total length.
pub open spec fn stream_decoded(
    key: Seq<u8>,
    cells: Seq<SecureShardCell>,
    surv: Seq<Option<Vec<u8>>>,
    rec: Seq<Seq<u8>>,
    meta: (u64, nat, nat),
    message: Seq<u8>,
) -> bool {
    &&& surv.len() == 16
    &&& present_indices(surv, 16).len() == 10
    &&& forall|j: int|
        0 <= j < 16 && (#[trigger] surv[j]) is Some ==> exists|i: int|
            0 <= i < cells.len() && #[trigger] cell_shard(cells[i], key) == Some::<ShardModel>(
                (meta.0, meta.1, meta.2, j as nat, opt_bytes(surv[j])),
            )
    &&& if chosen_indices(surv, 10) == first_indices(10) {
        rec.len() == 10 && forall|i: int| 0 <= i < 10 ==> #[trigger] rec[i] == opt_bytes(surv[i])
    } else {
        decode_solution(systematic_generator(), 10, surv, rec)
    }
    &&& flatten(rec).len() >= meta.1
    &&& message == flatten(rec).take(meta.1 as int)
}

/// The slots as plain values.
pub open spec fn slot_views(v: Seq<Option<Vec<u8>>>) -> Seq<Option<Seq<u8>>> {
    v.map_values(|o: Option<Vec<u8>>| match o {
        Some(x) => Some(x@),
        None => None,
    })
}

/// Block metadata as plain values.
pub open spec fn meta_view(m: Option<(u64, usize, usize)>) -> Option<(u64, nat, nat)> {
    match m {
        Some(x) => Some((x.0, x.1 as nat, x.2 as nat)),
        None => None,
    }
}

/// Reading the cells from `i` on, with a replay window (of 128) that has
/// accepted `acc` and seen `high`, the shard slots filled so far, the block's
/// metadata and the count of shards: a cell that does not decrypt, or whose
/// sequence number the window refuses, is skipped; an accepted cell whose
/// plaintext does not parse, names another block's metadata or a slot
/// already filled ends the reading with that error; the tenth shard ends it
/// with the slots and the metadata; running out of cells first is too few
/// valid shards, with their count.
pub open spec fn block_scan(
    key: Seq<u8>,
    cells: Seq<SecureShardCell>,
    i: nat,
    acc: Set<u64>,
    high: Option<u64>,
    slots: Seq<Option<Seq<u8>>>,
    meta: Option<(u64, nat, nat)>,
    count: nat,
) -> Result<(Seq<Option<Seq<u8>>>, (u64, nat, nat)), ShardStreamError>
    decreases cells.len() - i,
{
    if i >= cells.len() {
        Err(ShardStreamError::InsufficientValidShards { got: count as usize, need: 10 })
    } else {
        let c = cells[i as int];
        let seq = u64_at(c.seq_iv@, 4);
        match decrypt_outcome(c, key) {
            Err(_) => block_scan(key, cells, i + 1, acc, high, slots, meta, count),
            Ok(p) => match window_verdict(acc, high, 128, seq) {
                Err(_) => block_scan(key, cells, i + 1, acc, high, slots, meta, count),
                Ok(()) => match shard_plain_parse(p) {
                    Err(e) => Err(e),
                    Ok(m) => if meta matches Some(x) && x != (m.0, m.1, m.2) {
                        Err(ShardStreamError::ConflictingBlockMetadata)
                    } else if slots[m.3 as int] is Some {
                        Err(ShardStreamError::DuplicateShardIndex(m.3 as u8))
                    } else if count + 1 >= 10 {
                        Ok((slots.update(m.3 as int, Some(m.4)), (m.0, m.1, m.2)))
                    } else {
                        block_scan(
                            key,
                            cells,
                            i + 1,
                            acc.insert(seq),
                            advanced_highest(high, seq),
                            slots.update(m.3 as int, Some(m.4)),
                            Some((m.0, m.1, m.2)),
                            count + 1,
                        )
                    },
                },
            },
        }
    }
}

/// Reading all the cells from the start: a fresh window, sixteen empty
/// slots, no metadata yet.
pub open spec fn block_scan_all(key: Seq<u8>, cells: Seq<SecureShardCell>) -> Result<
    (Seq<Option<Seq<u8>>>, (u64, nat, nat)),
    ShardStreamError,
> {
    block_scan(key, cells, 0, Set::empty(), None, Seq::new(16, |j: int| None::<Seq<u8>>), None, 0)
}

impl SecureShardBlockCodec {
    /// Opens the cells in order under `key`, skipping those that fail to
    /// open (or are replays), until ten shards of one block are collected,
    /// then decodes the block and cuts it to its total length.
    #[verifier::rlimit(30)]
    pub fn decode_message(&self, key: [u8; 32], cells: &[SecureShardCell]) -> (r: Result<
        Vec<u8>,
        ShardStreamError,
    >)
        ensures
            r matches Ok(m) ==> exists|surv: Seq<Option<Vec<u8>>>, rec: Seq<Seq<u8>>, meta: (u64, nat, nat)|
                #[trigger] stream_decoded(key@, cells@, surv, rec, meta, m@),
            block_scan_all(key@, cells@) matches Err(e) ==> r == Err::<Vec<u8>, ShardStreamError>(e),
            block_scan_all(key@, cells@) matches Ok((slots, meta)) ==> match r {
                Ok(m) => exists|surv: Seq<Option<Vec<u8>>>, rec: Seq<Seq<u8>>|
                    #[trigger] stream_decoded(key@, cells@, surv, rec, meta, m@) && slot_views(surv) == slots,
                Err(e) => 10 * meta.2 < meta.1 && e == ShardStreamError::InvalidRecoveredLength {
                    got: (10 * meta.2) as usize,
                    expected: meta.1 as usize,
                },
            },
            block_scan_all(key@, cells@) matches Ok((slots, meta)) && 10 * meta.2 >= meta.1 ==> r is Ok,
            forall|h: HonestCells| #[trigger] honest_cells(cells@, key@, h) ==> (r matches Ok(m) && m@ == h.0),
    {
        proof {
            use_type_invariant(self);
        }
        let mut receiver = match SecureCellReceiver::new(key, 128) {
            Ok(rx) => rx,
            Err(e) => return Err(ShardStreamError::Cell(ReceiveCellError::Replay(e))),
        };
        let mut seen: Vec<bool> = Vec::new();
        let mut surviving: Vec<Option<Vec<u8>>> = Vec::new();
        let mut z: usize = 0;
        while z < SHARD_STREAM_N
            invariant
                z <= 16,
                seen@.len() == z,
                surviving@.len() == z,
                forall|j: int|
                    #![trigger seen@[j]]
                    #![trigger surviving@[j]]
                    0 <= j < z ==> !seen@[j] && surviving@[j] is None,
            decreases 16 - z,
        {
            seen.push(false);
            surviving.push(None);
            z = z + 1;
        }
        proof {
            assert forall|u: int| 0 <= u <= 16 implies #[trigger] present_indices(surviving@, u).len() == 0 by {
                lemma_none_present(surviving@, u);
            }
        }
        let mut block_meta: Option<(u64, usize, usize)> = None;
        let mut valid_count: usize = 0;
        let mut ci: usize = 0;
        proof {
            assert(slot_views(surviving@) =~= Seq::new(16, |j: int| None::<Seq<u8>>));
            assert forall|h: HonestCells| #[trigger] honest_cells(cells@, key@, h) implies honest_state(
                h,
                0,
                receiver.replay_window().accepted(),
                receiver.replay_window().highest(),
                slot_views(surviving@),
                meta_view(block_meta),
                0,
            ) by {
                assert forall|j: int| 0 <= j < 16 implies #[trigger] slot_views(surviving@)[j] == honest_slot(h, 0, j) by {}
            }
        }
        while ci < cells.len()
            invariant_except_break
                valid_count < 10,
                valid_count <= ci,
                forall|h: HonestCells| #[trigger] honest_cells(cells@, key@, h) ==> honest_state(
                    h,
                    ci as int,
                    receiver.replay_window().accepted(),
                    receiver.replay_window().highest(),
                    slot_views(surviving@),
                    meta_view(block_meta),
                    valid_count as nat,
                ),
                block_scan(
                    key@,
                    cells@,
                    ci as nat,
                    receiver.replay_window().accepted(),
                    receiver.replay_window().highest(),
                    slot_views(surviving@),
                    meta_view(block_meta),
                    valid_count as nat,
                ) == block_scan_all(key@, cells@),
            invariant
                ci <= cells@.len(),
                receiver.key() == key@,
                receiver.replay_window().window() == 128,
                surviving@.len() == 16,
                seen@.len() == 16,
                forall|j: int| 0 <= j < 16 ==> (#[trigger] seen@[j] <==> surviving@[j] is Some),
                valid_count == present_indices(surviving@, 16).len(),
                valid_count <= 10,
                valid_count > 0 ==> block_meta is Some,
                forall|j: int|
                    0 <= j < 16 && (#[trigger] surviving@[j]) is Some ==> (block_meta matches Some(m)
                        && opt_bytes(surviving@[j]).len() == m.2 && exists|i: int|
                        0 <= i < cells@.len() && #[trigger] cell_shard(cells@[i], key@) == Some::<ShardModel>(
                            (m.0, m.1 as nat, m.2 as nat, j as nat, opt_bytes(surviving@[j])),
                        )),
            ensures
                valid_count == 10 || valid_count < 10,
                valid_count < 10 ==> block_scan_all(key@, cells@) == Err::<
                    (Seq<Option<Seq<u8>>>, (u64, nat, nat)),
                    ShardStreamError,
                >(ShardStreamError::InsufficientValidShards { got: valid_count, need: 10 }),
                valid_count == 10 ==> (block_meta matches Some(m) && block_scan_all(key@, cells@) == Ok::<
                    (Seq<Option<Seq<u8>>>, (u64, nat, nat)),
                    ShardStreamError,
                >((slot_views(surviving@), (m.0, m.1 as nat, m.2 as nat)))),
                forall|h: HonestCells| #[trigger] honest_cells(cells@, key@, h) ==> valid_count == 10 && honest_filled(
                    h,
                    slot_views(surviving@),
                    meta_view(block_meta),
                ),
            decreases cells@.len() - ci,
        {
            let ghost acc0 = receiver.replay_window().accepted();
            let ghost high0 = receiver.replay_window().highest();
            let ghost slots0 = slot_views(surviving@);
            let ghost meta0 = meta_view(block_meta);
            let ghost count0 = valid_count as nat;
            let ghost c = cells@[ci as int];
            let ghost seq = u64_at(c.seq_iv@, 4);
            let ghost old_window = receiver.replay_window();
            let opened = receiver.open(&cells[ci]);
            proof {
                assert forall|h: HonestCells| #[trigger] honest_cells(cells@, key@, h) implies (if h.4[ci as int] >= 0 {
                    opened matches Ok(p) && p@ == honest_plain(h, h.4[ci as int]) && seq == honest_seq(h, ci as int)
                } else {
                    opened is Err && receiver.replay_window() == old_window
                }) by {
                    let i = ci as int;
                    assert(-1 <= h.4[i] < 16);
                    if h.4[i] >= 0 {
                        assert(sealed_cell(cells@[i], key@, h.1, honest_seq(h, i), shard_flags(h.4[i]), honest_plain(h, h.4[i])));
                        lemma_sealed_sequence(cells@[i], honest_seq(h, i));
                        assert(honest_state(h, i, acc0, high0, slots0, meta0, count0));
                        assert(!acc0.contains(honest_seq(h, i)));
                    } else {
                        assert(decrypt_outcome(cells@[i], key@) is Err);
                    }
                }
            }
            if let Ok(plaintext) = opened {
                proof {
                    assert(decrypt_outcome(c, key@) matches Ok(p) && p == plaintext@);
                    assert(window_verdict(acc0, high0, 128, seq) is Ok);
                }
                let shard = match ShardPlaintext::decode(plaintext.as_slice()) {
                    Ok(sh) => sh,
                    Err(e) => {
                        proof {
                            assert forall|h: HonestCells| #[trigger] honest_cells(cells@, key@, h) implies false by {
                                assert(0 <= h.4[ci as int] < 16);
                                lemma_honest_parse(h, h.4[ci as int]);
                            }
                        }
                        return Err(e);
                    },
                };
                proof {
                    assert forall|h: HonestCells| #[trigger] honest_cells(cells@, key@, h) implies shard.model() == (
                        h.2,
                        h.0.len(),
                        symbol_len_for(h.0.len()),
                        h.4[ci as int] as nat,
                        stream_shard(h.0, h.4[ci as int]),
                    ) by {
                        assert(0 <= h.4[ci as int] < 16);
                        lemma_honest_parse(h, h.4[ci as int]);
                    }
                }
                let ghost model = shard.model();
                assert(cell_shard(cells@[ci as int], key@) == Some::<ShardModel>(model));
                match block_meta {
                    Some(existing) => {
                        if existing.0 != shard.block_id || existing.1 != shard.total_len || existing.2
                            != shard.symbol_len {
                            proof {
                                assert forall|h: HonestCells| #[trigger] honest_cells(cells@, key@, h) implies false by {
                                    assert(honest_state(h, ci as int, acc0, high0, slots0, meta0, count0));
                                }
                            }
                            return Err(ShardStreamError::ConflictingBlockMetadata);
                        }
                    },
                    None => {
                        assert(valid_count == 0);
                        block_meta = Some((shard.block_id, shard.total_len, shard.symbol_len));
                    },
                }
                let idx = shard.shard_index;
                assert(slots0[idx as int] == match surviving@[idx as int] {
                    Some(x) => Some(x@),
                    None => None::<Seq<u8>>,
                });
                if seen[idx] {
                    proof {
                        assert forall|h: HonestCells| #[trigger] honest_cells(cells@, key@, h) implies false by {
                            let i = ci as int;
                            assert(honest_state(h, i, acc0, high0, slots0, meta0, count0));
                            assert(slots0[idx as int] == honest_slot(h, i, idx as int));
                            assert(idx as int == h.4[i]);
                            assert(!exists|k: int| 0 <= k < i && h.4[k] == idx as int) by {
                                assert forall|k: int| 0 <= k < i implies h.4[k] != idx as int by {
                                    assert(h.4[k] != h.4[i]);
                                }
                            }
                        }
                    }
                    return Err(ShardStreamError::DuplicateShardIndex(idx as u8));
                }
                let ghost before = surviving@;
                proof {
                    lemma_present_fill(before, idx as int, shard.shard_bytes, 16);
                }
                seen.set(idx, true);
                surviving.set(idx, Some(shard.shard_bytes));
                valid_count = valid_count + 1;
                proof {
                    assert(slot_views(surviving@) =~= slots0.update(idx as int, Some(model.4)));
                    assert(meta_view(block_meta) == Some((model.0, model.1, model.2)));
                    assert forall|j: int|
                        0 <= j < 16 && (#[trigger] surviving@[j]) is Some implies (block_meta matches Some(m)
                            && opt_bytes(surviving@[j]).len() == m.2 && exists|i: int|
                            0 <= i < cells@.len() && #[trigger] cell_shard(cells@[i], key@) == Some::<ShardModel>(
                                (m.0, m.1 as nat, m.2 as nat, j as nat, opt_bytes(surviving@[j])),
                            )) by {
                        if j == idx {
                            assert(cell_shard(cells@[ci as int], key@) == Some::<ShardModel>(model));
                        } else {
                            assert(surviving@[j] == before[j]);
                        }
                    }
                    assert forall|h: HonestCells| #[trigger] honest_cells(cells@, key@, h) implies honest_state(
                        h,
                        ci + 1,
                        receiver.replay_window().accepted(),
                        receiver.replay_window().highest(),
                        slot_views(surviving@),
                        meta_view(block_meta),
                        valid_count as nat,
                    ) by {
                        let i = ci as int;
                        assert(honest_state(h, i, acc0, high0, slots0, meta0, count0));
                        assert(receiver.replay_window().accepted() == acc0.insert(seq));
                        assert(seq == honest_seq(h, i));
                        assert forall|k: int| i + 1 <= k < h.4.len() && h.4[k] >= 0 implies !receiver.replay_window().accepted().contains(
                            #[trigger] honest_seq(h, k),
                        ) by {
                            assert(h.4[k] != h.4[i]);
                            assert(0 <= h.4[k] < 16 && 0 <= h.4[i] < 16);
                            assert(!acc0.contains(honest_seq(h, k)));
                        }
                        assert(0 <= h.4[i] < 16);
                        assert(idx as int == h.4[i]);
                        assert forall|j: int| 0 <= j < 16 implies #[trigger] slot_views(surviving@)[j] == honest_slot(
                            h,
                            i + 1,
                            j,
                        ) by {
                            assert(slots0[j] == honest_slot(h, i, j));
                            if j == h.4[i] {
                                assert(exists|k: int| 0 <= k < i + 1 && h.4[k] == j) by {
                                    assert(h.4[i] == j);
                                }
                            } else {
                                if exists|k: int| 0 <= k < i + 1 && h.4[k] == j {
                                    let k = choose|k: int| 0 <= k < i + 1 && h.4[k] == j;
                                    assert(k < i);
                                }
                                if exists|k: int| 0 <= k < i && h.4[k] == j {
                                    let k = choose|k: int| 0 <= k < i && h.4[k] == j;
                                    assert(0 <= k < i + 1 && h.4[k] == j);
                                }
                            }
                        }
                    }
                }
                if valid_count == SHARD_STREAM_K {
                    proof {
                        assert forall|h: HonestCells| #[trigger] honest_cells(cells@, key@, h) implies honest_filled(
                            h,
                            slot_views(surviving@),
                            meta_view(block_meta),
                        ) by {
                            lemma_honest_filled(
                                h,
                                ci + 1,
                                receiver.replay_window().accepted(),
                                receiver.replay_window().highest(),
                                slot_views(surviving@),
                                meta_view(block_meta),
                                valid_count as nat,
                            );
                        }
                    }
                    break;
                }
            } else {
                proof {
                    assert forall|h: HonestCells| #[trigger] honest_cells(cells@, key@, h) implies honest_state(
                        h,
                        ci + 1,
                        receiver.replay_window().accepted(),
                        receiver.replay_window().highest(),
                        slot_views(surviving@),
                        meta_view(block_meta),
                        valid_count as nat,
                    ) by {
                        let i = ci as int;
                        assert(h.4[i] < 0);
                        assert(honest_state(h, i, acc0, high0, slots0, meta0, count0));
                        assert(honest_count(h.4, i + 1) == honest_count(h.4, i));
                        assert forall|j: int| 0 <= j < 16 implies #[trigger] slots0[j] == honest_slot(h, i + 1, j) by {
                            assert(slots0[j] == honest_slot(h, i, j));
                            if exists|k: int| 0 <= k < i + 1 && h.4[k] == j {
                                let k = choose|k: int| 0 <= k < i + 1 && h.4[k] == j;
                                assert(k != i);
                            }
                            if exists|k: int| 0 <= k < i && h.4[k] == j {
                                let k = choose|k: int| 0 <= k < i && h.4[k] == j;
                                assert(0 <= k < i + 1 && h.4[k] == j);
                            }
                        }
                    }
                }
            }
            ci = ci + 1;
        }
        if valid_count < SHARD_STREAM_K {
            return Err(
                ShardStreamError::InsufficientValidShards { got: valid_count, need: SHARD_STREAM_K },
            );
        }
        let (block, total_len, symbol_len) = match block_meta {
            Some(m) => m,
            None => return Err(ShardStreamError::InvalidShardPayload),
        };
        let ghost surv = surviving@;
        let ghost meta = (block, total_len as nat, symbol_len as nat);
        proof {
            lemma_chosen_all(surv, 10);
            crate::gf28::lemma_present_bounds(surv, 16);
            let a = chosen_indices(surv, 10);
            assert forall|j: int| 0 <= j < 10 implies #[trigger] opt_bytes(surv[a[j]]).len() <= opt_bytes(surv[a[0]]).len() by {
                assert(surv[a[j]] is Some);
                assert(surv[a[0]] is Some);
            }
        }
        proof {
            assert(crate::gf28::systematic_ten(self.rs, surv));
        }
        let decoded = match self.rs.decode(surviving.as_slice()) {
            Ok(d) => d,
            Err(e) => return Err(ShardStreamError::ErasureDecode(e)),
        };
        proof {
            let rec0 = rows_view(decoded@);
            let a = chosen_indices(surv, 10);
            assert forall|i: int| 0 <= i < 10 implies (#[trigger] rec0[i]).len() == symbol_len by {
                assert(rec0[i] == decoded@[i]@);
                crate::gf28::lemma_present_bounds(surv, 16);
                lemma_chosen_all(surv, 10);
                if a == first_indices(10) {
                    assert(a[i] == i);
                    assert(surv[a[i]] is Some);
                } else {
                    assert(surv[a[0]] is Some);
                }
            }
            crate::fountain::lemma_flatten_len(rec0, symbol_len as nat);
        }
        let ghost rec = rows_view(decoded@);
        let mut message: Vec<u8> = Vec::new();
        let mut di: usize = 0;
        while di < decoded.len()
            invariant
                di <= decoded@.len(),
                rec == rows_view(decoded@),
                message@ == flatten(rec.take(di as int)),
            decreases decoded@.len() - di,
        {
            push_all(&mut message, decoded[di].as_slice());
            assert(rec.take(di + 1).drop_last() =~= rec.take(di as int));
            assert(rec[di as int] == decoded@[di as int]@);
            di = di + 1;
        }
        assert(rec.take(decoded@.len() as int) =~= rec);
        proof {
            assert forall|h: HonestCells| #[trigger] honest_cells(cells@, key@, h) implies message@.len() >= total_len
                && total_len == h.0.len() && rows_view(decoded@) == stream_data(h.0) by {
                assert(honest_filled(h, slot_views(surv), meta_view(block_meta)));
                lemma_stream_shards_encoded(h.0);
                assert forall|j: int| 0 <= j < 16 && (#[trigger] surv[j]) is Some implies opt_bytes(surv[j])
                    == stream_shards(h.0)[j] by {
                    assert(slot_views(surv)[j] is Some);
                }
                assert(crate::gf28::shards_of(stream_data(h.0), stream_shards(h.0), surv));
                assert(symbol_len == symbol_len_for(h.0.len()));
                assert(crate::fountain::split_len(h.0.len(), 10) == symbol_len_for(h.0.len()));
                crate::fountain::lemma_split_len_bound(h.0.len(), 10);
            }
        }
        if message.len() < total_len {
            return Err(
                ShardStreamError::InvalidRecoveredLength { got: message.len(), expected: total_len },
            );
        }
        message.truncate(total_len);
        proof {
            assert(message@ =~= flatten(rec).take(total_len as int));
            if chosen_indices(surv, 10) == first_indices(10) {
                assert forall|i: int| 0 <= i < 10 implies #[trigger] rec[i] == opt_bytes(surv[i]) by {
                    assert(rec[i] == decoded@[i]@);
                }
            }
            assert(stream_decoded(key@, cells@, surv, rec, meta, message@));
        }
        proof {
            assert forall|h: HonestCells| #[trigger] honest_cells(cells@, key@, h) implies message@ == h.0 by {
                lemma_stream_data_joins(h.0);
            }
        }
        let r: Result<Vec<u8>, ShardStreamError> = Ok(message);
        assert(r matches Ok(m) && stream_decoded(key@, cells@, surv, rec, meta, m@));
        assert(block_scan_all(key@, cells@) == Ok::<(Seq<Option<Seq<u8>>>, (u64, nat, nat)), ShardStreamError>(
            (slot_views(surv), meta),
        ));
        assert(exists|s2: Seq<Option<Vec<u8>>>, r2: Seq<Seq<u8>>|
            #[trigger] stream_decoded(key@, cells@, s2, r2, meta, message@) && slot_views(s2) == slot_views(surv));
        assert(block_scan_all(key@, cells@) matches Ok((slots, meta2)) && slots == slot_views(surv) && meta2 == meta);
        assert(block_scan_all(key@, cells@) matches Ok((slots, meta2)) ==> match r {
            Ok(m) => exists|s3: Seq<Option<Vec<u8>>>, r3: Seq<Seq<u8>>|
                #[trigger] stream_decoded(key@, cells@, s3, r3, meta2, m@) && slot_views(s3) == slots,
            Err(e) => e is ErasureDecode || e is InvalidRecoveredLength,
        });
        r
    }
}

/// No slot filled, nothing present.
proof fn lemma_none_present(surv: Seq<Option<Vec<u8>>>, upto: int)
    requires
        0 <= upto <= surv.len(),
        forall|j: int| 0 <= j < surv.len() ==> #[trigger] surv[j] is None,
    ensures
        present_indices(surv, upto).len() == 0,
    decreases upto,
{
    if upto > 0 {
        lemma_none_present(surv, upto - 1);
    }
}

impl Default for SecureShardBlockCodec {
    fn default() -> (c: Self) {
        Self::new()
    }
}

} // verus!
