//! A deterministic four-hop onion-header simulation for demonstrations: each
//! hop's layer is a SHA-256 keystream XORed over the header, with a
//! truncated SHA-256 checksum over the cell. It authenticates nothing and is
//! not for network traffic.
use vstd::prelude::*;
use crate::bytes::{array_to_vec, fill_array, push_all, push_u32_be, push_u64_be, u32_at, u32_be, u64_be};
use crate::crypto::{sha256, sha256_output};

verus! {

pub const SIMULATION_ONION_PAYLOAD_BYTES: usize = 944;

#[derive(Debug, Clone, PartialEq, Eq, Structural)]
pub enum SimulationOnionError {
    PayloadTooLarge { got: usize, max: usize },
    InvalidHopIndex { got: usize, max: usize },
}

#[derive(Clone, Copy, Debug, PartialEq, Eq)]
pub struct SimulationOnionCell {
    pub mutated_session_tag: [u8; 16],
    pub monotonic_seq_iv: [u8; 12],
    pub simulated_header: [u8; 212],
    pub shard_payload_or_noise: [u8; 944],
    pub integrity_check: [u8; 16],
}

/// The label hashed into every header keystream.
pub open spec fn layer_label() -> Seq<u8> {
    seq![
        0x63u8, 0x68, 0x72, 0x6f, 0x6e, 0x6f, 0x73, 0x2d, 0x73, 0x69, 0x6d, 0x75, 0x6c, 0x61, 0x74,
        0x69, 0x6f, 0x6e, 0x2d, 0x68, 0x65, 0x61, 0x64, 0x65, 0x72, 0x2d, 0x6c, 0x61, 0x79, 0x65, 0x72,
    ]
}

/// The keystream of hop `hop`'s header layer.
pub open spec fn layer_keystream(secret: Seq<u8>, hop: u32) -> Seq<u8> {
    sha256_output(secret + layer_label() + u32_be(hop))
}

/// The sequence IV: four zero bytes, then the sequence number.
pub open spec fn seq_iv(seq: u64) -> Seq<u8> {
    seq![0u8, 0, 0, 0] + u64_be(seq)
}

/// The payload zero-padded to the payload field.
pub open spec fn padded_payload(payload: Seq<u8>) -> Seq<u8> {
    Seq::new(944, |i: int| if i < payload.len() { payload[i] } else { 0u8 })
}

impl SimulationOnionCell {
    /// A cell carrying `payload` (zero-padded) with a zero header and
    /// checksum; payloads beyond the field are refused, never truncated.
    pub fn new(tag: [u8; 16], seq: u64, payload: &[u8]) -> (r: Result<Self, SimulationOnionError>)
        ensures
            payload@.len() > 944 ==> r == Err::<Self, SimulationOnionError>(
                SimulationOnionError::PayloadTooLarge { got: payload@.len() as usize, max: 944 },
            ),
            payload@.len() <= 944 ==> (r matches Ok(c) && c.mutated_session_tag == tag && c.monotonic_seq_iv@
                == seq_iv(seq) && c.simulated_header@ == Seq::new(212, |i: int| 0u8)
                && c.shard_payload_or_noise@ == padded_payload(payload@) && c.integrity_check@ == Seq::new(
                16,
                |i: int| 0u8,
            )),
    {
        if payload.len() > SIMULATION_ONION_PAYLOAD_BYTES {
            return Err(
                SimulationOnionError::PayloadTooLarge { got: payload.len(), max: SIMULATION_ONION_PAYLOAD_BYTES },
            );
        }
        let mut iv_bytes: Vec<u8> = vec![0u8, 0, 0, 0];
        push_u64_be(&mut iv_bytes, seq);
        let mut monotonic_seq_iv = [0u8; 12];
        fill_array(&mut monotonic_seq_iv, iv_bytes.as_slice(), 0);
        assert(monotonic_seq_iv@ =~= seq_iv(seq));
        let mut body = [0u8; 944];
        let mut i: usize = 0;
        while i < payload.len()
            invariant
                i <= payload@.len() <= 944,
                body@.len() == 944,
                forall|j: int| 0 <= j < i ==> #[trigger] body@[j] == payload@[j],
                forall|j: int| i <= j < 944 ==> #[trigger] body@[j] == 0,
            decreases payload@.len() - i,
        {
            body[i] = payload[i];
            i = i + 1;
        }
        assert(body@ =~= padded_payload(payload@));
        let header = [0u8; 212];
        let check = [0u8; 16];
        assert(header@ =~= Seq::new(212, |i: int| 0u8));
        assert(check@ =~= Seq::new(16, |i: int| 0u8));
        Ok(Self {
            mutated_session_tag: tag,
            monotonic_seq_iv,
            simulated_header: header,
            shard_payload_or_noise: body,
            integrity_check: check,
        })
    }
}

/// The four-hop simulator and its hop secrets.
pub struct SphinxSimulationProcessor {
    pub hop_secrets: [Vec<u8>; 4],
}

/// The header after XORing the layers of hops `from..4` (highest first)
/// over zeros.
pub open spec fn layered_header(secrets: Seq<Seq<u8>>, from: int) -> Seq<u8>
    decreases 4 - from,
{
    if from >= 4 || from < 0 {
        Seq::new(212, |i: int| 0u8)
    } else {
        xor_layer(layered_header(secrets, from + 1), layer_keystream(secrets[from], from as u32))
    }
}

/// A header with a 32-byte keystream XORed over it, repeating.
pub open spec fn xor_layer(header: Seq<u8>, ks: Seq<u8>) -> Seq<u8> {
    Seq::new(header.len(), |i: int| header[i] ^ ks[i % 32])
}

/// The cell's checksum: the first 16 bytes of SHA-256 over tag, IV, header
/// and payload.
pub open spec fn cell_check(tag: Seq<u8>, iv: Seq<u8>, header: Seq<u8>, body: Seq<u8>) -> Seq<u8> {
    sha256_output(tag + iv + header + body).take(16)
}

pub open spec fn secrets_view(s: [Vec<u8>; 4]) -> Seq<Seq<u8>> {
    seq![s[0]@, s[1]@, s[2]@, s[3]@]
}

/// XORs a 32-byte keystream over a header.
fn apply_layer(header: &mut [u8; 212], ks: &[u8; 32])
    ensures
        final(header)@ == xor_layer(old(header)@, ks@),
{
    let ghost h0 = header@;
    let mut i: usize = 0;
    while i < 212
        invariant
            i <= 212,
            header@.len() == 212,
            h0.len() == 212,
            ks@.len() == 32,
            forall|j: int| 0 <= j < i ==> #[trigger] header@[j] == h0[j] ^ ks@[j % 32],
            forall|j: int| i <= j < 212 ==> #[trigger] header@[j] == h0[j],
        decreases 212 - i,
    {
        let v = header[i] ^ ks[i % 32];
        header[i] = v;
        i = i + 1;
    }
    assert(header@ =~= xor_layer(h0, ks@));
}

/// The keystream of a hop's layer.
fn layer_keystream_exec(secret: &Vec<u8>, hop: u32) -> (r: [u8; 32])
    ensures
        r@ == layer_keystream(secret@, hop),
{
    let mut input: Vec<u8> = Vec::new();
    push_all(&mut input, secret.as_slice());
    let label: Vec<u8> = vec![
        0x63u8, 0x68, 0x72, 0x6f, 0x6e, 0x6f, 0x73, 0x2d, 0x73, 0x69, 0x6d, 0x75, 0x6c, 0x61, 0x74,
        0x69, 0x6f, 0x6e, 0x2d, 0x68, 0x65, 0x61, 0x64, 0x65, 0x72, 0x2d, 0x6c, 0x61, 0x79, 0x65, 0x72,
    ];
    assert(label@ =~= layer_label());
    push_all(&mut input, label.as_slice());
    push_u32_be(&mut input, hop);
    sha256(input.as_slice())
}

impl SphinxSimulationProcessor {
    pub fn new(hop_secrets: [Vec<u8>; 4]) -> (r: Self)
        ensures
            secrets_view(r.hop_secrets) == secrets_view(hop_secrets),
    {
        Self { hop_secrets }
    }

    /// A cell whose header carries all four layers (hop 3 first) and whose
    /// checksum covers it.
    pub fn encapsulate(&self, initial_tag: [u8; 16], seq: u64, payload: &[u8]) -> (r: Result<
        SimulationOnionCell,
        SimulationOnionError,
    >)
        ensures
            payload@.len() > 944 ==> r == Err::<SimulationOnionCell, SimulationOnionError>(
                SimulationOnionError::PayloadTooLarge { got: payload@.len() as usize, max: 944 },
            ),
            payload@.len() <= 944 ==> (r matches Ok(c) && c.mutated_session_tag == initial_tag
                && c.monotonic_seq_iv@ == seq_iv(seq) && c.simulated_header@ == layered_header(
                secrets_view(self.hop_secrets),
                0,
            ) && c.shard_payload_or_noise@ == padded_payload(payload@) && c.integrity_check@ == cell_check(
                initial_tag@,
                seq_iv(seq),
                layered_header(secrets_view(self.hop_secrets), 0),
                padded_payload(payload@),
            )),
    {
        let mut cell = match SimulationOnionCell::new(initial_tag, seq, payload) {
            Ok(c) => c,
            Err(e) => return Err(e),
        };
        let ghost sv = secrets_view(self.hop_secrets);
        let mut block = [0u8; 212];
        assert(block@ =~= layered_header(sv, 4));
        let mut hop: usize = 4;
        while hop > 0
            invariant
                hop <= 4,
                sv == secrets_view(self.hop_secrets),
                block@ == layered_header(sv, hop as int),
            decreases hop,
        {
            hop = hop - 1;
            let ks = layer_keystream_exec(&self.hop_secrets[hop], hop as u32);
            assert(self.hop_secrets[hop as int]@ == sv[hop as int]);
            apply_layer(&mut block, &ks);
        }
        cell.simulated_header = block;
        let mut input: Vec<u8> = Vec::new();
        push_all(&mut input, &cell.mutated_session_tag);
        push_all(&mut input, &cell.monotonic_seq_iv);
        push_all(&mut input, &cell.simulated_header);
        push_all(&mut input, &cell.shard_payload_or_noise);
        let digest = sha256(input.as_slice());
        let mut check = [0u8; 16];
        fill_array(&mut check, &digest, 0);
        assert(check@ =~= digest@.take(16));
        cell.integrity_check = check;
        Ok(cell)
    }

    /// Peels hop `hop_index`'s layer: the next tag is the first 16 bytes of
    /// SHA-256 over the secret, tag and IV; the output port is the header's
    /// first four bytes after the layer is removed.
    pub fn decapsulate_hop(&self, hop_index: usize, cell: &mut SimulationOnionCell) -> (r: Result<
        ([u8; 16], u32),
        SimulationOnionError,
    >)
        ensures
            hop_index >= 4 ==> r == Err::<([u8; 16], u32), SimulationOnionError>(
                SimulationOnionError::InvalidHopIndex { got: hop_index, max: 3 },
            ) && *final(cell) == *old(cell),
            hop_index < 4 ==> ({
                let secret = secrets_view(self.hop_secrets)[hop_index as int];
                let header = xor_layer(old(cell).simulated_header@, layer_keystream(secret, hop_index as u32));
                let next = sha256_output(secret + old(cell).mutated_session_tag@ + old(cell).monotonic_seq_iv@).take(
                    16,
                );
                &&& r matches Ok((t, port)) && t@ == next && port == u32_at(header, 0)
                &&& final(cell).simulated_header@ == header
                &&& final(cell).mutated_session_tag@ == next
                &&& final(cell).monotonic_seq_iv == old(cell).monotonic_seq_iv
                &&& final(cell).shard_payload_or_noise == old(cell).shard_payload_or_noise
                &&& final(cell).integrity_check == old(cell).integrity_check
            }),
    {
        if hop_index >= 4 {
            return Err(SimulationOnionError::InvalidHopIndex { got: hop_index, max: 3 });
        }
        let secret = &self.hop_secrets[hop_index];
        let mut input: Vec<u8> = Vec::new();
        push_all(&mut input, secret.as_slice());
        push_all(&mut input, &cell.mutated_session_tag);
        push_all(&mut input, &cell.monotonic_seq_iv);
        let next_hash = sha256(input.as_slice());
        let mut next_tag = [0u8; 16];
        fill_array(&mut next_tag, &next_hash, 0);
        assert(next_tag@ =~= next_hash@.take(16));
        let ks = layer_keystream_exec(secret, hop_index as u32);
        let mut header = cell.simulated_header;
        apply_layer(&mut header, &ks);
        cell.simulated_header = header;
        let port = crate::bytes::read_u32_be(&cell.simulated_header, 0);
        cell.mutated_session_tag = next_tag;
        Ok((next_tag, port))
    }
}

/// Peeling hop `hop`'s layer from a header that carries the layers of hops
/// `hop..4` leaves the header that carries the layers of hops `hop + 1..4`:
/// decapsulating the hops in order undoes encapsulation one layer at a time.
pub proof fn lemma_peel_layer(secrets: Seq<Seq<u8>>, hop: int)
    requires
        0 <= hop < 4,
    ensures
        xor_layer(layered_header(secrets, hop), layer_keystream(secrets[hop], hop as u32))
            == layered_header(secrets, hop + 1),
{
    let inner = layered_header(secrets, hop + 1);
    let ks = layer_keystream(secrets[hop], hop as u32);
    lemma_layered_header_len(secrets, hop + 1);
    let peeled = xor_layer(layered_header(secrets, hop), ks);
    assert forall|i: int| 0 <= i < inner.len() implies #[trigger] peeled[i] == inner[i] by {
        crate::gf28::lemma_xor_assoc(inner[i], ks[i % 32], ks[i % 32]);
        crate::gf28::lemma_xor_zero(ks[i % 32]);
        crate::gf28::lemma_xor_zero(inner[i]);
    }
    assert(peeled =~= inner);
}

/// Every layered header is as long as the header field.
pub proof fn lemma_layered_header_len(secrets: Seq<Seq<u8>>, from: int)
    ensures
        layered_header(secrets, from).len() == 212,
    decreases 4 - from,
{
    if 0 <= from < 4 {
        lemma_layered_header_len(secrets, from + 1);
    }
}

/// After all four hops have peeled their layers in order, the header is
/// all zeros again.
pub proof fn lemma_all_layers_peel_to_zero(secrets: Seq<Seq<u8>>)
    ensures
        xor_layer(
            xor_layer(
                xor_layer(
                    xor_layer(layered_header(secrets, 0), layer_keystream(secrets[0], 0u32)),
                    layer_keystream(secrets[1], 1u32),
                ),
                layer_keystream(secrets[2], 2u32),
            ),
            layer_keystream(secrets[3], 3u32),
        ) == Seq::new(212, |i: int| 0u8),
{
    lemma_peel_layer(secrets, 0);
    lemma_peel_layer(secrets, 1);
    lemma_peel_layer(secrets, 2);
    lemma_peel_layer(secrets, 3);
    assert(layered_header(secrets, 4) =~= Seq::new(212, |i: int| 0u8));
}

} // verus!
