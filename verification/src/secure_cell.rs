//! Versioned fixed-size authenticated SHARD cells and sliding replay windows.
use vstd::prelude::*;
use crate::bytes::{
    array_to_vec, copy_range, fill_array, push_all, push_u16_be, push_u64_be, push_zeros,
    u16_be, u64_at, u64_be,
};
use crate::crypto::{aead_open, aead_seal, aead_seal_output, hkdf_sha256, hkdf_sha256_output};
use crate::framing::APP_CELL_PAYLOAD_SIZE;
use crate::route_layer::zeros;

verus! {

pub const SECURE_CELL_MAGIC: [u8; 4] = [0x43, 0x48, 0x52, 0x37];
pub const SECURE_CELL_VERSION: u8 = 1;
pub const SECURE_CELL_HEADER_SIZE: usize = 36;
pub const SECURE_CELL_CIPHERTEXT_SIZE: usize = 944;
pub const SECURE_CELL_TAG_SIZE: usize = 16;
pub const SECURE_CELL_RESERVED_SIZE: usize = APP_CELL_PAYLOAD_SIZE - SECURE_CELL_HEADER_SIZE
    - SECURE_CELL_CIPHERTEXT_SIZE - SECURE_CELL_TAG_SIZE;
pub const SECURE_CELL_AAD_SIZE: usize = SECURE_CELL_HEADER_SIZE + SECURE_CELL_RESERVED_SIZE;

#[derive(Debug, Clone, PartialEq, Eq)]
pub enum SecureCellError {
    PayloadTooLarge { got: usize, max: usize },
    InvalidKeyMaterial,
    InvalidMagic,
    UnsupportedVersion(u8),
    ReservedBytesNonZero,
    InvalidPayloadLength(u16),
    AuthenticationFailed,
}

/// `b"chronos-v7/link-aead/chacha20poly1305"`, the HKDF info of link keys.
pub open spec fn link_key_info() -> Seq<u8> {
    seq![
        0x63u8, 0x68, 0x72, 0x6f, 0x6e, 0x6f, 0x73, 0x2d, 0x76, 0x37, 0x2f, 0x6c, 0x69, 0x6e, 0x6b,
        0x2d, 0x61, 0x65, 0x61, 0x64, 0x2f, 0x63, 0x68, 0x61, 0x63, 0x68, 0x61, 0x32, 0x30, 0x70,
        0x6f, 0x6c, 0x79, 0x31, 0x33, 0x30, 0x35,
    ]
}

/// Derive a 32-byte AEAD link key from a per-link shared secret plus route tag:
/// HKDF-SHA256 salted with the route tag. Secrets shorter than 32 bytes are refused.
pub fn derive_link_key(shared_secret: &[u8], route_tag: &[u8; 16]) -> (r: Result<
    [u8; 32],
    SecureCellError,
>)
    ensures
        shared_secret@.len() < 32 ==> r == Err::<[u8; 32], SecureCellError>(
            SecureCellError::InvalidKeyMaterial,
        ),
        shared_secret@.len() >= 32 ==> (r matches Ok(k) && k@ == hkdf_sha256_output(
            route_tag@,
            shared_secret@,
            link_key_info(),
            32,
        )),
{
    if shared_secret.len() < 32 {
        return Err(SecureCellError::InvalidKeyMaterial);
    }
    let info: Vec<u8> = vec![
        0x63u8, 0x68, 0x72, 0x6f, 0x6e, 0x6f, 0x73, 0x2d, 0x76, 0x37, 0x2f, 0x6c, 0x69, 0x6e, 0x6b,
        0x2d, 0x61, 0x65, 0x61, 0x64, 0x2f, 0x63, 0x68, 0x61, 0x63, 0x68, 0x61, 0x32, 0x30, 0x70,
        0x6f, 0x6c, 0x79, 0x31, 0x33, 0x30, 0x35,
    ];
    assert(info@ =~= link_key_info());
    match hkdf_sha256(route_tag, shared_secret, info.as_slice(), 32) {
        Some(out) => {
            let mut key = [0u8; 32];
            fill_array(&mut key, out.as_slice(), 0);
            assert(out@.subrange(0, 32) =~= out@);
            Ok(key)
        },
        None => Err(SecureCellError::InvalidKeyMaterial),
    }
}

/// A fixed 1,200-byte app cell with authenticated metadata and padded payload.
///
/// Layout: magic "CHR7", version 1, flags, plaintext length (big endian),
/// 16-byte route tag, 12-byte nonce holding the sequence, 944 bytes of
/// padded ciphertext, the 16-byte tag, and 204 reserved zero bytes that are
/// authenticated with the header.
#[derive(Clone, Copy, Debug, PartialEq, Eq)]
pub struct SecureShardCell {
    pub magic: [u8; 4],
    pub version: u8,
    pub flags: u8,
    pub payload_len_be: [u8; 2],
    pub route_tag: [u8; 16],
    pub seq_iv: [u8; 12],
    pub ciphertext: [u8; 944],
    pub auth_tag: [u8; 16],
    pub reserved: [u8; 204],
}

/// The 12-byte nonce of sequence number `seq`: four zero bytes, then `seq` big endian.
pub open spec fn seq_nonce(seq: u64) -> Seq<u8> {
    zeros(4) + u64_be(seq)
}

/// The authenticated header and reserved bytes of a cell.
pub open spec fn cell_aad(c: SecureShardCell) -> Seq<u8> {
    c.magic@ + seq![c.version, c.flags] + c.payload_len_be@ + c.route_tag@ + c.seq_iv@ + c.reserved@
}

/// The 1,200 bytes of a cell in wire order.
pub open spec fn cell_bytes(c: SecureShardCell) -> Seq<u8> {
    c.magic@ + seq![c.version, c.flags] + c.payload_len_be@ + c.route_tag@ + c.seq_iv@
        + c.ciphertext@ + c.auth_tag@ + c.reserved@
}

/// The plaintext length a cell declares.
pub open spec fn cell_payload_len(c: SecureShardCell) -> u16 {
    crate::bytes::u16_of(c.payload_len_be@[0], c.payload_len_be@[1])
}

/// The header check made before any authentication.
pub open spec fn header_check(c: SecureShardCell) -> Result<(), SecureCellError> {
    if c.magic@ != SECURE_CELL_MAGIC@ {
        Err(SecureCellError::InvalidMagic)
    } else if c.version != SECURE_CELL_VERSION {
        Err(SecureCellError::UnsupportedVersion(c.version))
    } else if cell_payload_len(c) > SECURE_CELL_CIPHERTEXT_SIZE {
        Err(SecureCellError::InvalidPayloadLength(cell_payload_len(c)))
    } else {
        Ok(())
    }
}

/// What authenticating and decrypting cell `c` under `key` gives: nothing when
/// the header check fails or the tag does not verify, otherwise the declared
/// number of plaintext bytes.
pub open spec fn opened_payload(c: SecureShardCell, key: Seq<u8>) -> Option<Seq<u8>> {
    if header_check(c) is Err {
        None
    } else {
        match crate::crypto::aead_open_output(key, c.seq_iv@, cell_aad(c), c.ciphertext@ + c.auth_tag@) {
            Some(q) => Some(q.take(cell_payload_len(c) as int)),
            None => None,
        }
    }
}

/// `payload` padded with zero bytes to the full ciphertext size.
pub open spec fn padded_payload(payload: Seq<u8>) -> Seq<u8> {
    payload + zeros((SECURE_CELL_CIPHERTEXT_SIZE - payload.len()) as nat)
}

/// `c` is the cell that encrypting `payload` under `key` with this route tag,
/// sequence and flags yields.
pub open spec fn sealed_cell(
    c: SecureShardCell,
    key: Seq<u8>,
    route_tag: Seq<u8>,
    seq: u64,
    flags: u8,
    payload: Seq<u8>,
) -> bool {
    &&& payload.len() <= SECURE_CELL_CIPHERTEXT_SIZE
    &&& c.magic@ == SECURE_CELL_MAGIC@
    &&& c.version == SECURE_CELL_VERSION
    &&& c.flags == flags
    &&& c.payload_len_be@ == u16_be(payload.len() as u16)
    &&& c.route_tag@ == route_tag
    &&& c.seq_iv@ == seq_nonce(seq)
    &&& c.reserved@ == zeros(204)
    &&& c.ciphertext@ + c.auth_tag@ == aead_seal_output(key, c.seq_iv@, cell_aad(c), padded_payload(payload))
}

/// The wire bytes of a cell determine every field: decoding what
/// `to_app_cell_bytes` wrote gives back the same cell.
pub proof fn lemma_cell_bytes_determine_cell(a: SecureShardCell, b: SecureShardCell)
    requires
        cell_bytes(a) == cell_bytes(b),
    ensures
        a.magic@ == b.magic@,
        a.version == b.version,
        a.flags == b.flags,
        a.payload_len_be@ == b.payload_len_be@,
        a.route_tag@ == b.route_tag@,
        a.seq_iv@ == b.seq_iv@,
        a.ciphertext@ == b.ciphertext@,
        a.auth_tag@ == b.auth_tag@,
        a.reserved@ == b.reserved@,
{
    let x = cell_bytes(a);
    let y = cell_bytes(b);
    assert(x.subrange(0, 4) =~= a.magic@);
    assert(y.subrange(0, 4) =~= b.magic@);
    assert(x[4] == a.version && y[4] == b.version);
    assert(x[5] == a.flags && y[5] == b.flags);
    assert(x.subrange(6, 8) =~= a.payload_len_be@);
    assert(y.subrange(6, 8) =~= b.payload_len_be@);
    assert(x.subrange(8, 24) =~= a.route_tag@);
    assert(y.subrange(8, 24) =~= b.route_tag@);
    assert(x.subrange(24, 36) =~= a.seq_iv@);
    assert(y.subrange(24, 36) =~= b.seq_iv@);
    assert(x.subrange(36, 980) =~= a.ciphertext@);
    assert(y.subrange(36, 980) =~= b.ciphertext@);
    assert(x.subrange(980, 996) =~= a.auth_tag@);
    assert(y.subrange(980, 996) =~= b.auth_tag@);
    assert(x.subrange(996, 1200) =~= a.reserved@);
    assert(y.subrange(996, 1200) =~= b.reserved@);
}

impl SecureShardCell {
    pub fn encrypt(key: &[u8; 32], route_tag: [u8; 16], seq: u64, flags: u8, payload: &[u8]) -> (r:
        Result<Self, SecureCellError>)
        ensures
            payload@.len() > SECURE_CELL_CIPHERTEXT_SIZE ==> r == Err::<Self, SecureCellError>(
                SecureCellError::PayloadTooLarge {
                    got: payload@.len() as usize,
                    max: SECURE_CELL_CIPHERTEXT_SIZE,
                },
            ),
            payload@.len() <= SECURE_CELL_CIPHERTEXT_SIZE ==> (r matches Ok(c) && sealed_cell(
                c,
                key@,
                route_tag@,
                seq,
                flags,
                payload@,
            )),
    {
        if payload.len() > SECURE_CELL_CIPHERTEXT_SIZE {
            return Err(
                SecureCellError::PayloadTooLarge {
                    got: payload.len(),
                    max: SECURE_CELL_CIPHERTEXT_SIZE,
                },
            );
        }
        let mut iv_bytes: Vec<u8> = Vec::new();
        push_zeros(&mut iv_bytes, 4);
        push_u64_be(&mut iv_bytes, seq);
        let mut seq_iv = [0u8; 12];
        fill_array(&mut seq_iv, iv_bytes.as_slice(), 0);
        assert(iv_bytes@.subrange(0, 12) =~= seq_nonce(seq));
        let mut len_bytes: Vec<u8> = Vec::new();
        push_u16_be(&mut len_bytes, payload.len() as u16);
        let mut payload_len_be = [0u8; 2];
        fill_array(&mut payload_len_be, len_bytes.as_slice(), 0);
        assert(len_bytes@.subrange(0, 2) =~= u16_be(payload.len() as u16));

        let mut cell = Self {
            magic: SECURE_CELL_MAGIC,
            version: SECURE_CELL_VERSION,
            flags,
            payload_len_be,
            route_tag,
            seq_iv,
            ciphertext: [0u8; 944],
            auth_tag: [0u8; 16],
            reserved: [0u8; 204],
        };
        assert(cell.reserved@ =~= zeros(204));
        let mut plaintext: Vec<u8> = Vec::new();
        push_all(&mut plaintext, payload);
        push_zeros(&mut plaintext, SECURE_CELL_CIPHERTEXT_SIZE - payload.len());
        let aad = cell.aad();
        let sealed = aead_seal(key, &cell.seq_iv, aad.as_slice(), plaintext.as_slice());
        fill_array(&mut cell.ciphertext, sealed.as_slice(), 0);
        fill_array(&mut cell.auth_tag, sealed.as_slice(), 944);
        assert(cell.ciphertext@ + cell.auth_tag@ =~= sealed@);
        Ok(cell)
    }

    /// Authenticate and decrypt the cell. A cell sealed for `payload` under
    /// `key` decrypts to exactly `payload`.
    pub fn decrypt(&self, key: &[u8; 32]) -> (r: Result<Vec<u8>, SecureCellError>)
        ensures
            header_check(*self) is Err ==> r == Err::<Vec<u8>, SecureCellError>(
                header_check(*self)->Err_0,
            ),
            header_check(*self) is Ok ==> match crate::crypto::aead_open_output(
                key@,
                self.seq_iv@,
                cell_aad(*self),
                self.ciphertext@ + self.auth_tag@,
            ) {
                Some(q) => r matches Ok(p) && p@ == q.take(cell_payload_len(*self) as int),
                None => r == Err::<Vec<u8>, SecureCellError>(SecureCellError::AuthenticationFailed),
            },
            forall|route_tag: Seq<u8>, seq: u64, flags: u8, payload: Seq<u8>|
                #[trigger] sealed_cell(*self, key@, route_tag, seq, flags, payload) ==> (r matches Ok(
                    p,
                ) && p@ == payload),
    {
        proof {
            assert forall|route_tag: Seq<u8>, seq: u64, flags: u8, payload: Seq<u8>|
                #[trigger] sealed_cell(*self, key@, route_tag, seq, flags, payload) implies header_check(
                *self,
            ) is Ok by {
                crate::bytes::lemma_u16_round_trip(payload.len() as u16);
            }
        }
        self.validate_pre_auth_header()?;
        let aad = self.aad();
        let mut sealed = array_to_vec(&self.ciphertext);
        push_all(&mut sealed, &self.auth_tag);
        let opened = aead_open(key, &self.seq_iv, aad.as_slice(), sealed.as_slice());
        let payload_len = self.payload_len() as usize;
        match opened {
            Some(plaintext) => {
                let out = copy_range(plaintext.as_slice(), 0, payload_len);
                assert(out@ =~= plaintext@.take(payload_len as int));
                proof {
                    assert forall|route_tag: Seq<u8>, seq: u64, flags: u8, payload: Seq<u8>|
                        #[trigger] sealed_cell(
                            *self,
                            key@,
                            route_tag,
                            seq,
                            flags,
                            payload,
                        ) implies out@ == payload by {
                        crate::bytes::lemma_u16_round_trip(payload.len() as u16);
                        assert(out@ =~= payload);
                    }
                }
                Ok(out)
            },
            None => {
                proof {
                    assert forall|route_tag: Seq<u8>, seq: u64, flags: u8, payload: Seq<u8>|
                        #[trigger] sealed_cell(
                            *self,
                            key@,
                            route_tag,
                            seq,
                            flags,
                            payload,
                        ) implies false by {
                        assert(aead_seal_output(
                            key@,
                            self.seq_iv@,
                            aad@,
                            padded_payload(payload),
                        ) == sealed@);
                    }
                }
                Err(SecureCellError::AuthenticationFailed)
            },
        }
    }

    pub fn payload_len(&self) -> (r: u16)
        ensures
            r == cell_payload_len(*self),
    {
        ((self.payload_len_be[0] as u16) << 8u16) | (self.payload_len_be[1] as u16)
    }

    pub fn sequence(&self) -> (r: u64)
        ensures
            r == u64_at(self.seq_iv@, 4),
    {
        crate::bytes::read_u64_be(&self.seq_iv, 4)
    }

    pub fn to_app_cell_bytes(&self) -> (r: [u8; 1200])
        ensures
            r@ == cell_bytes(*self),
    {
        let mut v: Vec<u8> = Vec::new();
        push_all(&mut v, &self.magic);
        v.push(self.version);
        v.push(self.flags);
        push_all(&mut v, &self.payload_len_be);
        push_all(&mut v, &self.route_tag);
        push_all(&mut v, &self.seq_iv);
        push_all(&mut v, &self.ciphertext);
        push_all(&mut v, &self.auth_tag);
        push_all(&mut v, &self.reserved);
        let mut out = [0u8; 1200];
        fill_array(&mut out, v.as_slice(), 0);
        assert(v@ =~= cell_bytes(*self));
        assert(v@.subrange(0, 1200) =~= v@);
        out
    }

    pub fn from_app_cell_bytes(bytes: &[u8; 1200]) -> (r: Result<Self, SecureCellError>)
        ensures
            app_cell_parsed(bytes@, r),
            match app_cell_header(bytes@) {
                Ok(()) => r matches Ok(c) && cell_bytes(c) == bytes@,
                Err(e) => r == Err::<SecureShardCell, SecureCellError>(e),
            },
    {
        let mut cell = Self {
            magic: [0u8; 4],
            version: bytes[4],
            flags: bytes[5],
            payload_len_be: [0u8; 2],
            route_tag: [0u8; 16],
            seq_iv: [0u8; 12],
            ciphertext: [0u8; 944],
            auth_tag: [0u8; 16],
            reserved: [0u8; 204],
        };
        fill_array(&mut cell.magic, bytes, 0);
        fill_array(&mut cell.payload_len_be, bytes, 6);
        fill_array(&mut cell.route_tag, bytes, 8);
        fill_array(&mut cell.seq_iv, bytes, 24);
        fill_array(&mut cell.ciphertext, bytes, 36);
        fill_array(&mut cell.auth_tag, bytes, 980);
        fill_array(&mut cell.reserved, bytes, 996);
        assert(cell_bytes(cell) =~= bytes@);
        assert(cell.magic@ =~= bytes@.subrange(0, 4));
        assert(cell.payload_len_be@[0] == bytes@[6] && cell.payload_len_be@[1] == bytes@[7]);
        match cell.validate_pre_auth_header() {
            Ok(()) => Ok(cell),
            Err(e) => Err(e),
        }
    }

    fn validate_pre_auth_header(&self) -> (r: Result<(), SecureCellError>)
        ensures
            r == header_check(*self),
    {
        if !crate::route_layer::has_magic(&self.magic, &SECURE_CELL_MAGIC) {
            assert(self.magic@.subrange(0, 4) =~= self.magic@);
            return Err(SecureCellError::InvalidMagic);
        }
        assert(self.magic@.subrange(0, 4) =~= self.magic@);
        if self.version != SECURE_CELL_VERSION {
            return Err(SecureCellError::UnsupportedVersion(self.version));
        }
        if self.payload_len() as usize > SECURE_CELL_CIPHERTEXT_SIZE {
            return Err(SecureCellError::InvalidPayloadLength(self.payload_len()));
        }
        Ok(())
    }

    fn aad(&self) -> (r: Vec<u8>)
        ensures
            r@ == cell_aad(*self),
    {
        let mut v: Vec<u8> = Vec::new();
        push_all(&mut v, &self.magic);
        v.push(self.version);
        v.push(self.flags);
        push_all(&mut v, &self.payload_len_be);
        push_all(&mut v, &self.route_tag);
        push_all(&mut v, &self.seq_iv);
        push_all(&mut v, &self.reserved);
        assert(v@ =~= cell_aad(*self));
        v
    }
}

#[derive(Debug, Clone, PartialEq, Eq)]
pub enum ReplayError {
    Duplicate { seq: u64 },
    Stale { seq: u64, highest_seen: u64 },
    InvalidWindowSize(usize),
}

/// Bit `i` of `b`.
pub open spec fn bit(b: u128, i: u128) -> bool {
    (b >> i) & 1u128 == 1u128
}

proof fn lemma_bit_one(i: u128)
    requires
        i < 128,
    ensures
        bit(1u128, i) <==> i == 0,
{
    assert(((1u128 >> i) & 1u128 == 1u128) <==> i == 0) by (bit_vector)
        requires
            i < 128,
    ;
}

proof fn lemma_bit_shift_in(b: u128, s: u128, i: u128)
    requires
        0 < s < 128,
        i < 128,
    ensures
        bit((b << s) | 1u128, i) <==> (i == 0 || (i >= s && bit(b, (i - s) as u128))),
{
    assert((((b << s) | 1u128) >> i) & 1u128 == 1u128 <==> (i == 0 || (i >= s && (b >> ((i - s)
        as u128)) & 1u128 == 1u128))) by (bit_vector)
        requires
            0 < s < 128,
            i < 128,
    ;
}

proof fn lemma_bit_set(b: u128, o: u128, i: u128)
    requires
        o < 128,
        i < 128,
    ensures
        bit(b | (1u128 << o), i) <==> (bit(b, i) || i == o),
{
    assert((((b | (1u128 << o)) >> i) & 1u128 == 1u128) <==> (((b >> i) & 1u128 == 1u128) || i
        == o)) by (bit_vector)
        requires
            o < 128,
            i < 128,
    ;
}

proof fn lemma_bit_test(b: u128, o: u128)
    requires
        o < 128,
    ensures
        (b & (1u128 << o) != 0) <==> bit(b, o),
{
    assert((b & (1u128 << o) != 0) <==> ((b >> o) & 1u128 == 1u128)) by (bit_vector)
        requires
            o < 128,
    ;
}

/// Sliding replay detector for monotonically sequenced cells.
///
/// The window accepts out-of-order delivery within the last `window_size`
/// sequence numbers, rejects exact duplicates, and rejects stale numbers that
/// have fallen out of the window. It does not depend on wall-clock time.
pub struct ReplayWindow {
    highest_seen: Option<u64>,
    seen_bitmap: u128,
    window_size: usize,
    accepted: Ghost<Set<u64>>,
}

/// The header check of an app cell, read at its offsets: magic at 0,
/// version at 4, declared payload length (big-endian) at 6.
pub open spec fn app_cell_header(bytes: Seq<u8>) -> Result<(), SecureCellError> {
    if bytes.subrange(0, 4) != SECURE_CELL_MAGIC@ {
        Err(SecureCellError::InvalidMagic)
    } else if bytes[4] != SECURE_CELL_VERSION {
        Err(SecureCellError::UnsupportedVersion(bytes[4]))
    } else if crate::bytes::u16_of(bytes[6], bytes[7]) > SECURE_CELL_CIPHERTEXT_SIZE {
        Err(SecureCellError::InvalidPayloadLength(crate::bytes::u16_of(bytes[6], bytes[7])))
    } else {
        Ok(())
    }
}

/// What reading a cell from its 1200 bytes gives: the cell those bytes
/// encode when its header checks, else the header's error.
pub open spec fn app_cell_parsed(bytes: Seq<u8>, r: Result<SecureShardCell, SecureCellError>) -> bool {
    match r {
        Ok(c) => cell_bytes(c) == bytes && header_check(c) is Ok,
        Err(e) => exists|c: SecureShardCell|
            cell_bytes(c) == bytes && #[trigger] header_check(c) == Err::<(), SecureCellError>(e),
    }
}

/// Reading back the bytes a cell with a valid header was written as gives
/// the cell.
pub proof fn lemma_app_cell_round_trip(c: SecureShardCell, r: Result<SecureShardCell, SecureCellError>)
    requires
        header_check(c) is Ok,
        app_cell_parsed(cell_bytes(c), r),
    ensures
        r == Ok::<SecureShardCell, SecureCellError>(c),
{
    match r {
        Ok(d) => {
            lemma_cell_bytes_determine_cell(d, c);
            assert(d.magic =~= c.magic);
            assert(d.payload_len_be =~= c.payload_len_be);
            assert(d.route_tag =~= c.route_tag);
            assert(d.seq_iv =~= c.seq_iv);
            assert(d.ciphertext =~= c.ciphertext);
            assert(d.auth_tag =~= c.auth_tag);
            assert(d.reserved =~= c.reserved);
        },
        Err(e) => {
            let d = choose|d: SecureShardCell|
                cell_bytes(d) == cell_bytes(c) && #[trigger] header_check(d) == Err::<(), SecureCellError>(e);
            lemma_cell_bytes_determine_cell(d, c);
        },
    }
}

/// What decrypting `c` under `key` gives: the header's error, the payload of
/// an authenticated cell, or an authentication failure.
pub open spec fn decrypt_outcome(c: SecureShardCell, key: Seq<u8>) -> Result<Seq<u8>, SecureCellError> {
    match header_check(c) {
        Err(e) => Err(e),
        Ok(()) => match crate::crypto::aead_open_output(key, c.seq_iv@, cell_aad(c), c.ciphertext@ + c.auth_tag@) {
            Some(q) => Ok(q.take(cell_payload_len(c) as int)),
            None => Err(SecureCellError::AuthenticationFailed),
        },
    }
}

/// The verdict of a window that has accepted `accepted`, has seen `highest`
/// and spans `size` numbers, on sequence number `seq`.
pub open spec fn window_verdict(accepted: Set<u64>, highest: Option<u64>, size: nat, seq: u64) -> Result<
    (),
    ReplayError,
> {
    match highest {
        None => Ok(()),
        Some(h) => if seq > h {
            Ok(())
        } else if h - seq >= size {
            Err(ReplayError::Stale { seq, highest_seen: h })
        } else if accepted.contains(seq) {
            Err(ReplayError::Duplicate { seq })
        } else {
            Ok(())
        },
    }
}

/// The highest sequence number a window has seen after accepting `seq`.
pub open spec fn advanced_highest(h: Option<u64>, seq: u64) -> Option<u64> {
    match h {
        None => Some(seq),
        Some(x) => if seq > x {
            Some(seq)
        } else {
            Some(x)
        },
    }
}

pub open spec fn replay_verdict(w: ReplayWindow, seq: u64) -> Result<(), ReplayError> {
    window_verdict(w.accepted(), w.highest(), w.window(), seq)
}

impl ReplayWindow {
    /// Every sequence number the window has accepted.
    pub closed spec fn accepted(&self) -> Set<u64> {
        self.accepted@
    }

    /// The highest sequence number accepted, if any.
    pub closed spec fn highest(&self) -> Option<u64> {
        self.highest_seen
    }

    /// How far below the highest number a sequence number may still arrive.
    pub closed spec fn window(&self) -> nat {
        self.window_size as nat
    }

    /// Bit `i` of the bitmap records whether `highest - i` was accepted.
    #[verifier::type_invariant]
    closed spec fn wf(&self) -> bool {
        &&& 1 <= self.window_size <= 128
        &&& match self.highest_seen {
            None => self.accepted@ == Set::<u64>::empty() && self.seen_bitmap == 0,
            Some(h) => {
                &&& self.accepted@.contains(h)
                &&& forall|s: u64| #[trigger] self.accepted@.contains(s) ==> s <= h
                &&& forall|i: u128|
                    i < 128 ==> (#[trigger] bit(self.seen_bitmap, i) <==> (i <= h
                        && self.accepted@.contains((h - i) as u64)))
            },
        }
    }

    pub fn new(window_size: usize) -> (r: Result<Self, ReplayError>)
        ensures
            !(1 <= window_size <= 128) ==> r == Err::<Self, ReplayError>(
                ReplayError::InvalidWindowSize(window_size),
            ),
            1 <= window_size <= 128 ==> (r matches Ok(w) && w.accepted() == Set::<u64>::empty()
                && w.highest() is None && w.window() == window_size),
    {
        if window_size < 1 || window_size > 128 {
            return Err(ReplayError::InvalidWindowSize(window_size));
        }
        Ok(
            Self {
                highest_seen: None,
                seen_bitmap: 0,
                window_size,
                accepted: Ghost(Set::empty()),
            },
        )
    }

    /// Record `seq`. A number is accepted at most once: an accepted number
    /// was not accepted before, and every later call with it is refused.
    /// After any call, the highest number the window holds is the greatest
    /// number it has accepted.
    pub fn observe(&mut self, seq: u64) -> (r: Result<(), ReplayError>)
        ensures
            r == replay_verdict(*old(self), seq),
            final(self).highest() matches Some(h) && final(self).accepted().contains(h) && forall|s: u64|
                #[trigger] final(self).accepted().contains(s) ==> s <= h,
            final(self).window() == old(self).window(),
            r is Ok ==> !old(self).accepted().contains(seq) && final(self).accepted()
                == old(self).accepted().insert(seq),
            r is Err ==> final(self).accepted() == old(self).accepted() && final(self).highest()
                == old(self).highest(),
            match old(self).highest() {
                None => r is Ok && final(self).highest() == Some(seq),
                Some(h) => if seq > h {
                    r is Ok && final(self).highest() == Some(seq)
                } else if h - seq >= old(self).window() {
                    r == Err::<(), ReplayError>(ReplayError::Stale { seq, highest_seen: h })
                } else if old(self).accepted().contains(seq) {
                    r == Err::<(), ReplayError>(ReplayError::Duplicate { seq })
                } else {
                    r is Ok && final(self).highest() == Some(h)
                },
            },
    {
        proof {
            use_type_invariant(&*self);
        }
        let ghost acc = self.accepted@;
        match self.highest_seen {
            None => {
                proof {
                    assert forall|i: u128| i < 128 implies (#[trigger] bit(1u128, i) <==> (i <= seq
                        && acc.insert(seq).contains((seq - i) as u64))) by {
                        lemma_bit_one(i);
                    }
                }
                *self = Self {
                    highest_seen: Some(seq),
                    seen_bitmap: 1,
                    window_size: self.window_size,
                    accepted: Ghost(acc.insert(seq)),
                };
                Ok(())
            },
            Some(highest) => {
                if seq > highest {
                    let shift = seq - highest;
                    let b = self.seen_bitmap;
                    let next = if shift >= 128 {
                        proof {
                            assert forall|i: u128| i < 128 implies (#[trigger] bit(1u128, i) <==> (i
                                <= seq && acc.insert(seq).contains((seq - i) as u64))) by {
                                lemma_bit_one(i);
                                if i > 0 && i <= seq && acc.contains((seq - i) as u64) {
                                    assert(((seq - i) as u64) <= highest);
                                }
                            }
                        }
                        1u128
                    } else {
                        let s = shift as u128;
                        proof {
                            assert forall|i: u128| i < 128 implies (#[trigger] bit(
                                (b << s) | 1u128,
                                i,
                            ) <==> (i <= seq && acc.insert(seq).contains((seq - i) as u64))) by {
                                lemma_bit_shift_in(b, s, i);
                                if i >= s {
                                    assert(bit(b, (i - s) as u128) <==> ((i - s) <= highest
                                        && acc.contains((highest - (i - s)) as u64)));
                                }
                                if i > 0 && i <= seq && acc.contains((seq - i) as u64) {
                                    assert(((seq - i) as u64) <= highest);
                                }
                            }
                        }
                        (b << s) | 1u128
                    };
                    *self = Self {
                        highest_seen: Some(seq),
                        seen_bitmap: next,
                        window_size: self.window_size,
                        accepted: Ghost(acc.insert(seq)),
                    };
                    Ok(())
                } else {
                    let offset = highest - seq;
                    if offset >= self.window_size as u64 || offset >= 128 {
                        return Err(ReplayError::Stale { seq, highest_seen: highest });
                    }
                    let o = offset as u128;
                    let b = self.seen_bitmap;
                    let mask = 1u128 << o;
                    proof {
                        lemma_bit_test(b, o);
                    }
                    if (b & mask) != 0 {
                        return Err(ReplayError::Duplicate { seq });
                    }
                    proof {
                        assert forall|i: u128| i < 128 implies (#[trigger] bit(b | mask, i) <==> (i
                            <= highest && acc.insert(seq).contains((highest - i) as u64))) by {
                            lemma_bit_set(b, o, i);
                        }
                    }
                    *self = Self {
                        highest_seen: Some(highest),
                        seen_bitmap: b | mask,
                        window_size: self.window_size,
                        accepted: Ghost(acc.insert(seq)),
                    };
                    Ok(())
                }
            },
        }
    }
}

impl Clone for ReplayWindow {
    fn clone(&self) -> (r: Self)
        ensures
            r.accepted() == self.accepted(),
            r.highest() == self.highest(),
            r.window() == self.window(),
    {
        proof {
            use_type_invariant(self);
        }
        Self {
            highest_seen: self.highest_seen,
            seen_bitmap: self.seen_bitmap,
            window_size: self.window_size,
            accepted: Ghost(self.accepted@),
        }
    }
}

#[derive(Debug, Clone, PartialEq, Eq)]
pub enum ReceiveCellError {
    Cell(SecureCellError),
    Replay(ReplayError),
}

/// Stateful receive side: authenticate and decrypt first, then advance the replay window.
pub struct SecureCellReceiver {
    key: [u8; 32],
    replay: ReplayWindow,
}

impl SecureCellReceiver {
    /// The link key.
    pub closed spec fn key(&self) -> Seq<u8> {
        self.key@
    }

    /// The receiver's replay window.
    pub closed spec fn replay_window(&self) -> ReplayWindow {
        self.replay
    }

    pub fn new(key: [u8; 32], replay_window_size: usize) -> (r: Result<Self, ReplayError>)
        ensures
            !(1 <= replay_window_size <= 128) ==> r == Err::<Self, ReplayError>(
                ReplayError::InvalidWindowSize(replay_window_size),
            ),
            1 <= replay_window_size <= 128 ==> (r matches Ok(rx) && rx.key() == key@
                && rx.replay_window().accepted() == Set::<u64>::empty()
                && rx.replay_window().highest() is None && rx.replay_window().window()
                == replay_window_size),
    {
        Ok(Self { key, replay: ReplayWindow::new(replay_window_size)? })
    }

    /// Decrypt `cell` and record its sequence number. A cell that does not
    /// decrypt is reported with its cell error and leaves the window
    /// unchanged; a decrypted cell whose sequence number the window refuses
    /// is reported with the window's verdict.
    pub fn open(&mut self, cell: &SecureShardCell) -> (r: Result<Vec<u8>, ReceiveCellError>)
        ensures
            final(self).key() == old(self).key(),
            final(self).replay_window().window() == old(self).replay_window().window(),
            match decrypt_outcome(*cell, old(self).key()) {
                Err(e) => r == Err::<Vec<u8>, ReceiveCellError>(ReceiveCellError::Cell(e))
                    && final(self).replay_window() == old(self).replay_window(),
                Ok(p) => match replay_verdict(old(self).replay_window(), u64_at(cell.seq_iv@, 4)) {
                    Ok(()) => r matches Ok(q) && q@ == p && final(self).replay_window().highest()
                        == advanced_highest(old(self).replay_window().highest(), u64_at(cell.seq_iv@, 4)),
                    Err(e) => r == Err::<Vec<u8>, ReceiveCellError>(ReceiveCellError::Replay(e))
                        && final(self).replay_window().highest() == old(self).replay_window().highest(),
                },
            },
            r matches Ok(p) ==> opened_payload(*cell, old(self).key()) == Some(p@),
            r is Ok ==> !old(self).replay_window().accepted().contains(u64_at(cell.seq_iv@, 4))
                && final(self).replay_window().accepted() == old(self).replay_window().accepted().insert(
                u64_at(cell.seq_iv@, 4),
            ),
            r is Err ==> final(self).replay_window().accepted() == old(
                self,
            ).replay_window().accepted(),
            forall|route_tag: Seq<u8>, seq: u64, flags: u8, payload: Seq<u8>|
                #[trigger] sealed_cell(*cell, old(self).key(), route_tag, seq, flags, payload)
                    && !old(self).replay_window().accepted().contains(seq)
                    && (old(self).replay_window().highest() matches Some(h) ==> (seq > h || h - seq
                    < old(self).replay_window().window())) ==> (r matches Ok(p) && p@ == payload),
    {
        let plaintext = match cell.decrypt(&self.key) {
            Ok(p) => p,
            Err(e) => return Err(ReceiveCellError::Cell(e)),
        };
        proof {
            assert forall|route_tag: Seq<u8>, seq: u64, flags: u8, payload: Seq<u8>|
                #[trigger] sealed_cell(*cell, self.key@, route_tag, seq, flags, payload) implies u64_at(
                cell.seq_iv@,
                4,
            ) == seq by {
                crate::bytes::lemma_u64_round_trip(seq);
                assert(u64_at(cell.seq_iv@, 4) == u64_at(u64_be(seq), 0));
            }
        }
        match self.replay.observe(cell.sequence()) {
            Ok(()) => Ok(plaintext),
            Err(e) => Err(ReceiveCellError::Replay(e)),
        }
    }
}

} // verus!
