//! Code-derived key agreement and authenticated sealing of protocol
//! messages.
//!
//! The key exchange is a password-authenticated exchange over the transfer
//! code with distinct per-role identities; the channel seals every message
//! with an authenticated cipher under a key digested from the shared secret,
//! a fresh random nonce prepended to each frame.

use crate::transfer::TransferError;
use chacha20poly1305::aead::{Aead, KeyInit};
use chacha20poly1305::{ChaCha20Poly1305, Key, Nonce};
use sha2::{Digest, Sha256};
use vstd::prelude::*;
use vstd::string::StringSliceAdditionalSpecFns;

verus! {

/// The number of random nonce bytes prepended to every sealed frame.
pub const NONCE_SIZE: usize = 12;

/// The plaintext length at which the cipher's block counter would overflow:
/// below it, sealing always succeeds; at or above it, the cipher refuses.
pub const MAX_SEAL_LEN: u64 = 64 * 0xFFFF_FFFF;

/// The SHA-256 digest of a byte string; a fixed function named here so that
/// contracts can speak of it.
pub uninterp spec fn sha256_of(data: Seq<u8>) -> Seq<u8>;

/// The BLAKE3 digest of a byte string.
pub uninterp spec fn blake3_of(data: Seq<u8>) -> Seq<u8>;

/// The ChaCha20-Poly1305 sealing of a plaintext under a key and nonce: the
/// ciphertext with its authentication tag, a fixed function of the three
/// arguments alone.
pub uninterp spec fn aead_seal(key: Seq<u8>, nonce: Seq<u8>, pt: Seq<u8>) -> Seq<u8>;

/// The lowercase hex digit for a value below sixteen.
pub open spec fn hex_digit(n: int) -> char {
    if n == 0 {
        '0'
    } else if n == 1 {
        '1'
    } else if n == 2 {
        '2'
    } else if n == 3 {
        '3'
    } else if n == 4 {
        '4'
    } else if n == 5 {
        '5'
    } else if n == 6 {
        '6'
    } else if n == 7 {
        '7'
    } else if n == 8 {
        '8'
    } else if n == 9 {
        '9'
    } else if n == 10 {
        'a'
    } else if n == 11 {
        'b'
    } else if n == 12 {
        'c'
    } else if n == 13 {
        'd'
    } else if n == 14 {
        'e'
    } else {
        'f'
    }
}

/// Lowercase hex of a byte string: two digits per byte, high nibble first.
pub open spec fn hex_of(bs: Seq<u8>) -> Seq<char>
    decreases bs.len(),
{
    if bs.len() == 0 {
        Seq::empty()
    } else {
        seq![hex_digit(bs[0] as int / 16), hex_digit(bs[0] as int % 16)] + hex_of(bs.drop_first())
    }
}

pub proof fn lemma_hex_of_len(bs: Seq<u8>)
    ensures
        hex_of(bs).len() == 2 * bs.len(),
    decreases bs.len(),
{
    if bs.len() > 0 {
        lemma_hex_of_len(bs.drop_first());
    }
}

/// Relies on sha2's Sha256: a 32-byte digest that depends on the input bytes
/// alone.
#[verifier::external_body]
fn sha256_digest(data: &[u8]) -> (r: Vec<u8>)
    ensures
        r@ == sha256_of(data@),
        r@.len() == 32,
{
    let mut hasher = Sha256::new();
    hasher.update(data);
    hasher.finalize().to_vec()
}

/// Relies on blake3's hash: a 32-byte digest that depends on the input bytes
/// alone.
#[verifier::external_body]
pub(crate) fn blake3_digest(data: &[u8]) -> (r: Vec<u8>)
    ensures
        r@ == blake3_of(data@),
        r@.len() == 32,
{
    blake3::hash(data).as_bytes().to_vec()
}

/// Relies on hex::encode: lowercase hex, two digits per byte, high nibble
/// first.
#[verifier::external_body]
pub(crate) fn hex_encode(data: &[u8]) -> (r: String)
    ensures
        r@ == hex_of(data@),
{
    hex::encode(data)
}

/// Relies on rand's thread_rng: fills twelve bytes with random data; nothing
/// is promised of their values.
#[verifier::external_body]
fn random_nonce() -> (r: Vec<u8>)
    ensures
        r@.len() == 12,
{
    let mut bytes = [0u8; 12];
    rand::Rng::fill(&mut rand::thread_rng(), &mut bytes[..]);
    bytes.to_vec()
}

/// Relies on chacha20poly1305's encrypt: deterministic in key, nonce and
/// plaintext, yielding the ciphertext with the sixteen-byte tag appended; it
/// fails only when the plaintext reaches the block-counter bound.
#[verifier::external_body]
fn aead_encrypt(key: &[u8], nonce: &[u8], pt: &[u8]) -> (r: Result<Vec<u8>, ()>)
    requires
        key@.len() == 32,
        nonce@.len() == 12,
    ensures
        r matches Ok(ct) ==> (ct@ == aead_seal(key@, nonce@, pt@) && ct@.len() == pt@.len() + 16),
        pt@.len() < MAX_SEAL_LEN ==> r is Ok,
{
    let cipher = ChaCha20Poly1305::new(Key::from_slice(key));
    cipher.encrypt(Nonce::from_slice(nonce), pt).map_err(|_| ())
}

/// Relies on chacha20poly1305's decrypt: the inverse of encrypt under the
/// same key and nonce, yielding exactly the plaintext a ciphertext was
/// sealed from and refusing every other input.
#[verifier::external_body]
fn aead_decrypt(key: &[u8], nonce: &[u8], ct: &[u8]) -> (r: Result<Vec<u8>, ()>)
    requires
        key@.len() == 32,
        nonce@.len() == 12,
    ensures
        r matches Ok(pt) ==> (ct@ == aead_seal(key@, nonce@, pt@) && ct@.len() == pt@.len() + 16),
        r matches Ok(p) ==> (forall|pt: Seq<u8>| ct@ == aead_seal(key@, nonce@, pt) ==> p@ == pt),
        (exists|pt: Seq<u8>|
            ct@ == aead_seal(key@, nonce@, pt) && pt.len() < MAX_SEAL_LEN) ==> r is Ok,
{
    let cipher = ChaCha20Poly1305::new(Key::from_slice(key));
    cipher.decrypt(Nonce::from_slice(nonce), ct).map_err(|_| ())
}

/// Copies the bytes of `data` between two positions into a fresh vector.
fn copy_range(data: &[u8], from: usize, to: usize) -> (r: Vec<u8>)
    requires
        from <= to <= data@.len(),
    ensures
        r@ == data@.subrange(from as int, to as int),
{
    let len = data.len();
    let mut out: Vec<u8> = Vec::new();
    let mut i: usize = from;
    while i < to
        invariant
            from <= i <= to <= len,
            len == data@.len(),
            out@ == data@.subrange(from as int, i as int),
        decreases to - i,
    {
        out.push(data[i]);
        proof {
            assert(data@.subrange(from as int, i as int + 1) =~= data@.subrange(
                from as int,
                i as int,
            ).push(data@[i as int]));
        }
        i += 1;
    }
    out
}

/// A frame is the sealing of `pt` under `key`: twelve nonce bytes, then the
/// ciphertext and tag produced under exactly that nonce.
pub open spec fn sealed_frame(key: Seq<u8>, frame: Seq<u8>, pt: Seq<u8>) -> bool {
    &&& frame.len() == pt.len() + 28
    &&& frame.subrange(12, frame.len() as int) == aead_seal(key, frame.subrange(0, 12), pt)
}

/// The authenticated channel: seals and opens protocol messages under a key
/// digested from the shared secret.
pub struct Cipher {
    pub key: Vec<u8>,
}

impl Cipher {
    /// The cipher key has the length the cipher demands.
    pub open spec fn wf(self) -> bool {
        self.key@.len() == 32
    }

    /// Binds the channel to a shared secret, digesting it down to the
    /// cipher's fixed key length.
    pub fn new(secret: &[u8]) -> (r: Result<Cipher, TransferError>)
        ensures
            r matches Ok(c) && c.wf() && c.key@ == sha256_of(secret@),
    {
        Ok(Cipher { key: sha256_digest(secret) })
    }

    /// Binds the channel to a password directly, digesting it down to the
    /// cipher's fixed key length.
    pub fn from_password(password: &str) -> (r: Result<Cipher, TransferError>)
        ensures
            r matches Ok(c) && c.wf() && c.key@ == sha256_of(password.spec_bytes()),
    {
        Ok(Cipher { key: sha256_digest(password.as_bytes()) })
    }

    /// Seals one message: a fresh random nonce, then the ciphertext and tag.
    /// Every frame this returns is the sealing of `data` under this key, so
    /// `decrypt` on it yields `data` back; any message below the cipher's
    /// block-counter bound is owed a frame.
    pub fn encrypt(&self, data: &[u8]) -> (r: Result<Vec<u8>, TransferError>)
        requires
            self.wf(),
        ensures
            r matches Ok(f) ==> sealed_frame(self.key@, f@, data@),
            data@.len() < MAX_SEAL_LEN ==> r is Ok,
            r matches Err(e) ==> e is AuthFailure,
    {
        let nonce = random_nonce();
        match aead_encrypt(self.key.as_slice(), nonce.as_slice(), data) {
            Ok(mut ct) => {
                let ghost nonce_view = nonce@;
                let ghost ct_view = ct@;
                let mut out = nonce;
                out.append(&mut ct);
                proof {
                    assert(out@.subrange(0, 12) =~= nonce_view);
                    assert(out@.subrange(12, out@.len() as int) =~= ct_view);
                }
                Ok(out)
            },
            Err(_) => Err(TransferError::AuthFailure),
        }
    }

    /// Opens a sealed frame: yields exactly the plaintext the frame was
    /// sealed from under this key, and fails on everything else — a flipped
    /// bit, a truncation, a reordering, or a frame sealed under another
    /// secret, which are indistinguishable by design.
    pub fn decrypt(&self, data: &[u8]) -> (r: Result<Vec<u8>, TransferError>)
        requires
            self.wf(),
        ensures
            r matches Ok(pt) ==> sealed_frame(self.key@, data@, pt@),
            forall|pt: Seq<u8>|
                sealed_frame(self.key@, data@, pt) && pt.len() < MAX_SEAL_LEN ==> (r matches Ok(p)
                    && p@ == pt),
            r matches Err(e) ==> e is AuthFailure,
            data@.len() < 12 ==> r is Err,
    {
        let n = data.len();
        if n < NONCE_SIZE {
            proof {
                assert forall|pt: Seq<u8>| !sealed_frame(self.key@, data@, pt) by {}
            }
            return Err(TransferError::AuthFailure);
        }
        let ghost key_view = self.key@;
        let nonce = copy_range(data, 0, NONCE_SIZE);
        let ct = copy_range(data, NONCE_SIZE, n);
        match aead_decrypt(self.key.as_slice(), nonce.as_slice(), ct.as_slice()) {
            Ok(pt) => {
                proof {
                    assert(data@.subrange(12, data@.len() as int) == ct@);
                    assert(data@.subrange(0, 12) == nonce@);
                    assert forall|p2: Seq<u8>|
                        sealed_frame(self.key@, data@, p2) implies pt@ == p2 by {
                        assert(ct@ == aead_seal(self.key@, nonce@, p2));
                    }
                }
                Ok(pt)
            },
            Err(_) => {
                proof {
                    assert forall|p2: Seq<u8>|
                        !(sealed_frame(key_view, data@, p2) && p2.len() < MAX_SEAL_LEN) by {
                        if sealed_frame(key_view, data@, p2) && p2.len() < MAX_SEAL_LEN {
                            assert(ct@ == aead_seal(key_view, nonce@, p2));
                        }
                    }
                }
                Err(TransferError::AuthFailure)
            },
        }
    }
}

/// SHA-256 of `data`, as 64 lowercase hex digits.
pub fn checksum(data: &[u8]) -> (r: String)
    ensures
        r@ == hex_of(sha256_of(data@)),
        r@.len() == 64,
{
    let digest = sha256_digest(data);
    let r = hex_encode(digest.as_slice());
    proof {
        lemma_hex_of_len(sha256_of(data@));
    }
    r
}

/// Holds spake2's in-progress exchange state, which Verus cannot look into:
/// the generic bounds of `spake2::Spake2` put its declaration out of reach,
/// so the state travels opaquely from start to finish.
#[verifier::external_body]
pub struct Spake2State {
    inner: spake2::Spake2<spake2::Ed25519Group>,
}

/// Relies on spake2's start_a: begins the password-authenticated exchange
/// under the sender identity; the outbound message is one side byte and a
/// 32-byte group element.
#[verifier::external_body]
fn spake2_start_sender(code: &str) -> (r: (Spake2State, Vec<u8>))
    ensures
        r.1@.len() == 33,
{
    let (state, outbound) = spake2::Spake2::<spake2::Ed25519Group>::start_a(
        &spake2::Password::new(code.as_bytes()),
        &spake2::Identity::new(b"zap-sender"),
        &spake2::Identity::new(b"zap-receiver"),
    );
    (Spake2State { inner: state }, outbound)
}

/// Relies on spake2's start_b: begins the password-authenticated exchange
/// under the receiver identity; the outbound message is one side byte and a
/// 32-byte group element.
#[verifier::external_body]
fn spake2_start_receiver(code: &str) -> (r: (Spake2State, Vec<u8>))
    ensures
        r.1@.len() == 33,
{
    let (state, outbound) = spake2::Spake2::<spake2::Ed25519Group>::start_b(
        &spake2::Password::new(code.as_bytes()),
        &spake2::Identity::new(b"zap-sender"),
        &spake2::Identity::new(b"zap-receiver"),
    );
    (Spake2State { inner: state }, outbound)
}

/// Relies on spake2's finish: consumes the peer's payload and derives the
/// 32-byte shared key; a payload that is not one side byte and a 32-byte
/// group element is refused.
#[verifier::external_body]
fn spake2_finish(state: Spake2State, peer: &[u8]) -> (r: Result<Vec<u8>, ()>)
    ensures
        r matches Ok(k) ==> k@.len() == 32,
        peer@.len() != 33 ==> r is Err,
{
    match state.inner.finish(peer) {
        Ok(k) => Ok(k),
        Err(_) => Err(()),
    }
}

/// Derives a shared secret from the transfer code by a password-authenticated
/// key exchange: both sides must know the code to converge on one secret, an
/// eavesdropper cannot test code guesses offline, and the per-role identities
/// keep a peer's own message from being replayed back at it. A code mismatch
/// is never revealed here — the secrets silently diverge and the first
/// authentication failure downstream reports it.
pub struct KeyExchange {
    state: Spake2State,
    outbound: Vec<u8>,
}

impl KeyExchange {
    /// The stored outbound payload: one side byte and a group element.
    pub closed spec fn outbound_view(self) -> Seq<u8> {
        self.outbound@
    }

    /// Begins the exchange for the sender role.
    pub fn new_sender(code: &str) -> (r: KeyExchange)
        ensures
            r.outbound_view().len() == 33,
    {
        let (state, outbound) = spake2_start_sender(code);
        KeyExchange { state, outbound }
    }

    /// Begins the exchange for the receiver role.
    pub fn new_receiver(code: &str) -> (r: KeyExchange)
        ensures
            r.outbound_view().len() == 33,
    {
        let (state, outbound) = spake2_start_receiver(code);
        KeyExchange { state, outbound }
    }

    /// The payload to hand to the peer.
    pub fn outbound_message(&self) -> (r: Vec<u8>)
        ensures
            r@ == self.outbound_view(),
    {
        let r = copy_range(self.outbound.as_slice(), 0, self.outbound.len());
        proof {
            assert(self.outbound@.subrange(0, self.outbound@.len() as int) =~= self.outbound@);
        }
        r
    }

    /// Completes the exchange with the peer's payload, yielding the 32-byte
    /// shared secret; a malformed payload fails the exchange.
    pub fn finish(self, peer_message: &[u8]) -> (r: Result<Vec<u8>, TransferError>)
        ensures
            r matches Ok(k) ==> k@.len() == 32,
            r matches Err(e) ==> e is KeyExchangeFailed,
            peer_message@.len() != 33 ==> r is Err,
    {
        let KeyExchange { state, outbound: _ } = self;
        match spake2_finish(state, peer_message) {
            Ok(k) => Ok(k),
            Err(_) => Err(TransferError::KeyExchangeFailed),
        }
    }
}

} // verus!
