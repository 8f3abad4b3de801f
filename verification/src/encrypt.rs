//! The authenticated-encryption layer above the codec.
//!
//! A handshake delivers a fresh symmetric session key under the requester's
//! public key (a one-shot sealed box under an all-zero nonce, never replayed
//! with the same key pair). Afterwards each direction seals every message
//! under its own strictly increasing counter, zero-padded into the nonce:
//! the counter, not the clock, is the nonce source, and no counter value is
//! ever reused with the same key.

use sodiumoxide::crypto::box_;
use vstd::prelude::*;

use crate::bytes_codec::pow256;

verus! {

/// Bytes of a symmetric session key.
pub const SESSION_KEY_BYTES: usize = 32;

/// Bytes of a Curve25519 public key.
pub const HANDSHAKE_PK_BYTES: usize = 32;

/// Bytes of a stream-cipher nonce.
pub const NONCE_BYTES: usize = 24;

#[derive(Debug, Clone, Copy, PartialEq, Eq, Structural)]
pub enum EncryptError {
    /// The presented public key has the wrong length.
    HandshakePkLength,
    /// The sealed handshake payload failed to open.
    HandshakeBoxOpen,
    /// The delivered session key has the wrong length.
    HandshakeKeyLength,
    /// A sealed message failed to open: replay or corruption, dropped.
    Decryption,
}

/// The nonce derived from a sequence number: its eight little-endian bytes,
/// zero-padded to the nonce width.
pub open spec fn nonce_spec(seq: u64) -> Seq<u8> {
    Seq::new(
        NONCE_BYTES as nat,
        |i: int|
            if i < 8 {
                (seq as nat / pow256(i as nat) % 256) as u8
            } else {
                0u8
            },
    )
}

/// Distinct values below `256^k` with the same `k` little-endian bytes are
/// the same value.
proof fn lemma_bytes_determine(a: nat, b: nat, k: nat)
    requires
        a < pow256(k),
        b < pow256(k),
        forall|i: nat| i < k ==> (a / #[trigger] pow256(i)) % 256 == (b / pow256(i)) % 256,
    ensures
        a == b,
    decreases k,
{
    if k == 0 {
    } else {
        assert(pow256(0) == 1);
        assert((a / pow256(0)) % 256 == (b / pow256(0)) % 256);
        vstd::arithmetic::div_mod::lemma_div_basics(a as int);
        vstd::arithmetic::div_mod::lemma_div_basics(b as int);
        assert(a % 256 == b % 256);
        let a2 = a / 256;
        let b2 = b / 256;
        assert(pow256(k) == 256 * pow256((k - 1) as nat));
        crate::bytes_codec::lemma_pow256_pos((k - 1) as nat);
        vstd::arithmetic::div_mod::lemma_multiply_divide_lt(
            a as int,
            256,
            pow256((k - 1) as nat) as int,
        );
        vstd::arithmetic::div_mod::lemma_multiply_divide_lt(
            b as int,
            256,
            pow256((k - 1) as nat) as int,
        );
        assert forall|i: nat| i < k - 1 implies (a2 / #[trigger] pow256(i)) % 256 == (b2 / pow256(
            i,
        )) % 256 by {
            crate::bytes_codec::lemma_pow256_pos(i);
            assert(pow256((i + 1) as nat) == 256 * pow256(i));
            vstd::arithmetic::div_mod::lemma_div_denominator(a as int, 256, pow256(i) as int);
            vstd::arithmetic::div_mod::lemma_div_denominator(b as int, 256, pow256(i) as int);
            assert((a / pow256((i + 1) as nat)) % 256 == (b / pow256((i + 1) as nat)) % 256);
        }
        lemma_bytes_determine(a2, b2, (k - 1) as nat);
        vstd::arithmetic::div_mod::lemma_fundamental_div_mod(a as int, 256);
        vstd::arithmetic::div_mod::lemma_fundamental_div_mod(b as int, 256);
    }
}

/// No nonce is ever reused under one key: distinct sequence numbers derive
/// distinct nonces, which the stream cipher's confidentiality rests on.
pub proof fn lemma_nonce_unique(a: u64, b: u64)
    requires
        nonce_spec(a) == nonce_spec(b),
    ensures
        a == b,
{
    reveal_with_fuel(pow256, 10);
    assert(pow256(8) == 0x1_0000_0000_0000_0000);
    assert forall|i: nat| i < 8 implies (a as nat / #[trigger] pow256(i)) % 256 == (b as nat
        / pow256(i)) % 256 by {
        let x = (a as nat / pow256(i)) % 256;
        let y = (b as nat / pow256(i)) % 256;
        assert(nonce_spec(a)[i as int] == (x as u8));
        assert(nonce_spec(b)[i as int] == (y as u8));
        assert(nonce_spec(a)[i as int] == nonce_spec(b)[i as int]);
        assert(x < 256 && y < 256);
        assert((x as u8) as nat == x);
        assert((y as u8) as nat == y);
    }
    lemma_bytes_determine(a as nat, b as nat, 8);
}

/// What `secretbox::seal` emits for a message under a nonce and key: a
/// function of the three alone.
pub uninterp spec fn sealed_of(m: Seq<u8>, nonce: Seq<u8>, key: Seq<u8>) -> Seq<u8>;

/// What a sealed box under an all-zero nonce opens to for a ciphertext,
/// public key and secret key: a function of the three alone, `None` where
/// verification fails.
pub uninterp spec fn box_opened_of(c: Seq<u8>, pk: Seq<u8>, sk: Seq<u8>) -> Option<Seq<u8>>;

/// Relies on `sodiumoxide::crypto::secretbox::seal`: deterministic in
/// message, nonce and key, and 16 bytes (the tag) longer than the message.
#[verifier::external_body]
fn secretbox_seal(m: &Vec<u8>, nonce: &Vec<u8>, key: &Vec<u8>) -> (r: Vec<u8>)
    requires
        nonce@.len() == NONCE_BYTES,
        key@.len() == SESSION_KEY_BYTES,
    ensures
        r@ == sealed_of(m@, nonce@, key@),
        r@.len() == m@.len() + 16,
{
    let mut n = [0u8; 24];
    n.copy_from_slice(nonce.as_slice());
    let mut k = [0u8; 32];
    k.copy_from_slice(key.as_slice());
    sodiumoxide::crypto::secretbox::seal(
        m.as_slice(),
        &sodiumoxide::crypto::secretbox::Nonce(n),
        &sodiumoxide::crypto::secretbox::Key(k),
    )
}

/// Relies on `sodiumoxide::crypto::secretbox::open`: a ciphertext sealed
/// under the same nonce and key opens to the sealed message, and whatever
/// opens is 16 bytes (the tag) shorter than the ciphertext.
#[verifier::external_body]
fn secretbox_open(c: &Vec<u8>, nonce: &Vec<u8>, key: &Vec<u8>) -> (r: Option<Vec<u8>>)
    requires
        nonce@.len() == NONCE_BYTES,
        key@.len() == SESSION_KEY_BYTES,
    ensures
        match r {
            Some(p) => p@.len() + 16 == c@.len() && (forall|m: Seq<u8>|
                c@ == #[trigger] sealed_of(m, nonce@, key@) ==> p@ == m),
            None => forall|m: Seq<u8>| c@ != #[trigger] sealed_of(m, nonce@, key@),
        },
{
    let mut n = [0u8; 24];
    n.copy_from_slice(nonce.as_slice());
    let mut k = [0u8; 32];
    k.copy_from_slice(key.as_slice());
    sodiumoxide::crypto::secretbox::open(
        c.as_slice(),
        &sodiumoxide::crypto::secretbox::Nonce(n),
        &sodiumoxide::crypto::secretbox::Key(k),
    ).ok()
}

/// Relies on `sodiumoxide::crypto::box_::open` with an all-zero nonce: what
/// it recovers depends on ciphertext and key pair alone; verification
/// failure yields nothing.
#[verifier::external_body]
fn box_open_zero_nonce(c: &Vec<u8>, their_pk: &Vec<u8>, our_sk: &Vec<u8>) -> (r: Option<Vec<u8>>)
    requires
        their_pk@.len() == HANDSHAKE_PK_BYTES,
        our_sk@.len() == 32,
    ensures
        r is Some <==> box_opened_of(c@, their_pk@, our_sk@) is Some,
        r matches Some(v) ==> box_opened_of(c@, their_pk@, our_sk@) == Some(v@),
{
    let mut pk = [0u8; 32];
    pk.copy_from_slice(their_pk.as_slice());
    let mut sk = [0u8; 32];
    sk.copy_from_slice(our_sk.as_slice());
    let nonce = box_::Nonce([0u8; 24]);
    box_::open(c.as_slice(), &nonce, &box_::PublicKey(pk), &box_::SecretKey(sk)).ok()
}

/// The symmetric stream-cipher context: the session key and one counter per
/// direction, both starting at zero and incremented before first use.
pub struct Encrypt {
    pub key: Vec<u8>,
    pub seq_send: u64,
    pub seq_recv: u64,
}

impl Encrypt {
    pub fn new(key: Vec<u8>) -> (r: Self)
        requires
            key@.len() == SESSION_KEY_BYTES,
        ensures
            r.key == key,
            r.seq_send == 0,
            r.seq_recv == 0,
    {
        Encrypt { key, seq_send: 0, seq_recv: 0 }
    }

    /// The nonce for sequence number `seq`: the counter's little-endian
    /// bytes in the low eight positions, zeroes above.
    pub fn get_nonce(seq: u64) -> (r: Vec<u8>)
        ensures
            r@ == nonce_spec(seq),
    {
        let mut r: Vec<u8> = Vec::new();
        let mut cur: u64 = seq;
        let mut i: usize = 0;
        proof {
            assert(pow256(0) == 1);
            vstd::arithmetic::div_mod::lemma_div_basics(seq as int);
        }
        while i < 8
            invariant
                i <= 8,
                r@.len() == i,
                cur as nat == seq as nat / pow256(i as nat),
                forall|j: int|
                    0 <= j < i ==> r@[j] == (seq as nat / pow256(j as nat) % 256) as u8,
            decreases 8 - i,
        {
            r.push((cur % 256) as u8);
            proof {
                crate::bytes_codec::lemma_pow256_pos(i as nat);
                assert(pow256((i + 1) as nat) == 256 * pow256(i as nat));
                vstd::arithmetic::div_mod::lemma_div_denominator(
                    seq as int,
                    pow256(i as nat) as int,
                    256,
                );
            }
            cur = cur / 256;
            i += 1;
        }
        while i < 24
            invariant
                8 <= i <= 24,
                r@.len() == i,
                forall|j: int|
                    0 <= j < 8 ==> r@[j] == (seq as nat / pow256(j as nat) % 256) as u8,
                forall|j: int| 8 <= j < i ==> r@[j] == 0u8,
            decreases 24 - i,
        {
            r.push(0);
            i += 1;
        }
        proof {
            assert(r@ =~= nonce_spec(seq));
        }
        r
    }

    /// Seals one outbound message under the next send-sequence nonce; the
    /// counter advances first, so the first message uses sequence one.
    pub fn encrypt(&mut self, data: &Vec<u8>) -> (r: Vec<u8>)
        requires
            old(self).key@.len() == SESSION_KEY_BYTES,
            old(self).seq_send < u64::MAX,
        ensures
            final(self).seq_send == old(self).seq_send + 1,
            final(self).seq_recv == old(self).seq_recv,
            final(self).key == old(self).key,
            r@ == sealed_of(data@, nonce_spec((old(self).seq_send + 1) as u64), old(self).key@),
            r@.len() == data@.len() + 16,
    {
        self.seq_send = self.seq_send + 1;
        let nonce = Self::get_nonce(self.seq_send);
        secretbox_seal(data, &nonce, &self.key)
    }

    /// Opens one inbound message under the next receive-sequence nonce: a
    /// ciphertext sealed under exactly that nonce and this key yields its
    /// message in place; anything else — a replay of an older sequence, or
    /// corruption — fails and leaves the buffer as it was. The counter
    /// advances either way.
    pub fn decrypt(&mut self, bytes: &mut Vec<u8>) -> (r: Result<(), EncryptError>)
        requires
            old(self).key@.len() == SESSION_KEY_BYTES,
            old(self).seq_recv < u64::MAX,
        ensures
            final(self).seq_recv == old(self).seq_recv + 1,
            final(self).seq_send == old(self).seq_send,
            final(self).key == old(self).key,
            forall|m: Seq<u8>|
                old(bytes)@ == #[trigger] sealed_of(
                    m,
                    nonce_spec((old(self).seq_recv + 1) as u64),
                    old(self).key@,
                ) ==> r is Ok && final(bytes)@ == m,
            r is Err ==> r == Err::<(), EncryptError>(EncryptError::Decryption) && final(bytes)@
                == old(bytes)@,
    {
        self.seq_recv = self.seq_recv + 1;
        let nonce = Self::get_nonce(self.seq_recv);
        match secretbox_open(bytes, &nonce, &self.key) {
            Some(plain) => {
                *bytes = plain;
                Ok(())
            },
            None => Err(EncryptError::Decryption),
        }
    }

    /// Decodes a handshake: the peer's public key must have exactly the
    /// expected length, the sealed payload must open under this side's
    /// secret key, and what it delivers must be exactly one session key.
    /// Each failure is its own handshake error; no input panics.
    pub fn decode(symmetric_data: &Vec<u8>, their_pk_b: &Vec<u8>, our_sk_b: &Vec<u8>) -> (r: Result<
        Vec<u8>,
        EncryptError,
    >)
        requires
            our_sk_b@.len() == 32,
        ensures
            their_pk_b@.len() != HANDSHAKE_PK_BYTES ==> r == Err::<Vec<u8>, EncryptError>(
                EncryptError::HandshakePkLength,
            ),
            their_pk_b@.len() == HANDSHAKE_PK_BYTES ==> (match box_opened_of(
                symmetric_data@,
                their_pk_b@,
                our_sk_b@,
            ) {
                None => r == Err::<Vec<u8>, EncryptError>(EncryptError::HandshakeBoxOpen),
                Some(k) => {
                    if k.len() != SESSION_KEY_BYTES {
                        r == Err::<Vec<u8>, EncryptError>(EncryptError::HandshakeKeyLength)
                    } else {
                        r matches Ok(v) && v@ == k
                    }
                },
            }),
    {
        if their_pk_b.len() != HANDSHAKE_PK_BYTES {
            return Err(EncryptError::HandshakePkLength);
        }
        match box_open_zero_nonce(symmetric_data, their_pk_b, our_sk_b) {
            None => Err(EncryptError::HandshakeBoxOpen),
            Some(symmetric_key) => {
                if symmetric_key.len() != SESSION_KEY_BYTES {
                    Err(EncryptError::HandshakeKeyLength)
                } else {
                    Ok(symmetric_key)
                }
            },
        }
    }
}

} // verus!
