use nimbus_rendezvous::compress::{compress, decompress};
use nimbus_rendezvous::encrypt::{Encrypt, EncryptError};
use sodiumoxide::crypto::{box_, secretbox};

#[test]
fn handshake_decode_ok() {
    sodiumoxide::init().unwrap();
    let (sender_pk, sender_sk) = box_::gen_keypair();
    let (receiver_pk, receiver_sk) = box_::gen_keypair();
    let session_key = secretbox::gen_key();
    let sealed = box_::seal(
        &session_key.0,
        &box_::Nonce([0u8; box_::NONCEBYTES]),
        &receiver_pk,
        &sender_sk,
    );
    let got = Encrypt::decode(&sealed, &sender_pk.0.to_vec(), &receiver_sk.0.to_vec())
        .expect("handshake decodes");
    assert_eq!(got, session_key.0.to_vec());
}

/// A public key of the wrong length fails with a handshake error, not a
/// panic.
#[test]
fn handshake_wrong_pk_length() {
    sodiumoxide::init().unwrap();
    let (_, receiver_sk) = box_::gen_keypair();
    let r = Encrypt::decode(&vec![1, 2, 3], &vec![0u8; 31], &receiver_sk.0.to_vec());
    assert_eq!(r.unwrap_err(), EncryptError::HandshakePkLength);
    let r = Encrypt::decode(&vec![1, 2, 3], &vec![0u8; 33], &receiver_sk.0.to_vec());
    assert_eq!(r.unwrap_err(), EncryptError::HandshakePkLength);
}

#[test]
fn handshake_box_open_failure() {
    sodiumoxide::init().unwrap();
    let (sender_pk, sender_sk) = box_::gen_keypair();
    let (receiver_pk, receiver_sk) = box_::gen_keypair();
    let mut sealed = box_::seal(
        &secretbox::gen_key().0,
        &box_::Nonce([0u8; box_::NONCEBYTES]),
        &receiver_pk,
        &sender_sk,
    );
    sealed[0] ^= 0xff;
    let r = Encrypt::decode(&sealed, &sender_pk.0.to_vec(), &receiver_sk.0.to_vec());
    assert_eq!(r.unwrap_err(), EncryptError::HandshakeBoxOpen);
}

#[test]
fn handshake_wrong_key_length() {
    sodiumoxide::init().unwrap();
    let (sender_pk, sender_sk) = box_::gen_keypair();
    let (receiver_pk, receiver_sk) = box_::gen_keypair();
    let sealed = box_::seal(
        &[7u8; 16],
        &box_::Nonce([0u8; box_::NONCEBYTES]),
        &receiver_pk,
        &sender_sk,
    );
    let r = Encrypt::decode(&sealed, &sender_pk.0.to_vec(), &receiver_sk.0.to_vec());
    assert_eq!(r.unwrap_err(), EncryptError::HandshakeKeyLength);
}

/// Sealing then opening 1,000 sequential messages with strictly
/// incrementing counters always succeeds.
#[test]
fn thousand_sequential_messages() {
    sodiumoxide::init().unwrap();
    let key = secretbox::gen_key().0.to_vec();
    let mut sender = Encrypt::new(key.clone());
    let mut receiver = Encrypt::new(key);
    for i in 0..1000u32 {
        let msg: Vec<u8> = format!("message number {}", i).into_bytes();
        let mut wire = sender.encrypt(&msg);
        assert_ne!(wire, msg, "ciphertext must differ from the message");
        receiver.decrypt(&mut wire).expect("in-order message opens");
        assert_eq!(wire, msg);
    }
}

/// Replaying a previously used ciphertext against a receiver whose counter
/// has advanced past it fails to open.
#[test]
fn replay_fails() {
    sodiumoxide::init().unwrap();
    let key = secretbox::gen_key().0.to_vec();
    let mut sender = Encrypt::new(key.clone());
    let mut receiver = Encrypt::new(key);

    let first = sender.encrypt(&b"first".to_vec());
    let mut wire = first.clone();
    receiver.decrypt(&mut wire).unwrap();

    let mut second = sender.encrypt(&b"second".to_vec());
    receiver.decrypt(&mut second).unwrap();

    // The receiver's counter is now past the first message's sequence.
    let mut replayed = first;
    let before = replayed.clone();
    assert_eq!(
        receiver.decrypt(&mut replayed).unwrap_err(),
        EncryptError::Decryption
    );
    assert_eq!(replayed, before, "a failed open leaves the buffer as it was");
}

/// Compressing and decompressing through the real codec reproduces the
/// input; both wrappers really transform their argument.
#[test]
fn compress_round_trip() {
    let data: Vec<u8> = b"the quick brown fox jumps over the lazy dog, twice over: the quick brown fox jumps over the lazy dog".to_vec();
    let packed = compress(&data);
    assert!(!packed.is_empty());
    assert_ne!(packed, data);
    let unpacked = decompress(&packed);
    assert_eq!(unpacked, data);
}

/// Bytes that are no zstd block decompress to the empty stand-in.
#[test]
fn decompress_garbage_is_empty() {
    let garbage: Vec<u8> = vec![0x13, 0x37, 0x42, 0x99];
    assert!(decompress(&garbage).is_empty());
}
