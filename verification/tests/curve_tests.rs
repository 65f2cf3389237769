use signal_session::curve::{KeyPair, PrivateKey, PublicKey};
use signal_session::error::SignalProtocolError;

fn unhex(s: &str) -> Vec<u8> {
    let digits: Vec<u8> = s.bytes().map(|c| (c as char).to_digit(16).unwrap() as u8).collect();
    digits.chunks(2).map(|p| p[0] * 16 + p[1]).collect()
}

fn array(v: &[u8]) -> [u8; 32] {
    let mut a = [0u8; 32];
    a.copy_from_slice(v);
    a
}

#[test]
fn public_key_round_trip() {
    let key = PublicKey::from_bytes([7u8; 32]);
    let bytes = key.serialize();
    assert_eq!(bytes.len(), 33);
    assert_eq!(bytes[0], 5);
    assert_eq!(&bytes[1..], &[7u8; 32]);
    assert_eq!(PublicKey::deserialize(&bytes), Ok(key));
    assert_eq!(key.public_key_bytes(), [7u8; 32]);
}

#[test]
fn private_key_round_trip() {
    let key = PrivateKey::from_bytes([9u8; 32]);
    let bytes = key.serialize();
    assert_eq!(bytes.len(), 33);
    assert_eq!(bytes[0], 5);
    assert_eq!(PrivateKey::deserialize(&bytes), Ok(key));
}

#[test]
fn deserialize_refuses_bad_length_and_tag() {
    assert_eq!(PublicKey::deserialize(&[]), Err(SignalProtocolError::InvalidKey));
    assert_eq!(PublicKey::deserialize(&[5u8; 32]), Err(SignalProtocolError::InvalidKey));
    assert_eq!(PublicKey::deserialize(&[5u8; 34]), Err(SignalProtocolError::InvalidKey));
    let mut wrong_tag = vec![4u8];
    wrong_tag.extend_from_slice(&[1u8; 32]);
    assert_eq!(PublicKey::deserialize(&wrong_tag), Err(SignalProtocolError::InvalidKey));
    assert_eq!(PrivateKey::deserialize(&wrong_tag), Err(SignalProtocolError::InvalidKey));
    assert_eq!(PrivateKey::deserialize(&[5u8; 3]), Err(SignalProtocolError::InvalidKey));
}

#[test]
fn deserialize_at_reads_the_tail_of_a_buffer() {
    let key = PublicKey::from_bytes([3u8; 32]);
    let mut data = vec![0xaa, 0xbb];
    data.extend_from_slice(&key.serialize());
    assert_eq!(PublicKey::deserialize_at(&data, 2), Ok(key));
    assert_eq!(PublicKey::deserialize_at(&data, 2), PublicKey::deserialize(&data[2..]));
    for offset in [0u32, 1, 3, 34, 35] {
        assert_eq!(
            PublicKey::deserialize_at(&data, offset),
            PublicKey::deserialize(&data[offset as usize..])
        );
        assert_eq!(PublicKey::deserialize_at(&data, offset), Err(SignalProtocolError::InvalidKey));
    }
    assert_eq!(PublicKey::deserialize_at(&data, 36), Err(SignalProtocolError::InvalidKey));
    assert_eq!(PublicKey::deserialize_at(&data, u32::MAX), Err(SignalProtocolError::InvalidKey));
    assert_eq!(PublicKey::deserialize_at(&[], 0), Err(SignalProtocolError::InvalidKey));
    data.push(0xcc);
    assert_eq!(PublicKey::deserialize_at(&data, 2), Err(SignalProtocolError::InvalidKey));
    assert_eq!(PublicKey::deserialize_at(&[5u8; 34], 0), Err(SignalProtocolError::InvalidKey));
    assert_eq!(PublicKey::deserialize_at(&[5u8; 34], 1), Ok(PublicKey::from_bytes([5u8; 32])));
}

#[test]
fn compare_is_dictionary_order() {
    let mut low = [0u8; 32];
    let mut high = [0u8; 32];
    low[31] = 1;
    high[0] = 1;
    let low = PublicKey::from_bytes(low);
    let high = PublicKey::from_bytes(high);
    assert_eq!(low.compare(&high), -1);
    assert_eq!(high.compare(&low), 1);
    assert_eq!(low.compare(&low), 0);
    assert!(low.equals(&low));
    assert!(!low.equals(&high));
}

#[test]
fn public_key_of_a_private_key_matches_the_standard_vector() {
    let alice_private =
        unhex("77076d0a7318a57d3c16c17251b26645df4c2f87ebc0992ab177fba51db92c2a");
    let alice_public = unhex("8520f0098930a754748b7ddcb43ef75a0dbf3a0d26381af4eba4a98eaa9b4e6a");
    let bob_private = unhex("5dab087e624a8a4b79e17f8b83800ee66f3bb1292618b6fd1c2f8b27ff88e0eb");
    let bob_public = unhex("de9edb7d7b7dc1b4d35b61c2ece435373f8343c85b78674dadfc7e146f882b4f");
    let shared = unhex("4a5d9d5ba4ce2de1728e3bf480350f25e07e21c947d19e3376f09b3c1e161742");
    let a = PrivateKey::from_bytes(array(&alice_private));
    let b = PrivateKey::from_bytes(array(&bob_private));
    assert_eq!(a.public_key().public_key_bytes().to_vec(), alice_public);
    assert_eq!(b.public_key().public_key_bytes().to_vec(), bob_public);
    assert_eq!(a.calculate_agreement(&b.public_key()).to_vec(), shared);
    assert_eq!(b.calculate_agreement(&a.public_key()).to_vec(), shared);
}

#[test]
fn generated_pairs_agree() {
    let a = KeyPair::generate().unwrap();
    let b = KeyPair::generate().unwrap();
    assert_ne!(a.private_key, b.private_key);
    assert_eq!(a.public_key, a.private_key.public_key());
    assert_eq!(
        a.private_key.calculate_agreement(&b.public_key),
        b.private_key.calculate_agreement(&a.public_key)
    );
    let pair = KeyPair::new(a.public_key, a.private_key);
    assert_eq!(pair, a);
    assert_eq!(KeyPair::from_private(a.private_key), a);
}
