use signal_session::address::{ProtocolAddress, SenderKeyName};
use signal_session::bundle::{PreKeyBundle, PreKeyRecord, SignedPreKeyRecord};
use signal_session::certificate::{SenderCertificate, ServerCertificate};
use signal_session::curve::{KeyPair, PrivateKey, PublicKey};
use signal_session::error::SignalProtocolError;
use signal_session::identity::IdentityKeyPair;
use signal_session::pre_key_message::PreKeySignalMessage;
use signal_session::sender_key::{
    SenderKeyMessage, SenderKeyRecord, SenderKeyState, MAX_SENDER_KEY_STATES,
};
use signal_session::ratchet::ChainKey;
use signal_session::session::{
    alice_parameters_for_bundle, bob_parameters_for_message, initialize_alice_session_record,
    initialize_bob_session_record,
};
use signal_session::signature::{calculate_signature, calculate_signature_with, verify_signature};

fn pair(seed: u8) -> KeyPair {
    KeyPair::from_private(PrivateKey::from_bytes([seed; 32]))
}

#[test]
fn signatures_verify_under_the_signer_only() {
    for seed in 1u8..=12 {
        let signer = pair(seed);
        let signature = calculate_signature(&signer.private_key, b"message").unwrap();
        assert_eq!(verify_signature(&signer.public_key, b"message", &signature), Ok(true));
        assert_eq!(verify_signature(&signer.public_key, b"messagf", &signature), Ok(false));
        assert_eq!(
            verify_signature(&pair(seed + 100).public_key, b"message", &signature),
            Ok(false)
        );
        let again = calculate_signature(&signer.private_key, b"message").unwrap();
        assert_ne!(signature, again);
        assert_eq!(verify_signature(&signer.public_key, b"message", &again), Ok(true));
    }
}

#[test]
fn signature_is_a_function_of_key_message_and_randomness() {
    let signer = pair(7);
    let one = calculate_signature_with(&signer.private_key, b"m", &[1u8; 64]);
    let same = calculate_signature_with(&signer.private_key, b"m", &[1u8; 64]);
    let other = calculate_signature_with(&signer.private_key, b"m", &[2u8; 64]);
    assert_eq!(one, same);
    assert_ne!(one, other);
    assert_eq!(verify_signature(&signer.public_key, b"m", &one), Ok(true));
    assert_eq!(verify_signature(&signer.public_key, b"m", &other), Ok(true));
}

#[test]
fn every_tampered_byte_fails() {
    let signer = pair(21);
    let signature = calculate_signature(&signer.private_key, b"certificate").unwrap();
    for i in 0..64 {
        let mut bad = signature;
        bad[i] ^= 1;
        assert_eq!(verify_signature(&signer.public_key, b"certificate", &bad), Ok(false));
    }
}

#[test]
fn malformed_signature_length_is_an_error() {
    let signer = pair(3);
    assert_eq!(
        verify_signature(&signer.public_key, b"m", &[0u8; 63]),
        Err(SignalProtocolError::InvalidArgument)
    );
    assert_eq!(
        verify_signature(&signer.public_key, b"m", &[0u8; 65]),
        Err(SignalProtocolError::InvalidArgument)
    );
    assert_eq!(verify_signature(&signer.public_key, b"m", &[0u8; 64]), Ok(false));
    assert_eq!(verify_signature(&signer.public_key, b"m", &[0xffu8; 64]), Ok(false));
}

#[test]
fn certificate_chain_validates() {
    let trust_root = pair(30);
    let server = pair(31);
    let sender = pair(32);
    let server_certificate =
        ServerCertificate::sign(9, server.public_key, &trust_root.private_key).unwrap();
    assert!(server_certificate.validate(&trust_root.public_key));
    assert!(!server_certificate.validate(&server.public_key));
    let server_parts =
        (server_certificate.key_id(), server_certificate.public_key(), server_certificate.signature().clone());
    let certificate = SenderCertificate::sign(
        b"9d0652a3-dcc3-4d11-975f-74d61598733f",
        Some(b"+14152222222"),
        sender.public_key,
        1,
        1000,
        server_certificate,
        &server.private_key,
    )
    .unwrap();
    assert_eq!(certificate.validate(&trust_root.public_key, 999), Ok(()));
    assert_eq!(certificate.validate(&trust_root.public_key, 0), Ok(()));
    assert_eq!(
        certificate.validate(&trust_root.public_key, 1000),
        Err(SignalProtocolError::SignatureVerificationFailed)
    );
    assert_eq!(
        certificate.validate(&trust_root.public_key, 1001),
        Err(SignalProtocolError::SignatureVerificationFailed)
    );
    assert_eq!(
        certificate.validate(&server.public_key, 999),
        Err(SignalProtocolError::SignatureVerificationFailed)
    );

    for i in 0..64 {
        let mut tampered = server_parts.2.clone();
        tampered[i] ^= 0x40;
        let bad_server = ServerCertificate::new(server_parts.0, server_parts.1, &tampered).unwrap();
        assert!(!bad_server.validate(&trust_root.public_key));
        let chained = SenderCertificate::sign(
            b"uuid",
            None,
            sender.public_key,
            1,
            1000,
            bad_server,
            &server.private_key,
        )
        .unwrap();
        assert_eq!(
            chained.validate(&trust_root.public_key, 999),
            Err(SignalProtocolError::SignatureVerificationFailed)
        );
    }
    let wrong_signer = SenderCertificate::sign(
        b"uuid",
        None,
        sender.public_key,
        1,
        1000,
        ServerCertificate::sign(9, server.public_key, &trust_root.private_key).unwrap(),
        &sender.private_key,
    )
    .unwrap();
    assert_eq!(
        wrong_signer.validate(&trust_root.public_key, 999),
        Err(SignalProtocolError::SignatureVerificationFailed)
    );
}

#[test]
fn group_message_signature() {
    let signing = pair(40);
    let message = SenderKeyMessage::sign(1, 2, b"group ciphertext", &signing.private_key).unwrap();
    assert!(message.verify_signature(&signing.public_key));
    assert!(!message.verify_signature(&pair(41).public_key));
    let back = SenderKeyMessage::deserialize(message.serialized()).unwrap();
    assert!(back.verify_signature(&signing.public_key));
    let mut wire = message.serialized().clone();
    wire[8] ^= 1;
    let changed = SenderKeyMessage::deserialize(&wire).unwrap();
    assert!(!changed.verify_signature(&signing.public_key));
    let forged = SenderKeyMessage::new(1, 2, b"group ciphertext", &[0u8; 64]).unwrap();
    assert!(!forged.verify_signature(&signing.public_key));
}

#[test]
fn session_from_a_published_bundle() {
    let bob_identity = pair(50);
    let bob_signed = pair(51);
    let bob_one_time = pair(52);
    let signature =
        calculate_signature(&bob_identity.private_key, &bob_signed.public_key.serialize()).unwrap();
    let bundle = PreKeyBundle::new(
        11,
        1,
        Some(31337),
        Some(bob_one_time.public_key),
        22,
        bob_signed.public_key,
        &signature,
        bob_identity.public_key,
    )
    .unwrap();
    let alice_identity = pair(53);
    let alice_base = pair(54);
    let alice = alice_parameters_for_bundle(alice_identity, alice_base, &bundle).unwrap();
    assert_eq!(alice.their_ratchet_key, bob_signed.public_key);
    assert_eq!(alice.their_one_time_pre_key, Some(bob_one_time.public_key));
    let mut alice_record = initialize_alice_session_record(&alice);
    let first = alice_record.encrypt(b"hello", &pair(55)).unwrap();
    let wire = PreKeySignalMessage::new(
        3,
        5,
        bundle.pre_key_id(),
        bundle.signed_pre_key_id,
        alice_base.public_key,
        alice_identity.public_key,
        first,
    )
    .unwrap()
    .serialized()
    .clone();

    let received = PreKeySignalMessage::deserialize(&wire).unwrap();
    assert_eq!(
        bob_parameters_for_message(bob_identity, bob_signed, None, bob_signed, &received).map(|_| ()),
        Err(SignalProtocolError::InvalidArgument)
    );
    let bob =
        bob_parameters_for_message(bob_identity, bob_signed, Some(bob_one_time), bob_signed, &received)
            .unwrap();
    let mut bob_record = initialize_bob_session_record(&bob);
    assert_eq!(bob_record.decrypt(received.message()).unwrap(), b"hello");
    assert_eq!(
        bob_record.get_receiver_chain_key(&alice_base.public_key).map(|k| k.is_some()),
        Ok(true)
    );
    assert_eq!(bob_record.get_receiver_chain_key(&bob_signed.public_key), Ok(None));
    assert_eq!(bob_record.current_state().unwrap().remote_identity_key, alice_identity.public_key);

    let mut bad = signature;
    bad[10] ^= 1;
    let forged = PreKeyBundle::new(
        11,
        1,
        None,
        None,
        22,
        bob_signed.public_key,
        &bad,
        bob_identity.public_key,
    )
    .unwrap();
    assert_eq!(
        alice_parameters_for_bundle(alice_identity, alice_base, &forged).map(|_| ()),
        Err(SignalProtocolError::SignatureVerificationFailed)
    );
    let short = PreKeyBundle::new(11, 1, None, None, 22, bob_signed.public_key, b"sig", bob_identity.public_key)
        .unwrap();
    assert_eq!(
        alice_parameters_for_bundle(alice_identity, alice_base, &short).map(|_| ()),
        Err(SignalProtocolError::SignatureVerificationFailed)
    );
}

#[test]
fn identity_key_pair_storage() {
    let keys = pair(60);
    let identity = IdentityKeyPair::new(keys.public_key, keys.private_key);
    let bytes = identity.serialize();
    assert_eq!(bytes.len(), 2 * (2 + 33));
    assert_eq!(&bytes[..3], &[10, 33, 5]);
    assert_eq!(&bytes[35..38], &[18, 33, 5]);
    assert_eq!(IdentityKeyPair::deserialize(&bytes), Ok(identity));
    assert_eq!(identity.key_pair(), keys);
    assert_eq!(
        IdentityKeyPair::deserialize(&bytes[..bytes.len() - 1]),
        Err(SignalProtocolError::InvalidKey)
    );
    assert_eq!(IdentityKeyPair::deserialize(&[]), Err(SignalProtocolError::InvalidKey));
}

#[test]
fn addresses_and_records() {
    let address = ProtocolAddress::new("+14151111111".to_string(), 3);
    assert_eq!(address.name(), "+14151111111");
    assert_eq!(address.device_id(), 3);
    let name = SenderKeyName::new("group".to_string(), "+14151111111".to_string(), 3);
    assert_eq!(name.group_id(), "group");
    assert_eq!(name.sender_name(), "+14151111111");
    assert_eq!(name.sender_device_id(), 3);
    assert_eq!(name.sender, address);

    let keys = pair(61);
    let record = PreKeyRecord::new(7, keys);
    assert_eq!((record.id, record.key_pair), (7, keys));
    let signed = SignedPreKeyRecord::new(8, 1234567, keys, b"signature");
    assert_eq!((signed.id, signed.timestamp, signed.key_pair), (8, 1234567, keys));
    assert_eq!(signed.signature, b"signature");

    let mut states = SenderKeyRecord::new_empty();
    assert!(states.is_empty());
    assert_eq!(states.state_for_key_id(1), None);
    for id in 0..(MAX_SENDER_KEY_STATES as u32 + 2) {
        states.add_state(SenderKeyState {
            key_id: id % 4,
            chain_key: ChainKey::new([id as u8; 32], id),
            signing_key: PublicKey::from_bytes([1u8; 32]),
        });
    }
    assert_eq!(states.len(), MAX_SENDER_KEY_STATES);
    assert_eq!(states.state_for_key_id(2).unwrap().chain_key.index, 6);
    assert_eq!(states.state_for_key_id(1).unwrap().chain_key.index, 5);
    assert_eq!(states.state_for_key_id(0).unwrap().chain_key.index, 4);
    assert_eq!(states.state_for_key_id(3).unwrap().chain_key.index, 3);
    assert_eq!(states.state_for_key_id(9), None);
}
