use signal_session::aead::Aes256GcmSiv;
use signal_session::bundle::PreKeyBundle;
use signal_session::certificate::{
    sender_certificate_bytes_to_sign, server_certificate_bytes_to_sign, SenderCertificate,
    ServerCertificate,
};
use signal_session::curve::PublicKey;
use signal_session::error::SignalProtocolError;
use signal_session::fingerprint::{scannable_fingerprint_compare, Fingerprint, ScannableFingerprint};
use signal_session::ratchet::ChainKey;
use signal_session::sealed_sender::UnidentifiedSenderMessageContent;
use signal_session::sender_key::{SenderKeyDistributionMessage, SenderKeyState, MAX_FORWARD_JUMPS};

fn key(seed: u8) -> PublicKey {
    PublicKey::from_bytes([seed; 32])
}

fn unhex(s: &str) -> Vec<u8> {
    let digits: Vec<u8> = s.bytes().map(|c| (c as char).to_digit(16).unwrap() as u8).collect();
    digits.chunks(2).map(|p| p[0] * 16 + p[1]).collect()
}

fn sender_certificate(expiration: u64) -> SenderCertificate {
    let server = ServerCertificate::new(1, key(1), &[2u8; 64]).unwrap();
    SenderCertificate::new(b"uuid", Some(b"+15550001"), key(3), 4, expiration, server, &[5u8; 64])
        .unwrap()
}

#[test]
fn member_joining_mid_stream_reads_forward_only() {
    let chain = ChainKey::new([4u8; 32], 10);
    let distribution = SenderKeyDistributionMessage::new(1, 10, &[4u8; 32], key(9)).unwrap();
    let joined = SenderKeyState::from_distribution(&distribution);
    assert_eq!(joined.chain_key, chain);
    assert_eq!(joined.key_id, 1);
    assert_eq!(joined.signing_key, key(9));

    let mut state = joined;
    assert_eq!(state.message_key_for(9), Err(SignalProtocolError::InvalidMessage));
    assert_eq!(state, joined);
    let at_10 = state.message_key_for(10).unwrap();
    assert_eq!(at_10, chain.message_key());
    assert_eq!(state.chain_key, chain.next().unwrap());
    let at_11 = state.message_key_for(11).unwrap();
    assert_eq!(at_11, chain.next().unwrap().message_key());
    assert_eq!(state.message_key_for(10), Err(SignalProtocolError::InvalidMessage));
    let at_20 = state.message_key_for(20).unwrap();
    assert_eq!(at_20, chain.advance_to(20, 100).unwrap().message_key());
    assert_eq!(state.chain_key.index, 21);

    let mut far = joined;
    assert_eq!(
        far.message_key_for(10 + MAX_FORWARD_JUMPS + 1),
        Err(SignalProtocolError::InvalidMessage)
    );
    assert_eq!(far, joined);
    assert_eq!(far.message_key_for(u32::MAX), Err(SignalProtocolError::InvalidMessage));
}

#[test]
fn certificate_decision_is_strict() {
    let cert = sender_certificate(1000);
    assert_eq!(cert.validate_with(true, true, 1000), Err(SignalProtocolError::SignatureVerificationFailed));
    assert_eq!(cert.validate_with(true, true, 999), Ok(()));
    assert_eq!(cert.validate_with(true, true, 0), Ok(()));
    assert_eq!(cert.validate_with(true, true, 1001), Err(SignalProtocolError::SignatureVerificationFailed));
    assert_eq!(cert.validate_with(false, true, 999), Err(SignalProtocolError::SignatureVerificationFailed));
    assert_eq!(cert.validate_with(true, false, 999), Err(SignalProtocolError::SignatureVerificationFailed));
    assert_eq!(
        sender_certificate(0).validate_with(true, true, 0),
        Err(SignalProtocolError::SignatureVerificationFailed)
    );
}

#[test]
fn certificate_bytes() {
    let server = ServerCertificate::new(1, key(1), &[2u8; 64]).unwrap();
    let mut body = vec![8, 1, 18, 33, 5];
    body.extend_from_slice(&[1u8; 32]);
    assert_eq!(server.certificate(), &body);
    assert_eq!(server_certificate_bytes_to_sign(1, &key(1)), body);
    let mut wire = vec![10, 37];
    wire.extend_from_slice(&body);
    wire.extend_from_slice(&[18, 64]);
    wire.extend_from_slice(&[2u8; 64]);
    assert_eq!(server.serialized(), &wire);
    assert_eq!(server.key_id(), 1);
    assert_eq!(server.public_key(), key(1));
    assert_eq!(server.signature().as_slice(), &[2u8; 64]);
    assert_eq!(
        ServerCertificate::new(1, key(1), &[2u8; 63]).map(|_| ()),
        Err(SignalProtocolError::InvalidArgument)
    );

    let cert = sender_certificate(0x0102030405060708);
    let signed = cert.certificate().clone();
    assert_eq!(
        sender_certificate_bytes_to_sign(
            b"uuid",
            Some(b"+15550001"),
            &key(3),
            4,
            0x0102030405060708,
            cert.signer()
        ),
        signed
    );
    let mut start = vec![10, 9];
    start.extend_from_slice(b"+15550001");
    start.extend_from_slice(&[16, 4, 25, 8, 7, 6, 5, 4, 3, 2, 1, 34, 33, 5]);
    assert_eq!(&signed[..start.len()], &start[..]);
    assert_eq!(&signed[signed.len() - 6..], &[50, 4, b'u', b'u', b'i', b'd']);
    assert_eq!(cert.sender_uuid().as_slice(), b"uuid");
    assert_eq!(cert.sender_e164(), &Some(b"+15550001".to_vec()));
    assert_eq!(cert.sender_device_id(), 4);
    assert_eq!(cert.expiration(), 0x0102030405060708);
    assert_eq!(cert.key(), key(3));
    assert_eq!(cert.signature().as_slice(), &[5u8; 64]);
    assert_eq!(cert.signer(), &server);
    let without = SenderCertificate::new(b"uuid", None, key(3), 4, 9, server, &[5u8; 64]).unwrap();
    assert_eq!(&without.certificate()[..2], &[16, 4]);
    assert!(without.serialized().len() > without.certificate().len() + 64);
}

#[test]
fn sealed_sender_content_kinds() {
    let first = UnidentifiedSenderMessageContent::new(1, sender_certificate(5), b"inner").unwrap();
    assert_eq!(first.msg_type(), 3);
    assert_eq!(first.contents().as_slice(), b"inner");
    assert_eq!(first.sender(), &sender_certificate(5));
    assert_eq!(&first.serialized()[..3], &[8, 1, 18]);
    assert_eq!(&first.serialized()[first.serialized().len() - 7..], &[26, 5, b'i', b'n', b'n', b'e', b'r']);
    let open = UnidentifiedSenderMessageContent::new(2, sender_certificate(5), b"inner").unwrap();
    assert_eq!(open.msg_type(), 2);
    for bad in [0u32, 3, 4, 5, u32::MAX] {
        assert_eq!(
            UnidentifiedSenderMessageContent::new(bad, sender_certificate(5), b"inner").map(|_| ()),
            Err(SignalProtocolError::InvalidArgument)
        );
    }
}

#[test]
fn bundle_needs_both_or_neither() {
    let both = PreKeyBundle::new(1, 2, Some(3), Some(key(4)), 5, key(6), b"sig", key(7)).unwrap();
    assert_eq!(both.pre_key_id(), Some(3));
    assert_eq!(both.pre_key_public(), Some(key(4)));
    assert_eq!(both.registration_id, 1);
    assert_eq!(both.device_id, 2);
    assert_eq!(both.signed_pre_key_id, 5);
    assert_eq!(both.signed_pre_key_public, key(6));
    assert_eq!(both.signed_pre_key_signature, b"sig");
    assert_eq!(both.identity_key, key(7));
    let neither = PreKeyBundle::new(1, 2, None, None, 5, key(6), b"sig", key(7)).unwrap();
    assert_eq!(neither.pre_key_id(), None);
    assert_eq!(neither.pre_key_public(), None);
    assert_eq!(
        PreKeyBundle::new(1, 2, Some(3), None, 5, key(6), b"sig", key(7)),
        Err(SignalProtocolError::InvalidArgument)
    );
    assert_eq!(
        PreKeyBundle::new(1, 2, None, Some(key(4)), 5, key(6), b"sig", key(7)),
        Err(SignalProtocolError::InvalidArgument)
    );
}

#[test]
fn fingerprints_compare_in_both_directions() {
    let alice = Fingerprint::new(1, 5200, b"+14152222222", &key(1), b"+14153333333", &key(2)).unwrap();
    let bob = Fingerprint::new(1, 5200, b"+14153333333", &key(2), b"+14152222222", &key(1)).unwrap();
    assert_eq!(alice.display, bob.display);
    assert_eq!(alice.display.len(), 60);
    assert!(alice.display.iter().all(|d| d.is_ascii_digit()));
    assert_eq!(alice.scannable.local_fingerprint, bob.scannable.remote_fingerprint);
    assert_eq!(alice.scannable.remote_fingerprint, bob.scannable.local_fingerprint);
    assert_ne!(alice.scannable.serialize(), bob.scannable.serialize());
    assert_eq!(alice.scannable.compare(&bob.scannable.serialize()), Ok(true));
    assert_eq!(bob.scannable.compare(&alice.scannable.serialize()), Ok(true));
    assert_eq!(alice.scannable.compare(&alice.scannable.serialize()), Ok(false));
    assert_eq!(
        scannable_fingerprint_compare(&alice.scannable.serialize(), &bob.scannable.serialize()),
        Ok(true)
    );

    let mut changed = [2u8; 32];
    changed[31] ^= 1;
    let mallory =
        Fingerprint::new(1, 5200, b"+14153333333", &PublicKey::from_bytes(changed), b"+14152222222", &key(1))
            .unwrap();
    assert_eq!(alice.scannable.compare(&mallory.scannable.serialize()), Ok(false));
    assert_eq!(mallory.scannable.compare(&alice.scannable.serialize()), Ok(false));
    assert_ne!(alice.display, mallory.display);

    let newer = Fingerprint::new(2, 5200, b"+14153333333", &key(2), b"+14152222222", &key(1)).unwrap();
    assert_eq!(
        alice.scannable.compare(&newer.scannable.serialize()),
        Err(SignalProtocolError::InvalidArgument)
    );
    assert_eq!(alice.scannable.compare(b"junk"), Err(SignalProtocolError::InvalidMessage));
    assert_eq!(
        ScannableFingerprint::deserialize(&alice.scannable.serialize()),
        Ok(alice.scannable.clone())
    );
}

#[test]
fn fingerprint_arguments() {
    assert_eq!(
        Fingerprint::new(1, 0, b"a", &key(1), b"b", &key(2)),
        Err(SignalProtocolError::InvalidArgument)
    );
    assert_eq!(
        Fingerprint::new(1, 1_000_001, b"a", &key(1), b"b", &key(2)),
        Err(SignalProtocolError::InvalidArgument)
    );
    let one = Fingerprint::new(1, 1, b"a", &key(1), b"b", &key(2)).unwrap();
    let two = Fingerprint::new(1, 2, b"a", &key(1), b"b", &key(2)).unwrap();
    assert_ne!(one.scannable, two.scannable);
    let encoded = Fingerprint::from_encoded_keys(
        1,
        1,
        b"a",
        &key(1).serialize(),
        b"b",
        &key(2).serialize(),
    )
    .unwrap();
    assert_eq!(encoded, one);
    assert_eq!(
        Fingerprint::from_encoded_keys(1, 1, b"a", &[5u8; 32], b"b", &key(2).serialize()),
        Err(SignalProtocolError::InvalidKey)
    );
    let wire = one.scannable.serialize();
    assert_eq!(&wire[..6], &[8, 1, 18, 34, 10, 32]);
    assert_eq!(wire.len(), 2 + 36 + 36);
}

#[test]
fn aead_round_trip_and_refusals() {
    let cipher = Aes256GcmSiv::new(&[7u8; 32]).unwrap();
    let sealed = cipher.encrypt(b"plaintext", &[1u8; 12], b"aad").unwrap();
    assert_eq!(sealed.len(), 9 + 16);
    assert_ne!(&sealed[..9], b"plaintext");
    assert_eq!(cipher.decrypt(&sealed, &[1u8; 12], b"aad").unwrap(), b"plaintext");
    assert_eq!(cipher.decrypt(&sealed, &[1u8; 12], b"other"), Err(SignalProtocolError::InvalidMessage));
    assert_eq!(cipher.decrypt(&sealed, &[2u8; 12], b"aad"), Err(SignalProtocolError::InvalidMessage));
    let mut flipped = sealed.clone();
    flipped[0] ^= 1;
    assert_eq!(cipher.decrypt(&flipped, &[1u8; 12], b"aad"), Err(SignalProtocolError::InvalidMessage));
    assert_eq!(cipher.decrypt(&sealed[..15], &[1u8; 12], b"aad"), Err(SignalProtocolError::InvalidMessage));
    assert_eq!(cipher.encrypt(b"x", &[1u8; 11], b""), Err(SignalProtocolError::InvalidArgument));
    assert_eq!(cipher.decrypt(&sealed, &[1u8; 13], b""), Err(SignalProtocolError::InvalidArgument));
    assert_eq!(Aes256GcmSiv::new(&[7u8; 31]).map(|_| ()), Err(SignalProtocolError::InvalidKey));
    assert_eq!(Aes256GcmSiv::new(&[7u8; 33]).map(|_| ()), Err(SignalProtocolError::InvalidKey));
}

#[test]
fn aead_matches_the_standard_vector() {
    let key = unhex("0100000000000000000000000000000000000000000000000000000000000000");
    let nonce = unhex("030000000000000000000000");
    let cipher = Aes256GcmSiv::new(&key).unwrap();
    assert_eq!(
        cipher.encrypt(b"", &nonce, b"").unwrap(),
        unhex("07f5f4169bbf55a8400cd47ea6fd400f")
    );
    assert_eq!(
        cipher.encrypt(&unhex("0100000000000000"), &nonce, b"").unwrap(),
        unhex("c2ef328e5c71c83b843122130f7364b761e0b97427e3df28")
    );
}
