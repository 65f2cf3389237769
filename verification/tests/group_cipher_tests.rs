use signal_session::bundle::{PreKeyRecord, SignedPreKeyRecord};
use signal_session::curve::{KeyPair, PrivateKey};
use signal_session::error::SignalProtocolError;
use signal_session::ratchet::ChainKey;
use signal_session::sender_key::{
    SenderKeyDistributionMessage, SenderKeyMessage, SenderKeyRecord, SenderKeyState,
    MAX_FORWARD_JUMPS,
};

fn pair(seed: u8) -> KeyPair {
    KeyPair::from_private(PrivateKey::from_bytes([seed; 32]))
}

fn sender(iteration: u32) -> SenderKeyState {
    SenderKeyState {
        key_id: 5,
        chain_key: ChainKey::new([6u8; 32], iteration),
        signing_key: pair(7).public_key,
    }
}

#[test]
fn group_messages_decrypt_in_order() {
    let mut alice = sender(0);
    let distribution =
        SenderKeyDistributionMessage::new(5, 0, &alice.chain_key.key, alice.signing_key).unwrap();
    let mut bob = SenderKeyState::from_distribution(&distribution);
    for text in [&b"one"[..], b"two", b""] {
        let message = alice.encrypt(text, &pair(7).private_key).unwrap();
        let wire = message.serialized().clone();
        let received = SenderKeyMessage::deserialize(&wire).unwrap();
        assert_eq!(bob.decrypt(&received).unwrap(), text);
        assert_eq!(bob.chain_key, alice.chain_key);
    }
    assert_eq!(alice.chain_key.index, 3);
}

#[test]
fn late_joiner_reads_from_its_iteration_on() {
    let mut alice = sender(0);
    let signing = pair(7).private_key;
    let m0 = alice.encrypt(b"zero", &signing).unwrap();
    let m1 = alice.encrypt(b"one", &signing).unwrap();
    let distribution =
        SenderKeyDistributionMessage::new(5, alice.chain_key.index, &alice.chain_key.key, alice.signing_key)
            .unwrap();
    assert_eq!(distribution.iteration(), 2);
    let m2 = alice.encrypt(b"two", &signing).unwrap();
    let m3 = alice.encrypt(b"three", &signing).unwrap();
    let m4 = alice.encrypt(b"four", &signing).unwrap();

    let joined = SenderKeyState::from_distribution(
        &SenderKeyDistributionMessage::deserialize(distribution.serialized()).unwrap(),
    );
    let mut carol = joined;
    assert_eq!(carol.decrypt(&m1), Err(SignalProtocolError::InvalidMessage));
    assert_eq!(carol.decrypt(&m0), Err(SignalProtocolError::InvalidMessage));
    assert_eq!(carol, joined);
    assert_eq!(carol.decrypt(&m2).unwrap(), b"two");
    assert_eq!(carol.decrypt(&m4).unwrap(), b"four");
    assert_eq!(carol.decrypt(&m3), Err(SignalProtocolError::InvalidMessage));
    assert_eq!(carol.chain_key.index, 5);
}

#[test]
fn group_message_refusals() {
    let mut alice = sender(0);
    let good = alice.encrypt(b"text", &pair(7).private_key).unwrap();
    let mut other_key = sender(0);
    other_key.key_id = 6;
    assert_eq!(other_key.decrypt(&good), Err(SignalProtocolError::InvalidMessage));
    let mut wrong_signer = sender(0);
    wrong_signer.signing_key = pair(8).public_key;
    assert_eq!(wrong_signer.decrypt(&good), Err(SignalProtocolError::InvalidMessage));
    let forged =
        SenderKeyMessage::sign(5, 0, good.ciphertext(), &pair(8).private_key).unwrap();
    assert_eq!(sender(0).decrypt(&forged), Err(SignalProtocolError::InvalidMessage));
    let garbled = SenderKeyMessage::sign(5, 0, b"not a ciphertext at all", &pair(7).private_key).unwrap();
    let mut bob = sender(0);
    assert_eq!(bob.decrypt(&garbled), Err(SignalProtocolError::InvalidMessage));
    assert_eq!(bob, sender(0));
    let far = SenderKeyMessage::sign(5, MAX_FORWARD_JUMPS + 1, good.ciphertext(), &pair(7).private_key)
        .unwrap();
    assert_eq!(bob.decrypt(&far), Err(SignalProtocolError::InvalidMessage));
    assert_eq!(bob.decrypt(&good).unwrap(), b"text");
    let mut last = sender(u32::MAX);
    assert_eq!(
        last.encrypt(b"x", &pair(7).private_key).map(|_| ()),
        Err(SignalProtocolError::InvalidState)
    );
}

#[test]
fn stored_pre_keys_round_trip() {
    let record = PreKeyRecord::new(31337, pair(9));
    let bytes = record.serialize();
    assert_eq!(&bytes[..6], &[8, 0xe9, 0xf4, 1, 18, 33]);
    assert_eq!(bytes.len(), 4 + 35 + 35);
    assert_eq!(PreKeyRecord::deserialize(&bytes), Ok(record));
    assert_eq!(PreKeyRecord::deserialize(&bytes[..70]), Err(SignalProtocolError::InvalidKey));
    let mut longer = bytes.clone();
    longer.push(0);
    assert_eq!(PreKeyRecord::deserialize(&longer), Err(SignalProtocolError::InvalidKey));

    for timestamp in [0u64, 1605722925123, u64::MAX] {
        let signed = SignedPreKeyRecord::new(22, timestamp, pair(10), &[3u8; 64]);
        let bytes = signed.serialize();
        assert_eq!(&bytes[bytes.len() - 9..bytes.len() - 8], &[41]);
        assert_eq!(&bytes[bytes.len() - 8..], &timestamp.to_le_bytes());
        assert_eq!(SignedPreKeyRecord::deserialize(&bytes), Ok(signed));
        assert_eq!(
            SignedPreKeyRecord::deserialize(&bytes[..bytes.len() - 1]),
            Err(SignalProtocolError::InvalidKey)
        );
    }
    assert_eq!(
        SignedPreKeyRecord::deserialize(&record.serialize()),
        Err(SignalProtocolError::InvalidKey)
    );
}

#[test]
fn stored_sender_key_record_round_trip() {
    let mut record = SenderKeyRecord::new_empty();
    assert_eq!(record.serialize(), Vec::<u8>::new());
    assert_eq!(SenderKeyRecord::deserialize(&[]).unwrap(), record);
    for id in 0..3u32 {
        let mut state = sender(100 * id);
        state.key_id = id;
        record.add_state(state);
    }
    let bytes = record.serialize();
    assert_eq!(&bytes[..7], &[10, 74, 8, 2, 16, 0xc8, 1]);
    assert_eq!(bytes.len(), 76 + 75 + 75);
    let back = SenderKeyRecord::deserialize(&bytes).unwrap();
    assert_eq!(back, record);
    assert_eq!(back.state_for_key_id(1).unwrap().chain_key.index, 100);
    assert_eq!(
        SenderKeyRecord::deserialize(&bytes[..bytes.len() - 1]).map(|_| ()),
        Err(SignalProtocolError::InvalidMessage)
    );
    let mut six = bytes.clone();
    six.extend_from_slice(&bytes);
    assert_eq!(
        SenderKeyRecord::deserialize(&six).map(|_| ()),
        Err(SignalProtocolError::InvalidMessage)
    );
    let mut five = bytes.clone();
    five.extend_from_slice(&bytes[..76 + 75]);
    assert_eq!(SenderKeyRecord::deserialize(&five).unwrap().len(), 5);
}

#[test]
fn group_encrypt_with_given_randomness_is_a_function() {
    let signing = pair(7);
    let mut one = sender(3);
    let mut two = sender(3);
    let a = one.encrypt_with(b"text", &signing.private_key, &[1u8; 64]).unwrap();
    let b = two.encrypt_with(b"text", &signing.private_key, &[1u8; 64]).unwrap();
    assert_eq!(a, b);
    assert_eq!(one, two);
    assert_eq!(one.chain_key, sender(3).chain_key.next().unwrap());
    assert_eq!(a.iteration(), 3);
    assert_eq!(a.key_id(), 5);
    assert!(a.verify_signature(&signing.public_key));
    let mut three = sender(3);
    let c = three.encrypt_with(b"text", &signing.private_key, &[2u8; 64]).unwrap();
    assert_eq!(c.ciphertext(), a.ciphertext());
    assert_ne!(c.signature(), a.signature());
    assert_eq!(
        SenderKeyMessage::sign_with(5, 3, a.ciphertext(), &signing.private_key, &[1u8; 64]).unwrap(),
        a
    );
    let mut reader = sender(3);
    assert_eq!(reader.decrypt(&a).unwrap(), b"text");
    let mut last = sender(u32::MAX);
    assert_eq!(
        last.encrypt_with(b"x", &signing.private_key, &[0u8; 64]).map(|_| ()),
        Err(SignalProtocolError::InvalidState)
    );
    assert_eq!(last, sender(u32::MAX));
}
