use signal_session::curve::{KeyPair, PrivateKey, PublicKey};
use signal_session::error::SignalProtocolError;
use signal_session::pre_key_message::PreKeySignalMessage;
use signal_session::ratchet::{receive_key, ChainKey, MessageKey, MAX_MESSAGE_KEYS};
use signal_session::session::{
    initialize_alice_session, initialize_alice_session_record, initialize_bob_session,
    initialize_bob_session_record, AliceParameters, BobParameters, SessionRecord,
    MAX_ARCHIVED_STATES,
};
use signal_session::signal_message::SignalMessage;

fn pair(seed: u8) -> KeyPair {
    KeyPair::from_private(PrivateKey::from_bytes([seed; 32]))
}

fn parameters(one_time: bool) -> (AliceParameters, BobParameters) {
    let alice_identity = pair(1);
    let alice_base = pair(2);
    let bob_identity = pair(3);
    let bob_signed = pair(4);
    let bob_one_time = pair(5);
    let alice = AliceParameters {
        our_identity_key_pair: alice_identity,
        our_base_key_pair: alice_base,
        their_identity_key: bob_identity.public_key,
        their_signed_pre_key: bob_signed.public_key,
        their_one_time_pre_key: if one_time { Some(bob_one_time.public_key) } else { None },
        their_ratchet_key: bob_signed.public_key,
    };
    let bob = BobParameters {
        our_identity_key_pair: bob_identity,
        our_signed_pre_key_pair: bob_signed,
        our_one_time_pre_key_pair: if one_time { Some(bob_one_time) } else { None },
        our_ratchet_key_pair: bob_signed,
        their_identity_key: alice_identity.public_key,
        their_base_key: alice_base.public_key,
    };
    (alice, bob)
}

#[test]
fn initiator_and_responder_agree_on_keys() {
    for one_time in [false, true] {
        let (alice, bob) = parameters(one_time);
        let a = initialize_alice_session(&alice);
        let b = initialize_bob_session(&bob);
        assert_eq!(a.root_key, b.root_key);
        let sending = a.sender_chain.unwrap();
        let (key, receiving) = b.receiver_chain.unwrap();
        assert_eq!(key, alice.our_base_key_pair.public_key);
        assert_eq!(sending, receiving);
        assert_eq!(sending.index, 0);
        assert_eq!(sending.message_key(), receiving.message_key());
        assert!(a.receiver_chain.is_none());
        assert!(b.sender_chain.is_none());
        assert_eq!(a.session_version, 3);
    }
    let (alice, _) = parameters(false);
    let (alice_with, _) = parameters(true);
    assert_ne!(
        initialize_alice_session(&alice).root_key,
        initialize_alice_session(&alice_with).root_key
    );
}

#[test]
fn end_to_end_hello() {
    let (alice, bob) = parameters(true);
    let mut alice_record = initialize_alice_session_record(&alice);
    let message = alice_record.encrypt(b"hello", &pair(9)).unwrap();
    assert_ne!(message.body().as_slice(), b"hello");
    let wrapped = PreKeySignalMessage::new(
        3,
        77,
        Some(5),
        4,
        alice.our_base_key_pair.public_key,
        alice.our_identity_key_pair.public_key,
        message,
    )
    .unwrap();
    let wire = wrapped.serialized().clone();

    let received = PreKeySignalMessage::deserialize(&wire).unwrap();
    assert_eq!(received.base_key(), &alice.our_base_key_pair.public_key);
    assert_eq!(received.identity_key(), &alice.our_identity_key_pair.public_key);
    assert_eq!(received.pre_key_id(), Some(5));
    assert_eq!(received.signed_pre_key_id(), 4);
    assert_eq!(received.registration_id(), 77);
    let mut bob_record = initialize_bob_session_record(&BobParameters {
        their_identity_key: *received.identity_key(),
        their_base_key: *received.base_key(),
        ..bob
    });
    let plaintext = bob_record.decrypt(received.message()).unwrap();
    assert_eq!(plaintext, b"hello");
}

#[test]
fn out_of_order_delivery() {
    let (alice, bob) = parameters(false);
    let mut alice_record = initialize_alice_session_record(&alice);
    let mut bob_record = initialize_bob_session_record(&bob);
    let m1 = alice_record.encrypt(b"one", &pair(9)).unwrap();
    let m2 = alice_record.encrypt(b"two", &pair(9)).unwrap();
    let m3 = alice_record.encrypt(b"three", &pair(9)).unwrap();
    assert_eq!((m1.counter(), m2.counter(), m3.counter()), (0, 1, 2));
    assert_eq!(bob_record.decrypt(&m2).unwrap(), b"two");
    assert_eq!(bob_record.decrypt(&m3).unwrap(), b"three");
    assert_eq!(bob_record.decrypt(&m1).unwrap(), b"one");
    assert_eq!(bob_record.decrypt(&m1), Err(SignalProtocolError::InvalidMessage));
    assert_eq!(bob_record.decrypt(&m3), Err(SignalProtocolError::InvalidMessage));
}

#[test]
fn conversation_with_ratchet_steps() {
    let (alice, bob) = parameters(true);
    let mut alice_record = initialize_alice_session_record(&alice);
    let mut bob_record = initialize_bob_session_record(&bob);
    let a1 = alice_record.encrypt(b"a1", &pair(10)).unwrap();
    assert_eq!(bob_record.decrypt(&a1).unwrap(), b"a1");
    assert_eq!(bob_record.previous_state_count(), 0);

    let b1 = bob_record.encrypt(b"b1", &pair(11)).unwrap();
    assert_eq!(bob_record.previous_state_count(), 1);
    assert_eq!(b1.sender_ratchet_key(), &pair(11).public_key);
    assert_eq!(b1.counter(), 0);
    let a2 = alice_record.encrypt(b"a2", &pair(12)).unwrap();
    assert_eq!(a2.counter(), 1);
    assert_eq!(alice_record.decrypt(&b1).unwrap(), b"b1");
    assert_eq!(alice_record.previous_state_count(), 1);
    assert_eq!(bob_record.decrypt(&a2).unwrap(), b"a2");

    let a3 = alice_record.encrypt(b"a3", &pair(13)).unwrap();
    assert_eq!(a3.sender_ratchet_key(), &pair(13).public_key);
    assert_eq!(a3.counter(), 0);
    assert_eq!(a3.previous_counter(), 2);
    assert_eq!(bob_record.decrypt(&a3).unwrap(), b"a3");
    let b2 = bob_record.encrypt(b"b2", &pair(14)).unwrap();
    assert_eq!(alice_record.decrypt(&b2).unwrap(), b"b2");
}

#[test]
fn tampered_message_is_refused_and_changes_nothing() {
    let (alice, bob) = parameters(false);
    let mut alice_record = initialize_alice_session_record(&alice);
    let mut bob_record = initialize_bob_session_record(&bob);
    let good = alice_record.encrypt(b"payload", &pair(9)).unwrap();
    let mut wire = good.serialized().clone();
    let last = wire.len() - 1;
    wire[last] ^= 1;
    let bad = SignalMessage::deserialize(&wire).unwrap();
    assert_eq!(bob_record.decrypt(&bad), Err(SignalProtocolError::InvalidMessage));
    assert_eq!(bob_record.decrypt(&good).unwrap(), b"payload");
}

#[test]
fn skipping_beyond_the_bound_is_an_error() {
    let chain = ChainKey::new([1u8; 32], 0);
    let mut skipped: Vec<MessageKey> = Vec::new();
    let too_far = MAX_MESSAGE_KEYS as u32 + 1;
    assert_eq!(
        receive_key(&chain, &mut skipped, too_far),
        Err(SignalProtocolError::InvalidMessage)
    );
    assert!(skipped.is_empty());
    let (key, next) = receive_key(&chain, &mut skipped, MAX_MESSAGE_KEYS as u32).unwrap();
    assert_eq!(key.counter, 2000);
    assert_eq!(next.index, 2001);
    assert_eq!(skipped.len(), 2000);
    assert_eq!(skipped[0], chain.message_key());
    assert_eq!(skipped[1], chain.next().unwrap().message_key());
    assert_eq!(
        receive_key(&next, &mut skipped, 2002),
        Err(SignalProtocolError::InvalidMessage)
    );
    let (old, same) = receive_key(&next, &mut skipped, 1).unwrap();
    assert_eq!(old, chain.next().unwrap().message_key());
    assert_eq!(same, next);
    assert_eq!(skipped.len(), 1999);
    assert_eq!(receive_key(&next, &mut skipped, 1), Err(SignalProtocolError::InvalidMessage));
    assert_eq!(
        receive_key(&ChainKey::new([1u8; 32], 5), &mut Vec::new(), u32::MAX),
        Err(SignalProtocolError::InvalidMessage)
    );
}

#[test]
fn chain_steps_are_the_two_tags() {
    let chain = ChainKey::new([0x0b; 32], 7);
    let next = chain.next().unwrap();
    assert_eq!(next.index, 8);
    assert_ne!(next.key, chain.key);
    assert_ne!(chain.message_key().key, next.key);
    assert_eq!(chain.message_key().counter, 7);
    assert_eq!(chain.advance_to(9, 10).unwrap(), next.next().unwrap());
    assert_eq!(chain.advance_to(7, 0).unwrap(), chain);
    assert_eq!(chain.advance_to(6, 10), Err(SignalProtocolError::InvalidMessage));
    assert_eq!(chain.advance_to(18, 10), Err(SignalProtocolError::InvalidMessage));
    assert_eq!(
        ChainKey::new([0; 32], u32::MAX).next(),
        Err(SignalProtocolError::InvalidState)
    );
}

#[test]
fn empty_record_reports_version_zero() {
    let mut record = SessionRecord::new_fresh();
    assert!(!record.has_current_state());
    assert_eq!(record.session_version(), Err(SignalProtocolError::InvalidState));
    assert_eq!(record.session_version_or_zero(), 0);
    assert_eq!(record.has_sender_chain(), Err(SignalProtocolError::InvalidState));
    assert_eq!(
        record.encrypt(b"x", &pair(1)).map(|_| ()),
        Err(SignalProtocolError::InvalidState)
    );
    record.archive_current_state();
    assert_eq!(record.previous_state_count(), 0);
    let (alice, _) = parameters(false);
    let record = initialize_alice_session_record(&alice);
    assert_eq!(record.session_version(), Ok(3));
    assert_eq!(record.session_version_or_zero(), 3);
    assert_eq!(record.has_sender_chain(), Ok(true));
}

#[test]
fn archive_keeps_the_newest_states() {
    let (alice, _) = parameters(false);
    let mut record = SessionRecord::new_fresh();
    for _ in 0..MAX_ARCHIVED_STATES + 5 {
        record.promote_state(initialize_alice_session(&alice));
    }
    assert!(record.has_current_state());
    assert_eq!(record.previous_state_count(), MAX_ARCHIVED_STATES);
    record.archive_current_state();
    assert!(!record.has_current_state());
    assert_eq!(record.previous_state_count(), MAX_ARCHIVED_STATES);
    assert_eq!(record.session_version_or_zero(), 0);
}

#[test]
fn decrypt_without_any_state_is_invalid_state() {
    let (alice, _) = parameters(false);
    let mut alice_record = initialize_alice_session_record(&alice);
    let m = alice_record.encrypt(b"x", &pair(9)).unwrap();
    let mut empty = SessionRecord::new_fresh();
    assert_eq!(empty.decrypt(&m), Err(SignalProtocolError::InvalidState));
    let other = PublicKey::from_bytes([1u8; 32]);
    assert_ne!(m.sender_ratchet_key(), &other);
}

#[test]
fn responder_reads_the_first_messages_of_a_session() {
    let (alice, bob) = parameters(true);
    let mut alice_record = initialize_alice_session_record(&alice);
    let wrap = |m: SignalMessage| {
        PreKeySignalMessage::new(
            3,
            1,
            Some(5),
            4,
            alice.our_base_key_pair.public_key,
            alice.our_identity_key_pair.public_key,
            m,
        )
        .unwrap()
    };
    let first = wrap(alice_record.encrypt(b"first", &pair(9)).unwrap());
    let second = wrap(alice_record.encrypt(b"second", &pair(9)).unwrap());

    let mut record = SessionRecord::new_fresh();
    assert!(!record.has_session_for(&alice.our_base_key_pair.public_key));
    assert_eq!(
        record.decrypt_pre_key_message(
            &second,
            bob.our_identity_key_pair,
            bob.our_signed_pre_key_pair,
            None,
            bob.our_ratchet_key_pair
        ),
        Err(SignalProtocolError::InvalidArgument)
    );
    assert!(!record.has_current_state());
    assert_eq!(
        record
            .decrypt_pre_key_message(
                &second,
                bob.our_identity_key_pair,
                bob.our_signed_pre_key_pair,
                bob.our_one_time_pre_key_pair,
                bob.our_ratchet_key_pair
            )
            .unwrap(),
        b"second"
    );
    assert!(record.has_session_for(&alice.our_base_key_pair.public_key));
    assert_eq!(record.previous_state_count(), 0);
    assert_eq!(
        record
            .decrypt_pre_key_message(
                &first,
                bob.our_identity_key_pair,
                bob.our_signed_pre_key_pair,
                bob.our_one_time_pre_key_pair,
                bob.our_ratchet_key_pair
            )
            .unwrap(),
        b"first"
    );
    assert_eq!(record.previous_state_count(), 0);
    let reply = record.encrypt_with_fresh_key(b"reply").unwrap();
    assert_eq!(alice_record.decrypt(&reply).unwrap(), b"reply");

    let mut stranger = SessionRecord::new_fresh();
    let wrong = pair(77);
    assert_eq!(
        stranger.decrypt_pre_key_message(
            &first,
            wrong,
            bob.our_signed_pre_key_pair,
            bob.our_one_time_pre_key_pair,
            bob.our_ratchet_key_pair
        ),
        Err(SignalProtocolError::InvalidMessage)
    );
    assert!(!stranger.has_current_state());
}
