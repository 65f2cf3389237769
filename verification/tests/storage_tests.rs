use signal_session::curve::{KeyPair, PrivateKey};
use signal_session::error::SignalProtocolError;
use signal_session::session::{
    initialize_alice_session, initialize_alice_session_record, initialize_bob_session_record,
    AliceParameters, BobParameters, SessionRecord, MAX_ARCHIVED_STATES,
};
use signal_session::session_store::{deserialize_state, serialize_state};

fn pair(seed: u8) -> KeyPair {
    KeyPair::from_private(PrivateKey::from_bytes([seed; 32]))
}

fn parameters() -> (AliceParameters, BobParameters) {
    let alice = AliceParameters {
        our_identity_key_pair: pair(1),
        our_base_key_pair: pair(2),
        their_identity_key: pair(3).public_key,
        their_signed_pre_key: pair(4).public_key,
        their_one_time_pre_key: None,
        their_ratchet_key: pair(4).public_key,
    };
    let bob = BobParameters {
        our_identity_key_pair: pair(3),
        our_signed_pre_key_pair: pair(4),
        our_one_time_pre_key_pair: None,
        our_ratchet_key_pair: pair(4),
        their_identity_key: pair(1).public_key,
        their_base_key: pair(2).public_key,
    };
    (alice, bob)
}

#[test]
fn empty_record_in_storage() {
    let record = SessionRecord::new_fresh();
    assert_eq!(record.serialize().unwrap(), vec![0u8]);
    assert_eq!(SessionRecord::deserialize(&[0]).unwrap(), record);
    assert_eq!(SessionRecord::deserialize(&[]), Err(SignalProtocolError::InvalidMessage));
    assert_eq!(SessionRecord::deserialize(&[1]), Err(SignalProtocolError::InvalidMessage));
    assert_eq!(SessionRecord::deserialize(&[2]), Err(SignalProtocolError::InvalidMessage));
    assert_eq!(SessionRecord::deserialize(&[0, 7]), Err(SignalProtocolError::InvalidMessage));
}

#[test]
fn state_round_trip_and_bytes() {
    let (alice, _) = parameters();
    let mut state = initialize_alice_session(&alice);
    state.local_registration_id = 300;
    state.remote_registration_id = 7;
    let bytes = serialize_state(&state).unwrap();
    let mut start = vec![10, 240, 1, 8, 3, 18, 32];
    start.extend_from_slice(&pair(1).public_key.public_key_bytes());
    assert_eq!(&bytes[..start.len()], &start[..]);
    let second = &bytes[3 + 240..];
    assert_eq!(&second[..6], &[18, 47, 10, 36, 8, 0]);
    assert_eq!(second.len(), 2 + 38 + 2 + 3 + 2 + 2);
    assert_eq!(&second[second.len() - 9..], &[16, 0, 32, 0xac, 2, 40, 7, 50, 0]);
    assert_eq!(deserialize_state(&bytes).unwrap(), state);
    for cut in [0, 1, 100, bytes.len() - 1] {
        assert_eq!(deserialize_state(&bytes[..cut]), Err(SignalProtocolError::InvalidMessage));
    }
    let mut longer = bytes.clone();
    longer.push(0);
    assert_eq!(deserialize_state(&longer), Err(SignalProtocolError::InvalidMessage));
    let record = SessionRecord::from_single_session_state(&bytes).unwrap();
    assert_eq!(record.current_state(), Some(&state));
    assert_eq!(record.previous_state_count(), 0);
    assert_eq!(record.session_version_or_zero(), 3);
    assert_eq!(
        SessionRecord::from_single_session_state(&bytes[1..]),
        Err(SignalProtocolError::InvalidMessage)
    );
}

#[test]
fn conversation_goes_on_after_storage() {
    let (alice, bob) = parameters();
    let mut alice_record = initialize_alice_session_record(&alice);
    let mut bob_record = initialize_bob_session_record(&bob);
    let a0 = alice_record.encrypt(b"a0", &pair(9)).unwrap();
    let a1 = alice_record.encrypt(b"a1", &pair(9)).unwrap();
    let a2 = alice_record.encrypt(b"a2", &pair(9)).unwrap();
    assert_eq!(bob_record.decrypt(&a2).unwrap(), b"a2");
    let b0 = bob_record.encrypt(b"b0", &pair(10)).unwrap();
    assert_eq!(bob_record.previous_state_count(), 1);

    let stored = bob_record.serialize().unwrap();
    assert_eq!(stored[0], 1);
    let mut restored = SessionRecord::deserialize(&stored).unwrap();
    assert_eq!(restored, bob_record);
    assert_eq!(restored.serialize().unwrap(), stored);
    assert_eq!(restored.previous_states()[0].skipped.len(), 2);
    assert_eq!(restored.decrypt(&a0).unwrap(), b"a0");
    assert_eq!(restored.decrypt(&a1).unwrap(), b"a1");
    assert_eq!(restored.decrypt(&a1), Err(SignalProtocolError::InvalidMessage));

    let alice_stored = alice_record.serialize().unwrap();
    let mut alice_restored = SessionRecord::deserialize(&alice_stored).unwrap();
    assert_eq!(alice_restored.decrypt(&b0).unwrap(), b"b0");
    let a3 = alice_restored.encrypt(b"a3", &pair(11)).unwrap();
    assert_eq!(restored.decrypt(&a3).unwrap(), b"a3");
    let again = SessionRecord::deserialize(&restored.serialize().unwrap()).unwrap();
    assert_eq!(again, restored);

    let mut bad = stored.clone();
    let last = bad.len() - 1;
    bad.truncate(last);
    assert_eq!(SessionRecord::deserialize(&bad), Err(SignalProtocolError::InvalidMessage));
    let mut flag = stored.clone();
    flag[0] = 0;
    let without_current = SessionRecord::deserialize(&flag).unwrap();
    assert!(!without_current.has_current_state());
    assert_eq!(without_current.previous_state_count(), 2);
}

#[test]
fn stored_record_keeps_no_more_than_the_bound() {
    let (alice, _) = parameters();
    let mut record = SessionRecord::new_fresh();
    for _ in 0..MAX_ARCHIVED_STATES + 1 {
        record.promote_state(initialize_alice_session(&alice));
    }
    let stored = record.serialize().unwrap();
    assert_eq!(SessionRecord::deserialize(&stored).unwrap(), record);
    let one = serialize_state(&initialize_alice_session(&alice)).unwrap();
    let mut more = stored.clone();
    more.extend_from_slice(&[10, (one.len() % 128) as u8 | 0x80, (one.len() / 128) as u8]);
    more.extend_from_slice(&one);
    assert_eq!(SessionRecord::deserialize(&more), Err(SignalProtocolError::InvalidMessage));
    let states: Vec<_> = (0..MAX_ARCHIVED_STATES + 1).map(|_| initialize_alice_session(&alice)).collect();
    assert_eq!(
        SessionRecord::from_states(None, states).map(|_| ()),
        Err(SignalProtocolError::InvalidArgument)
    );
}
