use vstd::prelude::*;
use crate::bundle::PreKeyBundle;
use crate::bytes::append;
use crate::pre_key_message::PreKeySignalMessage;
use crate::curve::{encoded, x25519, KeyPair, PublicKey};
use crate::signature::{signature_verifies, verify_signature};
use crate::error::SignalProtocolError;
use crate::ratchet::{
    derive_initial_keys,
    initial_keys,
    message_key_of,
    ratchet_keys,
    ratchet_step,
    ChainKey,
    MessageKey,
};
use crate::session_cipher::{
    can_send, lemma_sent_message_is_read, opens_what_it_sealed, readable, reads, received,
    refused, sent,
};
use crate::signal_message::SignalMessage;

verus! {

/// The protocol version of the sessions that this library sets up.
pub const CURRENT_VERSION: u32 = 3;

/// The most superseded states a record keeps; older ones are dropped.
pub const MAX_ARCHIVED_STATES: usize = 40;

/// What the initiator of a session holds when it sets the session up.
#[derive(Clone, Copy, Debug)]
pub struct AliceParameters {
    pub our_identity_key_pair: KeyPair,
    pub our_base_key_pair: KeyPair,
    pub their_identity_key: PublicKey,
    pub their_signed_pre_key: PublicKey,
    pub their_one_time_pre_key: Option<PublicKey>,
    pub their_ratchet_key: PublicKey,
}

/// What the responder of a session holds when it sets the session up.
#[derive(Clone, Copy, Debug)]
pub struct BobParameters {
    pub our_identity_key_pair: KeyPair,
    pub our_signed_pre_key_pair: KeyPair,
    pub our_one_time_pre_key_pair: Option<KeyPair>,
    pub our_ratchet_key_pair: KeyPair,
    pub their_identity_key: PublicKey,
    pub their_base_key: PublicKey,
}

/// Whether the signature in a bundle verifies: it is 64 bytes and the
/// identity key's signature over the encoded signed pre-key.
pub open spec fn bundle_signature_verifies(bundle: PreKeyBundle) -> bool {
    bundle.signed_pre_key_signature@.len() == 64 && signature_verifies(
        bundle.identity_key@,
        encoded(bundle.signed_pre_key_public@),
        bundle.signed_pre_key_signature@,
    )
}

/// What the initiator holds against a peer's published bundle: the
/// bundle's keys, with its signed pre-key as the peer's first ratchet
/// key. `SignatureVerificationFailed` where the bundle's signature over
/// its signed pre-key does not verify under its identity key.
pub fn alice_parameters_for_bundle(
    our_identity_key_pair: KeyPair,
    our_base_key_pair: KeyPair,
    bundle: &PreKeyBundle,
) -> (out: Result<AliceParameters, SignalProtocolError>)
    ensures
        match out {
            Ok(p) => bundle_signature_verifies(*bundle) && p == (AliceParameters {
                our_identity_key_pair,
                our_base_key_pair,
                their_identity_key: bundle.identity_key,
                their_signed_pre_key: bundle.signed_pre_key_public,
                their_one_time_pre_key: match bundle.pre_key {
                    Some(pair) => Some(pair.1),
                    None => None,
                },
                their_ratchet_key: bundle.signed_pre_key_public,
            }),
            Err(e) => !bundle_signature_verifies(*bundle) && e
                == SignalProtocolError::SignatureVerificationFailed,
        },
{
    let signed = bundle.signed_pre_key_public.serialize();
    let verified = match verify_signature(
        &bundle.identity_key,
        signed.as_slice(),
        bundle.signed_pre_key_signature.as_slice(),
    ) {
        Ok(valid) => valid,
        Err(_) => false,
    };
    if !verified {
        return Err(SignalProtocolError::SignatureVerificationFailed);
    }
    Ok(
        AliceParameters {
            our_identity_key_pair,
            our_base_key_pair,
            their_identity_key: bundle.identity_key,
            their_signed_pre_key: bundle.signed_pre_key_public,
            their_one_time_pre_key: bundle.pre_key_public(),
            their_ratchet_key: bundle.signed_pre_key_public,
        },
    )
}

/// What the responder holds against the first message of a session: its
/// own key pairs, and the initiator's identity key and base key from the
/// message. `InvalidArgument` where the message names a one-time pre-key
/// and none is given, or one is given and the message names none.
pub fn bob_parameters_for_message(
    our_identity_key_pair: KeyPair,
    our_signed_pre_key_pair: KeyPair,
    our_one_time_pre_key_pair: Option<KeyPair>,
    our_ratchet_key_pair: KeyPair,
    message: &PreKeySignalMessage,
) -> (out: Result<BobParameters, SignalProtocolError>)
    ensures
        match out {
            Ok(p) => (message@.pre_key_id is Some) == (our_one_time_pre_key_pair is Some)
                && p.our_identity_key_pair == our_identity_key_pair && p.our_signed_pre_key_pair
                == our_signed_pre_key_pair && p.our_one_time_pre_key_pair
                == our_one_time_pre_key_pair && p.our_ratchet_key_pair == our_ratchet_key_pair
                && p.their_identity_key@ == message@.identity_key && p.their_base_key@
                == message@.base_key,
            Err(e) => (message@.pre_key_id is Some) != (our_one_time_pre_key_pair is Some) && e
                == SignalProtocolError::InvalidArgument,
        },
{
    if message.pre_key_id().is_some() != our_one_time_pre_key_pair.is_some() {
        return Err(SignalProtocolError::InvalidArgument);
    }
    Ok(
        BobParameters {
            our_identity_key_pair,
            our_signed_pre_key_pair,
            our_one_time_pre_key_pair,
            our_ratchet_key_pair,
            their_identity_key: *message.identity_key(),
            their_base_key: *message.base_key(),
        },
    )
}

/// The initiator's agreements, in the order of the handshake: identity with
/// signed pre-key, base with identity, base with signed pre-key and, where
/// there is one, base with one-time pre-key.
pub open spec fn alice_secret(p: AliceParameters) -> Seq<u8> {
    x25519(p.our_identity_key_pair.private_key@, p.their_signed_pre_key@) + x25519(
        p.our_base_key_pair.private_key@,
        p.their_identity_key@,
    ) + x25519(p.our_base_key_pair.private_key@, p.their_signed_pre_key@) + (
    match p.their_one_time_pre_key {
        Some(key) => x25519(p.our_base_key_pair.private_key@, key@),
        None => Seq::<u8>::empty(),
    })
}

/// The responder's agreements, in the same order, each from its side.
pub open spec fn bob_secret(p: BobParameters) -> Seq<u8> {
    x25519(p.our_signed_pre_key_pair.private_key@, p.their_identity_key@) + x25519(
        p.our_identity_key_pair.private_key@,
        p.their_base_key@,
    ) + x25519(p.our_signed_pre_key_pair.private_key@, p.their_base_key@) + (
    match p.our_one_time_pre_key_pair {
        Some(pair) => x25519(pair.private_key@, p.their_base_key@),
        None => Seq::<u8>::empty(),
    })
}

/// Whether two key pairs reach the same secret, each with its own private
/// key and the other's public key, as Diffie-Hellman pairs do.
pub open spec fn pairs_agree(x: KeyPair, y: KeyPair) -> bool {
    x25519(x.private_key@, y.public_key@) == x25519(y.private_key@, x.public_key@)
}

/// Whether the two sides of a handshake hold each other's public keys, with
/// key pairs that agree.
pub open spec fn matching(a: AliceParameters, b: BobParameters) -> bool {
    &&& a.their_identity_key == b.our_identity_key_pair.public_key
    &&& a.their_signed_pre_key == b.our_signed_pre_key_pair.public_key
    &&& b.their_identity_key == a.our_identity_key_pair.public_key
    &&& b.their_base_key == a.our_base_key_pair.public_key
    &&& pairs_agree(a.our_identity_key_pair, b.our_signed_pre_key_pair)
    &&& pairs_agree(a.our_base_key_pair, b.our_identity_key_pair)
    &&& pairs_agree(a.our_base_key_pair, b.our_signed_pre_key_pair)
    &&& match (a.their_one_time_pre_key, b.our_one_time_pre_key_pair) {
        (Some(key), Some(pair)) => key == pair.public_key && pairs_agree(
            a.our_base_key_pair,
            pair,
        ),
        (None, None) => true,
        _ => false,
    }
}

/// Initiator and responder with matching key material derive the same root
/// key, the same first chain key and so the same first message key.
pub proof fn lemma_agreement_symmetry(a: AliceParameters, b: BobParameters)
    requires
        matching(a, b),
    ensures
        alice_secret(a) == bob_secret(b),
        initial_keys(alice_secret(a)) == initial_keys(bob_secret(b)),
        message_key_of(initial_keys(alice_secret(a)).1) == message_key_of(
            initial_keys(bob_secret(b)).1,
        ),
{
}

/// One ratchet state of a session.
#[derive(Debug, PartialEq, Eq)]
pub struct SessionState {
    pub session_version: u32,
    pub local_identity_key: PublicKey,
    pub remote_identity_key: PublicKey,
    pub root_key: [u8; 32],
    /// The key pair that this side's next agreement is made with.
    pub local_ratchet_key: KeyPair,
    /// The peer's ratchet key that this state was last advanced against.
    pub remote_ratchet_key: PublicKey,
    pub sender_chain: Option<ChainKey>,
    /// The counter that the sending chain before this one had reached.
    pub previous_counter: u32,
    /// The peer's ratchet key whose messages this state reads, with the
    /// chain key they are read under.
    pub receiver_chain: Option<(PublicKey, ChainKey)>,
    /// Keys of messages that were skipped on the receiving chain.
    pub skipped: Vec<MessageKey>,
    pub local_registration_id: u32,
    pub remote_registration_id: u32,
    pub alice_base_key: PublicKey,
}

fn secret_of_agreements(
    first: &[u8; 32],
    second: &[u8; 32],
    third: &[u8; 32],
    fourth: Option<[u8; 32]>,
) -> (out: Vec<u8>)
    ensures
        out@ == first@ + second@ + third@ + (match fourth {
            Some(s) => s@,
            None => Seq::<u8>::empty(),
        }),
{
    let mut out: Vec<u8> = Vec::new();
    append(&mut out, first.as_slice());
    append(&mut out, second.as_slice());
    append(&mut out, third.as_slice());
    match fourth {
        Some(s) => {
            append(&mut out, s.as_slice());
        },
        None => {
            assert(out@ =~= first@ + second@ + third@ + Seq::<u8>::empty());
        },
    }
    assert(Seq::<u8>::empty() + first@ =~= first@);
    out
}

/// Sets up the initiator's state: the keys of the handshake, a sending
/// chain at position 0 under the base key pair, and no receiving chain.
pub fn initialize_alice_session(p: &AliceParameters) -> (state: SessionState)
    ensures
        state.session_version == CURRENT_VERSION,
        state.local_identity_key == p.our_identity_key_pair.public_key,
        state.remote_identity_key == p.their_identity_key,
        state.root_key@ == initial_keys(alice_secret(*p)).0,
        state.local_ratchet_key == p.our_base_key_pair,
        state.remote_ratchet_key == p.their_ratchet_key,
        state.sender_chain is Some,
        state.sender_chain.unwrap().index == 0,
        state.sender_chain.unwrap().key@ == initial_keys(alice_secret(*p)).1,
        state.previous_counter == 0,
        state.receiver_chain is None,
        state.skipped@.len() == 0,
        state.local_registration_id == 0,
        state.remote_registration_id == 0,
        state.alice_base_key == p.our_base_key_pair.public_key,
{
    let first = p.our_identity_key_pair.private_key.calculate_agreement(&p.their_signed_pre_key);
    let second = p.our_base_key_pair.private_key.calculate_agreement(&p.their_identity_key);
    let third = p.our_base_key_pair.private_key.calculate_agreement(&p.their_signed_pre_key);
    let fourth = match p.their_one_time_pre_key {
        Some(key) => Some(p.our_base_key_pair.private_key.calculate_agreement(&key)),
        None => None,
    };
    let secret = secret_of_agreements(&first, &second, &third, fourth);
    assert(secret@ == alice_secret(*p));
    let (root_key, chain_key) = derive_initial_keys(secret.as_slice());
    SessionState {
        session_version: CURRENT_VERSION,
        local_identity_key: p.our_identity_key_pair.public_key,
        remote_identity_key: p.their_identity_key,
        root_key,
        local_ratchet_key: p.our_base_key_pair,
        remote_ratchet_key: p.their_ratchet_key,
        sender_chain: Some(chain_key),
        previous_counter: 0,
        receiver_chain: None,
        skipped: Vec::new(),
        local_registration_id: 0,
        remote_registration_id: 0,
        alice_base_key: p.our_base_key_pair.public_key,
    }
}

/// Sets up the responder's state: the keys of the handshake, a receiving
/// chain at position 0 keyed to the initiator's base key, and no sending
/// chain.
pub fn initialize_bob_session(p: &BobParameters) -> (state: SessionState)
    ensures
        state.session_version == CURRENT_VERSION,
        state.local_identity_key == p.our_identity_key_pair.public_key,
        state.remote_identity_key == p.their_identity_key,
        state.root_key@ == initial_keys(bob_secret(*p)).0,
        state.local_ratchet_key == p.our_ratchet_key_pair,
        state.remote_ratchet_key == p.their_base_key,
        state.sender_chain is None,
        state.previous_counter == 0,
        state.receiver_chain is Some,
        state.receiver_chain.unwrap().0 == p.their_base_key,
        state.receiver_chain.unwrap().1.index == 0,
        state.receiver_chain.unwrap().1.key@ == initial_keys(bob_secret(*p)).1,
        state.skipped@.len() == 0,
        state.local_registration_id == 0,
        state.remote_registration_id == 0,
        state.alice_base_key == p.their_base_key,
{
    let first = p.our_signed_pre_key_pair.private_key.calculate_agreement(&p.their_identity_key);
    let second = p.our_identity_key_pair.private_key.calculate_agreement(&p.their_base_key);
    let third = p.our_signed_pre_key_pair.private_key.calculate_agreement(&p.their_base_key);
    let fourth = match p.our_one_time_pre_key_pair {
        Some(pair) => Some(pair.private_key.calculate_agreement(&p.their_base_key)),
        None => None,
    };
    let secret = secret_of_agreements(&first, &second, &third, fourth);
    assert(secret@ == bob_secret(*p));
    let (root_key, chain_key) = derive_initial_keys(secret.as_slice());
    SessionState {
        session_version: CURRENT_VERSION,
        local_identity_key: p.our_identity_key_pair.public_key,
        remote_identity_key: p.their_identity_key,
        root_key,
        local_ratchet_key: p.our_ratchet_key_pair,
        remote_ratchet_key: p.their_base_key,
        sender_chain: None,
        previous_counter: 0,
        receiver_chain: Some((p.their_base_key, chain_key)),
        skipped: Vec::new(),
        local_registration_id: 0,
        remote_registration_id: 0,
        alice_base_key: p.their_base_key,
    }
}

/// The ratchet states of the session with one peer: the current one, if
/// any, and the superseded ones, newest first.
#[derive(Debug, PartialEq, Eq)]
pub struct SessionRecord {
    current: Option<SessionState>,
    previous: Vec<SessionState>,
}

impl SessionRecord {
    /// The current state, if there is one.
    pub closed spec fn current(&self) -> Option<SessionState> {
        self.current
    }

    /// The superseded states, newest first.
    pub closed spec fn previous(&self) -> Seq<SessionState> {
        self.previous@
    }

    /// A record holds no more superseded states than the bound.
    pub open spec fn well_formed(&self) -> bool {
        self.previous().len() <= MAX_ARCHIVED_STATES
    }

    /// A record without any state.
    pub fn new_fresh() -> (out: SessionRecord)
        ensures
            out.current() is None,
            out.previous().len() == 0,
            out.well_formed(),
    {
        SessionRecord { current: None, previous: Vec::new() }
    }

    /// A record whose one state is `state`.
    pub fn from_state(state: SessionState) -> (out: SessionRecord)
        ensures
            out.current() == Some(state),
            out.previous().len() == 0,
            out.well_formed(),
    {
        SessionRecord { current: Some(state), previous: Vec::new() }
    }

    /// The record of these states; `InvalidArgument` for more superseded
    /// states than a record keeps.
    pub fn from_states(current: Option<SessionState>, previous: Vec<SessionState>) -> (out: Result<
        SessionRecord,
        SignalProtocolError,
    >)
        ensures
            match out {
                Ok(record) => previous@.len() <= MAX_ARCHIVED_STATES && record.current() == current
                    && record.previous() == previous@ && record.well_formed(),
                Err(e) => previous@.len() > MAX_ARCHIVED_STATES && e
                    == SignalProtocolError::InvalidArgument,
            },
    {
        if previous.len() > MAX_ARCHIVED_STATES {
            return Err(SignalProtocolError::InvalidArgument);
        }
        Ok(SessionRecord { current, previous })
    }

    /// The superseded states, newest first.
    pub fn previous_states(&self) -> (out: &Vec<SessionState>)
        ensures
            out@ == self.previous(),
    {
        &self.previous
    }

    /// Whether the record has a current state.
    pub fn has_current_state(&self) -> (out: bool)
        ensures
            out == self.current() is Some,
    {
        self.current.is_some()
    }

    /// How many superseded states the record holds.
    pub fn previous_state_count(&self) -> (out: usize)
        ensures
            out == self.previous().len(),
    {
        self.previous.len()
    }

    /// The current state, if there is one.
    pub fn current_state(&self) -> (out: Option<&SessionState>)
        ensures
            match out {
                Some(state) => self.current() == Some(*state),
                None => self.current() is None,
            },
    {
        self.current.as_ref()
    }

    /// The key of the current state's receiving chain for the peer's
    /// ratchet key `ratchet_key`, if that chain is the state's receiving
    /// chain; `InvalidState` without a current state.
    pub fn get_receiver_chain_key(&self, ratchet_key: &PublicKey) -> (out: Result<
        Option<[u8; 32]>,
        SignalProtocolError,
    >)
        ensures
            match self.current() {
                Some(state) => match out {
                    Ok(Some(key)) => reads(state, ratchet_key@) && key
                        == state.receiver_chain.unwrap().1.key,
                    Ok(None) => !reads(state, ratchet_key@),
                    Err(_) => false,
                },
                None => out == Err::<Option<[u8; 32]>, SignalProtocolError>(
                    SignalProtocolError::InvalidState,
                ),
            },
    {
        match &self.current {
            Some(state) => {
                if state.reads_key(ratchet_key) {
                    match state.receiver_chain {
                        Some(chain) => Ok(Some(chain.1.key)),
                        None => Ok(None),
                    }
                } else {
                    Ok(None)
                }
            },
            None => Err(SignalProtocolError::InvalidState),
        }
    }

    /// The protocol version of the current state; `InvalidState` without one.
    pub fn session_version(&self) -> (out: Result<u32, SignalProtocolError>)
        ensures
            match self.current() {
                Some(state) => out == Ok::<u32, SignalProtocolError>(state.session_version),
                None => out == Err::<u32, SignalProtocolError>(SignalProtocolError::InvalidState),
            },
    {
        match &self.current {
            Some(state) => Ok(state.session_version),
            None => Err(SignalProtocolError::InvalidState),
        }
    }

    /// The protocol version of the current state, and 0 for a record
    /// without one: callers of long standing expect a number here, not an
    /// error.
    pub fn session_version_or_zero(&self) -> (out: u32)
        ensures
            out == match self.current() {
                Some(state) => state.session_version,
                None => 0u32,
            },
    {
        match self.session_version() {
            Ok(version) => version,
            Err(_) => 0,
        }
    }

    /// Whether the current state has a sending chain; `InvalidState` where
    /// there is no current state.
    pub fn has_sender_chain(&self) -> (out: Result<bool, SignalProtocolError>)
        ensures
            match self.current() {
                Some(state) => out == Ok::<bool, SignalProtocolError>(state.sender_chain is Some),
                None => out == Err::<bool, SignalProtocolError>(SignalProtocolError::InvalidState),
            },
    {
        match &self.current {
            Some(state) => Ok(state.sender_chain.is_some()),
            None => Err(SignalProtocolError::InvalidState),
        }
    }

    /// What the superseded states are after `state` was put in front of
    /// `previous`: the newest `MAX_ARCHIVED_STATES` of them.
    pub open spec fn archived(state: SessionState, previous: Seq<SessionState>) -> Seq<
        SessionState,
    > {
        let all = seq![state] + previous;
        if all.len() > MAX_ARCHIVED_STATES {
            all.subrange(0, MAX_ARCHIVED_STATES as int)
        } else {
            all
        }
    }

    /// Moves the current state to the front of the superseded ones and
    /// drops the oldest beyond the bound. A record without a current state
    /// stays as it is.
    pub fn archive_current_state(&mut self)
        ensures
            final(self).current() is None,
            final(self).previous() == match old(self).current() {
                Some(state) => Self::archived(state, old(self).previous()),
                None => old(self).previous(),
            },
            old(self).well_formed() ==> final(self).well_formed(),
    {
        let current = self.current.take();
        match current {
            Some(state) => {
                self.previous.insert(0, state);
                assert(self.previous@ =~= seq![state] + old(self).previous@);
                self.previous.truncate(MAX_ARCHIVED_STATES);
            },
            None => {},
        }
    }

    /// Makes `state` the current state; the state that was current is
    /// archived.
    pub fn promote_state(&mut self, state: SessionState)
        ensures
            final(self).current() == Some(state),
            final(self).previous() == match old(self).current() {
                Some(before) => Self::archived(before, old(self).previous()),
                None => old(self).previous(),
            },
            old(self).well_formed() ==> final(self).well_formed(),
    {
        self.archive_current_state();
        self.current = Some(state);
    }
}

/// Whether two states belong to one session: the same version, identity
/// keys, registration ids and base key.
pub open spec fn same_session(a: SessionState, b: SessionState) -> bool {
    &&& a.session_version == b.session_version
    &&& a.local_identity_key == b.local_identity_key
    &&& a.remote_identity_key == b.remote_identity_key
    &&& a.local_registration_id == b.local_registration_id
    &&& a.remote_registration_id == b.remote_registration_id
    &&& a.alice_base_key == b.alice_base_key
}

/// Whether `after` is the state that a ratchet step for sending makes of
/// `before`: the root key moved on by the agreement of the fresh key pair
/// with the peer's ratchet key, a sending chain at position 0, and no
/// receiving chain.
pub open spec fn send_stepped(before: SessionState, after: SessionState, fresh: KeyPair) -> bool {
    let keys = ratchet_keys(
        before.root_key@,
        x25519(fresh.private_key@, before.remote_ratchet_key@),
    );
    &&& same_session(before, after)
    &&& after.root_key@ == keys.0
    &&& after.sender_chain is Some
    &&& after.sender_chain.unwrap().index == 0
    &&& after.sender_chain.unwrap().key@ == keys.1
    &&& after.local_ratchet_key == fresh
    &&& after.remote_ratchet_key == before.remote_ratchet_key
    &&& after.previous_counter == before.previous_counter
    &&& after.receiver_chain is None
    &&& after.skipped@.len() == 0
}

/// Whether `after` is the state that a ratchet step for receiving makes
/// of `before` on a message with the ratchet key `their_key`: the root
/// key moved on by the agreement of this side's ratchet key with theirs,
/// a receiving chain at position 0 for their key, and no sending chain.
pub open spec fn receive_stepped(before: SessionState, after: SessionState, their_key: Seq<u8>) -> bool {
    let keys = ratchet_keys(
        before.root_key@,
        x25519(before.local_ratchet_key.private_key@, their_key),
    );
    &&& same_session(before, after)
    &&& after.root_key@ == keys.0
    &&& after.receiver_chain is Some
    &&& after.receiver_chain.unwrap().0@ == their_key
    &&& after.receiver_chain.unwrap().1.index == 0
    &&& after.receiver_chain.unwrap().1.key@ == keys.1
    &&& after.sender_chain is None
    &&& after.local_ratchet_key == before.local_ratchet_key
    &&& after.remote_ratchet_key@ == their_key
    &&& after.previous_counter == (match before.sender_chain {
        Some(chain) => chain.index,
        None => before.previous_counter,
    })
    &&& after.skipped@.len() == 0
}

/// Whether `i` is the first of `states` that reads this ratchet key.
pub open spec fn first_reader(states: Seq<SessionState>, ratchet_key: Seq<u8>, i: int) -> bool {
    &&& 0 <= i < states.len()
    &&& reads(states[i], ratchet_key)
    &&& forall|j: int| 0 <= j < i ==> !reads(states[j], ratchet_key)
}

/// Whether none of `states` reads this ratchet key.
pub open spec fn no_reader(states: Seq<SessionState>, ratchet_key: Seq<u8>) -> bool {
    forall|j: int| 0 <= j < states.len() ==> !reads(states[j], ratchet_key)
}

impl SessionState {
    /// The state after a ratchet step for sending with `fresh` as this
    /// side's new ratchet key pair.
    pub fn send_step(&self, fresh: &KeyPair) -> (out: SessionState)
        ensures
            send_stepped(*self, out, *fresh),
    {
        let (root_key, chain_key) = ratchet_step(
            &self.root_key,
            &self.remote_ratchet_key,
            &fresh.private_key,
        );
        SessionState {
            session_version: self.session_version,
            local_identity_key: self.local_identity_key,
            remote_identity_key: self.remote_identity_key,
            root_key,
            local_ratchet_key: *fresh,
            remote_ratchet_key: self.remote_ratchet_key,
            sender_chain: Some(chain_key),
            previous_counter: self.previous_counter,
            receiver_chain: None,
            skipped: Vec::new(),
            local_registration_id: self.local_registration_id,
            remote_registration_id: self.remote_registration_id,
            alice_base_key: self.alice_base_key,
        }
    }

    /// The state after a ratchet step for receiving on a message with the
    /// ratchet key `their_key`.
    pub fn receive_step(&self, their_key: &PublicKey) -> (out: SessionState)
        ensures
            receive_stepped(*self, out, their_key@),
    {
        let (root_key, chain_key) = ratchet_step(
            &self.root_key,
            their_key,
            &self.local_ratchet_key.private_key,
        );
        SessionState {
            session_version: self.session_version,
            local_identity_key: self.local_identity_key,
            remote_identity_key: self.remote_identity_key,
            root_key,
            local_ratchet_key: self.local_ratchet_key,
            remote_ratchet_key: *their_key,
            sender_chain: None,
            previous_counter: match self.sender_chain {
                Some(chain) => chain.index,
                None => self.previous_counter,
            },
            receiver_chain: Some((*their_key, chain_key)),
            skipped: Vec::new(),
            local_registration_id: self.local_registration_id,
            remote_registration_id: self.remote_registration_id,
            alice_base_key: self.alice_base_key,
        }
    }

    /// Whether the state reads the messages that carry this ratchet key.
    pub fn reads_key(&self, ratchet_key: &PublicKey) -> (out: bool)
        ensures
            out == reads(*self, ratchet_key@),
    {
        match &self.receiver_chain {
            Some(chain) => chain.0.equals(ratchet_key),
            None => false,
        }
    }
}

/// A ratchet step leaves the chains behind: the stepped state has no
/// kept message key, its one chain starts at position 0, and its root
/// key and chain key come from the root key and the ratchet keys alone,
/// so that two states which differ only in their chains and kept keys
/// step to the same keys.
pub proof fn lemma_step_forgets_chains(
    a: SessionState,
    b: SessionState,
    after_a: SessionState,
    after_b: SessionState,
    fresh: KeyPair,
    their_key: Seq<u8>,
)
    requires
        a.root_key@ == b.root_key@,
        a.local_ratchet_key == b.local_ratchet_key,
        a.remote_ratchet_key == b.remote_ratchet_key,
    ensures
        send_stepped(a, after_a, fresh) && send_stepped(b, after_b, fresh) ==> after_a.root_key@
            == after_b.root_key@ && after_a.sender_chain.unwrap().key@
            == after_b.sender_chain.unwrap().key@ && after_a.skipped@.len() == 0
            && after_a.receiver_chain is None,
        receive_stepped(a, after_a, their_key) && receive_stepped(b, after_b, their_key)
            ==> after_a.root_key@ == after_b.root_key@ && after_a.receiver_chain.unwrap().1.key@
            == after_b.receiver_chain.unwrap().1.key@ && after_a.skipped@.len() == 0
            && after_a.sender_chain is None,
{
}

/// Whether `after` and `plaintext` are what decrypting the message `m` in
/// the record `before` gives. The message is read in the current state
/// if that state reads the message's ratchet key; else in the newest
/// archived state that does; else, where no state does, in the state
/// that a ratchet step for receiving makes of the current one, which
/// then becomes current while the state before it is archived.
pub open spec fn decrypted(
    before: SessionRecord,
    after: SessionRecord,
    m: crate::signal_message::SignalMessageView,
    plaintext: Seq<u8>,
) -> bool {
    let key = m.sender_ratchet_key;
    if before.current() is Some && reads(before.current().unwrap(), key) {
        &&& after.current() is Some
        &&& received(before.current().unwrap(), after.current().unwrap(), m, plaintext)
        &&& after.previous() == before.previous()
    } else if no_reader(before.previous(), key) {
        &&& before.current() is Some
        &&& after.current() is Some
        &&& exists|mid: SessionState|
            receive_stepped(before.current().unwrap(), mid, key) && received(
                mid,
                after.current().unwrap(),
                m,
                plaintext,
            )
        &&& after.previous() == SessionRecord::archived(
            before.current().unwrap(),
            before.previous(),
        )
    } else {
        &&& after.current() == before.current()
        &&& exists|i: int|
            first_reader(before.previous(), key, i) && after.previous().len()
                == before.previous().len() && received(
                before.previous()[i],
                after.previous()[i],
                m,
                plaintext,
            ) && after.previous() == before.previous().update(i, after.previous()[i])
    }
}

/// Whether `e` is the error that decrypting the message `m` in the
/// record `before` gives: `InvalidState` where no state reads the
/// message's ratchet key and there is no current state to step;
/// `InvalidMessage` where the state that the message is read in (the
/// current one, the newest archived one that reads the key, or the
/// stepped one) cannot read it.
pub open spec fn decrypt_error(
    before: SessionRecord,
    m: crate::signal_message::SignalMessageView,
    e: SignalProtocolError,
) -> bool {
    let key = m.sender_ratchet_key;
    &&& e == SignalProtocolError::InvalidState || e == SignalProtocolError::InvalidMessage
    &&& e == SignalProtocolError::InvalidState <==> (before.current() is None && no_reader(
        before.previous(),
        key,
    ))
    &&& e == SignalProtocolError::InvalidMessage ==> if before.current() is Some && reads(
        before.current().unwrap(),
        key,
    ) {
        !readable(before.current().unwrap(), m)
    } else if no_reader(before.previous(), key) {
        forall|mid: SessionState|
            receive_stepped(before.current().unwrap(), mid, key) ==> !readable(mid, m)
    } else {
        exists|i: int|
            first_reader(before.previous(), key, i) && !readable(before.previous()[i], m)
    }
}

/// Whether `after` and the message `m` are what encrypting `plaintext` in
/// the record `before` gives, with `fresh` as the new ratchet key pair if
/// a ratchet step is due. With a sending chain the current state sends;
/// without one the current state steps first, the stepped state sends
/// and the state that was current is archived.
pub open spec fn encrypted(
    before: SessionRecord,
    after: SessionRecord,
    plaintext: Seq<u8>,
    fresh: KeyPair,
    m: crate::signal_message::SignalMessageView,
) -> bool {
    let head = before.current().unwrap();
    &&& before.current() is Some
    &&& after.current() is Some
    &&& if head.sender_chain is Some {
        &&& sent(head, after.current().unwrap(), plaintext, m)
        &&& after.previous() == before.previous()
    } else {
        &&& exists|mid: SessionState|
            send_stepped(head, mid, fresh) && sent(mid, after.current().unwrap(), plaintext, m)
        &&& after.previous() == SessionRecord::archived(head, before.previous())
    }
}

impl SessionRecord {
    /// Encrypts `plaintext` as `encrypt` does, with a ratchet key pair
    /// from the system's random generator where a ratchet step is due;
    /// with a sending chain the generator is not asked. `InvalidState`
    /// also where a step is due and the generator gave nothing. On an
    /// error the record stays as it was.
    pub fn encrypt_with_fresh_key(&mut self, plaintext: &[u8]) -> (out: Result<
        SignalMessage,
        SignalProtocolError,
    >)
        ensures
            old(self).well_formed() ==> final(self).well_formed(),
            match out {
                Ok(m) => exists|fresh: KeyPair|
                    x25519(fresh.private_key@, crate::curve::base_point()) == fresh.public_key@
                        && #[trigger] encrypted(*old(self), *final(self), plaintext@, fresh, m@),
                Err(e) => {
                    &&& final(self).current() == old(self).current()
                    &&& final(self).previous() == old(self).previous()
                    &&& e == SignalProtocolError::InvalidState || e
                        == SignalProtocolError::InvalidArgument
                    &&& old(self).current() is None ==> e == SignalProtocolError::InvalidState
                    &&& old(self).current() is Some && old(self).current().unwrap().sender_chain is Some ==> (e
                        == SignalProtocolError::InvalidState <==> !can_send(
                        old(self).current().unwrap(),
                    )) && (e == SignalProtocolError::InvalidArgument <==> can_send(
                        old(self).current().unwrap(),
                    ) && refused(
                        old(self).current().unwrap().sender_chain.unwrap().key@,
                        plaintext@,
                    ))
                },
            },
    {
        let fresh = match self.current_state() {
            Some(state) => {
                if state.sender_chain.is_some() {
                    KeyPair::from_private(state.local_ratchet_key.private_key)
                } else {
                    match KeyPair::generate() {
                        Ok(pair) => pair,
                        Err(e) => {
                            return Err(e);
                        },
                    }
                }
            },
            None => {
                return Err(SignalProtocolError::InvalidState);
            },
        };
        self.encrypt(plaintext, &fresh)
    }

    /// Encrypts `plaintext` in the current state. Where that state has no
    /// sending chain, a ratchet step with `fresh` as this side's new
    /// ratchet key pair comes first: the state that was current is
    /// archived and the stepped state takes its place. `InvalidState`
    /// without a current state or at the end of the sending chain;
    /// `InvalidArgument` where the plaintext is refused. On an error the
    /// record stays as it was.
    pub fn encrypt(&mut self, plaintext: &[u8], fresh: &KeyPair) -> (out: Result<
        SignalMessage,
        SignalProtocolError,
    >)
        ensures
            old(self).well_formed() ==> final(self).well_formed(),
            match out {
                Ok(m) => encrypted(*old(self), *final(self), plaintext@, *fresh, m@),
                Err(e) => {
                    &&& final(self).current() == old(self).current()
                    &&& final(self).previous() == old(self).previous()
                    &&& e == SignalProtocolError::InvalidState || e
                        == SignalProtocolError::InvalidArgument
                    &&& e == SignalProtocolError::InvalidState <==> (old(self).current() is None
                        || (old(self).current().unwrap().sender_chain is Some && !can_send(
                        old(self).current().unwrap(),
                    )))
                    &&& e == SignalProtocolError::InvalidArgument ==> refused(
                        match old(self).current().unwrap().sender_chain {
                            Some(chain) => chain.key@,
                            None => ratchet_keys(
                                old(self).current().unwrap().root_key@,
                                x25519(
                                    fresh.private_key@,
                                    old(self).current().unwrap().remote_ratchet_key@,
                                ),
                            ).1,
                        },
                        plaintext@,
                    )
                },
            },
    {
        let mut head = match self.current.take() {
            Some(head) => head,
            None => {
                return Err(SignalProtocolError::InvalidState);
            },
        };
        if head.sender_chain.is_some() {
            let out = head.encrypt_message(plaintext);
            self.current = Some(head);
            out
        } else {
            let mut next = head.send_step(fresh);
            let ghost mid = next;
            match next.encrypt_message(plaintext) {
                Ok(m) => {
                    self.current = Some(head);
                    self.promote_state(next);
                    assert(send_stepped(head, mid, *fresh) && sent(mid, next, plaintext@, m@));
                    Ok(m)
                },
                Err(e) => {
                    self.current = Some(head);
                    Err(e)
                },
            }
        }
    }

    /// Decrypts a message. The state that reads the message's ratchet key
    /// is looked for in the current state, then in the archived ones,
    /// newest first, and the message is read there. Where no state reads
    /// the key, the current state takes a ratchet step for receiving and
    /// the message is read in the stepped state; if that succeeds, the
    /// state that was current is archived and the stepped state takes its
    /// place. `InvalidState` where no state reads the key and there is no
    /// current state; `InvalidMessage` where the message cannot be read.
    /// On an error the record stays as it was.
    pub fn decrypt(&mut self, message: &SignalMessage) -> (out: Result<
        Vec<u8>,
        SignalProtocolError,
    >)
        ensures
            old(self).well_formed() ==> final(self).well_formed(),
            match out {
                Ok(plaintext) => decrypted(*old(self), *final(self), message@, plaintext@),
                Err(e) => {
                    &&& final(self).current() == old(self).current()
                    &&& final(self).previous() == old(self).previous()
                    &&& decrypt_error(*old(self), message@, e)
                },
            },
    {
        let key = *message.sender_ratchet_key();
        let head = self.current.take();
        let head = match head {
            Some(mut head) => {
                if head.reads_key(&key) {
                    let out = head.decrypt_message(message);
                    self.current = Some(head);
                    return out;
                }
                Some(head)
            },
            None => None,
        };
        self.current = head;
        let mut i: usize = 0;
        while i < self.previous.len()
            invariant
                i <= self.previous@.len(),
                self.previous@ == old(self).previous@,
                self.current == old(self).current,
                key@ == message@.sender_ratchet_key,
                !(old(self).current is Some && reads(old(self).current.unwrap(), key@)),
                forall|j: int| 0 <= j < i ==> !reads(self.previous@[j], key@),
            decreases self.previous@.len() - i,
        {
            if self.previous[i].reads_key(&key) {
                let mut state = self.previous.remove(i);
                let out = state.decrypt_message(message);
                let ghost after = state;
                self.previous.insert(i, state);
                proof {
                    let k = i as int;
                    assert(first_reader(old(self).previous@, key@, k));
                    assert(self.previous@ =~= old(self).previous@.update(k, after));
                    if out is Err {
                        assert(self.previous@ =~= old(self).previous@);
                    } else {
                        assert(received(
                            old(self).previous()[k],
                            self.previous()[k],
                            message@,
                            out.unwrap()@,
                        ));
                    }
                }
                return out;
            }
            i += 1;
        }
        let head = match self.current.take() {
            Some(head) => head,
            None => {
                return Err(SignalProtocolError::InvalidState);
            },
        };
        let mut next = head.receive_step(&key);
        let ghost mid = next;
        match next.decrypt_message(message) {
            Ok(plaintext) => {
                self.current = Some(head);
                self.promote_state(next);
                assert(receive_stepped(head, mid, key@) && received(
                    mid,
                    next,
                    message@,
                    plaintext@,
                ));
                Ok(plaintext)
            },
            Err(e) => {
                self.current = Some(head);
                Err(e)
            },
        }
    }
}

/// Whether `state` is the state that the initiator's set-up makes of
/// `p`: the keys of the handshake, a sending chain at position 0 under
/// the base key pair, and no receiving chain.
pub open spec fn alice_started(p: AliceParameters, state: SessionState) -> bool {
    &&& state.session_version == CURRENT_VERSION
    &&& state.local_identity_key == p.our_identity_key_pair.public_key
    &&& state.remote_identity_key == p.their_identity_key
    &&& state.root_key@ == initial_keys(alice_secret(p)).0
    &&& state.local_ratchet_key == p.our_base_key_pair
    &&& state.remote_ratchet_key == p.their_ratchet_key
    &&& state.sender_chain is Some
    &&& state.sender_chain.unwrap().index == 0
    &&& state.sender_chain.unwrap().key@ == initial_keys(alice_secret(p)).1
    &&& state.previous_counter == 0
    &&& state.receiver_chain is None
    &&& state.skipped@.len() == 0
    &&& state.alice_base_key == p.our_base_key_pair.public_key
}

/// Whether `state` is the state that the responder's set-up makes of
/// `p`: the keys of the handshake, a receiving chain at position 0 keyed
/// to the initiator's base key, and no sending chain.
pub open spec fn bob_started(p: BobParameters, state: SessionState) -> bool {
    &&& state.session_version == CURRENT_VERSION
    &&& state.local_identity_key == p.our_identity_key_pair.public_key
    &&& state.remote_identity_key == p.their_identity_key
    &&& state.root_key@ == initial_keys(bob_secret(p)).0
    &&& state.local_ratchet_key == p.our_ratchet_key_pair
    &&& state.remote_ratchet_key == p.their_base_key
    &&& state.sender_chain is None
    &&& state.receiver_chain is Some
    &&& state.receiver_chain.unwrap().0 == p.their_base_key
    &&& state.receiver_chain.unwrap().1.index == 0
    &&& state.receiver_chain.unwrap().1.key@ == initial_keys(bob_secret(p)).1
    &&& state.skipped@.len() == 0
    &&& state.alice_base_key == p.their_base_key
}

/// The first message that the initiator of a session sends is read by
/// the responder as the plaintext that was sent, where the two sides hold
/// matching key material and the cipher opens what it sealed.
pub proof fn lemma_first_message_is_read(
    a: AliceParameters,
    b: BobParameters,
    alice: SessionState,
    alice_after: SessionState,
    bob: SessionState,
    plaintext: Seq<u8>,
    m: crate::signal_message::SignalMessageView,
)
    requires
        matching(a, b),
        alice_started(a, alice),
        bob_started(b, bob),
        sent(alice, alice_after, plaintext, m),
        opens_what_it_sealed(message_key_of(initial_keys(alice_secret(a)).1), plaintext),
    ensures
        readable(bob, m),
        forall|next: SessionState, out: Seq<u8>| #[trigger]
            received(bob, next, m, out) ==> out == plaintext,
{
    lemma_agreement_symmetry(a, b);
    lemma_sent_message_is_read(alice, alice_after, bob, plaintext, m);
}

/// Whether a state of the record belongs to the handshake with this base
/// key.
pub open spec fn knows_handshake(record: SessionRecord, base_key: Seq<u8>) -> bool {
    (record.current() is Some && record.current().unwrap().alice_base_key@ == base_key) || exists|
        i: int,
    |
        0 <= i < record.previous().len() && (#[trigger] record.previous()[i]).alice_base_key@
            == base_key
}

impl SessionRecord {
    /// Whether a state of the record belongs to the handshake with this
    /// base key.
    pub fn has_session_for(&self, base_key: &PublicKey) -> (out: bool)
        ensures
            out == knows_handshake(*self, base_key@),
    {
        match &self.current {
            Some(state) => {
                if state.alice_base_key.equals(base_key) {
                    return true;
                }
            },
            None => {},
        }
        let mut i: usize = 0;
        while i < self.previous.len()
            invariant
                i <= self.previous@.len(),
                forall|j: int| 0 <= j < i ==> self.previous@[j].alice_base_key@ != base_key@,
            decreases self.previous@.len() - i,
        {
            if self.previous[i].alice_base_key.equals(base_key) {
                return true;
            }
            i += 1;
        }
        false
    }

    /// Reads the first message of a session. Where the record knows the
    /// message's handshake already, the inner message is decrypted as any
    /// other. Where it does not, the responder's state is set up from the
    /// message and this side's key pairs and the inner message is read in
    /// it; if that succeeds, the new state becomes the current one and the
    /// state that was current is archived. `InvalidArgument` where the
    /// message names a one-time pre-key and none is given, or the other
    /// way round; otherwise the errors of `decrypt`. On an error the
    /// record stays as it was.
    pub fn decrypt_pre_key_message(
        &mut self,
        message: &PreKeySignalMessage,
        our_identity_key_pair: KeyPair,
        our_signed_pre_key_pair: KeyPair,
        our_one_time_pre_key_pair: Option<KeyPair>,
        our_ratchet_key_pair: KeyPair,
    ) -> (out: Result<Vec<u8>, SignalProtocolError>)
        ensures
            old(self).well_formed() ==> final(self).well_formed(),
            match out {
                Ok(plaintext) => if knows_handshake(*old(self), message@.base_key) {
                    decrypted(*old(self), *final(self), message@.message, plaintext@)
                } else {
                    &&& (message@.pre_key_id is Some) == (our_one_time_pre_key_pair is Some)
                    &&& final(self).current() is Some
                    &&& final(self).previous() == (match old(self).current() {
                        Some(before) => Self::archived(before, old(self).previous()),
                        None => old(self).previous(),
                    })
                    &&& exists|p: BobParameters, start: SessionState|
                        #[trigger] bob_started(p, start) && p.our_identity_key_pair
                            == our_identity_key_pair && p.our_signed_pre_key_pair
                            == our_signed_pre_key_pair && p.our_one_time_pre_key_pair
                            == our_one_time_pre_key_pair && p.our_ratchet_key_pair
                            == our_ratchet_key_pair && p.their_identity_key@
                            == message@.identity_key && p.their_base_key@ == message@.base_key
                            && received(
                            start,
                            final(self).current().unwrap(),
                            message@.message,
                            plaintext@,
                        )
                },
                Err(e) => {
                    &&& final(self).current() == old(self).current()
                    &&& final(self).previous() == old(self).previous()
                    &&& knows_handshake(*old(self), message@.base_key) ==> decrypt_error(
                        *old(self),
                        message@.message,
                        e,
                    )
                    &&& !knows_handshake(*old(self), message@.base_key) ==> (e
                        == SignalProtocolError::InvalidArgument <==> (message@.pre_key_id is Some)
                        != (our_one_time_pre_key_pair is Some))
                    &&& !knows_handshake(*old(self), message@.base_key) && e
                        != SignalProtocolError::InvalidArgument ==> e
                        == SignalProtocolError::InvalidMessage && exists|
                        p: BobParameters,
                        start: SessionState,
                    |
                        #[trigger] bob_started(p, start) && p.our_identity_key_pair
                            == our_identity_key_pair && p.our_signed_pre_key_pair
                            == our_signed_pre_key_pair && p.our_one_time_pre_key_pair
                            == our_one_time_pre_key_pair && p.our_ratchet_key_pair
                            == our_ratchet_key_pair && p.their_identity_key@
                            == message@.identity_key && p.their_base_key@ == message@.base_key
                            && !readable(start, message@.message)
                },
            },
    {
        if self.has_session_for(message.base_key()) {
            return self.decrypt(message.message());
        }
        let parameters = match bob_parameters_for_message(
            our_identity_key_pair,
            our_signed_pre_key_pair,
            our_one_time_pre_key_pair,
            our_ratchet_key_pair,
            message,
        ) {
            Ok(p) => p,
            Err(e) => {
                return Err(e);
            },
        };
        let mut state = initialize_bob_session(&parameters);
        let ghost start = state;
        match state.decrypt_message(message.message()) {
            Ok(plaintext) => {
                self.promote_state(state);
                assert(bob_started(parameters, start) && received(
                    start,
                    state,
                    message@.message,
                    plaintext@,
                ));
                Ok(plaintext)
            },
            Err(e) => {
                assert(bob_started(parameters, start) && !readable(start, message@.message));
                Err(e)
            },
        }
    }
}

/// The record of a session that this side opened: its one state is the
/// initiator's.
pub fn initialize_alice_session_record(p: &AliceParameters) -> (out: SessionRecord)
    ensures
        out.well_formed(),
        out.previous().len() == 0,
        out.current() is Some,
        alice_started(*p, out.current().unwrap()),
{
    SessionRecord::from_state(initialize_alice_session(p))
}

/// The record of a session that the peer opened: its one state is the
/// responder's.
pub fn initialize_bob_session_record(p: &BobParameters) -> (out: SessionRecord)
    ensures
        out.well_formed(),
        out.previous().len() == 0,
        out.current() is Some,
        bob_started(*p, out.current().unwrap()),
{
    SessionRecord::from_state(initialize_bob_session(p))
}

} // verus!
