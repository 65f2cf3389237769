use vstd::prelude::*;
use crate::bytes::{array32_at, lemma_head_tail};
use crate::curve::{KeyPair, PrivateKey, PublicKey};
use crate::error::SignalProtocolError;
use crate::ratchet::{ChainKey, MessageKey};
use crate::session::{SessionRecord, SessionState, MAX_ARCHIVED_STATES};
use crate::wire::{
    bytes_field, lemma_bytes_field_round_trip, lemma_field_len,
    lemma_optional_bytes_field_round_trip, lemma_u32_field_round_trip, optional_bytes_field,
    parse_bytes_field, parse_optional_bytes_field, parse_u32_field, read_bytes_field,
    read_optional_bytes_field, read_u32_field, u32_field, write_bytes_field, write_u32_field,
};

verus! {

/// What a stored session state holds.
pub struct SessionStateView {
    pub session_version: u32,
    pub local_identity_key: Seq<u8>,
    pub remote_identity_key: Seq<u8>,
    pub root_key: Seq<u8>,
    pub local_ratchet_public: Seq<u8>,
    pub local_ratchet_private: Seq<u8>,
    pub remote_ratchet_key: Seq<u8>,
    pub alice_base_key: Seq<u8>,
    pub sender_chain: Option<(u32, Seq<u8>)>,
    pub previous_counter: u32,
    pub receiver_chain: Option<(Seq<u8>, u32, Seq<u8>)>,
    pub local_registration_id: u32,
    pub remote_registration_id: u32,
    pub skipped: Seq<(u32, Seq<u8>)>,
}

/// Kept message keys as storage holds them: the counter and the key.
pub open spec fn keys_view(keys: Seq<MessageKey>) -> Seq<(u32, Seq<u8>)> {
    Seq::new(keys.len(), |i: int| (keys[i].counter, keys[i].key@))
}

/// A session state as storage holds it.
pub open spec fn state_view(s: SessionState) -> SessionStateView {
    SessionStateView {
        session_version: s.session_version,
        local_identity_key: s.local_identity_key@,
        remote_identity_key: s.remote_identity_key@,
        root_key: s.root_key@,
        local_ratchet_public: s.local_ratchet_key.public_key@,
        local_ratchet_private: s.local_ratchet_key.private_key@,
        remote_ratchet_key: s.remote_ratchet_key@,
        alice_base_key: s.alice_base_key@,
        sender_chain: match s.sender_chain {
            Some(chain) => Some((chain.index, chain.key@)),
            None => None,
        },
        previous_counter: s.previous_counter,
        receiver_chain: match s.receiver_chain {
            Some(chain) => Some((chain.0@, chain.1.index, chain.1.key@)),
            None => None,
        },
        local_registration_id: s.local_registration_id,
        remote_registration_id: s.remote_registration_id,
        skipped: keys_view(s.skipped@),
    }
}

/// A key with its position, in storage: the position, then the key.
pub open spec fn counted(index: u32, key: Seq<u8>) -> Seq<u8> {
    u32_field(8, index) + bytes_field(18, key)
}

/// The position and the key of 32 bytes that `data` stores, if any.
pub open spec fn parse_counted(data: Seq<u8>) -> Option<(u32, Seq<u8>)> {
    match parse_u32_field(8, data) {
        Some((index, r1)) => match parse_bytes_field(18, r1) {
            Some((key, r2)) => if r2.len() == 0 && key.len() == 32 {
                Some((index, key))
            } else {
                None
            },
            None => None,
        },
        None => None,
    }
}

/// A stored key with its position is read back.
pub proof fn lemma_counted_round_trip(index: u32, key: Seq<u8>)
    requires
        key.len() == 32,
    ensures
        parse_counted(counted(index, key)) == Some((index, key)),
        counted(index, key).len() <= 44,
{
    let empty = Seq::<u8>::empty();
    let f2 = bytes_field(18, key);
    assert(f2 + empty =~= f2);
    lemma_u32_field_round_trip(8, index, f2);
    lemma_bytes_field_round_trip(18, key, empty);
    lemma_field_len(18, key, index);
}

/// A receiving chain in storage: the peer's ratchet key, then the chain
/// key with its position.
pub open spec fn receiver_wire(chain: (Seq<u8>, u32, Seq<u8>)) -> Seq<u8> {
    bytes_field(10, chain.0) + bytes_field(18, counted(chain.1, chain.2))
}

/// The receiving chain that `data` stores, if any.
pub open spec fn parse_receiver(data: Seq<u8>) -> Option<(Seq<u8>, u32, Seq<u8>)> {
    match parse_bytes_field(10, data) {
        Some((ratchet_key, r1)) => match parse_bytes_field(18, r1) {
            Some((chain, r2)) => match parse_counted(chain) {
                Some((index, key)) => if r2.len() == 0 && ratchet_key.len() == 32 {
                    Some((ratchet_key, index, key))
                } else {
                    None
                },
                None => None,
            },
            None => None,
        },
        None => None,
    }
}

/// A stored receiving chain is read back.
pub proof fn lemma_receiver_round_trip(chain: (Seq<u8>, u32, Seq<u8>))
    requires
        chain.0.len() == 32,
        chain.2.len() == 32,
    ensures
        parse_receiver(receiver_wire(chain)) == Some(chain),
        receiver_wire(chain).len() <= 100,
{
    let empty = Seq::<u8>::empty();
    let inner = counted(chain.1, chain.2);
    let f2 = bytes_field(18, inner);
    assert(f2 + empty =~= f2);
    lemma_counted_round_trip(chain.1, chain.2);
    lemma_bytes_field_round_trip(10, chain.0, f2);
    lemma_bytes_field_round_trip(18, inner, empty);
    lemma_field_len(10, chain.0, 0);
    lemma_field_len(18, inner, 0);
}

/// One kept message key in storage, as a field.
pub open spec fn key_field(key: (u32, Seq<u8>)) -> Seq<u8> {
    bytes_field(10, counted(key.0, key.1))
}

/// The kept message keys in storage: each as a field, in their order.
pub open spec fn keys_wire(keys: Seq<(u32, Seq<u8>)>) -> Seq<u8>
    decreases keys.len(),
{
    if keys.len() == 0 {
        Seq::<u8>::empty()
    } else {
        key_field(keys[0]) + keys_wire(keys.skip(1))
    }
}

/// The kept message keys that `data` stores, if any.
pub open spec fn parse_keys(data: Seq<u8>) -> Option<Seq<(u32, Seq<u8>)>>
    decreases data.len(),
{
    if data.len() == 0 {
        Some(Seq::<(u32, Seq<u8>)>::empty())
    } else {
        match parse_bytes_field(10, data) {
            Some((body, rest)) => match parse_counted(body) {
                Some(key) => if rest.len() < data.len() {
                    match parse_keys(rest) {
                        Some(more) => Some(seq![key] + more),
                        None => None,
                    }
                } else {
                    None
                },
                None => None,
            },
            None => None,
        }
    }
}

/// Whether every key of a list has 32 bytes.
pub open spec fn valid_keys(keys: Seq<(u32, Seq<u8>)>) -> bool {
    forall|i: int| 0 <= i < keys.len() ==> (#[trigger] keys[i]).1.len() == 32
}

/// Stored message keys are read back.
pub proof fn lemma_keys_round_trip(keys: Seq<(u32, Seq<u8>)>)
    requires
        valid_keys(keys),
    ensures
        parse_keys(keys_wire(keys)) == Some(keys),
    decreases keys.len(),
{
    if keys.len() == 0 {
        assert(keys =~= Seq::<(u32, Seq<u8>)>::empty());
    } else {
        let rest = keys_wire(keys.skip(1));
        let body = counted(keys[0].0, keys[0].1);
        assert(valid_keys(keys.skip(1))) by {
            assert forall|i: int| 0 <= i < keys.skip(1).len() implies (#[trigger] keys.skip(
                1,
            )[i]).1.len() == 32 by {
                assert(keys.skip(1)[i] == keys[i + 1]);
            }
        }
        lemma_keys_round_trip(keys.skip(1));
        lemma_counted_round_trip(keys[0].0, keys[0].1);
        lemma_bytes_field_round_trip(10, body, rest);
        lemma_field_len(10, body, 0);
        assert(seq![keys[0]] + keys.skip(1) =~= keys);
    }
}

/// A key put behind a list is stored behind the list.
pub proof fn lemma_keys_wire_push(keys: Seq<(u32, Seq<u8>)>, key: (u32, Seq<u8>))
    ensures
        keys_wire(keys.push(key)) == keys_wire(keys) + key_field(key),
    decreases keys.len(),
{
    if keys.len() == 0 {
        let tail = keys.push(key).skip(1);
        assert(tail.len() == 0);
        assert(keys_wire(tail) =~= Seq::<u8>::empty());
        assert(keys_wire(keys) =~= Seq::<u8>::empty());
        assert(keys.push(key)[0] == key);
        assert(keys_wire(keys.push(key)) =~= keys_wire(keys) + key_field(key));
    } else {
        lemma_keys_wire_push(keys.skip(1), key);
        assert(keys.push(key).skip(1) =~= keys.skip(1).push(key));
        assert(keys_wire(keys.push(key)) =~= keys_wire(keys) + key_field(key));
    }
}

/// The first part of a state in storage: the version and the keys.
pub open spec fn keys_part(v: SessionStateView) -> Seq<u8> {
    u32_field(8, v.session_version) + (bytes_field(18, v.local_identity_key) + (bytes_field(
        26,
        v.remote_identity_key,
    ) + (bytes_field(34, v.root_key) + (bytes_field(42, v.local_ratchet_public) + (bytes_field(
        50,
        v.local_ratchet_private,
    ) + (bytes_field(58, v.remote_ratchet_key) + bytes_field(66, v.alice_base_key)))))))
}

/// The second part of a state in storage: the chains, the counters, the
/// registration ids and the kept message keys.
pub open spec fn chains_part(v: SessionStateView) -> Seq<u8> {
    optional_bytes_field(
        10,
        match v.sender_chain {
            Some(chain) => Some(counted(chain.0, chain.1)),
            None => None,
        },
    ) + (u32_field(16, v.previous_counter) + (optional_bytes_field(
        26,
        match v.receiver_chain {
            Some(chain) => Some(receiver_wire(chain)),
            None => None,
        },
    ) + (u32_field(32, v.local_registration_id) + (u32_field(40, v.remote_registration_id)
        + bytes_field(50, keys_wire(v.skipped))))))
}

/// A state in storage: its two parts, each as a field.
#[verifier::opaque]
pub open spec fn state_wire(v: SessionStateView) -> Seq<u8> {
    bytes_field(10, keys_part(v)) + bytes_field(18, chains_part(v))
}

/// A state without chains, counters, ids or kept keys.
pub open spec fn bare_state(
    session_version: u32,
    local_identity_key: Seq<u8>,
    remote_identity_key: Seq<u8>,
    root_key: Seq<u8>,
    local_ratchet_public: Seq<u8>,
    local_ratchet_private: Seq<u8>,
    remote_ratchet_key: Seq<u8>,
    alice_base_key: Seq<u8>,
) -> SessionStateView {
    SessionStateView {
        session_version,
        local_identity_key,
        remote_identity_key,
        root_key,
        local_ratchet_public,
        local_ratchet_private,
        remote_ratchet_key,
        alice_base_key,
        sender_chain: None,
        previous_counter: 0,
        receiver_chain: None,
        local_registration_id: 0,
        remote_registration_id: 0,
        skipped: Seq::empty(),
    }
}

/// The version and the keys that `data` stores as the first part of a
/// state, if any.
pub open spec fn parse_keys_part(data: Seq<u8>) -> Option<SessionStateView> {
    match parse_u32_field(8, data) {
        Some((version, r1)) => match parse_bytes_field(18, r1) {
            Some((k1, r2)) => match parse_bytes_field(26, r2) {
                Some((k2, r3)) => match parse_bytes_field(34, r3) {
                    Some((k3, r4)) => match parse_bytes_field(42, r4) {
                        Some((k4, r5)) => match parse_bytes_field(50, r5) {
                            Some((k5, r6)) => match parse_bytes_field(58, r6) {
                                Some((k6, r7)) => match parse_bytes_field(66, r7) {
                                    Some((k7, r8)) => if r8.len() == 0 && k1.len() == 32
                                        && k2.len() == 32 && k3.len() == 32 && k4.len() == 32
                                        && k5.len() == 32 && k6.len() == 32 && k7.len() == 32 {
                                        Some(bare_state(version, k1, k2, k3, k4, k5, k6, k7))
                                    } else {
                                        None
                                    },
                                    None => None,
                                },
                                None => None,
                            },
                            None => None,
                        },
                        None => None,
                    },
                    None => None,
                },
                None => None,
            },
            None => None,
        },
        None => None,
    }
}

/// A chain that may be absent, read from what may be stored of it.
pub open spec fn parse_optional_counted(stored: Option<Seq<u8>>) -> Option<Option<(u32, Seq<u8>)>> {
    match stored {
        Some(bytes) => match parse_counted(bytes) {
            Some(chain) => Some(Some(chain)),
            None => None,
        },
        None => Some(None),
    }
}

/// A receiving chain that may be absent, read from what may be stored of
/// it.
pub open spec fn parse_optional_receiver(stored: Option<Seq<u8>>) -> Option<
    Option<(Seq<u8>, u32, Seq<u8>)>,
> {
    match stored {
        Some(bytes) => match parse_receiver(bytes) {
            Some(chain) => Some(Some(chain)),
            None => None,
        },
        None => Some(None),
    }
}

/// The state `base` with the chains, counters, ids and kept keys that
/// `data` stores as the second part of a state, if any.
pub open spec fn parse_chains_part(data: Seq<u8>, base: SessionStateView) -> Option<
    SessionStateView,
> {
    match parse_optional_bytes_field(10, data) {
        Some((sender, r1)) => match parse_u32_field(16, r1) {
            Some((previous_counter, r2)) => match parse_optional_bytes_field(26, r2) {
                Some((receiver, r3)) => match parse_u32_field(32, r3) {
                    Some((local_registration_id, r4)) => match parse_u32_field(40, r4) {
                        Some((remote_registration_id, r5)) => match parse_bytes_field(50, r5) {
                            Some((keys, r6)) => match (
                                parse_optional_counted(sender),
                                parse_optional_receiver(receiver),
                                parse_keys(keys),
                            ) {
                                (Some(sender_chain), Some(receiver_chain), Some(skipped)) => if r6.len()
                                    == 0 {
                                    Some(
                                        SessionStateView {
                                            sender_chain,
                                            previous_counter,
                                            receiver_chain,
                                            local_registration_id,
                                            remote_registration_id,
                                            skipped,
                                            ..base
                                        },
                                    )
                                } else {
                                    None
                                },
                                _ => None,
                            },
                            None => None,
                        },
                        None => None,
                    },
                    None => None,
                },
                None => None,
            },
            None => None,
        },
        None => None,
    }
}

/// The state that `data` is the stored form of, if any.
#[verifier::opaque]
pub open spec fn parse_state(data: Seq<u8>) -> Option<SessionStateView> {
    match parse_bytes_field(10, data) {
        Some((first, r1)) => match parse_bytes_field(18, r1) {
            Some((second, r2)) => match parse_keys_part(first) {
                Some(base) => if r2.len() == 0 {
                    parse_chains_part(second, base)
                } else {
                    None
                },
                None => None,
            },
            None => None,
        },
        None => None,
    }
}

/// Whether a state can be stored: its keys have 32 bytes each, and its
/// kept message keys and its second part have less than 4 GiB in
/// storage.
#[verifier::opaque]
pub open spec fn storable(v: SessionStateView) -> bool {
    &&& v.local_identity_key.len() == 32
    &&& v.remote_identity_key.len() == 32
    &&& v.root_key.len() == 32
    &&& v.local_ratchet_public.len() == 32
    &&& v.local_ratchet_private.len() == 32
    &&& v.remote_ratchet_key.len() == 32
    &&& v.alice_base_key.len() == 32
    &&& v.sender_chain is Some ==> v.sender_chain.unwrap().1.len() == 32
    &&& v.receiver_chain is Some ==> v.receiver_chain.unwrap().0.len() == 32
        && v.receiver_chain.unwrap().2.len() == 32
    &&& valid_keys(v.skipped)
    &&& keys_wire(v.skipped).len() <= u32::MAX
    &&& chains_part(v).len() <= u32::MAX
}

/// Reading the first part of a stored state gives its version and keys
/// back.
pub proof fn lemma_keys_part_round_trip(v: SessionStateView)
    requires
        storable(v),
    ensures
        parse_keys_part(keys_part(v)) == Some(
            bare_state(
                v.session_version,
                v.local_identity_key,
                v.remote_identity_key,
                v.root_key,
                v.local_ratchet_public,
                v.local_ratchet_private,
                v.remote_ratchet_key,
                v.alice_base_key,
            ),
        ),
        keys_part(v).len() <= 400,
{
    reveal(storable);
    let empty = Seq::<u8>::empty();
    let f8 = bytes_field(66, v.alice_base_key);
    let r7 = f8;
    let r6 = bytes_field(58, v.remote_ratchet_key) + r7;
    let r5 = bytes_field(50, v.local_ratchet_private) + r6;
    let r4 = bytes_field(42, v.local_ratchet_public) + r5;
    let r3 = bytes_field(34, v.root_key) + r4;
    let r2 = bytes_field(26, v.remote_identity_key) + r3;
    let r1 = bytes_field(18, v.local_identity_key) + r2;
    assert(f8 + empty =~= f8);
    lemma_u32_field_round_trip(8, v.session_version, r1);
    lemma_bytes_field_round_trip(18, v.local_identity_key, r2);
    lemma_bytes_field_round_trip(26, v.remote_identity_key, r3);
    lemma_bytes_field_round_trip(34, v.root_key, r4);
    lemma_bytes_field_round_trip(42, v.local_ratchet_public, r5);
    lemma_bytes_field_round_trip(50, v.local_ratchet_private, r6);
    lemma_bytes_field_round_trip(58, v.remote_ratchet_key, r7);
    lemma_bytes_field_round_trip(66, v.alice_base_key, empty);
    lemma_field_len(18, v.local_identity_key, v.session_version);
    lemma_field_len(26, v.remote_identity_key, 0);
    lemma_field_len(34, v.root_key, 0);
    lemma_field_len(42, v.local_ratchet_public, 0);
    lemma_field_len(50, v.local_ratchet_private, 0);
    lemma_field_len(58, v.remote_ratchet_key, 0);
    lemma_field_len(66, v.alice_base_key, 0);
}

/// Reading the second part of a stored state gives its chains, counters,
/// ids and kept keys back.
pub proof fn lemma_chains_part_round_trip(v: SessionStateView, base: SessionStateView)
    requires
        storable(v),
    ensures
        parse_chains_part(chains_part(v), base) == Some(
            SessionStateView {
                sender_chain: v.sender_chain,
                previous_counter: v.previous_counter,
                receiver_chain: v.receiver_chain,
                local_registration_id: v.local_registration_id,
                remote_registration_id: v.remote_registration_id,
                skipped: v.skipped,
                ..base
            },
        ),
{
    reveal(storable);
    let empty = Seq::<u8>::empty();
    let sender = match v.sender_chain {
        Some(chain) => Some(counted(chain.0, chain.1)),
        None => None,
    };
    let receiver = match v.receiver_chain {
        Some(chain) => Some(receiver_wire(chain)),
        None => None,
    };
    let f6 = bytes_field(50, keys_wire(v.skipped));
    let r5 = f6;
    let r4 = u32_field(40, v.remote_registration_id) + r5;
    let r3 = u32_field(32, v.local_registration_id) + r4;
    let r2 = optional_bytes_field(26, receiver) + r3;
    let r1 = u32_field(16, v.previous_counter) + r2;
    assert(f6 + empty =~= f6);
    assert(r1[0] == 16) by {
        assert(u32_field(16, v.previous_counter)[0] == 16);
    }
    assert(r3[0] == 32) by {
        assert(u32_field(32, v.local_registration_id)[0] == 32);
    }
    if v.sender_chain is Some {
        lemma_counted_round_trip(v.sender_chain.unwrap().0, v.sender_chain.unwrap().1);
    }
    if v.receiver_chain is Some {
        lemma_receiver_round_trip(v.receiver_chain.unwrap());
    }
    lemma_keys_round_trip(v.skipped);
    lemma_optional_bytes_field_round_trip(10, sender, r1);
    lemma_u32_field_round_trip(16, v.previous_counter, r2);
    lemma_optional_bytes_field_round_trip(26, receiver, r3);
    lemma_u32_field_round_trip(32, v.local_registration_id, r4);
    lemma_u32_field_round_trip(40, v.remote_registration_id, r5);
    lemma_bytes_field_round_trip(50, keys_wire(v.skipped), empty);
    assert(parse_optional_bytes_field(10, chains_part(v)) == Some((sender, r1)));
    assert(parse_u32_field(16, r1) == Some((v.previous_counter, r2)));
    assert(parse_optional_bytes_field(26, r2) == Some((receiver, r3)));
    assert(parse_u32_field(32, r3) == Some((v.local_registration_id, r4)));
    assert(parse_u32_field(40, r4) == Some((v.remote_registration_id, r5)));
    assert(parse_bytes_field(50, r5) == Some((keys_wire(v.skipped), empty)));
}

/// Reading the stored form of a state that can be stored gives the state
/// back.
pub proof fn lemma_state_round_trip(v: SessionStateView)
    requires
        storable(v),
    ensures
        parse_state(state_wire(v)) == Some(v),
{
    reveal(storable);
    reveal(state_wire);
    reveal(parse_state);
    let empty = Seq::<u8>::empty();
    let f2 = bytes_field(18, chains_part(v));
    assert(f2 + empty =~= f2);
    lemma_keys_part_round_trip(v);
    let base = parse_keys_part(keys_part(v)).unwrap();
    lemma_chains_part_round_trip(v, base);
    lemma_bytes_field_round_trip(10, keys_part(v), f2);
    lemma_bytes_field_round_trip(18, chains_part(v), empty);
    assert(parse_chains_part(chains_part(v), base).unwrap() == v);
}

fn counted_bytes(index: u32, key: &[u8; 32]) -> (out: Vec<u8>)
    ensures
        out@ == counted(index, key@),
{
    let mut out: Vec<u8> = Vec::new();
    write_u32_field(&mut out, 8, index);
    write_bytes_field(&mut out, 18, key.as_slice());
    assert(out@ =~= counted(index, key@));
    out
}

fn read_counted(data: &[u8]) -> (out: Option<(u32, [u8; 32])>)
    ensures
        match out {
            Some((index, key)) => parse_counted(data@) == Some((index, key@)),
            None => parse_counted(data@) is None,
        },
{
    assert(data@.skip(0) =~= data@);
    let (index, at1) = match read_u32_field(data, 0, 8) {
        Some(found) => found,
        None => {
            return None;
        },
    };
    let (key, at2) = match read_bytes_field(data, at1, 18) {
        Some(found) => found,
        None => {
            return None;
        },
    };
    if at2 != data.len() || key.len() != 32 {
        return None;
    }
    let bytes = array32_at(key.as_slice(), 0);
    assert(bytes@ =~= key@);
    Some((index, bytes))
}

fn receiver_bytes(ratchet_key: &PublicKey, chain: &ChainKey) -> (out: Vec<u8>)
    ensures
        out@ == receiver_wire((ratchet_key@, chain.index, chain.key@)),
{
    let mut out: Vec<u8> = Vec::new();
    write_bytes_field(&mut out, 10, ratchet_key.public_key_bytes().as_slice());
    let inner = counted_bytes(chain.index, &chain.key);
    write_bytes_field(&mut out, 18, inner.as_slice());
    assert(out@ =~= receiver_wire((ratchet_key@, chain.index, chain.key@)));
    out
}

fn read_receiver(data: &[u8]) -> (out: Option<(PublicKey, ChainKey)>)
    ensures
        match out {
            Some((ratchet_key, chain)) => parse_receiver(data@) == Some(
                (ratchet_key@, chain.index, chain.key@),
            ),
            None => parse_receiver(data@) is None,
        },
{
    assert(data@.skip(0) =~= data@);
    let (ratchet_key, at1) = match read_bytes_field(data, 0, 10) {
        Some(found) => found,
        None => {
            return None;
        },
    };
    let (inner, at2) = match read_bytes_field(data, at1, 18) {
        Some(found) => found,
        None => {
            return None;
        },
    };
    let (index, key) = match read_counted(inner.as_slice()) {
        Some(found) => found,
        None => {
            return None;
        },
    };
    if at2 != data.len() || ratchet_key.len() != 32 {
        return None;
    }
    let bytes = array32_at(ratchet_key.as_slice(), 0);
    assert(bytes@ =~= ratchet_key@);
    Some((PublicKey::from_bytes(bytes), ChainKey::new(key, index)))
}

fn write_keys(keys: &Vec<MessageKey>) -> (out: Vec<u8>)
    ensures
        out@ == keys_wire(keys_view(keys@)),
{
    let ghost all = keys_view(keys@);
    let mut out: Vec<u8> = Vec::new();
    let mut i: usize = 0;
    assert(all.subrange(0, 0) =~= Seq::<(u32, Seq<u8>)>::empty());
    while i < keys.len()
        invariant
            i <= keys@.len(),
            all == keys_view(keys@),
            out@ == keys_wire(all.subrange(0, i as int)),
        decreases keys@.len() - i,
    {
        let body = counted_bytes(keys[i].counter, &keys[i].key);
        write_bytes_field(&mut out, 10, body.as_slice());
        proof {
            lemma_keys_wire_push(all.subrange(0, i as int), all[i as int]);
            assert(all.subrange(0, i + 1) =~= all.subrange(0, i as int).push(all[i as int]));
        }
        i += 1;
    }
    assert(all.subrange(0, all.len() as int) =~= all);
    out
}

fn read_keys(data: &[u8]) -> (out: Option<Vec<MessageKey>>)
    ensures
        match out {
            Some(keys) => parse_keys(data@) == Some(keys_view(keys@)),
            None => parse_keys(data@) is None,
        },
{
    let mut keys: Vec<MessageKey> = Vec::new();
    let mut pos: usize = 0;
    assert(data@.skip(0) =~= data@);
    assert(keys_view(keys@) =~= Seq::<(u32, Seq<u8>)>::empty());
    assert(forall|more: Seq<(u32, Seq<u8>)>| keys_view(keys@) + more =~= more);
    while pos < data.len()
        invariant
            pos <= data@.len(),
            parse_keys(data@) == match parse_keys(data@.skip(pos as int)) {
                Some(more) => Some(keys_view(keys@) + more),
                None => None,
            },
        decreases data@.len() - pos,
    {
        let ghost tail = data@.skip(pos as int);
        let ghost before = keys_view(keys@);
        let (body, next) = match read_bytes_field(data, pos, 10) {
            Some(found) => found,
            None => {
                return None;
            },
        };
        let (counter, key) = match read_counted(body.as_slice()) {
            Some(found) => found,
            None => {
                return None;
            },
        };
        keys.push(MessageKey { key, counter });
        proof {
            let v = (counter, key@);
            let after = keys_view(keys@);
            assert(after =~= before + seq![v]);
            match parse_keys(data@.skip(next as int)) {
                Some(more) => {
                    assert(parse_keys(tail) == Some(seq![v] + more));
                    assert(before + (seq![v] + more) =~= after + more);
                },
                None => {},
            }
        }
        pos = next;
    }
    proof {
        let done = keys_view(keys@);
        assert(done + Seq::<(u32, Seq<u8>)>::empty() =~= done);
    }
    Some(keys)
}

fn write_keys_part(state: &SessionState) -> (out: Vec<u8>)
    ensures
        out@ == keys_part(state_view(*state)),
{
    let mut out: Vec<u8> = Vec::new();
    write_u32_field(&mut out, 8, state.session_version);
    write_bytes_field(&mut out, 18, state.local_identity_key.public_key_bytes().as_slice());
    write_bytes_field(&mut out, 26, state.remote_identity_key.public_key_bytes().as_slice());
    write_bytes_field(&mut out, 34, state.root_key.as_slice());
    write_bytes_field(&mut out, 42, state.local_ratchet_key.public_key.public_key_bytes().as_slice());
    write_bytes_field(&mut out, 50, state.local_ratchet_key.private_key.key_bytes().as_slice());
    write_bytes_field(&mut out, 58, state.remote_ratchet_key.public_key_bytes().as_slice());
    write_bytes_field(&mut out, 66, state.alice_base_key.public_key_bytes().as_slice());
    assert(out@ =~= keys_part(state_view(*state)));
    out
}

fn write_chains_part(state: &SessionState, keys: &[u8]) -> (out: Vec<u8>)
    requires
        keys@ == keys_wire(state_view(*state).skipped),
    ensures
        out@ == chains_part(state_view(*state)),
{
    let mut out: Vec<u8> = Vec::new();
    match state.sender_chain {
        Some(chain) => {
            let bytes = counted_bytes(chain.index, &chain.key);
            write_bytes_field(&mut out, 10, bytes.as_slice());
        },
        None => {},
    }
    write_u32_field(&mut out, 16, state.previous_counter);
    let ghost before = out@;
    match &state.receiver_chain {
        Some(chain) => {
            let bytes = receiver_bytes(&chain.0, &chain.1);
            write_bytes_field(&mut out, 26, bytes.as_slice());
        },
        None => {
            assert(out@ =~= before + Seq::<u8>::empty());
        },
    }
    write_u32_field(&mut out, 32, state.local_registration_id);
    write_u32_field(&mut out, 40, state.remote_registration_id);
    write_bytes_field(&mut out, 50, keys);
    assert(out@ =~= chains_part(state_view(*state)));
    out
}

/// The bytes of a state in storage. `InvalidState` for a state whose kept
/// message keys or second part would have 4 GiB or more.
pub fn serialize_state(state: &SessionState) -> (out: Result<Vec<u8>, SignalProtocolError>)
    ensures
        match out {
            Ok(bytes) => storable(state_view(*state)) && bytes@ == state_wire(state_view(*state))
                && parse_state(bytes@) == Some(state_view(*state)),
            Err(e) => e == SignalProtocolError::InvalidState && !storable(state_view(*state)),
        },
{
    proof {
        reveal(storable);
        reveal(state_wire);
    }
    let ghost v = state_view(*state);
    let first = write_keys_part(state);
    let keys = write_keys(&state.skipped);
    if keys.len() > 0xffff_ffff {
        return Err(SignalProtocolError::InvalidState);
    }
    let second = write_chains_part(state, keys.as_slice());
    if second.len() > 0xffff_ffff {
        return Err(SignalProtocolError::InvalidState);
    }
    let mut out: Vec<u8> = Vec::new();
    write_bytes_field(&mut out, 10, first.as_slice());
    write_bytes_field(&mut out, 18, second.as_slice());
    proof {
        lemma_view_storable(*state);
        lemma_state_round_trip(v);
    }
    Ok(out)
}

/// The keys of a state have 32 bytes each, so a state can be stored
/// whenever its kept keys and its second part are short enough.
proof fn lemma_view_storable(state: SessionState)
    requires
        keys_wire(state_view(state).skipped).len() <= u32::MAX,
        chains_part(state_view(state)).len() <= u32::MAX,
    ensures
        storable(state_view(state)),
{
    reveal(storable);
    state.local_identity_key.lemma_len();
    state.remote_identity_key.lemma_len();
    state.local_ratchet_key.public_key.lemma_len();
    state.local_ratchet_key.private_key.lemma_len();
    state.remote_ratchet_key.lemma_len();
    state.alice_base_key.lemma_len();
    if state.receiver_chain is Some {
        state.receiver_chain.unwrap().0.lemma_len();
    }
    assert(valid_keys(state_view(state).skipped));
}

/// Whether a state has no chains, no kept keys, and zero for its counter
/// and its registration ids.
pub open spec fn bare_of(s: SessionState) -> bool {
    &&& s.sender_chain is None
    &&& s.previous_counter == 0
    &&& s.receiver_chain is None
    &&& s.local_registration_id == 0
    &&& s.remote_registration_id == 0
    &&& s.skipped@.len() == 0
}

fn key_of(bytes: &Vec<u8>) -> (out: [u8; 32])
    requires
        bytes@.len() == 32,
    ensures
        out@ == bytes@,
{
    let out = array32_at(bytes.as_slice(), 0);
    assert(out@ =~= bytes@);
    out
}

fn read_keys_part(a: &[u8]) -> (out: Option<SessionState>)
    ensures
        match out {
            Some(state) => parse_keys_part(a@) == Some(state_view(state)) && bare_of(state),
            None => parse_keys_part(a@) is None,
        },
{
    assert(a@.skip(0) =~= a@);
    let (session_version, a1) = match read_u32_field(a, 0, 8) {
        Some(found) => found,
        None => {
            return None;
        },
    };
    let (k1, a2) = match read_bytes_field(a, a1, 18) {
        Some(found) => found,
        None => {
            return None;
        },
    };
    let (k2, a3) = match read_bytes_field(a, a2, 26) {
        Some(found) => found,
        None => {
            return None;
        },
    };
    let (k3, a4) = match read_bytes_field(a, a3, 34) {
        Some(found) => found,
        None => {
            return None;
        },
    };
    let (k4, a5) = match read_bytes_field(a, a4, 42) {
        Some(found) => found,
        None => {
            return None;
        },
    };
    let (k5, a6) = match read_bytes_field(a, a5, 50) {
        Some(found) => found,
        None => {
            return None;
        },
    };
    let (k6, a7) = match read_bytes_field(a, a6, 58) {
        Some(found) => found,
        None => {
            return None;
        },
    };
    let (k7, a8) = match read_bytes_field(a, a7, 66) {
        Some(found) => found,
        None => {
            return None;
        },
    };
    if a8 != a.len() || k1.len() != 32 || k2.len() != 32 || k3.len() != 32 || k4.len() != 32
        || k5.len() != 32 || k6.len() != 32 || k7.len() != 32 {
        return None;
    }
    let state = SessionState {
        session_version,
        local_identity_key: PublicKey::from_bytes(key_of(&k1)),
        remote_identity_key: PublicKey::from_bytes(key_of(&k2)),
        root_key: key_of(&k3),
        local_ratchet_key: KeyPair::new(
            PublicKey::from_bytes(key_of(&k4)),
            PrivateKey::from_bytes(key_of(&k5)),
        ),
        remote_ratchet_key: PublicKey::from_bytes(key_of(&k6)),
        sender_chain: None,
        previous_counter: 0,
        receiver_chain: None,
        skipped: Vec::new(),
        local_registration_id: 0,
        remote_registration_id: 0,
        alice_base_key: PublicKey::from_bytes(key_of(&k7)),
    };
    assert(state_view(state).skipped =~= Seq::<(u32, Seq<u8>)>::empty());
    assert(state_view(state) == bare_state(
        session_version,
        k1@,
        k2@,
        k3@,
        k4@,
        k5@,
        k6@,
        k7@,
    ));
    Some(state)
}

fn read_optional_counted(stored: &Option<Vec<u8>>) -> (out: Option<Option<ChainKey>>)
    ensures
        match out {
            Some(chain) => parse_optional_counted(
                match *stored {
                    Some(b) => Some(b@),
                    None => None,
                },
            ) == Some(
                match chain {
                    Some(c) => Some((c.index, c.key@)),
                    None => None,
                },
            ),
            None => parse_optional_counted(
                match *stored {
                    Some(b) => Some(b@),
                    None => None,
                },
            ) is None,
        },
{
    match stored {
        Some(bytes) => match read_counted(bytes.as_slice()) {
            Some((index, key)) => Some(Some(ChainKey::new(key, index))),
            None => None,
        },
        None => Some(None),
    }
}

fn read_optional_receiver(stored: &Option<Vec<u8>>) -> (out: Option<Option<(PublicKey, ChainKey)>>)
    ensures
        match out {
            Some(chain) => parse_optional_receiver(
                match *stored {
                    Some(b) => Some(b@),
                    None => None,
                },
            ) == Some(
                match chain {
                    Some(c) => Some((c.0@, c.1.index, c.1.key@)),
                    None => None,
                },
            ),
            None => parse_optional_receiver(
                match *stored {
                    Some(b) => Some(b@),
                    None => None,
                },
            ) is None,
        },
{
    match stored {
        Some(bytes) => match read_receiver(bytes.as_slice()) {
            Some(chain) => Some(Some(chain)),
            None => None,
        },
        None => Some(None),
    }
}

fn read_chains_part(b: &[u8], base: SessionState) -> (out: Option<SessionState>)
    ensures
        match out {
            Some(state) => parse_chains_part(b@, state_view(base)) == Some(state_view(state)),
            None => parse_chains_part(b@, state_view(base)) is None,
        },
{
    assert(b@.skip(0) =~= b@);
    let (sender, b1) = match read_optional_bytes_field(b, 0, 10) {
        Some(found) => found,
        None => {
            return None;
        },
    };
    let (previous_counter, b2) = match read_u32_field(b, b1, 16) {
        Some(found) => found,
        None => {
            return None;
        },
    };
    let (receiver, b3) = match read_optional_bytes_field(b, b2, 26) {
        Some(found) => found,
        None => {
            return None;
        },
    };
    let (local_registration_id, b4) = match read_u32_field(b, b3, 32) {
        Some(found) => found,
        None => {
            return None;
        },
    };
    let (remote_registration_id, b5) = match read_u32_field(b, b4, 40) {
        Some(found) => found,
        None => {
            return None;
        },
    };
    let (keys, b6) = match read_bytes_field(b, b5, 50) {
        Some(found) => found,
        None => {
            return None;
        },
    };
    let sender_chain = match read_optional_counted(&sender) {
        Some(chain) => chain,
        None => {
            return None;
        },
    };
    let receiver_chain = match read_optional_receiver(&receiver) {
        Some(chain) => chain,
        None => {
            return None;
        },
    };
    let skipped = match read_keys(keys.as_slice()) {
        Some(found) => found,
        None => {
            return None;
        },
    };
    if b6 != b.len() {
        return None;
    }
    Some(
        SessionState {
            session_version: base.session_version,
            local_identity_key: base.local_identity_key,
            remote_identity_key: base.remote_identity_key,
            root_key: base.root_key,
            local_ratchet_key: base.local_ratchet_key,
            remote_ratchet_key: base.remote_ratchet_key,
            sender_chain,
            previous_counter,
            receiver_chain,
            skipped,
            local_registration_id,
            remote_registration_id,
            alice_base_key: base.alice_base_key,
        },
    )
}

/// Reads a state from its stored form; `InvalidMessage` for bytes that
/// are not the stored form of one.
pub fn deserialize_state(data: &[u8]) -> (out: Result<SessionState, SignalProtocolError>)
    ensures
        match out {
            Ok(state) => parse_state(data@) == Some(state_view(state)),
            Err(e) => e == SignalProtocolError::InvalidMessage && parse_state(data@) is None,
        },
{
    proof {
        reveal(parse_state);
    }
    assert(data@.skip(0) =~= data@);
    let (first, at1) = match read_bytes_field(data, 0, 10) {
        Some(found) => found,
        None => {
            return Err(SignalProtocolError::InvalidMessage);
        },
    };
    let (second, at2) = match read_bytes_field(data, at1, 18) {
        Some(found) => found,
        None => {
            return Err(SignalProtocolError::InvalidMessage);
        },
    };
    let base = match read_keys_part(first.as_slice()) {
        Some(state) => state,
        None => {
            return Err(SignalProtocolError::InvalidMessage);
        },
    };
    if at2 != data.len() {
        return Err(SignalProtocolError::InvalidMessage);
    }
    match read_chains_part(second.as_slice(), base) {
        Some(state) => Ok(state),
        None => Err(SignalProtocolError::InvalidMessage),
    }
}

/// Whether a state can stand in a stored record: it can be stored, in
/// less than 4 GiB.
pub open spec fn fits(v: SessionStateView) -> bool {
    storable(v) && state_wire(v).len() <= u32::MAX
}

/// Whether every state of a list can stand in a stored record.
pub open spec fn all_fit(states: Seq<SessionStateView>) -> bool {
    forall|i: int| 0 <= i < states.len() ==> fits(#[trigger] states[i])
}

/// The states of a list in storage: each as a field, in their order.
pub open spec fn states_wire(states: Seq<SessionStateView>) -> Seq<u8>
    decreases states.len(),
{
    if states.len() == 0 {
        Seq::<u8>::empty()
    } else {
        bytes_field(10, state_wire(states[0])) + states_wire(states.skip(1))
    }
}

/// The state that stands at the head of `data` as a field, with what
/// follows it.
pub open spec fn parse_state_field(data: Seq<u8>) -> Option<(SessionStateView, Seq<u8>)> {
    match parse_bytes_field(10, data) {
        Some((body, rest)) => match parse_state(body) {
            Some(state) => Some((state, rest)),
            None => None,
        },
        None => None,
    }
}

/// A stored state that fits is read back, whatever follows it.
pub proof fn lemma_state_field_round_trip(v: SessionStateView, rest: Seq<u8>)
    requires
        fits(v),
    ensures
        parse_state_field(bytes_field(10, state_wire(v)) + rest) == Some((v, rest)),
        bytes_field(10, state_wire(v)).len() > 0,
{
    lemma_state_round_trip(v);
    lemma_bytes_field_round_trip(10, state_wire(v), rest);
    lemma_field_len(10, state_wire(v), 0);
}

/// The states that `data` stores, if any.
pub open spec fn parse_states(data: Seq<u8>) -> Option<Seq<SessionStateView>>
    decreases data.len(),
{
    if data.len() == 0 {
        Some(Seq::<SessionStateView>::empty())
    } else {
        match parse_state_field(data) {
            Some((state, rest)) => if rest.len() < data.len() {
                match parse_states(rest) {
                    Some(more) => Some(seq![state] + more),
                    None => None,
                }
            } else {
                None
            },
            None => None,
        }
    }
}

/// The states behind the first of a list that fits fit too.
proof fn lemma_all_fit_skip(states: Seq<SessionStateView>)
    requires
        states.len() > 0,
        all_fit(states),
    ensures
        all_fit(states.skip(1)),
        fits(states[0]),
{
    assert forall|i: int| 0 <= i < states.skip(1).len() implies fits(
        #[trigger] states.skip(1)[i],
    ) by {
        assert(states.skip(1)[i] == states[i + 1]);
    }
}

/// Stored states are read back.
pub proof fn lemma_states_round_trip(states: Seq<SessionStateView>)
    requires
        all_fit(states),
    ensures
        parse_states(states_wire(states)) == Some(states),
    decreases states.len(),
{
    if states.len() == 0 {
        assert(states =~= Seq::<SessionStateView>::empty());
    } else {
        let rest = states_wire(states.skip(1));
        let data = states_wire(states);
        lemma_all_fit_skip(states);
        lemma_states_round_trip(states.skip(1));
        lemma_state_field_round_trip(states[0], rest);
        assert(data == bytes_field(10, state_wire(states[0])) + rest);
        assert(parse_state_field(data) == Some((states[0], rest)));
        assert(rest.len() < data.len());
        assert(seq![states[0]] + states.skip(1) =~= states);
    }
}

/// A state put behind a list is stored behind the list.
pub proof fn lemma_states_wire_push(states: Seq<SessionStateView>, state: SessionStateView)
    ensures
        states_wire(states.push(state)) == states_wire(states) + bytes_field(
            10,
            state_wire(state),
        ),
    decreases states.len(),
{
    if states.len() == 0 {
        let tail = states.push(state).skip(1);
        assert(tail.len() == 0);
        assert(states_wire(tail) =~= Seq::<u8>::empty());
        assert(states_wire(states) =~= Seq::<u8>::empty());
        assert(states.push(state)[0] == state);
        assert(states_wire(states.push(state)) =~= states_wire(states) + bytes_field(
            10,
            state_wire(state),
        ));
    } else {
        lemma_states_wire_push(states.skip(1), state);
        assert(states.push(state).skip(1) =~= states.skip(1).push(state));
        assert(states_wire(states.push(state)) =~= states_wire(states) + bytes_field(
            10,
            state_wire(state),
        ));
    }
}

/// States as storage holds them.
pub open spec fn states_view(states: Seq<SessionState>) -> Seq<SessionStateView> {
    Seq::new(states.len(), |i: int| state_view(states[i]))
}

/// The states of a record in the order of storage: the current one, if
/// any, then the superseded ones, newest first.
pub open spec fn record_states(
    current: Option<SessionStateView>,
    previous: Seq<SessionStateView>,
) -> Seq<SessionStateView> {
    match current {
        Some(state) => seq![state] + previous,
        None => previous,
    }
}

/// A record in storage: one byte that says whether there is a current
/// state, then the states.
pub open spec fn record_wire(
    current: Option<SessionStateView>,
    previous: Seq<SessionStateView>,
) -> Seq<u8> {
    seq![if current is Some { 1u8 } else { 0u8 }] + states_wire(record_states(current, previous))
}

/// The current state and the superseded states that `data` stores as a
/// record, if any; a record keeps no more superseded states than its
/// bound.
pub open spec fn parse_record(data: Seq<u8>) -> Option<
    (Option<SessionStateView>, Seq<SessionStateView>),
> {
    if data.len() == 0 || data[0] > 1 {
        None
    } else {
        match parse_states(data.skip(1)) {
            Some(states) => if data[0] == 1 {
                if 1 <= states.len() <= MAX_ARCHIVED_STATES + 1 {
                    Some((Some(states[0]), states.skip(1)))
                } else {
                    None
                }
            } else if states.len() <= MAX_ARCHIVED_STATES {
                Some((None, states))
            } else {
                None
            },
            None => None,
        }
    }
}

/// Reading the stored form of a record gives its states back.
pub proof fn lemma_record_round_trip(
    current: Option<SessionStateView>,
    previous: Seq<SessionStateView>,
)
    requires
        all_fit(record_states(current, previous)),
        previous.len() <= MAX_ARCHIVED_STATES,
    ensures
        parse_record(record_wire(current, previous)) == Some((current, previous)),
{
    let all = record_states(current, previous);
    let flag = if current is Some { 1u8 } else { 0u8 };
    lemma_states_round_trip(all);
    lemma_head_tail(flag, states_wire(all));
    if current is Some {
        assert(all.skip(1) =~= previous);
    }
}

/// Appends the stored form of `states`, in their order, to `out`.
fn write_states(out: &mut Vec<u8>, states: &Vec<SessionState>, Ghost(done): Ghost<Seq<SessionStateView>>) -> (ok: bool)
    requires
        old(out)@.len() >= 1,
        old(out)@.skip(1) == states_wire(done),
        all_fit(done),
    ensures
        final(out)@.len() >= 1,
        final(out)@[0] == old(out)@[0],
        ok ==> final(out)@.skip(1) == states_wire(done + states_view(states@)) && all_fit(
            done + states_view(states@),
        ),
        !ok ==> !all_fit(states_view(states@)),
{
    let ghost views = states_view(states@);
    let mut i: usize = 0;
    assert(done + views.subrange(0, 0) =~= done);
    while i < states.len()
        invariant
            i <= states@.len(),
            views == states_view(states@),
            out@.len() >= 1,
            out@[0] == old(out)@[0],
            out@.skip(1) == states_wire(done + views.subrange(0, i as int)),
            all_fit(done + views.subrange(0, i as int)),
        decreases states@.len() - i,
    {
        let bytes = match serialize_state(&states[i]) {
            Ok(bytes) => bytes,
            Err(_) => {
                assert(!fits(views[i as int]));
                return false;
            },
        };
        if bytes.len() > 0xffff_ffff {
            assert(!fits(views[i as int]));
            return false;
        }
        let ghost before = out@;
        write_bytes_field(out, 10, bytes.as_slice());
        proof {
            let so_far = done + views.subrange(0, i as int);
            let v = views[i as int];
            lemma_states_wire_push(so_far, v);
            assert(done + views.subrange(0, i + 1) =~= so_far.push(v));
            assert(out@.skip(1) =~= before.skip(1) + bytes_field(10, state_wire(v)));
            assert(all_fit(so_far.push(v))) by {
                assert forall|k: int| 0 <= k < so_far.push(v).len() implies fits(
                    #[trigger] so_far.push(v)[k],
                ) by {
                    if k < so_far.len() {
                        assert(so_far.push(v)[k] == so_far[k]);
                    }
                }
            }
        }
        i += 1;
    }
    assert(views.subrange(0, views.len() as int) =~= views);
    true
}

/// Reads the states that `data` stores from `start` on.
fn read_states(data: &[u8], start: usize) -> (out: Option<Vec<SessionState>>)
    requires
        start <= data@.len(),
    ensures
        match out {
            Some(states) => parse_states(data@.skip(start as int)) == Some(states_view(states@)),
            None => parse_states(data@.skip(start as int)) is None,
        },
{
    let mut states: Vec<SessionState> = Vec::new();
    let mut pos: usize = start;
    assert(states_view(states@) =~= Seq::<SessionStateView>::empty());
    assert(forall|more: Seq<SessionStateView>| states_view(states@) + more =~= more);
    while pos < data.len()
        invariant
            start <= pos <= data@.len(),
            parse_states(data@.skip(start as int)) == match parse_states(data@.skip(pos as int)) {
                Some(more) => Some(states_view(states@) + more),
                None => None,
            },
        decreases data@.len() - pos,
    {
        let ghost tail = data@.skip(pos as int);
        let ghost before = states_view(states@);
        let (body, next) = match read_bytes_field(data, pos, 10) {
            Some(found) => found,
            None => {
                return None;
            },
        };
        let state = match deserialize_state(body.as_slice()) {
            Ok(state) => state,
            Err(_) => {
                return None;
            },
        };
        let ghost v = state_view(state);
        assert(parse_state_field(tail) == Some((v, data@.skip(next as int))));
        states.push(state);
        proof {
            let after = states_view(states@);
            assert(after =~= before + seq![v]);
            match parse_states(data@.skip(next as int)) {
                Some(more) => {
                    assert(parse_states(tail) == Some(seq![v] + more));
                    assert(before + (seq![v] + more) =~= after + more);
                },
                None => {},
            }
        }
        pos = next;
    }
    proof {
        let done = states_view(states@);
        assert(done + Seq::<SessionStateView>::empty() =~= done);
    }
    Some(states)
}

impl SessionRecord {
    /// The current state as storage holds it.
    pub open spec fn stored_current(&self) -> Option<SessionStateView> {
        match self.current() {
            Some(state) => Some(state_view(state)),
            None => None,
        }
    }

    /// The superseded states as storage holds them.
    pub open spec fn stored_previous(&self) -> Seq<SessionStateView> {
        states_view(self.previous())
    }

    /// The bytes of the record in storage. `InvalidState` where a state
    /// of the record would have 4 GiB or more.
    pub fn serialize(&self) -> (out: Result<Vec<u8>, SignalProtocolError>)
        ensures
            match out {
                Ok(bytes) => all_fit(record_states(self.stored_current(), self.stored_previous()))
                    && bytes@ == record_wire(self.stored_current(), self.stored_previous())
                    && (self.well_formed() ==> parse_record(bytes@) == Some(
                    (self.stored_current(), self.stored_previous()),
                )),
                Err(e) => e == SignalProtocolError::InvalidState && !all_fit(
                    record_states(self.stored_current(), self.stored_previous()),
                ),
            },
    {
        let ghost all = record_states(self.stored_current(), self.stored_previous());
        let mut out: Vec<u8> = Vec::new();
        let ghost empty = Seq::<SessionStateView>::empty();
        let ghost mut head = empty;
        match self.current_state() {
            Some(state) => {
                out.push(1);
                let bytes = match serialize_state(state) {
                    Ok(bytes) => bytes,
                    Err(e) => {
                        assert(all[0] == state_view(*state));
                        return Err(e);
                    },
                };
                if bytes.len() > 0xffff_ffff {
                    assert(all[0] == state_view(*state));
                    return Err(SignalProtocolError::InvalidState);
                }
                write_bytes_field(&mut out, 10, bytes.as_slice());
                proof {
                    head = seq![state_view(*state)];
                    lemma_states_wire_push(empty, state_view(*state));
                    assert(empty.push(state_view(*state)) =~= head);
                    assert(states_wire(empty) =~= Seq::<u8>::empty());
                    assert(out@.skip(1) =~= states_wire(head));
                }
            },
            None => {
                out.push(0);
                assert(out@.skip(1) =~= states_wire(empty));
            },
        }
        assert(head + self.stored_previous() =~= all);
        if !write_states(&mut out, self.previous_states(), Ghost(head)) {
            proof {
                let prev = self.stored_previous();
                let k = choose|k: int| 0 <= k < prev.len() && !fits(#[trigger] prev[k]);
                assert(all[head.len() + k] == prev[k]);
            }
            return Err(SignalProtocolError::InvalidState);
        }
        proof {
            assert(out@ =~= seq![out@[0]] + out@.skip(1));
            if self.well_formed() {
                lemma_record_round_trip(self.stored_current(), self.stored_previous());
            }
        }
        Ok(out)
    }

    /// Reads a record from its stored form; `InvalidMessage` for bytes
    /// that are not the stored form of one.
    pub fn deserialize(data: &[u8]) -> (out: Result<SessionRecord, SignalProtocolError>)
        ensures
            match out {
                Ok(record) => record.well_formed() && parse_record(data@) == Some(
                    (record.stored_current(), record.stored_previous()),
                ),
                Err(e) => e == SignalProtocolError::InvalidMessage && parse_record(data@) is None,
            },
    {
        if data.len() == 0 || data[0] > 1 {
            return Err(SignalProtocolError::InvalidMessage);
        }
        let mut states = match read_states(data, 1) {
            Some(states) => states,
            None => {
                return Err(SignalProtocolError::InvalidMessage);
            },
        };
        let ghost views = states_view(states@);
        let current = if data[0] == 1 {
            if states.len() == 0 {
                return Err(SignalProtocolError::InvalidMessage);
            }
            let state = states.remove(0);
            assert(states_view(states@) =~= views.skip(1));
            Some(state)
        } else {
            None
        };
        match SessionRecord::from_states(current, states) {
            Ok(record) => Ok(record),
            Err(_) => Err(SignalProtocolError::InvalidMessage),
        }
    }

    /// The record whose one state is the state that `session_state` is
    /// the stored form of; `InvalidMessage` for bytes that are not the
    /// stored form of a state.
    pub fn from_single_session_state(session_state: &[u8]) -> (out: Result<
        SessionRecord,
        SignalProtocolError,
    >)
        ensures
            match out {
                Ok(record) => record.well_formed() && record.previous().len() == 0
                    && record.stored_current() == parse_state(session_state@)
                    && record.current() is Some,
                Err(e) => e == SignalProtocolError::InvalidMessage && parse_state(session_state@)
                    is None,
            },
    {
        match deserialize_state(session_state) {
            Ok(state) => Ok(SessionRecord::from_state(state)),
            Err(e) => Err(e),
        }
    }
}

} // verus!
