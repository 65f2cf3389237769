use vstd::prelude::*;
use crate::aead::{opened, sealed, Aes256GcmSiv};
use crate::error::SignalProtocolError;
use crate::ratchet::{
    can_step_to,
    chain_key_after,
    first_at,
    message_key_material,
    message_key_of,
    next_chain_key,
    receive_key,
    skipped_added,
    MessageKey,
    MessageKeys,
};
use crate::session::{SessionState, CURRENT_VERSION};
use crate::signal_message::{signal_body, signal_mac, SignalMessage, SignalMessageView};

verus! {

/// The ciphertext of `plaintext` under the keys of a message key.
pub open spec fn message_ciphertext(message_key: Seq<u8>, plaintext: Seq<u8>) -> Option<Seq<u8>> {
    let material = message_key_material(message_key);
    sealed(material.subrange(0, 32), material.subrange(64, 76), Seq::<u8>::empty(), plaintext)
}

/// The plaintext of `ciphertext` under the keys of a message key.
pub open spec fn message_plaintext(message_key: Seq<u8>, ciphertext: Seq<u8>) -> Option<Seq<u8>> {
    let material = message_key_material(message_key);
    opened(material.subrange(0, 32), material.subrange(64, 76), Seq::<u8>::empty(), ciphertext)
}

/// The tag that a message key gives a message from `sender` to `receiver`.
pub open spec fn message_mac(
    message_key: Seq<u8>,
    sender: Seq<u8>,
    receiver: Seq<u8>,
    v: SignalMessageView,
) -> Seq<u8> {
    signal_mac(message_key_material(message_key).subrange(32, 64), sender, receiver, signal_body(v))
}

/// Whether `plaintext` cannot be sent under the message key of a chain
/// key: the cipher refuses it, or its ciphertext would have 4 GiB or
/// more.
pub open spec fn refused(chain_key: Seq<u8>, plaintext: Seq<u8>) -> bool {
    message_ciphertext(message_key_of(chain_key), plaintext) is None || plaintext.len() + 16
        > u32::MAX
}

/// Whether a state can send: it has a sending chain that is not at its
/// last position.
pub open spec fn can_send(state: SessionState) -> bool {
    state.sender_chain is Some && state.sender_chain.unwrap().index < u32::MAX
}

/// Whether a state reads the messages that carry this ratchet key.
pub open spec fn reads(state: SessionState, ratchet_key: Seq<u8>) -> bool {
    state.receiver_chain is Some && state.receiver_chain.unwrap().0@ == ratchet_key
}

/// Whether `after` and the message `m` are what sending `plaintext` from
/// `before` gives: the message stands at the sending chain's position,
/// is encrypted and tagged under that position's message key, and the
/// chain has stepped once; nothing else in the state differs.
pub open spec fn sent(
    before: SessionState,
    after: SessionState,
    plaintext: Seq<u8>,
    m: SignalMessageView,
) -> bool {
    let chain = before.sender_chain.unwrap();
    let key = message_key_of(chain.key@);
    &&& can_send(before)
    &&& m.message_version == CURRENT_VERSION
    &&& m.sender_ratchet_key == before.local_ratchet_key.public_key@
    &&& m.counter == chain.index
    &&& m.previous_counter == before.previous_counter
    &&& message_ciphertext(key, plaintext) == Some(m.ciphertext)
    &&& m.mac == message_mac(key, before.local_identity_key@, before.remote_identity_key@, m)
    &&& after.sender_chain is Some
    &&& after.sender_chain.unwrap().index == chain.index + 1
    &&& after.sender_chain.unwrap().key@ == next_chain_key(chain.key@)
    &&& after == (SessionState { sender_chain: after.sender_chain, ..before })
}

/// Whether a message key fits a message that `state` received: it gives
/// the message's tag and opens its ciphertext.
pub open spec fn opens(key: Seq<u8>, state: SessionState, m: SignalMessageView) -> bool {
    m.mac == message_mac(key, state.remote_identity_key@, state.local_identity_key@, m)
        && message_plaintext(key, m.ciphertext) is Some
}

/// Whether `state` can read the message: its receiving chain is the chain
/// of the message's ratchet key, and either the message is behind the
/// chain and its kept key fits, or the chain can step to the message and
/// the key of that position fits.
pub open spec fn readable(state: SessionState, m: SignalMessageView) -> bool {
    let chain = state.receiver_chain.unwrap().1;
    &&& reads(state, m.sender_ratchet_key)
    &&& if m.counter < chain.index {
        exists|i: int|
            first_at(state.skipped@, m.counter, i) && opens(state.skipped@[i].key@, state, m)
    } else {
        can_step_to(chain.index, state.skipped@.len(), m.counter) && opens(
            message_key_of(chain_key_after(chain.key@, (m.counter - chain.index) as nat)),
            state,
            m,
        )
    }
}

/// Whether `after` and `plaintext` are what reading the message `m` in
/// `before` gives. A message behind the chain uses up its kept key; one
/// at or ahead of the chain steps the chain past it and keeps the keys
/// of the messages skipped. Nothing else in the state differs.
pub open spec fn received(
    before: SessionState,
    after: SessionState,
    m: SignalMessageView,
    plaintext: Seq<u8>,
) -> bool {
    let chain = before.receiver_chain.unwrap().1;
    let counter = m.counter;
    &&& readable(before, m)
    &&& after.receiver_chain is Some
    &&& after.receiver_chain.unwrap().0 == before.receiver_chain.unwrap().0
    &&& if counter < chain.index {
        &&& after.receiver_chain.unwrap().1 == chain
        &&& exists|i: int|
            first_at(before.skipped@, counter, i) && after.skipped@ == before.skipped@.remove(i)
                && message_plaintext(before.skipped@[i].key@, m.ciphertext) == Some(plaintext)
    } else {
        &&& after.receiver_chain.unwrap().1.index == counter + 1
        &&& after.receiver_chain.unwrap().1.key@ == chain_key_after(
            chain.key@,
            (counter - chain.index + 1) as nat,
        )
        &&& skipped_added(before.skipped@, after.skipped@, chain.key@, chain.index, counter)
        &&& message_plaintext(
            message_key_of(chain_key_after(chain.key@, (counter - chain.index) as nat)),
            m.ciphertext,
        ) == Some(plaintext)
    }
    &&& after == (SessionState {
        receiver_chain: after.receiver_chain,
        skipped: after.skipped,
        ..before
    })
}

/// Whether the cipher opens, under the keys of a message key, what it
/// sealed of `plaintext` under them, as an authenticated cipher does.
pub open spec fn opens_what_it_sealed(message_key: Seq<u8>, plaintext: Seq<u8>) -> bool {
    match message_ciphertext(message_key, plaintext) {
        Some(ciphertext) => message_plaintext(message_key, ciphertext) == Some(plaintext),
        None => true,
    }
}

/// A message that one side sent is read by the other side as the
/// plaintext that was sent, where the reader's receiving chain is the
/// sender's sending chain, the two hold each other's identity keys, the
/// reader has room for kept keys, and the cipher opens what it sealed.
pub proof fn lemma_sent_message_is_read(
    sender: SessionState,
    after: SessionState,
    reader: SessionState,
    plaintext: Seq<u8>,
    m: SignalMessageView,
)
    requires
        sent(sender, after, plaintext, m),
        reads(reader, m.sender_ratchet_key),
        reader.receiver_chain.unwrap().1.index == sender.sender_chain.unwrap().index,
        reader.receiver_chain.unwrap().1.key@ == sender.sender_chain.unwrap().key@,
        reader.remote_identity_key@ == sender.local_identity_key@,
        reader.local_identity_key@ == sender.remote_identity_key@,
        reader.skipped@.len() <= crate::ratchet::MAX_MESSAGE_KEYS,
        opens_what_it_sealed(message_key_of(sender.sender_chain.unwrap().key@), plaintext),
    ensures
        readable(reader, m),
        forall|next: SessionState, out: Seq<u8>| #[trigger]
            received(reader, next, m, out) ==> out == plaintext,
{
    let chain = reader.receiver_chain.unwrap().1;
    assert(chain_key_after(chain.key@, 0) == chain.key@);
    assert(m.counter == chain.index);
}

fn copy_keys(keys: &Vec<MessageKey>) -> (out: Vec<MessageKey>)
    ensures
        out@ == keys@,
{
    let mut out: Vec<MessageKey> = Vec::new();
    let mut i: usize = 0;
    while i < keys.len()
        invariant
            i <= keys@.len(),
            out@ == keys@.subrange(0, i as int),
        decreases keys@.len() - i,
    {
        out.push(keys[i]);
        i += 1;
        assert(out@ =~= keys@.subrange(0, i as int));
    }
    assert(keys@.subrange(0, keys@.len() as int) =~= keys@);
    out
}

/// Decrypts a message with its message key: checks the tag for the two
/// parties, then opens the ciphertext.
fn open_message(
    key: &MessageKey,
    message: &SignalMessage,
    sender: &crate::curve::PublicKey,
    receiver: &crate::curve::PublicKey,
) -> (out: Option<Vec<u8>>)
    ensures
        match out {
            Some(plaintext) => message@.mac == message_mac(key.key@, sender@, receiver@, message@)
                && message_plaintext(key.key@, message@.ciphertext) == Some(plaintext@),
            None => message@.mac != message_mac(key.key@, sender@, receiver@, message@)
                || message_plaintext(key.key@, message@.ciphertext) is None,
        },
{
    let keys = MessageKeys::derive(key);
    match message.verify_mac(sender, receiver, keys.mac_key.as_slice()) {
        Ok(true) => {},
        _ => {
            return None;
        },
    }
    let cipher = Aes256GcmSiv::from_key(keys.cipher_key);
    let aad: [u8; 0] = [];
    assert(aad@ =~= Seq::<u8>::empty());
    match cipher.decrypt(message.body().as_slice(), keys.nonce.as_slice(), aad.as_slice()) {
        Ok(plaintext) => Some(plaintext),
        Err(_) => None,
    }
}

impl SessionState {
    /// Encrypts `plaintext` as the next message of the sending chain and
    /// steps the chain. `InvalidState`, with the state as it was, where
    /// the state cannot send; `InvalidArgument`, with the state as it was,
    /// where the cipher or the framing refuses the plaintext.
    pub fn encrypt_message(&mut self, plaintext: &[u8]) -> (out: Result<
        SignalMessage,
        SignalProtocolError,
    >)
        ensures
            match out {
                Ok(m) => sent(*old(self), *final(self), plaintext@, m@),
                Err(e) => *final(self) == *old(self) && if can_send(*old(self)) {
                    e == SignalProtocolError::InvalidArgument && refused(
                        old(self).sender_chain.unwrap().key@,
                        plaintext@,
                    )
                } else {
                    e == SignalProtocolError::InvalidState
                },
            },
    {
        let chain = match self.sender_chain {
            Some(chain) => chain,
            None => {
                return Err(SignalProtocolError::InvalidState);
            },
        };
        let next = match chain.next() {
            Ok(next) => next,
            Err(e) => {
                return Err(e);
            },
        };
        let keys = MessageKeys::derive(&chain.message_key());
        let cipher = Aes256GcmSiv::from_key(keys.cipher_key);
        let aad: [u8; 0] = [];
        assert(aad@ =~= Seq::<u8>::empty());
        let ciphertext = match cipher.encrypt(plaintext, keys.nonce.as_slice(), aad.as_slice()) {
            Ok(c) => c,
            Err(e) => {
                return Err(e);
            },
        };
        match SignalMessage::new(
            3,
            keys.mac_key.as_slice(),
            self.local_ratchet_key.public_key,
            chain.index,
            self.previous_counter,
            ciphertext.as_slice(),
            &self.local_identity_key,
            &self.remote_identity_key,
        ) {
            Ok(m) => {
                self.sender_chain = Some(next);
                Ok(m)
            },
            Err(e) => Err(e),
        }
    }

    /// Decrypts a message of the receiving chain, which must be the chain
    /// of the message's ratchet key. A message ahead of the chain steps
    /// the chain past it and keeps the keys of the messages skipped; one
    /// behind the chain uses up its kept key. `InvalidMessage`, with the
    /// state as it was, where the state does not read the message's
    /// ratchet key, the chain does not reach the message, the tag does not
    /// fit, or the ciphertext does not open.
    pub fn decrypt_message(&mut self, message: &SignalMessage) -> (out: Result<
        Vec<u8>,
        SignalProtocolError,
    >)
        ensures
            match out {
                Ok(plaintext) => received(*old(self), *final(self), message@, plaintext@),
                Err(e) => e == SignalProtocolError::InvalidMessage && *final(self) == *old(self)
                    && !readable(*old(self), message@),
            },
    {
        let (ratchet_key, chain) = match self.receiver_chain {
            Some(found) => found,
            None => {
                return Err(SignalProtocolError::InvalidMessage);
            },
        };
        if !ratchet_key.equals(message.sender_ratchet_key()) {
            return Err(SignalProtocolError::InvalidMessage);
        }
        let mut skipped = copy_keys(&self.skipped);
        let (key, next) = match receive_key(&chain, &mut skipped, message.counter()) {
            Ok(found) => found,
            Err(e) => {
                return Err(e);
            },
        };
        match open_message(&key, message, &self.remote_identity_key, &self.local_identity_key) {
            Some(plaintext) => {
                self.receiver_chain = Some((ratchet_key, next));
                self.skipped = skipped;
                Ok(plaintext)
            },
            None => Err(SignalProtocolError::InvalidMessage),
        }
    }
}

} // verus!
