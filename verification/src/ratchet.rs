use vstd::prelude::*;
use crate::bytes::array32_at;
use crate::curve::{x25519, PrivateKey, PublicKey};
use crate::error::SignalProtocolError;
use crate::kdf::{default_salt, derived, hmac_sha256, hmac_sha256_digest, Hkdf};

verus! {

/// The byte that a chain key is tagged with to give a message key.
pub const MESSAGE_KEY_SEED: u8 = 1;

/// The byte that a chain key is tagged with to give the next chain key.
pub const CHAIN_KEY_SEED: u8 = 2;

/// The message key that belongs to a chain key.
pub open spec fn message_key_of(chain_key: Seq<u8>) -> Seq<u8> {
    hmac_sha256(chain_key, seq![MESSAGE_KEY_SEED])
}

/// The chain key that follows a chain key.
pub open spec fn next_chain_key(chain_key: Seq<u8>) -> Seq<u8> {
    hmac_sha256(chain_key, seq![CHAIN_KEY_SEED])
}

/// The chain key reached from `chain_key` in `steps` steps.
pub open spec fn chain_key_after(chain_key: Seq<u8>, steps: nat) -> Seq<u8>
    decreases steps,
{
    if steps == 0 {
        chain_key
    } else {
        next_chain_key(chain_key_after(chain_key, (steps - 1) as nat))
    }
}

/// Stepping `m` times and then `n` times is stepping `m + n` times.
pub proof fn lemma_chain_key_after_add(chain_key: Seq<u8>, m: nat, n: nat)
    ensures
        chain_key_after(chain_key_after(chain_key, m), n) == chain_key_after(chain_key, m + n),
    decreases n,
{
    if n > 0 {
        lemma_chain_key_after_add(chain_key, m, (n - 1) as nat);
    }
}

/// The label under which a session's first keys are derived: "WhisperText".
pub open spec fn text_label() -> Seq<u8> {
    seq![87u8, 104u8, 105u8, 115u8, 112u8, 101u8, 114u8, 84u8, 101u8, 120u8, 116u8]
}

/// The label under which a ratchet step derives: "WhisperRatchet".
pub open spec fn ratchet_label() -> Seq<u8> {
    seq![
        87u8,
        104u8,
        105u8,
        115u8,
        112u8,
        101u8,
        114u8,
        82u8,
        97u8,
        116u8,
        99u8,
        104u8,
        101u8,
        116u8,
    ]
}

/// The root key and the chain key that a session starts from, given the
/// concatenated agreements of its handshake.
pub open spec fn initial_keys(secret: Seq<u8>) -> (Seq<u8>, Seq<u8>) {
    let okm = derived(1, secret, default_salt(), text_label(), 64);
    (okm.subrange(0, 32), okm.subrange(32, 64))
}

/// The root key and the chain key after a ratchet step from `root_key`
/// with the agreement `shared`.
pub open spec fn ratchet_keys(root_key: Seq<u8>, shared: Seq<u8>) -> (Seq<u8>, Seq<u8>) {
    let okm = derived(1, shared, root_key, ratchet_label(), 64);
    (okm.subrange(0, 32), okm.subrange(32, 64))
}

/// One key of a symmetric chain, with its position in the chain.
#[derive(Clone, Copy, Debug, PartialEq, Eq)]
pub struct ChainKey {
    pub key: [u8; 32],
    pub index: u32,
}

/// The key for one message, with the position of the chain key it came from.
#[derive(Clone, Copy, Debug, PartialEq, Eq)]
pub struct MessageKey {
    pub key: [u8; 32],
    pub counter: u32,
}

impl ChainKey {
    /// The chain key with these bytes at this position.
    pub fn new(key: [u8; 32], index: u32) -> (out: ChainKey)
        ensures
            out.key == key,
            out.index == index,
    {
        ChainKey { key, index }
    }

    /// The next key of the chain; `InvalidState` at the last position.
    pub fn next(&self) -> (out: Result<ChainKey, SignalProtocolError>)
        ensures
            match out {
                Ok(next) => self.index < u32::MAX && next.index == self.index + 1 && next.key@
                    == next_chain_key(self.key@),
                Err(e) => self.index == u32::MAX && e == SignalProtocolError::InvalidState,
            },
    {
        if self.index == u32::MAX {
            return Err(SignalProtocolError::InvalidState);
        }
        Ok(self.step())
    }

    /// The next key of a chain that is not at its last position.
    pub(crate) fn step(&self) -> (out: ChainKey)
        requires
            self.index < u32::MAX,
        ensures
            out.index == self.index + 1,
            out.key@ == next_chain_key(self.key@),
    {
        let seed = [CHAIN_KEY_SEED];
        assert(seed@ =~= seq![CHAIN_KEY_SEED]);
        let key = hmac_sha256_digest(self.key.as_slice(), seed.as_slice());
        ChainKey { key, index: self.index + 1 }
    }

    /// The message key of this position.
    pub fn message_key(&self) -> (out: MessageKey)
        ensures
            out.counter == self.index,
            out.key@ == message_key_of(self.key@),
    {
        let seed = [MESSAGE_KEY_SEED];
        assert(seed@ =~= seq![MESSAGE_KEY_SEED]);
        MessageKey { key: hmac_sha256_digest(self.key.as_slice(), seed.as_slice()), counter: self.index }
    }

    /// The key `target - index` steps further on, reached by stepping; no
    /// key for a position behind this one, nor for one more than `max_jump`
    /// steps ahead.
    pub fn advance_to(&self, target: u32, max_jump: u32) -> (out: Result<
        ChainKey,
        SignalProtocolError,
    >)
        ensures
            match out {
                Ok(key) => self.index <= target && target - self.index <= max_jump && key.index
                    == target && key.key@ == chain_key_after(
                    self.key@,
                    (target - self.index) as nat,
                ),
                Err(e) => (target < self.index || target - self.index > max_jump) && e
                    == SignalProtocolError::InvalidMessage,
            },
    {
        if target < self.index || target - self.index > max_jump {
            return Err(SignalProtocolError::InvalidMessage);
        }
        let mut current = *self;
        while current.index < target
            invariant
                self.index <= current.index <= target,
                current.key@ == chain_key_after(self.key@, (current.index - self.index) as nat),
            decreases target - current.index,
        {
            current = current.step();
        }
        Ok(current)
    }
}

/// The most keys of skipped messages that one chain keeps.
pub const MAX_MESSAGE_KEYS: usize = 2000;

/// Whether `i` is the first place in `keys` that holds the key of the
/// message at `counter`.
pub open spec fn first_at(keys: Seq<MessageKey>, counter: u32, i: int) -> bool {
    &&& 0 <= i < keys.len()
    &&& keys[i].counter == counter
    &&& forall|j: int| 0 <= j < i ==> keys[j].counter != counter
}

/// Whether `keys` holds no key of the message at `counter`.
pub open spec fn absent(keys: Seq<MessageKey>, counter: u32) -> bool {
    forall|j: int| 0 <= j < keys.len() ==> keys[j].counter != counter
}

/// Takes the kept key of the message at `counter` out of `skipped`, if
/// one is kept.
pub fn take_skipped(skipped: &mut Vec<MessageKey>, counter: u32) -> (out: Option<MessageKey>)
    ensures
        match out {
            Some(key) => exists|i: int|
                first_at(old(skipped)@, counter, i) && key == old(skipped)@[i] && final(skipped)@
                    == old(skipped)@.remove(i),
            None => absent(old(skipped)@, counter) && final(skipped)@ == old(skipped)@,
        },
{
    let mut i: usize = 0;
    while i < skipped.len()
        invariant
            i <= skipped@.len(),
            skipped@ == old(skipped)@,
            forall|j: int| 0 <= j < i ==> skipped@[j].counter != counter,
        decreases skipped@.len() - i,
    {
        if skipped[i].counter == counter {
            let key = skipped.remove(i);
            assert(first_at(old(skipped)@, counter, i as int));
            return Some(key);
        }
        i += 1;
    }
    None
}

/// Whether a receiving chain at `index` that keeps `kept` keys can step
/// to the message at `counter`: the message is not behind the chain, is
/// not the last of all, and the keys skipped on the way fit beside the
/// kept ones.
pub open spec fn can_step_to(index: u32, kept: nat, counter: u32) -> bool {
    index <= counter < u32::MAX && kept + (counter - index) <= MAX_MESSAGE_KEYS
}

/// Whether `after` is `before` with the keys of the messages from `index`
/// up to, not including, `counter` on the chain from `chain_key`.
pub open spec fn skipped_added(
    before: Seq<MessageKey>,
    after: Seq<MessageKey>,
    chain_key: Seq<u8>,
    index: u32,
    counter: u32,
) -> bool {
    &&& after.len() == before.len() + (counter - index)
    &&& forall|j: int| 0 <= j < before.len() ==> after[j] == before[j]
    &&& forall|j: int|
        0 <= j < counter - index ==> (#[trigger] after[before.len() + j]).counter == index + j
            && after[before.len() + j].key@ == message_key_of(
            chain_key_after(chain_key, j as nat),
        )
}

/// The key of the message at `counter` on a receiving chain. For a
/// message ahead of the chain, the keys of the messages before it are
/// kept in `skipped` and the chain that follows the message is returned.
/// For one behind the chain, its kept key is taken out of `skipped` and
/// the chain is returned as it is. `InvalidMessage`, with `skipped` as it
/// was, where the chain cannot step that far or no key is kept.
pub fn receive_key(chain: &ChainKey, skipped: &mut Vec<MessageKey>, counter: u32) -> (out: Result<
    (MessageKey, ChainKey),
    SignalProtocolError,
>)
    ensures
        match out {
            Ok((key, next)) => if counter < chain.index {
                next == *chain && exists|i: int|
                    first_at(old(skipped)@, counter, i) && key == old(skipped)@[i] && final(skipped)@ == old(skipped)@.remove(i)
            } else {
                can_step_to(chain.index, old(skipped)@.len(), counter) && key.counter == counter
                    && key.key@ == message_key_of(
                    chain_key_after(chain.key@, (counter - chain.index) as nat),
                ) && next.index == counter + 1 && next.key@ == chain_key_after(
                    chain.key@,
                    (counter - chain.index + 1) as nat,
                ) && skipped_added(
                    old(skipped)@,
                    final(skipped)@,
                    chain.key@,
                    chain.index,
                    counter,
                )
            },
            Err(e) => e == SignalProtocolError::InvalidMessage && final(skipped)@ == old(skipped)@ && if counter < chain.index {
                absent(old(skipped)@, counter)
            } else {
                !can_step_to(chain.index, old(skipped)@.len(), counter)
            },
        },
{
    if counter < chain.index {
        return match take_skipped(skipped, counter) {
            Some(key) => Ok((key, *chain)),
            None => Err(SignalProtocolError::InvalidMessage),
        };
    }
    let kept: usize = skipped.len();
    if counter == u32::MAX || kept > MAX_MESSAGE_KEYS || (counter - chain.index) as usize
        > MAX_MESSAGE_KEYS - kept {
        return Err(SignalProtocolError::InvalidMessage);
    }
    let ghost before = skipped@;
    let mut current = *chain;
    while current.index < counter
        invariant
            chain.index <= current.index <= counter < u32::MAX,
            current.key@ == chain_key_after(chain.key@, (current.index - chain.index) as nat),
            skipped_added(before, skipped@, chain.key@, chain.index, current.index),
        decreases counter - current.index,
    {
        let key = current.message_key();
        skipped.push(key);
        current = current.step();
    }
    Ok((current.message_key(), current.step()))
}

/// The label under which the keys of one message are derived:
/// "WhisperMessageKeys".
pub open spec fn message_keys_label() -> Seq<u8> {
    seq![
        87u8,
        104u8,
        105u8,
        115u8,
        112u8,
        101u8,
        114u8,
        77u8,
        101u8,
        115u8,
        115u8,
        97u8,
        103u8,
        101u8,
        75u8,
        101u8,
        121u8,
        115u8,
    ]
}

/// The 80 bytes that the keys of one message are cut from.
pub open spec fn message_key_material(key: Seq<u8>) -> Seq<u8> {
    derived(1, key, default_salt(), message_keys_label(), 80)
}

/// The keys that one message is protected with: a cipher key, a key for
/// the tag, and a nonce.
#[derive(Clone, Copy, Debug, PartialEq, Eq)]
pub struct MessageKeys {
    pub cipher_key: [u8; 32],
    pub mac_key: [u8; 32],
    pub nonce: [u8; 12],
    pub counter: u32,
}

impl MessageKeys {
    /// Cuts the keys of a message from what its message key derives to:
    /// the cipher key, the tag key, and the first 12 of the last 16 bytes
    /// as the nonce.
    pub fn derive(key: &MessageKey) -> (out: MessageKeys)
        ensures
            out.counter == key.counter,
            out.cipher_key@ == message_key_material(key.key@).subrange(0, 32),
            out.mac_key@ == message_key_material(key.key@).subrange(32, 64),
            out.nonce@ == message_key_material(key.key@).subrange(64, 76),
    {
        let label: [u8; 18] = [
            87,
            104,
            105,
            115,
            112,
            101,
            114,
            77,
            101,
            115,
            115,
            97,
            103,
            101,
            75,
            101,
            121,
            115,
        ];
        assert(label@ =~= message_keys_label());
        let okm = Hkdf::version3().derive_exact(
            key.key.as_slice(),
            Hkdf::zero_salt().as_slice(),
            label.as_slice(),
            80,
        );
        let mut nonce = [0u8; 12];
        let mut i: usize = 0;
        while i < 12
            invariant
                i <= 12,
                okm@.len() == 80,
                forall|j: int| 0 <= j < i ==> nonce@[j] == okm@[64 + j],
            decreases 12 - i,
        {
            nonce[i] = okm[64 + i];
            i += 1;
        }
        assert(nonce@ =~= okm@.subrange(64, 76));
        MessageKeys {
            cipher_key: array32_at(okm.as_slice(), 0),
            mac_key: array32_at(okm.as_slice(), 32),
            nonce,
            counter: key.counter,
        }
    }
}

/// Splits 64 derived bytes into a root key and a chain key.
fn split_keys(okm: &Vec<u8>) -> (out: ([u8; 32], [u8; 32]))
    requires
        okm@.len() == 64,
    ensures
        out.0@ == okm@.subrange(0, 32),
        out.1@ == okm@.subrange(32, 64),
{
    (array32_at(okm.as_slice(), 0), array32_at(okm.as_slice(), 32))
}

/// Derives the root key and the first chain key of a session from the
/// concatenated agreements of its handshake.
pub fn derive_initial_keys(secret: &[u8]) -> (out: ([u8; 32], ChainKey))
    ensures
        out.0@ == initial_keys(secret@).0,
        out.1.key@ == initial_keys(secret@).1,
        out.1.index == 0,
{
    let label: [u8; 11] = [87, 104, 105, 115, 112, 101, 114, 84, 101, 120, 116];
    assert(label@ =~= text_label());
    let okm = Hkdf::version3().derive_exact(
        secret,
        Hkdf::zero_salt().as_slice(),
        label.as_slice(),
        64,
    );
    let (root, chain) = split_keys(&okm);
    (root, ChainKey { key: chain, index: 0 })
}

/// One step of the Diffie-Hellman ratchet: from the root key and the
/// agreement of `our_ratchet_key` with `their_ratchet_key`, the next root
/// key and a chain key at position 0.
pub fn ratchet_step(
    root_key: &[u8; 32],
    their_ratchet_key: &PublicKey,
    our_ratchet_key: &PrivateKey,
) -> (out: ([u8; 32], ChainKey))
    ensures
        out.0@ == ratchet_keys(root_key@, x25519(our_ratchet_key@, their_ratchet_key@)).0,
        out.1.key@ == ratchet_keys(root_key@, x25519(our_ratchet_key@, their_ratchet_key@)).1,
        out.1.index == 0,
{
    let shared = our_ratchet_key.calculate_agreement(their_ratchet_key);
    let label: [u8; 14] = [87, 104, 105, 115, 112, 101, 114, 82, 97, 116, 99, 104, 101, 116];
    assert(label@ =~= ratchet_label());
    let okm = Hkdf::version3().derive_exact(
        shared.as_slice(),
        root_key.as_slice(),
        label.as_slice(),
        64,
    );
    let (root, chain) = split_keys(&okm);
    (root, ChainKey { key: chain, index: 0 })
}

} // verus!
