use vstd::prelude::*;
use crate::bytes::{append, array32_at, lemma_head_tail, lemma_join5, lemma_split_head, slice_to_vec};
use crate::curve::{
    decoded, encoded, lemma_decode_encode, lemma_encode_decode, PrivateKey, PublicKey,
};
use crate::signature::{
    calculate_signature, calculate_signature_with, random_64, signature_of, signature_verifies,
    verify_signature,
};
use crate::aead::Aes256GcmSiv;
use crate::error::SignalProtocolError;
use crate::session_cipher::{message_ciphertext, message_plaintext, refused};
use crate::ratchet::{
    chain_key_after, message_key_of, next_chain_key, ChainKey, MessageKey, MessageKeys,
};
use crate::wire::{
    bytes_field, lemma_bytes_field_parsed, lemma_bytes_field_round_trip, lemma_u32_field_parsed,
    lemma_u32_field_round_trip, parse_bytes_field, parse_u32_field, read_bytes_field,
    read_u32_field, u32_field, write_bytes_field, write_u32_field,
};

verus! {

/// The first byte of a group message: version 3 in both halves.
pub const SENDER_KEY_VERSION_BYTE: u8 = 51;

/// Bytes of the signature that ends a group message.
pub const SIGNATURE_LENGTH: usize = 64;

/// The most steps a receiver takes along a sender's chain for one message.
pub const MAX_FORWARD_JUMPS: u32 = 25000;

/// What a group message holds.
pub struct SenderKeyMessageView {
    pub key_id: u32,
    pub iteration: u32,
    pub ciphertext: Seq<u8>,
    pub signature: Seq<u8>,
}

/// Whether these values can stand in a group message.
pub open spec fn valid_sender_key_message(v: SenderKeyMessageView) -> bool {
    v.ciphertext.len() <= u32::MAX && v.signature.len() == SIGNATURE_LENGTH
}

/// The bytes that the signature of a group message covers.
pub open spec fn sender_key_signed_part(key_id: u32, iteration: u32, ciphertext: Seq<u8>) -> Seq<
    u8,
> {
    seq![SENDER_KEY_VERSION_BYTE] + u32_field(8, key_id) + u32_field(16, iteration) + bytes_field(
        26,
        ciphertext,
    )
}

/// The bytes of a group message on the wire: the signed part, then the
/// signature.
pub open spec fn sender_key_wire(v: SenderKeyMessageView) -> Seq<u8> {
    sender_key_signed_part(v.key_id, v.iteration, v.ciphertext) + v.signature
}

/// The group message that `data` is the wire form of, if any.
pub open spec fn parse_sender_key(data: Seq<u8>) -> Option<SenderKeyMessageView> {
    if data.len() == 0 || data[0] != SENDER_KEY_VERSION_BYTE {
        None
    } else {
        match parse_u32_field(8, data.skip(1)) {
            Some((key_id, r1)) => match parse_u32_field(16, r1) {
                Some((iteration, r2)) => match parse_bytes_field(26, r2) {
                    Some((ciphertext, r3)) => if r3.len() == SIGNATURE_LENGTH {
                        Some(SenderKeyMessageView { key_id, iteration, ciphertext, signature: r3 })
                    } else {
                        None
                    },
                    None => None,
                },
                None => None,
            },
            None => None,
        }
    }
}

/// Reading the wire form of a valid group message gives the message back.
pub proof fn lemma_sender_key_round_trip(v: SenderKeyMessageView)
    requires
        valid_sender_key_message(v),
    ensures
        parse_sender_key(sender_key_wire(v)) == Some(v),
{
    let f1 = u32_field(8, v.key_id);
    let f2 = u32_field(16, v.iteration);
    let f3 = bytes_field(26, v.ciphertext);
    let r2 = f3 + v.signature;
    let r1 = f2 + r2;
    let r0 = f1 + r1;
    lemma_join5(seq![SENDER_KEY_VERSION_BYTE], f1, f2, f3, v.signature);
    lemma_head_tail(SENDER_KEY_VERSION_BYTE, r0);
    lemma_u32_field_round_trip(8, v.key_id, r1);
    lemma_u32_field_round_trip(16, v.iteration, r2);
    lemma_bytes_field_round_trip(26, v.ciphertext, v.signature);
}

/// What reads as a group message is the wire form of that message, and the
/// message is valid.
pub proof fn lemma_sender_key_parsed(data: Seq<u8>)
    requires
        parse_sender_key(data) is Some,
    ensures
        valid_sender_key_message(parse_sender_key(data).unwrap()),
        sender_key_wire(parse_sender_key(data).unwrap()) == data,
{
    let v = parse_sender_key(data).unwrap();
    let (key_id, r1) = parse_u32_field(8, data.skip(1)).unwrap();
    let (iteration, r2) = parse_u32_field(16, r1).unwrap();
    let (ciphertext, r3) = parse_bytes_field(26, r2).unwrap();
    lemma_u32_field_parsed(8, data.skip(1));
    lemma_u32_field_parsed(16, r1);
    lemma_bytes_field_parsed(26, r2);
    lemma_split_head(data);
    let f1 = u32_field(8, v.key_id);
    let f2 = u32_field(16, v.iteration);
    let f3 = bytes_field(26, v.ciphertext);
    assert(r2 == f3 + r3);
    assert(r1 == f2 + (f3 + r3));
    assert(data == seq![SENDER_KEY_VERSION_BYTE] + (f1 + (f2 + (f3 + r3))));
    lemma_join5(seq![SENDER_KEY_VERSION_BYTE], f1, f2, f3, r3);
}

/// A group message: the id of the sender's key, the position in its
/// chain, the ciphertext and the sender's signature.
#[derive(Debug, PartialEq, Eq)]
pub struct SenderKeyMessage {
    key_id: u32,
    iteration: u32,
    ciphertext: Vec<u8>,
    signature: Vec<u8>,
    serialized: Vec<u8>,
}

impl View for SenderKeyMessage {
    type V = SenderKeyMessageView;

    closed spec fn view(&self) -> SenderKeyMessageView {
        SenderKeyMessageView {
            key_id: self.key_id,
            iteration: self.iteration,
            ciphertext: self.ciphertext@,
            signature: self.signature@,
        }
    }
}

/// Writes the part of a group message that its signature covers.
pub fn sender_key_bytes_to_sign(key_id: u32, iteration: u32, ciphertext: &[u8]) -> (out: Vec<u8>)
    ensures
        out@ == sender_key_signed_part(key_id, iteration, ciphertext@),
{
    let mut out: Vec<u8> = Vec::new();
    out.push(SENDER_KEY_VERSION_BYTE);
    write_u32_field(&mut out, 8, key_id);
    write_u32_field(&mut out, 16, iteration);
    write_bytes_field(&mut out, 26, ciphertext);
    assert(out@ =~= sender_key_signed_part(key_id, iteration, ciphertext@));
    out
}

impl SenderKeyMessage {
    #[verifier::type_invariant]
    spec fn inv(self) -> bool {
        valid_sender_key_message(self@) && self.serialized@ == sender_key_wire(self@)
    }

    /// The group message of these values, where `signature` is the
    /// sender's signature over `sender_key_bytes_to_sign` of the others.
    /// `InvalidArgument` for a signature that is not 64 bytes or a
    /// ciphertext of 4 GiB or more.
    pub fn new(key_id: u32, iteration: u32, ciphertext: &[u8], signature: &[u8]) -> (out: Result<
        SenderKeyMessage,
        SignalProtocolError,
    >)
        ensures
            match out {
                Ok(m) => m@ == (SenderKeyMessageView {
                    key_id,
                    iteration,
                    ciphertext: ciphertext@,
                    signature: signature@,
                }) && valid_sender_key_message(m@),
                Err(e) => e == SignalProtocolError::InvalidArgument && (signature@.len()
                    != SIGNATURE_LENGTH || ciphertext@.len() > u32::MAX),
            },
    {
        if signature.len() != SIGNATURE_LENGTH || ciphertext.len() > 0xffff_ffff {
            return Err(SignalProtocolError::InvalidArgument);
        }
        let mut serialized = sender_key_bytes_to_sign(key_id, iteration, ciphertext);
        append(&mut serialized, signature);
        let owned_ciphertext = slice_to_vec(ciphertext, 0, ciphertext.len());
        let owned_signature = slice_to_vec(signature, 0, signature.len());
        proof {
            assert(owned_ciphertext@ =~= ciphertext@);
            assert(owned_signature@ =~= signature@);
        }
        Ok(
            SenderKeyMessage {
                key_id,
                iteration,
                ciphertext: owned_ciphertext,
                signature: owned_signature,
                serialized,
            },
        )
    }

    /// The group message of these values, signed with the sender's
    /// private signing key and the 64 bytes `random`. `InvalidArgument`
    /// for a ciphertext of 4 GiB or more.
    pub fn sign_with(
        key_id: u32,
        iteration: u32,
        ciphertext: &[u8],
        signing_key: &PrivateKey,
        random: &[u8; 64],
    ) -> (out: Result<SenderKeyMessage, SignalProtocolError>)
        ensures
            match out {
                Ok(m) => ciphertext@.len() <= u32::MAX && m@ == (SenderKeyMessageView {
                    key_id,
                    iteration,
                    ciphertext: ciphertext@,
                    signature: signature_of(
                        signing_key@,
                        sender_key_signed_part(key_id, iteration, ciphertext@),
                        random@,
                    ),
                }),
                Err(e) => ciphertext@.len() > u32::MAX && e
                    == SignalProtocolError::InvalidArgument,
            },
    {
        if ciphertext.len() > 0xffff_ffff {
            return Err(SignalProtocolError::InvalidArgument);
        }
        let body = sender_key_bytes_to_sign(key_id, iteration, ciphertext);
        let signature = calculate_signature_with(signing_key, body.as_slice(), random);
        SenderKeyMessage::new(key_id, iteration, ciphertext, signature.as_slice())
    }

    /// The group message of these values, signed with the sender's
    /// private signing key and fresh randomness. `InvalidArgument` for a
    /// ciphertext of 4 GiB or more; `InvalidState` where the system's
    /// generator gave nothing.
    pub fn sign(key_id: u32, iteration: u32, ciphertext: &[u8], signing_key: &PrivateKey) -> (out:
        Result<SenderKeyMessage, SignalProtocolError>)
        ensures
            match out {
                Ok(m) => m@.key_id == key_id && m@.iteration == iteration && m@.ciphertext
                    == ciphertext@ && ciphertext@.len() <= u32::MAX && exists|random: Seq<u8>|
                    random.len() == 64 && m@.signature == #[trigger] signature_of(
                        signing_key@,
                        sender_key_signed_part(key_id, iteration, ciphertext@),
                        random,
                    ),
                Err(e) => if ciphertext@.len() > u32::MAX {
                    e == SignalProtocolError::InvalidArgument
                } else {
                    e == SignalProtocolError::InvalidState
                },
            },
    {
        if ciphertext.len() > 0xffff_ffff {
            return Err(SignalProtocolError::InvalidArgument);
        }
        let body = sender_key_bytes_to_sign(key_id, iteration, ciphertext);
        match calculate_signature(signing_key, body.as_slice()) {
            Ok(signature) => SenderKeyMessage::new(key_id, iteration, ciphertext, signature.as_slice()),
            Err(e) => Err(e),
        }
    }

    /// Whether the message's signature verifies under the sender's
    /// signing key.
    pub fn verify_signature(&self, signing_key: &PublicKey) -> (out: bool)
        ensures
            out == signature_verifies(
                signing_key@,
                sender_key_signed_part(self@.key_id, self@.iteration, self@.ciphertext),
                self@.signature,
            ),
    {
        proof {
            use_type_invariant(self);
        }
        let body = self.signed_part();
        match verify_signature(signing_key, body.as_slice(), self.signature.as_slice()) {
            Ok(valid) => valid,
            Err(_) => false,
        }
    }

    /// Reads a group message from its wire form; `InvalidMessage` for
    /// bytes that are not the wire form of one.
    pub fn deserialize(data: &[u8]) -> (out: Result<SenderKeyMessage, SignalProtocolError>)
        ensures
            match out {
                Ok(m) => parse_sender_key(data@) == Some(m@) && sender_key_wire(m@) == data@,
                Err(e) => parse_sender_key(data@) is None && e
                    == SignalProtocolError::InvalidMessage,
            },
    {
        if data.len() == 0 || data[0] != SENDER_KEY_VERSION_BYTE {
            return Err(SignalProtocolError::InvalidMessage);
        }
        let (key_id, pos1) = match read_u32_field(data, 1, 8) {
            Some(found) => found,
            None => {
                return Err(SignalProtocolError::InvalidMessage);
            },
        };
        let (iteration, pos2) = match read_u32_field(data, pos1, 16) {
            Some(found) => found,
            None => {
                return Err(SignalProtocolError::InvalidMessage);
            },
        };
        let (ciphertext, pos3) = match read_bytes_field(data, pos2, 26) {
            Some(found) => found,
            None => {
                return Err(SignalProtocolError::InvalidMessage);
            },
        };
        if data.len() - pos3 != SIGNATURE_LENGTH {
            return Err(SignalProtocolError::InvalidMessage);
        }
        let signature = slice_to_vec(data, pos3, data.len());
        let serialized = slice_to_vec(data, 0, data.len());
        proof {
            assert(signature@ =~= data@.skip(pos3 as int));
            assert(serialized@ =~= data@);
            lemma_sender_key_parsed(data@);
        }
        Ok(SenderKeyMessage { key_id, iteration, ciphertext, signature, serialized })
    }

    /// The bytes of the message on the wire.
    pub fn serialized(&self) -> (out: &Vec<u8>)
        ensures
            out@ == sender_key_wire(self@),
            parse_sender_key(out@) == Some(self@),
    {
        proof {
            use_type_invariant(self);
            lemma_sender_key_round_trip(self@);
        }
        &self.serialized
    }

    /// The id of the sender's key.
    pub fn key_id(&self) -> (out: u32)
        ensures
            out == self@.key_id,
    {
        self.key_id
    }

    /// The position of the message in the sender's chain.
    pub fn iteration(&self) -> (out: u32)
        ensures
            out == self@.iteration,
    {
        self.iteration
    }

    /// The ciphertext.
    pub fn ciphertext(&self) -> (out: &Vec<u8>)
        ensures
            out@ == self@.ciphertext,
    {
        &self.ciphertext
    }

    /// The sender's signature.
    pub fn signature(&self) -> (out: &Vec<u8>)
        ensures
            out@ == self@.signature,
    {
        &self.signature
    }

    /// The bytes that the signature covers.
    pub fn signed_part(&self) -> (out: Vec<u8>)
        ensures
            out@ == sender_key_signed_part(self@.key_id, self@.iteration, self@.ciphertext),
    {
        sender_key_bytes_to_sign(self.key_id, self.iteration, self.ciphertext.as_slice())
    }
}

/// What a distribution message holds: where a sender's chain stands, and
/// the key that its signatures verify under.
pub struct SenderKeyDistributionMessageView {
    pub id: u32,
    pub iteration: u32,
    pub chain_key: Seq<u8>,
    pub signing_key: Seq<u8>,
}

/// Whether these values can stand in a distribution message.
pub open spec fn valid_distribution(v: SenderKeyDistributionMessageView) -> bool {
    v.chain_key.len() == 32 && v.signing_key.len() == 32
}

/// The bytes of a distribution message on the wire.
pub open spec fn distribution_wire(v: SenderKeyDistributionMessageView) -> Seq<u8> {
    seq![SENDER_KEY_VERSION_BYTE] + u32_field(8, v.id) + u32_field(16, v.iteration) + bytes_field(
        26,
        v.chain_key,
    ) + bytes_field(34, encoded(v.signing_key))
}

/// The distribution message that `data` is the wire form of, if any.
pub open spec fn parse_distribution(data: Seq<u8>) -> Option<SenderKeyDistributionMessageView> {
    if data.len() == 0 || data[0] != SENDER_KEY_VERSION_BYTE {
        None
    } else {
        match parse_u32_field(8, data.skip(1)) {
            Some((id, r1)) => match parse_u32_field(16, r1) {
                Some((iteration, r2)) => match parse_bytes_field(26, r2) {
                    Some((chain_key, r3)) => match parse_bytes_field(34, r3) {
                        Some((key, r4)) => match decoded(key) {
                            Some(signing_key) => if r4.len() == 0 && chain_key.len() == 32 {
                                Some(
                                    SenderKeyDistributionMessageView {
                                        id,
                                        iteration,
                                        chain_key,
                                        signing_key,
                                    },
                                )
                            } else {
                                None
                            },
                            None => None,
                        },
                        None => None,
                    },
                    None => None,
                },
                None => None,
            },
            None => None,
        }
    }
}

/// Reading the wire form of a valid distribution message gives the
/// message back.
pub proof fn lemma_distribution_round_trip(v: SenderKeyDistributionMessageView)
    requires
        valid_distribution(v),
    ensures
        parse_distribution(distribution_wire(v)) == Some(v),
{
    let f1 = u32_field(8, v.id);
    let f2 = u32_field(16, v.iteration);
    let f3 = bytes_field(26, v.chain_key);
    let f4 = bytes_field(34, encoded(v.signing_key));
    let r4 = Seq::<u8>::empty();
    let r2 = f3 + f4;
    let r1 = f2 + r2;
    let r0 = f1 + r1;
    lemma_join5(seq![SENDER_KEY_VERSION_BYTE], f1, f2, f3, f4);
    lemma_head_tail(SENDER_KEY_VERSION_BYTE, r0);
    assert(f4 + r4 =~= f4);
    lemma_u32_field_round_trip(8, v.id, r1);
    lemma_u32_field_round_trip(16, v.iteration, r2);
    lemma_bytes_field_round_trip(26, v.chain_key, f4);
    lemma_bytes_field_round_trip(34, encoded(v.signing_key), r4);
    lemma_decode_encode(v.signing_key);
}

/// What reads as a distribution message is the wire form of that message,
/// and the message is valid.
pub proof fn lemma_distribution_parsed(data: Seq<u8>)
    requires
        parse_distribution(data) is Some,
    ensures
        valid_distribution(parse_distribution(data).unwrap()),
        distribution_wire(parse_distribution(data).unwrap()) == data,
{
    let v = parse_distribution(data).unwrap();
    let (id, r1) = parse_u32_field(8, data.skip(1)).unwrap();
    let (iteration, r2) = parse_u32_field(16, r1).unwrap();
    let (chain_key, r3) = parse_bytes_field(26, r2).unwrap();
    let (key, r4) = parse_bytes_field(34, r3).unwrap();
    lemma_u32_field_parsed(8, data.skip(1));
    lemma_u32_field_parsed(16, r1);
    lemma_bytes_field_parsed(26, r2);
    lemma_bytes_field_parsed(34, r3);
    lemma_encode_decode(key);
    lemma_split_head(data);
    let f1 = u32_field(8, v.id);
    let f2 = u32_field(16, v.iteration);
    let f3 = bytes_field(26, v.chain_key);
    let f4 = bytes_field(34, encoded(v.signing_key));
    assert(r4 =~= Seq::<u8>::empty());
    assert(f4 + r4 =~= f4);
    assert(r3 == f4);
    assert(r2 == f3 + f4);
    assert(r1 == f2 + (f3 + f4));
    assert(data == seq![SENDER_KEY_VERSION_BYTE] + (f1 + (f2 + (f3 + f4))));
    lemma_join5(seq![SENDER_KEY_VERSION_BYTE], f1, f2, f3, f4);
}

/// A distribution message: what a member needs to read a sender's group
/// messages from one position on.
#[derive(Debug, PartialEq, Eq)]
pub struct SenderKeyDistributionMessage {
    id: u32,
    iteration: u32,
    chain_key: [u8; 32],
    signing_key: PublicKey,
    serialized: Vec<u8>,
}

impl View for SenderKeyDistributionMessage {
    type V = SenderKeyDistributionMessageView;

    closed spec fn view(&self) -> SenderKeyDistributionMessageView {
        SenderKeyDistributionMessageView {
            id: self.id,
            iteration: self.iteration,
            chain_key: self.chain_key@,
            signing_key: self.signing_key@,
        }
    }
}

impl SenderKeyDistributionMessage {
    #[verifier::type_invariant]
    spec fn inv(self) -> bool {
        self.serialized@ == distribution_wire(self@)
    }

    /// The distribution message of these values; `InvalidArgument` for a
    /// chain key that is not 32 bytes.
    pub fn new(id: u32, iteration: u32, chain_key: &[u8], signing_key: PublicKey) -> (out: Result<
        SenderKeyDistributionMessage,
        SignalProtocolError,
    >)
        ensures
            match out {
                Ok(m) => m@ == (SenderKeyDistributionMessageView {
                    id,
                    iteration,
                    chain_key: chain_key@,
                    signing_key: signing_key@,
                }) && valid_distribution(m@),
                Err(e) => e == SignalProtocolError::InvalidArgument && chain_key@.len() != 32,
            },
    {
        if chain_key.len() != 32 {
            return Err(SignalProtocolError::InvalidArgument);
        }
        let mut serialized: Vec<u8> = Vec::new();
        serialized.push(SENDER_KEY_VERSION_BYTE);
        write_u32_field(&mut serialized, 8, id);
        write_u32_field(&mut serialized, 16, iteration);
        write_bytes_field(&mut serialized, 26, chain_key);
        let key = signing_key.serialize();
        write_bytes_field(&mut serialized, 34, key.as_slice());
        let chain = array32_at(chain_key, 0);
        proof {
            signing_key.lemma_len();
            assert(chain@ =~= chain_key@);
        }
        Ok(SenderKeyDistributionMessage { id, iteration, chain_key: chain, signing_key, serialized })
    }

    /// Reads a distribution message from its wire form; `InvalidMessage`
    /// for bytes that are not the wire form of one.
    pub fn deserialize(data: &[u8]) -> (out: Result<
        SenderKeyDistributionMessage,
        SignalProtocolError,
    >)
        ensures
            match out {
                Ok(m) => parse_distribution(data@) == Some(m@) && distribution_wire(m@) == data@,
                Err(e) => parse_distribution(data@) is None && e
                    == SignalProtocolError::InvalidMessage,
            },
    {
        if data.len() == 0 || data[0] != SENDER_KEY_VERSION_BYTE {
            return Err(SignalProtocolError::InvalidMessage);
        }
        let (id, pos1) = match read_u32_field(data, 1, 8) {
            Some(found) => found,
            None => {
                return Err(SignalProtocolError::InvalidMessage);
            },
        };
        let (iteration, pos2) = match read_u32_field(data, pos1, 16) {
            Some(found) => found,
            None => {
                return Err(SignalProtocolError::InvalidMessage);
            },
        };
        let (chain, pos3) = match read_bytes_field(data, pos2, 26) {
            Some(found) => found,
            None => {
                return Err(SignalProtocolError::InvalidMessage);
            },
        };
        let (key, pos4) = match read_bytes_field(data, pos3, 34) {
            Some(found) => found,
            None => {
                return Err(SignalProtocolError::InvalidMessage);
            },
        };
        let signing_key = match PublicKey::deserialize(key.as_slice()) {
            Ok(k) => k,
            Err(_) => {
                return Err(SignalProtocolError::InvalidMessage);
            },
        };
        if pos4 != data.len() || chain.len() != 32 {
            return Err(SignalProtocolError::InvalidMessage);
        }
        let chain_key = array32_at(chain.as_slice(), 0);
        let serialized = slice_to_vec(data, 0, data.len());
        proof {
            assert(chain_key@ =~= chain@);
            assert(serialized@ =~= data@);
            lemma_distribution_parsed(data@);
        }
        Ok(SenderKeyDistributionMessage { id, iteration, chain_key, signing_key, serialized })
    }

    /// The bytes of the message on the wire.
    pub fn serialized(&self) -> (out: &Vec<u8>)
        ensures
            out@ == distribution_wire(self@),
            parse_distribution(out@) == Some(self@),
    {
        proof {
            use_type_invariant(self);
            self.signing_key.lemma_len();
            lemma_distribution_round_trip(self@);
        }
        &self.serialized
    }

    /// The id of the sender's key.
    pub fn id(&self) -> (out: u32)
        ensures
            out == self@.id,
    {
        self.id
    }

    /// The position that the chain key stands at.
    pub fn iteration(&self) -> (out: u32)
        ensures
            out == self@.iteration,
    {
        self.iteration
    }

    /// The chain key.
    pub fn chain_key(&self) -> (out: [u8; 32])
        ensures
            out@ == self@.chain_key,
    {
        self.chain_key
    }

    /// The key that the sender's signatures verify under.
    pub fn signing_key(&self) -> (out: PublicKey)
        ensures
            out@ == self@.signing_key,
    {
        self.signing_key
    }
}

/// Whether a chain that stands at `start` reaches the position `target`:
/// it never goes back, and goes no more than the bound ahead.
pub open spec fn reachable(start: u32, target: u32) -> bool {
    start <= target && target - start <= MAX_FORWARD_JUMPS
}

/// A member that holds a chain at position `n` reaches `n` and the
/// position after it, and does not reach the position before it.
pub proof fn lemma_fast_forward_window(n: u32)
    ensures
        reachable(n, n),
        n < u32::MAX ==> reachable(n, (n + 1) as u32),
        n > 0 ==> !reachable(n, (n - 1) as u32),
        forall|t: u32| t < n ==> !reachable(n, t),
        forall|t: u32| n <= t && t - n <= MAX_FORWARD_JUMPS ==> reachable(n, t),
{
}

/// What a member holds of one sender of a group: the id of the sender's
/// key, where its chain stands, and the key its signatures verify under.
#[derive(Clone, Copy, Debug, PartialEq, Eq)]
pub struct SenderKeyState {
    pub key_id: u32,
    pub chain_key: ChainKey,
    pub signing_key: PublicKey,
}

impl SenderKeyState {
    /// The state that a distribution message sets up.
    pub fn from_distribution(message: &SenderKeyDistributionMessage) -> (out: SenderKeyState)
        ensures
            out.key_id == message@.id,
            out.chain_key.index == message@.iteration,
            out.chain_key.key@ == message@.chain_key,
            out.signing_key@ == message@.signing_key,
    {
        SenderKeyState {
            key_id: message.id(),
            chain_key: ChainKey::new(message.chain_key(), message.iteration()),
            signing_key: message.signing_key(),
        }
    }

    /// The key of the message at `iteration`, reached by stepping the
    /// chain forward; the chain then stands behind that message.
    /// `InvalidMessage`, and the state as it was, for a position that the
    /// chain does not reach or for the last position of all.
    pub fn message_key_for(&mut self, iteration: u32) -> (out: Result<
        MessageKey,
        SignalProtocolError,
    >)
        ensures
            final(self).key_id == old(self).key_id,
            final(self).signing_key == old(self).signing_key,
            match out {
                Ok(key) => reachable(old(self).chain_key.index, iteration) && iteration < u32::MAX
                    && key.counter == iteration && key.key@ == message_key_of(
                    chain_key_after(
                        old(self).chain_key.key@,
                        (iteration - old(self).chain_key.index) as nat,
                    ),
                ) && final(self).chain_key.index == iteration + 1 && final(self).chain_key.key@
                    == chain_key_after(
                    old(self).chain_key.key@,
                    (iteration - old(self).chain_key.index + 1) as nat,
                ),
                Err(e) => e == SignalProtocolError::InvalidMessage && *final(self) == *old(self)
                    && (!reachable(old(self).chain_key.index, iteration) || iteration
                    == u32::MAX),
            },
    {
        if iteration == u32::MAX {
            return Err(SignalProtocolError::InvalidMessage);
        }
        match self.chain_key.advance_to(iteration, MAX_FORWARD_JUMPS) {
            Ok(at) => {
                self.chain_key = at.step();
                Ok(at.message_key())
            },
            Err(e) => Err(e),
        }
    }
}

/// Whether a member with the state `state` can read the group message
/// `m`: the message names the state's key, its signature verifies under
/// the sender's signing key, the chain reaches its position, and the key
/// of that position opens the ciphertext.
pub open spec fn group_readable(state: SenderKeyState, m: SenderKeyMessageView) -> bool {
    &&& m.key_id == state.key_id
    &&& signature_verifies(
        state.signing_key@,
        sender_key_signed_part(m.key_id, m.iteration, m.ciphertext),
        m.signature,
    )
    &&& reachable(state.chain_key.index, m.iteration)
    &&& m.iteration < u32::MAX
    &&& message_plaintext(
        message_key_of(
            chain_key_after(state.chain_key.key@, (m.iteration - state.chain_key.index) as nat),
        ),
        m.ciphertext,
    ) is Some
}

/// Whether `after` and the message `m` are what a sender in the state
/// `before` makes of `plaintext` with its private signing key and the 64
/// bytes `random`: the message stands at the chain's position, holds the
/// ciphertext under that position's message key and the signature over
/// its signed part, and the chain has stepped once.
pub open spec fn group_sent(
    before: SenderKeyState,
    after: SenderKeyState,
    plaintext: Seq<u8>,
    signing_key: Seq<u8>,
    random: Seq<u8>,
    m: SenderKeyMessageView,
) -> bool {
    let chain = before.chain_key;
    &&& chain.index < u32::MAX
    &&& !refused(chain.key@, plaintext)
    &&& m.key_id == before.key_id
    &&& m.iteration == chain.index
    &&& message_ciphertext(message_key_of(chain.key@), plaintext) == Some(m.ciphertext)
    &&& m.signature == signature_of(
        signing_key,
        sender_key_signed_part(m.key_id, m.iteration, m.ciphertext),
        random,
    )
    &&& after.chain_key.index == chain.index + 1
    &&& after.chain_key.key@ == next_chain_key(chain.key@)
    &&& after.key_id == before.key_id
    &&& after.signing_key == before.signing_key
}

/// The error that a sender in the state `state` owes for `plaintext`, if
/// any: `InvalidState` at the end of the chain, `InvalidArgument` where
/// the cipher or the framing refuses the plaintext.
pub open spec fn group_send_error(state: SenderKeyState, plaintext: Seq<u8>) -> Option<
    SignalProtocolError,
> {
    if state.chain_key.index == u32::MAX {
        Some(SignalProtocolError::InvalidState)
    } else if refused(state.chain_key.key@, plaintext) {
        Some(SignalProtocolError::InvalidArgument)
    } else {
        None
    }
}

impl SenderKeyState {
    /// Encrypts `plaintext` under the message key of the chain's position
    /// and gives the ciphertext with the chain key that follows.
    fn seal(&self, plaintext: &[u8]) -> (out: Result<(Vec<u8>, ChainKey), SignalProtocolError>)
        ensures
            match out {
                Ok((ciphertext, next)) => group_send_error(*self, plaintext@) is None
                    && message_ciphertext(message_key_of(self.chain_key.key@), plaintext@) == Some(
                    ciphertext@,
                ) && ciphertext@.len() <= u32::MAX && next.index == self.chain_key.index + 1
                    && next.key@ == next_chain_key(self.chain_key.key@),
                Err(e) => group_send_error(*self, plaintext@) == Some(e),
            },
    {
        let next = match self.chain_key.next() {
            Ok(next) => next,
            Err(e) => {
                return Err(e);
            },
        };
        let keys = MessageKeys::derive(&self.chain_key.message_key());
        let cipher = Aes256GcmSiv::from_key(keys.cipher_key);
        let aad: [u8; 0] = [];
        assert(aad@ =~= Seq::<u8>::empty());
        let ciphertext = match cipher.encrypt(plaintext, keys.nonce.as_slice(), aad.as_slice()) {
            Ok(c) => c,
            Err(e) => {
                return Err(e);
            },
        };
        if ciphertext.len() > 0xffff_ffff {
            return Err(SignalProtocolError::InvalidArgument);
        }
        Ok((ciphertext, next))
    }

    /// Encrypts `plaintext` as the sender's next group message, signed
    /// with the sender's private signing key and the 64 bytes `random`,
    /// and steps the chain. `InvalidState` at the end of the chain;
    /// `InvalidArgument` where the cipher or the framing refuses the
    /// plaintext. On an error the state stays as it was.
    pub fn encrypt_with(&mut self, plaintext: &[u8], signing_key: &PrivateKey, random: &[u8; 64]) -> (out:
        Result<SenderKeyMessage, SignalProtocolError>)
        ensures
            match out {
                Ok(m) => group_send_error(*old(self), plaintext@) is None && group_sent(
                    *old(self),
                    *final(self),
                    plaintext@,
                    signing_key@,
                    random@,
                    m@,
                ),
                Err(e) => *final(self) == *old(self) && group_send_error(*old(self), plaintext@)
                    == Some(e),
            },
    {
        let (ciphertext, next) = match self.seal(plaintext) {
            Ok(sealed) => sealed,
            Err(e) => {
                return Err(e);
            },
        };
        match SenderKeyMessage::sign_with(
            self.key_id,
            self.chain_key.index,
            ciphertext.as_slice(),
            signing_key,
            random,
        ) {
            Ok(m) => {
                self.chain_key = next;
                Ok(m)
            },
            Err(e) => Err(e),
        }
    }

    /// Encrypts `plaintext` as `encrypt_with` does, with 64 bytes from the
    /// system's random generator. `InvalidState` at the end of the chain;
    /// `InvalidArgument` where the cipher or the framing refuses the
    /// plaintext; `InvalidState` also where neither holds and the
    /// generator gave nothing. On an error the state stays as it was.
    pub fn encrypt(&mut self, plaintext: &[u8], signing_key: &PrivateKey) -> (out: Result<
        SenderKeyMessage,
        SignalProtocolError,
    >)
        ensures
            match out {
                Ok(m) => exists|random: Seq<u8>|
                    random.len() == 64 && #[trigger] group_sent(
                        *old(self),
                        *final(self),
                        plaintext@,
                        signing_key@,
                        random,
                        m@,
                    ),
                Err(e) => {
                    &&& *final(self) == *old(self)
                    &&& e == SignalProtocolError::InvalidArgument <==> old(self).chain_key.index
                        < u32::MAX && refused(old(self).chain_key.key@, plaintext@)
                    &&& e == SignalProtocolError::InvalidArgument || e
                        == SignalProtocolError::InvalidState
                    &&& group_send_error(*old(self), plaintext@) is Some ==> group_send_error(
                        *old(self),
                        plaintext@,
                    ) == Some(e)
                },
            },
    {
        match random_64() {
            Some(random) => self.encrypt_with(plaintext, signing_key, &random),
            None => match self.seal(plaintext) {
                Ok(_) => Err(SignalProtocolError::InvalidState),
                Err(e) => Err(e),
            },
        }
    }

    /// Decrypts a group message: checks that it names this state's key
    /// and that its signature verifies, steps the chain forward to its
    /// position and opens the ciphertext; the chain then stands behind
    /// the message. `InvalidMessage`, with the state as it was, where the
    /// message cannot be read.
    pub fn decrypt(&mut self, message: &SenderKeyMessage) -> (out: Result<
        Vec<u8>,
        SignalProtocolError,
    >)
        ensures
            match out {
                Ok(plaintext) => {
                    let chain = old(self).chain_key;
                    let steps = (message@.iteration - chain.index) as nat;
                    &&& group_readable(*old(self), message@)
                    &&& message_plaintext(
                        message_key_of(chain_key_after(chain.key@, steps)),
                        message@.ciphertext,
                    ) == Some(plaintext@)
                    &&& final(self).chain_key.index == message@.iteration + 1
                    &&& final(self).chain_key.key@ == chain_key_after(chain.key@, steps + 1)
                    &&& final(self).key_id == old(self).key_id
                    &&& final(self).signing_key == old(self).signing_key
                },
                Err(e) => e == SignalProtocolError::InvalidMessage && *final(self) == *old(self)
                    && !group_readable(*old(self), message@),
            },
    {
        if message.key_id() != self.key_id || !message.verify_signature(&self.signing_key) {
            return Err(SignalProtocolError::InvalidMessage);
        }
        let mut stepped = *self;
        let key = match stepped.message_key_for(message.iteration()) {
            Ok(key) => key,
            Err(e) => {
                return Err(e);
            },
        };
        let keys = MessageKeys::derive(&key);
        let cipher = Aes256GcmSiv::from_key(keys.cipher_key);
        let aad: [u8; 0] = [];
        assert(aad@ =~= Seq::<u8>::empty());
        match cipher.decrypt(message.ciphertext().as_slice(), keys.nonce.as_slice(), aad.as_slice()) {
            Ok(plaintext) => {
                *self = stepped;
                Ok(plaintext)
            },
            Err(_) => Err(SignalProtocolError::InvalidMessage),
        }
    }
}

/// What a stored state of a sender's key holds.
pub struct SenderKeyStateView {
    pub key_id: u32,
    pub iteration: u32,
    pub chain_key: Seq<u8>,
    pub signing_key: Seq<u8>,
}

/// The bytes of one state in storage, as a field: the key id, the
/// position of the chain, the chain key and the signing key.
pub open spec fn state_field(v: SenderKeyStateView) -> Seq<u8> {
    bytes_field(
        10,
        u32_field(8, v.key_id) + (u32_field(16, v.iteration) + (bytes_field(26, v.chain_key)
            + bytes_field(34, encoded(v.signing_key)))),
    )
}

/// The state that stands at the head of `data` as a field, with what
/// follows it.
pub open spec fn parse_state_field(data: Seq<u8>) -> Option<(SenderKeyStateView, Seq<u8>)> {
    match parse_bytes_field(10, data) {
        Some((body, rest)) => match parse_u32_field(8, body) {
            Some((key_id, r1)) => match parse_u32_field(16, r1) {
                Some((iteration, r2)) => match parse_bytes_field(26, r2) {
                    Some((chain_key, r3)) => match parse_bytes_field(34, r3) {
                        Some((key, r4)) => match decoded(key) {
                            Some(signing_key) => if r4.len() == 0 && chain_key.len() == 32 {
                                Some(
                                    (
                                        SenderKeyStateView {
                                            key_id,
                                            iteration,
                                            chain_key,
                                            signing_key,
                                        },
                                        rest,
                                    ),
                                )
                            } else {
                                None
                            },
                            None => None,
                        },
                        None => None,
                    },
                    None => None,
                },
                None => None,
            },
            None => None,
        },
        None => None,
    }
}

/// A stored state is read back, whatever follows it.
pub proof fn lemma_state_field_round_trip(v: SenderKeyStateView, rest: Seq<u8>)
    requires
        v.chain_key.len() == 32,
        v.signing_key.len() == 32,
    ensures
        parse_state_field(state_field(v) + rest) == Some((v, rest)),
        state_field(v).len() > 0,
{
    let empty = Seq::<u8>::empty();
    let f1 = u32_field(8, v.key_id);
    let f2 = u32_field(16, v.iteration);
    let f3 = bytes_field(26, v.chain_key);
    let f4 = bytes_field(34, encoded(v.signing_key));
    let body = f1 + (f2 + (f3 + f4));
    assert(f4 + empty =~= f4);
    crate::wire::lemma_field_len(26, v.chain_key, v.key_id);
    crate::wire::lemma_field_len(34, encoded(v.signing_key), v.iteration);
    assert(body.len() <= 100);
    lemma_bytes_field_round_trip(10, body, rest);
    lemma_u32_field_round_trip(8, v.key_id, f2 + (f3 + f4));
    lemma_u32_field_round_trip(16, v.iteration, f3 + f4);
    lemma_bytes_field_round_trip(26, v.chain_key, f4);
    lemma_bytes_field_round_trip(34, encoded(v.signing_key), empty);
    lemma_decode_encode(v.signing_key);
    crate::wire::lemma_field_len(10, body, 0);
}

/// The bytes of a list of states in storage: each as a field, one after
/// the other.
pub open spec fn states_wire(states: Seq<SenderKeyStateView>) -> Seq<u8>
    decreases states.len(),
{
    if states.len() == 0 {
        Seq::<u8>::empty()
    } else {
        state_field(states[0]) + states_wire(states.skip(1))
    }
}

/// The list of states that `data` is the stored form of, if any.
pub open spec fn parse_states(data: Seq<u8>) -> Option<Seq<SenderKeyStateView>>
    decreases data.len(),
{
    if data.len() == 0 {
        Some(Seq::<SenderKeyStateView>::empty())
    } else {
        match parse_state_field(data) {
            Some((state, rest)) => if rest.len() < data.len() {
                match parse_states(rest) {
                    Some(more) => Some(seq![state] + more),
                    None => None,
                }
            } else {
                None
            },
            None => None,
        }
    }
}

/// Whether every state of a list can stand in storage.
pub open spec fn valid_states(states: Seq<SenderKeyStateView>) -> bool {
    forall|i: int|
        0 <= i < states.len() ==> (#[trigger] states[i]).chain_key.len() == 32
            && states[i].signing_key.len() == 32
}

/// Reading the stored form of a list of states gives the list back.
pub proof fn lemma_states_round_trip(states: Seq<SenderKeyStateView>)
    requires
        valid_states(states),
    ensures
        parse_states(states_wire(states)) == Some(states),
    decreases states.len(),
{
    if states.len() == 0 {
        assert(states =~= Seq::<SenderKeyStateView>::empty());
    } else {
        let rest = states_wire(states.skip(1));
        assert(valid_states(states.skip(1))) by {
            assert forall|i: int| 0 <= i < states.skip(1).len() implies (
            #[trigger] states.skip(1)[i]).chain_key.len() == 32 && states.skip(
                1,
            )[i].signing_key.len() == 32 by {
                assert(states.skip(1)[i] == states[i + 1]);
            }
        }
        lemma_states_round_trip(states.skip(1));
        lemma_state_field_round_trip(states[0], rest);
        assert(seq![states[0]] + states.skip(1) =~= states);
    }
}

/// The most states that a record of one sender's keys holds.
pub const MAX_SENDER_KEY_STATES: usize = 5;

/// The states that a member holds of one sender of a group, newest first.
#[derive(Debug, PartialEq, Eq)]
pub struct SenderKeyRecord {
    states: Vec<SenderKeyState>,
}

impl View for SenderKeyRecord {
    type V = Seq<SenderKeyState>;

    closed spec fn view(&self) -> Seq<SenderKeyState> {
        self.states@
    }
}

/// Whether `i` is the first of `states` with this key id.
pub open spec fn first_with_key_id(states: Seq<SenderKeyState>, key_id: u32, i: int) -> bool {
    &&& 0 <= i < states.len()
    &&& states[i].key_id == key_id
    &&& forall|j: int| 0 <= j < i ==> states[j].key_id != key_id
}

impl SenderKeyRecord {
    /// A record without any state.
    pub fn new_empty() -> (out: SenderKeyRecord)
        ensures
            out@.len() == 0,
    {
        SenderKeyRecord { states: Vec::new() }
    }

    /// Whether the record holds no state.
    pub fn is_empty(&self) -> (out: bool)
        ensures
            out == (self@.len() == 0),
    {
        self.states.len() == 0
    }

    /// How many states the record holds.
    pub fn len(&self) -> (out: usize)
        ensures
            out == self@.len(),
    {
        self.states.len()
    }

    /// Puts `state` in front of the others and drops the oldest beyond
    /// the bound.
    pub fn add_state(&mut self, state: SenderKeyState)
        ensures
            final(self)@ == if old(self)@.len() + 1 > MAX_SENDER_KEY_STATES {
                (seq![state] + old(self)@).subrange(0, MAX_SENDER_KEY_STATES as int)
            } else {
                seq![state] + old(self)@
            },
    {
        self.states.insert(0, state);
        assert(self.states@ =~= seq![state] + old(self)@);
        self.states.truncate(MAX_SENDER_KEY_STATES);
    }

    /// The states of the record as storage holds them.
    pub open spec fn stored(&self) -> Seq<SenderKeyStateView> {
        Seq::new(
            self@.len(),
            |i: int|
                SenderKeyStateView {
                    key_id: self@[i].key_id,
                    iteration: self@[i].chain_key.index,
                    chain_key: self@[i].chain_key.key@,
                    signing_key: self@[i].signing_key@,
                },
        )
    }

    /// The bytes of the record in storage.
    pub fn serialize(&self) -> (out: Vec<u8>)
        ensures
            out@ == states_wire(self.stored()),
            parse_states(out@) == Some(self.stored()),
    {
        let ghost all = self.stored();
        let mut out: Vec<u8> = Vec::new();
        let mut i: usize = self.states.len();
        assert(all.skip(i as int) =~= Seq::<SenderKeyStateView>::empty());
        while i > 0
            invariant
                i <= self.states@.len(),
                all == self.stored(),
                out@ == states_wire(all.skip(i as int)),
            decreases i,
        {
            i -= 1;
            let state = &self.states[i];
            let mut body: Vec<u8> = Vec::new();
            write_u32_field(&mut body, 8, state.key_id);
            write_u32_field(&mut body, 16, state.chain_key.index);
            write_bytes_field(&mut body, 26, state.chain_key.key.as_slice());
            let key = state.signing_key.serialize();
            write_bytes_field(&mut body, 34, key.as_slice());
            let mut next: Vec<u8> = Vec::new();
            write_bytes_field(&mut next, 10, body.as_slice());
            append(&mut next, out.as_slice());
            proof {
                let v = all[i as int];
                assert(body@ =~= u32_field(8, v.key_id) + (u32_field(16, v.iteration) + (
                bytes_field(26, v.chain_key) + bytes_field(34, encoded(v.signing_key)))));
                assert(all.skip(i as int)[0] == v);
                assert(all.skip(i as int).skip(1) =~= all.skip(i + 1));
                assert(next@ =~= state_field(v) + states_wire(all.skip(i + 1)));
            }
            out = next;
        }
        proof {
            assert(all.skip(0) =~= all);
            assert(valid_states(all)) by {
                assert forall|k: int| 0 <= k < all.len() implies (#[trigger] all[k]).chain_key.len()
                    == 32 && all[k].signing_key.len() == 32 by {
                    self@[k].signing_key.lemma_len();
                }
            }
            lemma_states_round_trip(all);
        }
        out
    }

    /// Reads a record from its stored form; `InvalidMessage` for bytes
    /// that are not the stored form of one, or that hold more states than
    /// a record keeps.
    pub fn deserialize(data: &[u8]) -> (out: Result<SenderKeyRecord, SignalProtocolError>)
        ensures
            match out {
                Ok(record) => parse_states(data@) == Some(record.stored()) && record@.len()
                    <= MAX_SENDER_KEY_STATES,
                Err(e) => e == SignalProtocolError::InvalidMessage && (parse_states(data@) is None
                    || parse_states(data@).unwrap().len() > MAX_SENDER_KEY_STATES),
            },
    {
        let mut states: Vec<SenderKeyState> = Vec::new();
        let mut pos: usize = 0;
        assert(data@.skip(0) =~= data@);
        while pos < data.len()
            invariant
                pos <= data@.len(),
                states@.len() <= MAX_SENDER_KEY_STATES,
                parse_states(data@) == match parse_states(data@.skip(pos as int)) {
                    Some(more) => Some((SenderKeyRecord { states }).stored() + more),
                    None => None,
                },
            decreases data@.len() - pos,
        {
            let ghost tail = data@.skip(pos as int);
            let ghost before = (SenderKeyRecord { states }).stored();
            let (body, next) = match read_bytes_field(data, pos, 10) {
                Some(found) => found,
                None => {
                    return Err(SignalProtocolError::InvalidMessage);
                },
            };
            assert(body@.skip(0) =~= body@);
            let (key_id, q1) = match read_u32_field(body.as_slice(), 0, 8) {
                Some(found) => found,
                None => {
                    return Err(SignalProtocolError::InvalidMessage);
                },
            };
            let (iteration, q2) = match read_u32_field(body.as_slice(), q1, 16) {
                Some(found) => found,
                None => {
                    return Err(SignalProtocolError::InvalidMessage);
                },
            };
            let (chain, q3) = match read_bytes_field(body.as_slice(), q2, 26) {
                Some(found) => found,
                None => {
                    return Err(SignalProtocolError::InvalidMessage);
                },
            };
            let (key, q4) = match read_bytes_field(body.as_slice(), q3, 34) {
                Some(found) => found,
                None => {
                    return Err(SignalProtocolError::InvalidMessage);
                },
            };
            let signing_key = match PublicKey::deserialize(key.as_slice()) {
                Ok(k) => k,
                Err(_) => {
                    return Err(SignalProtocolError::InvalidMessage);
                },
            };
            if q4 != body.len() || chain.len() != 32 {
                return Err(SignalProtocolError::InvalidMessage);
            }
            let chain_key = array32_at(chain.as_slice(), 0);
            assert(chain_key@ =~= chain@);
            let state = SenderKeyState {
                key_id,
                chain_key: ChainKey::new(chain_key, iteration),
                signing_key,
            };
            let ghost v = SenderKeyStateView {
                key_id,
                iteration,
                chain_key: chain@,
                signing_key: signing_key@,
            };
            assert(parse_state_field(tail) == Some((v, data@.skip(next as int))));
            if states.len() >= MAX_SENDER_KEY_STATES {
                proof {
                    if parse_states(data@.skip(next as int)) is Some {
                        let more = parse_states(data@.skip(next as int)).unwrap();
                        assert(parse_states(tail) == Some(seq![v] + more));
                    }
                }
                return Err(SignalProtocolError::InvalidMessage);
            }
            states.push(state);
            proof {
                let after = (SenderKeyRecord { states }).stored();
                assert(after =~= before + seq![v]);
                match parse_states(data@.skip(next as int)) {
                    Some(more) => {
                        assert(parse_states(tail) == Some(seq![v] + more));
                        assert(before + (seq![v] + more) =~= after + more);
                    },
                    None => {},
                }
            }
            pos = next;
        }
        proof {
            let done = (SenderKeyRecord { states }).stored();
            assert(done + Seq::<SenderKeyStateView>::empty() =~= done);
        }
        Ok(SenderKeyRecord { states })
    }

    /// The newest state with this key id, if the record holds one.
    pub fn state_for_key_id(&self, key_id: u32) -> (out: Option<SenderKeyState>)
        ensures
            match out {
                Some(state) => exists|i: int|
                    first_with_key_id(self@, key_id, i) && state == self@[i],
                None => forall|j: int| 0 <= j < self@.len() ==> self@[j].key_id != key_id,
            },
    {
        let mut i: usize = 0;
        while i < self.states.len()
            invariant
                i <= self.states@.len(),
                forall|j: int| 0 <= j < i ==> self.states@[j].key_id != key_id,
            decreases self.states@.len() - i,
        {
            if self.states[i].key_id == key_id {
                assert(first_with_key_id(self@, key_id, i as int));
                return Some(self.states[i]);
            }
            i += 1;
        }
        None
    }
}

} // verus!
