use vstd::prelude::*;
use crate::bytes::{append, equal, slice_to_vec};
use crate::curve::{decoded, encoded, lemma_decode_encode, lemma_encode_decode, PublicKey};
use crate::error::SignalProtocolError;
use crate::kdf::{hmac_sha256, hmac_sha256_digest};
use crate::wire::{
    bytes_field, lemma_bytes_field_parsed, lemma_bytes_field_round_trip, lemma_u32_field_parsed,
    lemma_u32_field_round_trip, parse_bytes_field, parse_u32_field, read_bytes_field,
    read_u32_field, u32_field, write_bytes_field, write_u32_field,
};

verus! {

/// Bytes of the authentication tag that ends a message.
pub const MAC_LENGTH: usize = 8;

/// Bytes of a key for the authentication tag.
pub const MAC_KEY_LENGTH: usize = 32;

/// The wire version that this library writes, in the low half of the
/// first byte.
pub const WIRE_VERSION: u8 = 3;

/// What a ratchet-protected message holds.
pub struct SignalMessageView {
    pub message_version: u8,
    pub sender_ratchet_key: Seq<u8>,
    pub counter: u32,
    pub previous_counter: u32,
    pub ciphertext: Seq<u8>,
    pub mac: Seq<u8>,
}

/// The first byte of a message: its version in the high half, the wire
/// version in the low half.
pub open spec fn version_byte(message_version: u8) -> u8 {
    (message_version * 16 + WIRE_VERSION) as u8
}

/// Whether these values can stand in a message.
pub open spec fn valid_signal(v: SignalMessageView) -> bool {
    &&& v.message_version <= 15
    &&& v.sender_ratchet_key.len() == 32
    &&& v.ciphertext.len() <= u32::MAX
    &&& v.mac.len() == MAC_LENGTH
}

/// The bytes that the tag of a message is computed over, after the two
/// identity keys: everything but the tag.
pub open spec fn signal_body(v: SignalMessageView) -> Seq<u8> {
    seq![version_byte(v.message_version)] + bytes_field(10, encoded(v.sender_ratchet_key))
        + u32_field(16, v.counter) + u32_field(24, v.previous_counter) + bytes_field(
        34,
        v.ciphertext,
    )
}

/// The bytes of a message on the wire: the body, then the tag.
pub open spec fn signal_wire(v: SignalMessageView) -> Seq<u8> {
    signal_body(v) + v.mac
}

/// The message that `data` is the wire form of, if any.
pub open spec fn parse_signal(data: Seq<u8>) -> Option<SignalMessageView> {
    if data.len() == 0 || data[0] % 16 != WIRE_VERSION {
        None
    } else {
        match parse_bytes_field(10, data.skip(1)) {
            Some((key, r1)) => match (decoded(key), parse_u32_field(16, r1)) {
                (Some(ratchet_key), Some((counter, r2))) => match parse_u32_field(24, r2) {
                    Some((previous_counter, r3)) => match parse_bytes_field(34, r3) {
                        Some((ciphertext, r4)) => if r4.len() == MAC_LENGTH {
                            Some(
                                SignalMessageView {
                                    message_version: data[0] / 16,
                                    sender_ratchet_key: ratchet_key,
                                    counter,
                                    previous_counter,
                                    ciphertext,
                                    mac: r4,
                                },
                            )
                        } else {
                            None
                        },
                        None => None,
                    },
                    None => None,
                },
                _ => None,
            },
            None => None,
        }
    }
}

/// The tag of a message body between two parties: the first eight bytes of
/// the HMAC, under `mac_key`, of the sender's encoded identity key, the
/// receiver's, and the body.
pub open spec fn signal_mac(mac_key: Seq<u8>, sender: Seq<u8>, receiver: Seq<u8>, body: Seq<u8>) -> Seq<
    u8,
> {
    hmac_sha256(mac_key, encoded(sender) + encoded(receiver) + body).subrange(0, MAC_LENGTH as int)
}

/// Reading the wire form of a valid message gives the message back.
pub proof fn lemma_signal_round_trip(v: SignalMessageView)
    requires
        valid_signal(v),
    ensures
        parse_signal(signal_wire(v)) == Some(v),
{
    let data = signal_wire(v);
    let r4 = v.mac;
    let r3 = bytes_field(34, v.ciphertext) + r4;
    let r2 = u32_field(24, v.previous_counter) + r3;
    let r1 = u32_field(16, v.counter) + r2;
    let r0 = bytes_field(10, encoded(v.sender_ratchet_key)) + r1;
    assert(data =~= seq![version_byte(v.message_version)] + r0);
    assert(data.skip(1) =~= r0);
    lemma_bytes_field_round_trip(10, encoded(v.sender_ratchet_key), r1);
    lemma_decode_encode(v.sender_ratchet_key);
    lemma_u32_field_round_trip(16, v.counter, r2);
    lemma_u32_field_round_trip(24, v.previous_counter, r3);
    lemma_bytes_field_round_trip(34, v.ciphertext, r4);
    assert(data[0] == version_byte(v.message_version));
    assert(parse_signal(data).unwrap() == v);
}

/// What reads as a message is the wire form of that message, and the
/// message is valid.
pub proof fn lemma_signal_parsed(data: Seq<u8>)
    requires
        parse_signal(data) is Some,
    ensures
        valid_signal(parse_signal(data).unwrap()),
        signal_wire(parse_signal(data).unwrap()) == data,
{
    let v = parse_signal(data).unwrap();
    let (key, r1) = parse_bytes_field(10, data.skip(1)).unwrap();
    let (counter, r2) = parse_u32_field(16, r1).unwrap();
    let (previous_counter, r3) = parse_u32_field(24, r2).unwrap();
    let (ciphertext, r4) = parse_bytes_field(34, r3).unwrap();
    lemma_bytes_field_parsed(10, data.skip(1));
    lemma_encode_decode(key);
    lemma_u32_field_parsed(16, r1);
    lemma_u32_field_parsed(24, r2);
    lemma_bytes_field_parsed(34, r3);
    assert(data[0] == version_byte(v.message_version));
    assert(data =~= seq![data[0]] + data.skip(1));
    assert(signal_wire(v) =~= data);
}

/// No two valid messages share a wire form.
pub proof fn lemma_signal_wire_injective(a: SignalMessageView, b: SignalMessageView)
    requires
        valid_signal(a),
        valid_signal(b),
        signal_wire(a) == signal_wire(b),
    ensures
        a == b,
{
    lemma_signal_round_trip(a);
    lemma_signal_round_trip(b);
}

/// A ratchet-protected message: the sender's ratchet key, the two
/// counters, the ciphertext and the tag, with its bytes on the wire.
#[derive(Debug, PartialEq, Eq)]
pub struct SignalMessage {
    message_version: u8,
    sender_ratchet_key: PublicKey,
    counter: u32,
    previous_counter: u32,
    ciphertext: Vec<u8>,
    mac: Vec<u8>,
    serialized: Vec<u8>,
}

impl View for SignalMessage {
    type V = SignalMessageView;

    closed spec fn view(&self) -> SignalMessageView {
        SignalMessageView {
            message_version: self.message_version,
            sender_ratchet_key: self.sender_ratchet_key@,
            counter: self.counter,
            previous_counter: self.previous_counter,
            ciphertext: self.ciphertext@,
            mac: self.mac@,
        }
    }
}

/// Writes the body of a message.
fn write_signal_body(
    message_version: u8,
    sender_ratchet_key: &PublicKey,
    counter: u32,
    previous_counter: u32,
    ciphertext: &[u8],
) -> (out: Vec<u8>)
    requires
        message_version <= 15,
    ensures
        out@ == seq![version_byte(message_version)] + bytes_field(
            10,
            encoded(sender_ratchet_key@),
        ) + u32_field(16, counter) + u32_field(24, previous_counter) + bytes_field(
            34,
            ciphertext@,
        ),
{
    let mut out: Vec<u8> = Vec::new();
    out.push(message_version * 16 + WIRE_VERSION);
    let key = sender_ratchet_key.serialize();
    write_bytes_field(&mut out, 10, key.as_slice());
    write_u32_field(&mut out, 16, counter);
    write_u32_field(&mut out, 24, previous_counter);
    write_bytes_field(&mut out, 34, ciphertext);
    assert(out@ =~= seq![version_byte(message_version)] + bytes_field(
        10,
        encoded(sender_ratchet_key@),
    ) + u32_field(16, counter) + u32_field(24, previous_counter) + bytes_field(34, ciphertext@));
    out
}

/// Computes the tag of `body` between two parties.
fn compute_mac(mac_key: &[u8], sender: &PublicKey, receiver: &PublicKey, body: &[u8]) -> (out: Vec<
    u8,
>)
    ensures
        out@ == signal_mac(mac_key@, sender@, receiver@, body@),
        out@.len() == MAC_LENGTH,
{
    let mut input: Vec<u8> = sender.serialize();
    let second = receiver.serialize();
    append(&mut input, second.as_slice());
    append(&mut input, body);
    let tag = hmac_sha256_digest(mac_key, input.as_slice());
    slice_to_vec(tag.as_slice(), 0, MAC_LENGTH)
}

impl SignalMessage {
    #[verifier::type_invariant]
    spec fn inv(self) -> bool {
        valid_signal(self@) && self.serialized@ == signal_wire(self@)
    }

    /// Whether `new` accepts these arguments.
    pub open spec fn new_accepts(message_version: u8, mac_key: Seq<u8>, ciphertext: Seq<u8>) -> bool {
        message_version <= 15 && mac_key.len() == MAC_KEY_LENGTH && ciphertext.len() <= u32::MAX
    }

    /// The message of these values, tagged under `mac_key` for the two
    /// identity keys. `InvalidArgument` for a version above 15, a tag key
    /// that is not 32 bytes, or a ciphertext of 4 GiB or more.
    pub fn new(
        message_version: u8,
        mac_key: &[u8],
        sender_ratchet_key: PublicKey,
        counter: u32,
        previous_counter: u32,
        ciphertext: &[u8],
        sender_identity_key: &PublicKey,
        receiver_identity_key: &PublicKey,
    ) -> (out: Result<SignalMessage, SignalProtocolError>)
        ensures
            match out {
                Ok(m) => Self::new_accepts(message_version, mac_key@, ciphertext@) && m@.mac
                    == signal_mac(
                    mac_key@,
                    sender_identity_key@,
                    receiver_identity_key@,
                    signal_body(m@),
                ) && m@.message_version == message_version && m@.sender_ratchet_key
                    == sender_ratchet_key@ && m@.counter == counter && m@.previous_counter
                    == previous_counter && m@.ciphertext == ciphertext@ && valid_signal(m@),
                Err(e) => !Self::new_accepts(message_version, mac_key@, ciphertext@) && e
                    == SignalProtocolError::InvalidArgument,
            },
    {
        if message_version > 15 || mac_key.len() != MAC_KEY_LENGTH || ciphertext.len()
            > 0xffff_ffff {
            return Err(SignalProtocolError::InvalidArgument);
        }
        let mut serialized = write_signal_body(
            message_version,
            &sender_ratchet_key,
            counter,
            previous_counter,
            ciphertext,
        );
        let mac = compute_mac(
            mac_key,
            sender_identity_key,
            receiver_identity_key,
            serialized.as_slice(),
        );
        append(&mut serialized, mac.as_slice());
        let owned = slice_to_vec(ciphertext, 0, ciphertext.len());
        proof {
            sender_ratchet_key.lemma_len();
            assert(owned@ =~= ciphertext@);
        }
        Ok(
            SignalMessage {
                message_version,
                sender_ratchet_key,
                counter,
                previous_counter,
                ciphertext: owned,
                mac,
                serialized,
            },
        )
    }

    /// Reads a message from its wire form; `InvalidMessage` for bytes that
    /// are not the wire form of a message.
    pub fn deserialize(data: &[u8]) -> (out: Result<SignalMessage, SignalProtocolError>)
        ensures
            match out {
                Ok(m) => parse_signal(data@) == Some(m@) && signal_wire(m@) == data@
                    && valid_signal(m@),
                Err(e) => parse_signal(data@) is None && e == SignalProtocolError::InvalidMessage,
            },
    {
        if data.len() == 0 || data[0] % 16 != WIRE_VERSION {
            return Err(SignalProtocolError::InvalidMessage);
        }
        let (key, pos1) = match read_bytes_field(data, 1, 10) {
            Some(found) => found,
            None => {
                return Err(SignalProtocolError::InvalidMessage);
            },
        };
        let sender_ratchet_key = match PublicKey::deserialize(key.as_slice()) {
            Ok(k) => k,
            Err(_) => {
                return Err(SignalProtocolError::InvalidMessage);
            },
        };
        let (counter, pos2) = match read_u32_field(data, pos1, 16) {
            Some(found) => found,
            None => {
                return Err(SignalProtocolError::InvalidMessage);
            },
        };
        let (previous_counter, pos3) = match read_u32_field(data, pos2, 24) {
            Some(found) => found,
            None => {
                return Err(SignalProtocolError::InvalidMessage);
            },
        };
        let (ciphertext, pos4) = match read_bytes_field(data, pos3, 34) {
            Some(found) => found,
            None => {
                return Err(SignalProtocolError::InvalidMessage);
            },
        };
        if data.len() - pos4 != MAC_LENGTH {
            return Err(SignalProtocolError::InvalidMessage);
        }
        let mac = slice_to_vec(data, pos4, data.len());
        let serialized = slice_to_vec(data, 0, data.len());
        proof {
            assert(mac@ =~= data@.skip(pos4 as int));
            assert(serialized@ =~= data@);
            lemma_signal_parsed(data@);
        }
        Ok(
            SignalMessage {
                message_version: data[0] / 16,
                sender_ratchet_key,
                counter,
                previous_counter,
                ciphertext,
                mac,
                serialized,
            },
        )
    }

    /// The bytes of the message on the wire.
    pub fn serialized(&self) -> (out: &Vec<u8>)
        ensures
            out@ == signal_wire(self@),
            parse_signal(out@) == Some(self@),
            valid_signal(self@),
    {
        proof {
            use_type_invariant(self);
            lemma_signal_round_trip(self@);
        }
        &self.serialized
    }

    /// The version of the message.
    pub fn message_version(&self) -> (out: u8)
        ensures
            out == self@.message_version,
    {
        self.message_version
    }

    /// The sender's ratchet key.
    pub fn sender_ratchet_key(&self) -> (out: &PublicKey)
        ensures
            out@ == self@.sender_ratchet_key,
    {
        &self.sender_ratchet_key
    }

    /// The position of the message in the sender's chain.
    pub fn counter(&self) -> (out: u32)
        ensures
            out == self@.counter,
    {
        self.counter
    }

    /// The length of the sender's chain before this one.
    pub fn previous_counter(&self) -> (out: u32)
        ensures
            out == self@.previous_counter,
    {
        self.previous_counter
    }

    /// The ciphertext.
    pub fn body(&self) -> (out: &Vec<u8>)
        ensures
            out@ == self@.ciphertext,
    {
        &self.ciphertext
    }

    /// Whether the tag of the message is the one that `mac_key` gives for
    /// the two identity keys. `InvalidArgument` for a key that is not 32
    /// bytes.
    pub fn verify_mac(
        &self,
        sender_identity_key: &PublicKey,
        receiver_identity_key: &PublicKey,
        mac_key: &[u8],
    ) -> (out: Result<bool, SignalProtocolError>)
        ensures
            match out {
                Ok(same) => mac_key@.len() == MAC_KEY_LENGTH && same == (self@.mac == signal_mac(
                    mac_key@,
                    sender_identity_key@,
                    receiver_identity_key@,
                    signal_body(self@),
                )),
                Err(e) => mac_key@.len() != MAC_KEY_LENGTH && e
                    == SignalProtocolError::InvalidArgument,
            },
    {
        if mac_key.len() != MAC_KEY_LENGTH {
            return Err(SignalProtocolError::InvalidArgument);
        }
        proof {
            use_type_invariant(self);
        }
        let body_len: usize = self.serialized.len() - MAC_LENGTH;
        let body = slice_to_vec(self.serialized.as_slice(), 0, body_len);
        assert(body@ =~= signal_body(self@));
        let expected = compute_mac(
            mac_key,
            sender_identity_key,
            receiver_identity_key,
            body.as_slice(),
        );
        Ok(equal(expected.as_slice(), self.mac.as_slice()))
    }
}

} // verus!
