use vstd::prelude::*;
use crate::bytes::{lemma_head_tail, lemma_join7, lemma_split_head, slice_to_vec};
use crate::curve::{decoded, encoded, lemma_decode_encode, lemma_encode_decode, PublicKey};
use crate::error::SignalProtocolError;
use crate::signal_message::{
    lemma_signal_parsed, lemma_signal_round_trip, parse_signal, signal_wire, valid_signal,
    version_byte, SignalMessage, SignalMessageView, WIRE_VERSION,
};
use crate::wire::{
    bytes_field, lemma_bytes_field_parsed, lemma_bytes_field_round_trip,
    lemma_optional_u32_field_parsed, lemma_optional_u32_field_round_trip,
    lemma_u32_field_parsed, lemma_u32_field_round_trip, optional_u32_field, parse_bytes_field,
    parse_optional_u32_field, parse_u32_field, read_bytes_field, read_optional_u32_field,
    read_u32_field, u32_field, write_bytes_field, write_u32_field,
};

verus! {

/// What the first message of a session holds: the handshake's values and
/// the ratchet-protected message.
pub struct PreKeySignalMessageView {
    pub message_version: u8,
    pub registration_id: u32,
    pub pre_key_id: Option<u32>,
    pub signed_pre_key_id: u32,
    pub base_key: Seq<u8>,
    pub identity_key: Seq<u8>,
    pub message: SignalMessageView,
}

/// Whether these values can stand in a message.
pub open spec fn valid_pre_key(v: PreKeySignalMessageView) -> bool {
    &&& v.message_version <= 15
    &&& v.base_key.len() == 32
    &&& v.identity_key.len() == 32
    &&& valid_signal(v.message)
    &&& signal_wire(v.message).len() <= u32::MAX
}

/// The bytes of the message on the wire: the version byte, the
/// registration id, the one-time pre-key id if there is one, the signed
/// pre-key id, the base key, the identity key and the inner message.
pub open spec fn pre_key_wire(v: PreKeySignalMessageView) -> Seq<u8> {
    seq![version_byte(v.message_version)] + u32_field(40, v.registration_id) + optional_u32_field(
        8,
        v.pre_key_id,
    ) + u32_field(48, v.signed_pre_key_id) + bytes_field(18, encoded(v.base_key)) + bytes_field(
        26,
        encoded(v.identity_key),
    ) + bytes_field(34, signal_wire(v.message))
}

/// The message that `data` is the wire form of, if any.
pub open spec fn parse_pre_key(data: Seq<u8>) -> Option<PreKeySignalMessageView> {
    if data.len() == 0 || data[0] % 16 != WIRE_VERSION {
        None
    } else {
        match parse_u32_field(40, data.skip(1)) {
            Some((registration_id, r1)) => match parse_optional_u32_field(8, r1) {
                Some((pre_key_id, r2)) => match parse_u32_field(48, r2) {
                    Some((signed_pre_key_id, r3)) => match parse_bytes_field(18, r3) {
                        Some((base, r4)) => match parse_bytes_field(26, r4) {
                            Some((identity, r5)) => match parse_bytes_field(34, r5) {
                                Some((inner, r6)) => match (
                                    decoded(base),
                                    decoded(identity),
                                    parse_signal(inner),
                                ) {
                                    (Some(base_key), Some(identity_key), Some(message)) => if r6.len()
                                        == 0 {
                                        Some(
                                            PreKeySignalMessageView {
                                                message_version: data[0] / 16,
                                                registration_id,
                                                pre_key_id,
                                                signed_pre_key_id,
                                                base_key,
                                                identity_key,
                                                message,
                                            },
                                        )
                                    } else {
                                        None
                                    },
                                    _ => None,
                                },
                                None => None,
                            },
                            None => None,
                        },
                        None => None,
                    },
                    None => None,
                },
                None => None,
            },
            None => None,
        }
    }
}

/// Reading the wire form of a valid message gives the message back, with
/// or without a one-time pre-key id.
pub proof fn lemma_pre_key_round_trip(v: PreKeySignalMessageView)
    requires
        valid_pre_key(v),
    ensures
        parse_pre_key(pre_key_wire(v)) == Some(v),
{
    let data = pre_key_wire(v);
    let head = version_byte(v.message_version);
    let f1 = u32_field(40, v.registration_id);
    let f2 = optional_u32_field(8, v.pre_key_id);
    let f3 = u32_field(48, v.signed_pre_key_id);
    let f4 = bytes_field(18, encoded(v.base_key));
    let f5 = bytes_field(26, encoded(v.identity_key));
    let f6 = bytes_field(34, signal_wire(v.message));
    let r6 = Seq::<u8>::empty();
    let r5 = f6;
    let r4 = f5 + r5;
    let r3 = f4 + r4;
    let r2 = f3 + r3;
    let r1 = f2 + r2;
    let r0 = f1 + r1;
    lemma_join7(seq![head], f1, f2, f3, f4, f5, f6);
    assert(data == seq![head] + r0);
    lemma_head_tail(head, r0);
    assert(f6 + r6 =~= f6);
    assert(r2[0] == 48) by {
        assert(f3[0] == 48);
    }
    lemma_u32_field_round_trip(40, v.registration_id, r1);
    lemma_optional_u32_field_round_trip(8, v.pre_key_id, r2);
    lemma_u32_field_round_trip(48, v.signed_pre_key_id, r3);
    lemma_bytes_field_round_trip(18, encoded(v.base_key), r4);
    lemma_bytes_field_round_trip(26, encoded(v.identity_key), r5);
    lemma_bytes_field_round_trip(34, signal_wire(v.message), r6);
    lemma_decode_encode(v.base_key);
    lemma_decode_encode(v.identity_key);
    lemma_signal_round_trip(v.message);
    assert(parse_u32_field(40, data.skip(1)) == Some((v.registration_id, r1)));
    assert(parse_optional_u32_field(8, r1) == Some((v.pre_key_id, r2)));
    assert(parse_u32_field(48, r2) == Some((v.signed_pre_key_id, r3)));
    assert(parse_bytes_field(18, r3) == Some((encoded(v.base_key), r4)));
    assert(parse_bytes_field(26, r4) == Some((encoded(v.identity_key), r5)));
    assert(parse_bytes_field(34, r5) == Some((signal_wire(v.message), r6)));
    assert(data[0] / 16 == v.message_version && data[0] % 16 == WIRE_VERSION);
}

/// What reads as a message is the wire form of that message, and the
/// message is valid.
pub proof fn lemma_pre_key_parsed(data: Seq<u8>)
    requires
        parse_pre_key(data) is Some,
    ensures
        valid_pre_key(parse_pre_key(data).unwrap()),
        pre_key_wire(parse_pre_key(data).unwrap()) == data,
{
    let v = parse_pre_key(data).unwrap();
    let (registration_id, r1) = parse_u32_field(40, data.skip(1)).unwrap();
    let (pre_key_id, r2) = parse_optional_u32_field(8, r1).unwrap();
    let (signed_pre_key_id, r3) = parse_u32_field(48, r2).unwrap();
    let (base, r4) = parse_bytes_field(18, r3).unwrap();
    let (identity, r5) = parse_bytes_field(26, r4).unwrap();
    let (inner, r6) = parse_bytes_field(34, r5).unwrap();
    lemma_u32_field_parsed(40, data.skip(1));
    lemma_optional_u32_field_parsed(8, r1);
    lemma_u32_field_parsed(48, r2);
    lemma_bytes_field_parsed(18, r3);
    lemma_bytes_field_parsed(26, r4);
    lemma_bytes_field_parsed(34, r5);
    lemma_encode_decode(base);
    lemma_encode_decode(identity);
    lemma_signal_parsed(inner);
    lemma_split_head(data);
    let head = version_byte(v.message_version);
    assert(data[0] == head);
    let f1 = u32_field(40, v.registration_id);
    let f2 = optional_u32_field(8, v.pre_key_id);
    let f3 = u32_field(48, v.signed_pre_key_id);
    let f4 = bytes_field(18, encoded(v.base_key));
    let f5 = bytes_field(26, encoded(v.identity_key));
    let f6 = bytes_field(34, signal_wire(v.message));
    assert(r6 =~= Seq::<u8>::empty());
    assert(f6 + r6 =~= f6);
    assert(r5 == f6);
    assert(r4 == f5 + f6);
    assert(r3 == f4 + (f5 + f6));
    assert(r2 == f3 + (f4 + (f5 + f6)));
    assert(r1 == f2 + (f3 + (f4 + (f5 + f6))));
    assert(data == seq![head] + (f1 + (f2 + (f3 + (f4 + (f5 + f6))))));
    lemma_join7(seq![head], f1, f2, f3, f4, f5, f6);
}

/// The first message of a session.
#[derive(Debug, PartialEq, Eq)]
pub struct PreKeySignalMessage {
    message_version: u8,
    registration_id: u32,
    pre_key_id: Option<u32>,
    signed_pre_key_id: u32,
    base_key: PublicKey,
    identity_key: PublicKey,
    message: SignalMessage,
    serialized: Vec<u8>,
}

impl View for PreKeySignalMessage {
    type V = PreKeySignalMessageView;

    closed spec fn view(&self) -> PreKeySignalMessageView {
        PreKeySignalMessageView {
            message_version: self.message_version,
            registration_id: self.registration_id,
            pre_key_id: self.pre_key_id,
            signed_pre_key_id: self.signed_pre_key_id,
            base_key: self.base_key@,
            identity_key: self.identity_key@,
            message: self.message@,
        }
    }
}

impl PreKeySignalMessage {
    #[verifier::type_invariant]
    spec fn inv(self) -> bool {
        valid_pre_key(self@) && self.serialized@ == pre_key_wire(self@)
    }

    /// The message of these values. `InvalidArgument` for a version above
    /// 15 or an inner message of 4 GiB or more.
    pub fn new(
        message_version: u8,
        registration_id: u32,
        pre_key_id: Option<u32>,
        signed_pre_key_id: u32,
        base_key: PublicKey,
        identity_key: PublicKey,
        message: SignalMessage,
    ) -> (out: Result<PreKeySignalMessage, SignalProtocolError>)
        ensures
            match out {
                Ok(m) => message_version <= 15 && signal_wire(message@).len() <= u32::MAX && m@ == (
                PreKeySignalMessageView {
                    message_version,
                    registration_id,
                    pre_key_id,
                    signed_pre_key_id,
                    base_key: base_key@,
                    identity_key: identity_key@,
                    message: message@,
                }),
                Err(e) => (message_version > 15 || signal_wire(message@).len() > u32::MAX) && e
                    == SignalProtocolError::InvalidArgument,
            },
    {
        let inner = message.serialized();
        if message_version > 15 || inner.len() > 0xffff_ffff {
            return Err(SignalProtocolError::InvalidArgument);
        }
        let mut serialized: Vec<u8> = Vec::new();
        serialized.push(message_version * 16 + WIRE_VERSION);
        write_u32_field(&mut serialized, 40, registration_id);
        match pre_key_id {
            Some(id) => {
                write_u32_field(&mut serialized, 8, id);
            },
            None => {},
        }
        assert(serialized@ =~= seq![version_byte(message_version)] + u32_field(40, registration_id)
            + optional_u32_field(8, pre_key_id));
        write_u32_field(&mut serialized, 48, signed_pre_key_id);
        let base = base_key.serialize();
        write_bytes_field(&mut serialized, 18, base.as_slice());
        let identity = identity_key.serialize();
        write_bytes_field(&mut serialized, 26, identity.as_slice());
        write_bytes_field(&mut serialized, 34, inner.as_slice());
        proof {
            base_key.lemma_len();
            identity_key.lemma_len();
        }
        Ok(
            PreKeySignalMessage {
                message_version,
                registration_id,
                pre_key_id,
                signed_pre_key_id,
                base_key,
                identity_key,
                message,
                serialized,
            },
        )
    }

    /// Reads a message from its wire form; `InvalidMessage` for bytes that
    /// are not the wire form of a message.
    pub fn deserialize(data: &[u8]) -> (out: Result<PreKeySignalMessage, SignalProtocolError>)
        ensures
            match out {
                Ok(m) => parse_pre_key(data@) == Some(m@) && pre_key_wire(m@) == data@
                    && valid_pre_key(m@),
                Err(e) => parse_pre_key(data@) is None && e == SignalProtocolError::InvalidMessage,
            },
    {
        if data.len() == 0 || data[0] % 16 != WIRE_VERSION {
            return Err(SignalProtocolError::InvalidMessage);
        }
        let (registration_id, pos1) = match read_u32_field(data, 1, 40) {
            Some(found) => found,
            None => {
                return Err(SignalProtocolError::InvalidMessage);
            },
        };
        let (pre_key_id, pos2) = match read_optional_u32_field(data, pos1, 8) {
            Some(found) => found,
            None => {
                return Err(SignalProtocolError::InvalidMessage);
            },
        };
        let (signed_pre_key_id, pos3) = match read_u32_field(data, pos2, 48) {
            Some(found) => found,
            None => {
                return Err(SignalProtocolError::InvalidMessage);
            },
        };
        let (base, pos4) = match read_bytes_field(data, pos3, 18) {
            Some(found) => found,
            None => {
                return Err(SignalProtocolError::InvalidMessage);
            },
        };
        let (identity, pos5) = match read_bytes_field(data, pos4, 26) {
            Some(found) => found,
            None => {
                return Err(SignalProtocolError::InvalidMessage);
            },
        };
        let (inner, pos6) = match read_bytes_field(data, pos5, 34) {
            Some(found) => found,
            None => {
                return Err(SignalProtocolError::InvalidMessage);
            },
        };
        let base_key = match PublicKey::deserialize(base.as_slice()) {
            Ok(k) => k,
            Err(_) => {
                return Err(SignalProtocolError::InvalidMessage);
            },
        };
        let identity_key = match PublicKey::deserialize(identity.as_slice()) {
            Ok(k) => k,
            Err(_) => {
                return Err(SignalProtocolError::InvalidMessage);
            },
        };
        let message = match SignalMessage::deserialize(inner.as_slice()) {
            Ok(m) => m,
            Err(_) => {
                return Err(SignalProtocolError::InvalidMessage);
            },
        };
        if pos6 != data.len() {
            return Err(SignalProtocolError::InvalidMessage);
        }
        let serialized = slice_to_vec(data, 0, data.len());
        proof {
            assert(serialized@ =~= data@);
            lemma_pre_key_parsed(data@);
        }
        Ok(
            PreKeySignalMessage {
                message_version: data[0] / 16,
                registration_id,
                pre_key_id,
                signed_pre_key_id,
                base_key,
                identity_key,
                message,
                serialized,
            },
        )
    }

    /// The bytes of the message on the wire.
    pub fn serialized(&self) -> (out: &Vec<u8>)
        ensures
            out@ == pre_key_wire(self@),
            parse_pre_key(out@) == Some(self@),
            valid_pre_key(self@),
    {
        proof {
            use_type_invariant(self);
            lemma_pre_key_round_trip(self@);
        }
        &self.serialized
    }

    /// The version of the message.
    pub fn message_version(&self) -> (out: u8)
        ensures
            out == self@.message_version,
    {
        self.message_version
    }

    /// The sender's registration id.
    pub fn registration_id(&self) -> (out: u32)
        ensures
            out == self@.registration_id,
    {
        self.registration_id
    }

    /// The id of the one-time pre-key that the sender used, if it used one.
    pub fn pre_key_id(&self) -> (out: Option<u32>)
        ensures
            out == self@.pre_key_id,
    {
        self.pre_key_id
    }

    /// The id of the signed pre-key that the sender used.
    pub fn signed_pre_key_id(&self) -> (out: u32)
        ensures
            out == self@.signed_pre_key_id,
    {
        self.signed_pre_key_id
    }

    /// The sender's base key.
    pub fn base_key(&self) -> (out: &PublicKey)
        ensures
            out@ == self@.base_key,
    {
        &self.base_key
    }

    /// The sender's identity key.
    pub fn identity_key(&self) -> (out: &PublicKey)
        ensures
            out@ == self@.identity_key,
    {
        &self.identity_key
    }

    /// The ratchet-protected message inside.
    pub fn message(&self) -> (out: &SignalMessage)
        ensures
            out@ == self@.message,
    {
        &self.message
    }
}

} // verus!
