use vstd::prelude::*;
use crate::bytes::{lemma_head_tail, lemma_split_head, to_vec};
use crate::certificate::{
    lemma_sender_certificate_parsed, lemma_sender_certificate_round_trip,
    parse_sender_certificate, sender_certificate_wire, valid_sender_certificate,
    SenderCertificate, SenderCertificateView,
};
use crate::curve::{decoded, encoded, lemma_decode_encode, lemma_encode_decode, PublicKey};
use crate::error::SignalProtocolError;
use crate::message_type::{content_type_of, type_code, CiphertextMessageType};
use crate::wire::{
    bytes_field, lemma_bytes_field_parsed, lemma_bytes_field_round_trip, lemma_u32_field_parsed,
    lemma_u32_field_round_trip, parse_bytes_field, parse_u32_field, read_bytes_field,
    read_u32_field, u32_field, write_bytes_field, write_u32_field,
};

verus! {

/// The first byte of a sealed-sender envelope: version 1 in both halves.
pub const SEALED_SENDER_VERSION_BYTE: u8 = 17;

/// What the inner part of a sealed-sender message holds.
pub struct UnidentifiedSenderMessageContentView {
    pub msg_type: CiphertextMessageType,
    pub sender: SenderCertificateView,
    pub contents: Seq<u8>,
}

/// The number that the content's wire form names a kind with: 1 for the
/// first message of a session, 2 for a message of an open session.
pub open spec fn content_type_number(t: CiphertextMessageType) -> u32 {
    if t == CiphertextMessageType::PreKey {
        1
    } else {
        2
    }
}

/// The bytes of the content on the wire: the kind, the sender's
/// certificate, and the message.
pub open spec fn content_wire(v: UnidentifiedSenderMessageContentView) -> Seq<u8> {
    u32_field(8, content_type_number(v.msg_type)) + bytes_field(
        18,
        sender_certificate_wire(v.sender),
    ) + bytes_field(26, v.contents)
}

/// Whether these values can stand in a content: the kind is one of the
/// two that a content names, the certificate is valid, and certificate
/// and message each have less than 4 GiB on the wire.
pub open spec fn valid_content(v: UnidentifiedSenderMessageContentView) -> bool {
    &&& v.msg_type == CiphertextMessageType::PreKey || v.msg_type
        == CiphertextMessageType::Whisper
    &&& valid_sender_certificate(v.sender)
    &&& sender_certificate_wire(v.sender).len() <= u32::MAX
    &&& v.contents.len() <= u32::MAX
}

/// The content that `data` is the wire form of, if any.
pub open spec fn parse_content(data: Seq<u8>) -> Option<UnidentifiedSenderMessageContentView> {
    match parse_u32_field(8, data) {
        Some((number, r1)) => match parse_bytes_field(18, r1) {
            Some((certificate, r2)) => match parse_bytes_field(26, r2) {
                Some((contents, r3)) => match (
                    content_type_of(number),
                    parse_sender_certificate(certificate),
                ) {
                    (Some(msg_type), Some(sender)) => if r3.len() == 0 {
                        Some(UnidentifiedSenderMessageContentView { msg_type, sender, contents })
                    } else {
                        None
                    },
                    _ => None,
                },
                None => None,
            },
            None => None,
        },
        None => None,
    }
}

/// Reading the wire form of a valid content gives the content back.
pub proof fn lemma_content_round_trip(v: UnidentifiedSenderMessageContentView)
    requires
        valid_content(v),
    ensures
        parse_content(content_wire(v)) == Some(v),
{
    let empty = Seq::<u8>::empty();
    let f1 = u32_field(8, content_type_number(v.msg_type));
    let f2 = bytes_field(18, sender_certificate_wire(v.sender));
    let f3 = bytes_field(26, v.contents);
    assert(content_wire(v) =~= f1 + (f2 + f3));
    assert(f3 + empty =~= f3);
    lemma_u32_field_round_trip(8, content_type_number(v.msg_type), f2 + f3);
    lemma_bytes_field_round_trip(18, sender_certificate_wire(v.sender), f3);
    lemma_bytes_field_round_trip(26, v.contents, empty);
    lemma_sender_certificate_round_trip(v.sender);
}

/// What reads as a content is the wire form of that content, and the
/// content is valid.
pub proof fn lemma_content_parsed(data: Seq<u8>)
    requires
        parse_content(data) is Some,
    ensures
        valid_content(parse_content(data).unwrap()),
        content_wire(parse_content(data).unwrap()) == data,
{
    let v = parse_content(data).unwrap();
    let (number, r1) = parse_u32_field(8, data).unwrap();
    let (certificate, r2) = parse_bytes_field(18, r1).unwrap();
    let (contents, r3) = parse_bytes_field(26, r2).unwrap();
    lemma_u32_field_parsed(8, data);
    lemma_bytes_field_parsed(18, r1);
    lemma_bytes_field_parsed(26, r2);
    lemma_sender_certificate_parsed(certificate);
    let f1 = u32_field(8, content_type_number(v.msg_type));
    let f2 = bytes_field(18, sender_certificate_wire(v.sender));
    let f3 = bytes_field(26, v.contents);
    assert(r3 =~= Seq::<u8>::empty());
    assert(f3 + r3 =~= f3);
    assert(content_wire(v) =~= f1 + (f2 + f3));
}

/// The inner part of a sealed-sender message: the kind of the message,
/// the sender's certificate, and the message itself.
#[derive(Debug, PartialEq, Eq)]
pub struct UnidentifiedSenderMessageContent {
    msg_type: CiphertextMessageType,
    sender: SenderCertificate,
    contents: Vec<u8>,
    serialized: Vec<u8>,
}

impl View for UnidentifiedSenderMessageContent {
    type V = UnidentifiedSenderMessageContentView;

    closed spec fn view(&self) -> UnidentifiedSenderMessageContentView {
        UnidentifiedSenderMessageContentView {
            msg_type: self.msg_type,
            sender: self.sender@,
            contents: self.contents@,
        }
    }
}

impl UnidentifiedSenderMessageContent {
    #[verifier::type_invariant]
    spec fn inv(self) -> bool {
        valid_content(self@) && self.serialized@ == content_wire(self@)
    }

    /// Whether `new` accepts these values.
    pub open spec fn new_accepts(msg_type: u32, sender: SenderCertificateView, contents: Seq<u8>) -> bool {
        content_type_of(msg_type) is Some && sender_certificate_wire(sender).len() <= u32::MAX
            && contents.len() <= u32::MAX
    }

    /// The content of a message of the kind that `msg_type` names: 1 for
    /// the first message of a session, 2 for a message of an open
    /// session. `InvalidArgument` for any other number, or where the
    /// certificate or the message has 4 GiB or more.
    pub fn new(msg_type: u32, sender: SenderCertificate, contents: &[u8]) -> (out: Result<
        UnidentifiedSenderMessageContent,
        SignalProtocolError,
    >)
        ensures
            match out {
                Ok(c) => Self::new_accepts(msg_type, sender@, contents@) && content_type_of(
                    msg_type,
                ) == Some(c@.msg_type) && c@.sender == sender@ && c@.contents == contents@,
                Err(e) => !Self::new_accepts(msg_type, sender@, contents@) && e
                    == SignalProtocolError::InvalidArgument,
            },
    {
        let kind = match CiphertextMessageType::from_content_type(msg_type) {
            Ok(kind) => kind,
            Err(e) => {
                return Err(e);
            },
        };
        if sender.serialized().len() > 0xffff_ffff || contents.len() > 0xffff_ffff {
            return Err(SignalProtocolError::InvalidArgument);
        }
        let mut serialized: Vec<u8> = Vec::new();
        write_u32_field(&mut serialized, 8, msg_type);
        write_bytes_field(&mut serialized, 18, sender.serialized().as_slice());
        write_bytes_field(&mut serialized, 26, contents);
        Ok(
            UnidentifiedSenderMessageContent {
                msg_type: kind,
                sender,
                contents: to_vec(contents),
                serialized,
            },
        )
    }

    /// Reads a content from its wire form; `InvalidMessage` for bytes
    /// that are not the wire form of one.
    pub fn deserialize(data: &[u8]) -> (out: Result<
        UnidentifiedSenderMessageContent,
        SignalProtocolError,
    >)
        ensures
            match out {
                Ok(c) => parse_content(data@) == Some(c@) && content_wire(c@) == data@,
                Err(e) => parse_content(data@) is None && e == SignalProtocolError::InvalidMessage,
            },
    {
        assert(data@.skip(0) =~= data@);
        let (number, pos1) = match read_u32_field(data, 0, 8) {
            Some(found) => found,
            None => {
                return Err(SignalProtocolError::InvalidMessage);
            },
        };
        let (certificate, pos2) = match read_bytes_field(data, pos1, 18) {
            Some(found) => found,
            None => {
                return Err(SignalProtocolError::InvalidMessage);
            },
        };
        let (contents, pos3) = match read_bytes_field(data, pos2, 26) {
            Some(found) => found,
            None => {
                return Err(SignalProtocolError::InvalidMessage);
            },
        };
        let kind = match CiphertextMessageType::from_content_type(number) {
            Ok(kind) => kind,
            Err(_) => {
                return Err(SignalProtocolError::InvalidMessage);
            },
        };
        let sender = match SenderCertificate::deserialize(certificate.as_slice()) {
            Ok(c) => c,
            Err(_) => {
                return Err(SignalProtocolError::InvalidMessage);
            },
        };
        if pos3 != data.len() {
            return Err(SignalProtocolError::InvalidMessage);
        }
        proof {
            lemma_content_parsed(data@);
        }
        Ok(
            UnidentifiedSenderMessageContent {
                msg_type: kind,
                sender,
                contents,
                serialized: to_vec(data),
            },
        )
    }

    /// The number of the kind of the message: 3 for the first message of
    /// a session, 2 for a message of an open session.
    pub fn msg_type(&self) -> (out: u8)
        ensures
            out == type_code(self@.msg_type),
            out == 2 || out == 3,
    {
        proof {
            use_type_invariant(self);
        }
        self.msg_type.to_u8()
    }

    /// The sender's certificate.
    pub fn sender(&self) -> (out: &SenderCertificate)
        ensures
            out@ == self@.sender,
    {
        &self.sender
    }

    /// The message.
    pub fn contents(&self) -> (out: &Vec<u8>)
        ensures
            out@ == self@.contents,
    {
        &self.contents
    }

    /// The bytes of the content on the wire.
    pub fn serialized(&self) -> (out: &Vec<u8>)
        ensures
            out@ == content_wire(self@),
            parse_content(out@) == Some(self@),
    {
        proof {
            use_type_invariant(self);
            lemma_content_round_trip(self@);
        }
        &self.serialized
    }
}

/// What a sealed-sender envelope holds.
pub struct UnidentifiedSenderMessageView {
    pub ephemeral_public: Seq<u8>,
    pub encrypted_static: Seq<u8>,
    pub encrypted_message: Seq<u8>,
}

/// Whether these values can stand in an envelope.
pub open spec fn valid_envelope(v: UnidentifiedSenderMessageView) -> bool {
    &&& v.ephemeral_public.len() == 32
    &&& v.encrypted_static.len() <= u32::MAX
    &&& v.encrypted_message.len() <= u32::MAX
}

/// The bytes of an envelope on the wire: the version byte, the ephemeral
/// key, the encrypted static part and the encrypted message.
pub open spec fn envelope_wire(v: UnidentifiedSenderMessageView) -> Seq<u8> {
    seq![SEALED_SENDER_VERSION_BYTE] + (bytes_field(10, encoded(v.ephemeral_public)) + (
    bytes_field(18, v.encrypted_static) + bytes_field(26, v.encrypted_message)))
}

/// The envelope that `data` is the wire form of, if any.
pub open spec fn parse_envelope(data: Seq<u8>) -> Option<UnidentifiedSenderMessageView> {
    if data.len() == 0 || data[0] != SEALED_SENDER_VERSION_BYTE {
        None
    } else {
        match parse_bytes_field(10, data.skip(1)) {
            Some((key, r1)) => match parse_bytes_field(18, r1) {
                Some((encrypted_static, r2)) => match parse_bytes_field(26, r2) {
                    Some((encrypted_message, r3)) => match decoded(key) {
                        Some(ephemeral_public) => if r3.len() == 0 {
                            Some(
                                UnidentifiedSenderMessageView {
                                    ephemeral_public,
                                    encrypted_static,
                                    encrypted_message,
                                },
                            )
                        } else {
                            None
                        },
                        None => None,
                    },
                    None => None,
                },
                None => None,
            },
            None => None,
        }
    }
}

/// Reading the wire form of a valid envelope gives the envelope back.
pub proof fn lemma_envelope_round_trip(v: UnidentifiedSenderMessageView)
    requires
        valid_envelope(v),
    ensures
        parse_envelope(envelope_wire(v)) == Some(v),
{
    let empty = Seq::<u8>::empty();
    let f1 = bytes_field(10, encoded(v.ephemeral_public));
    let f2 = bytes_field(18, v.encrypted_static);
    let f3 = bytes_field(26, v.encrypted_message);
    lemma_head_tail(SEALED_SENDER_VERSION_BYTE, f1 + (f2 + f3));
    assert(f3 + empty =~= f3);
    lemma_bytes_field_round_trip(10, encoded(v.ephemeral_public), f2 + f3);
    lemma_bytes_field_round_trip(18, v.encrypted_static, f3);
    lemma_bytes_field_round_trip(26, v.encrypted_message, empty);
    lemma_decode_encode(v.ephemeral_public);
}

/// What reads as an envelope is the wire form of that envelope, and the
/// envelope is valid.
pub proof fn lemma_envelope_parsed(data: Seq<u8>)
    requires
        parse_envelope(data) is Some,
    ensures
        valid_envelope(parse_envelope(data).unwrap()),
        envelope_wire(parse_envelope(data).unwrap()) == data,
{
    let v = parse_envelope(data).unwrap();
    let (key, r1) = parse_bytes_field(10, data.skip(1)).unwrap();
    let (encrypted_static, r2) = parse_bytes_field(18, r1).unwrap();
    let (encrypted_message, r3) = parse_bytes_field(26, r2).unwrap();
    lemma_bytes_field_parsed(10, data.skip(1));
    lemma_bytes_field_parsed(18, r1);
    lemma_bytes_field_parsed(26, r2);
    lemma_encode_decode(key);
    lemma_split_head(data);
    let f3 = bytes_field(26, v.encrypted_message);
    assert(r3 =~= Seq::<u8>::empty());
    assert(f3 + r3 =~= f3);
}

/// A sealed-sender envelope: the ephemeral key it was sealed with, the
/// encrypted static part, and the encrypted message.
#[derive(Debug, PartialEq, Eq)]
pub struct UnidentifiedSenderMessage {
    ephemeral_public: PublicKey,
    encrypted_static: Vec<u8>,
    encrypted_message: Vec<u8>,
    serialized: Vec<u8>,
}

impl View for UnidentifiedSenderMessage {
    type V = UnidentifiedSenderMessageView;

    closed spec fn view(&self) -> UnidentifiedSenderMessageView {
        UnidentifiedSenderMessageView {
            ephemeral_public: self.ephemeral_public@,
            encrypted_static: self.encrypted_static@,
            encrypted_message: self.encrypted_message@,
        }
    }
}

impl UnidentifiedSenderMessage {
    #[verifier::type_invariant]
    spec fn inv(self) -> bool {
        valid_envelope(self@) && self.serialized@ == envelope_wire(self@)
    }

    /// The envelope of these values; `InvalidArgument` where an encrypted
    /// part has 4 GiB or more.
    pub fn new(ephemeral_public: PublicKey, encrypted_static: &[u8], encrypted_message: &[u8]) -> (out:
        Result<UnidentifiedSenderMessage, SignalProtocolError>)
        ensures
            match out {
                Ok(m) => m@ == (UnidentifiedSenderMessageView {
                    ephemeral_public: ephemeral_public@,
                    encrypted_static: encrypted_static@,
                    encrypted_message: encrypted_message@,
                }) && valid_envelope(m@),
                Err(e) => e == SignalProtocolError::InvalidArgument && (encrypted_static@.len()
                    > u32::MAX || encrypted_message@.len() > u32::MAX),
            },
    {
        if encrypted_static.len() > 0xffff_ffff || encrypted_message.len() > 0xffff_ffff {
            return Err(SignalProtocolError::InvalidArgument);
        }
        let mut serialized: Vec<u8> = Vec::new();
        serialized.push(SEALED_SENDER_VERSION_BYTE);
        let key = ephemeral_public.serialize();
        write_bytes_field(&mut serialized, 10, key.as_slice());
        write_bytes_field(&mut serialized, 18, encrypted_static);
        write_bytes_field(&mut serialized, 26, encrypted_message);
        proof {
            ephemeral_public.lemma_len();
            assert(serialized@ =~= seq![SEALED_SENDER_VERSION_BYTE] + (bytes_field(
                10,
                encoded(ephemeral_public@),
            ) + (bytes_field(18, encrypted_static@) + bytes_field(26, encrypted_message@))));
        }
        Ok(
            UnidentifiedSenderMessage {
                ephemeral_public,
                encrypted_static: to_vec(encrypted_static),
                encrypted_message: to_vec(encrypted_message),
                serialized,
            },
        )
    }

    /// Reads an envelope from its wire form; `InvalidMessage` for bytes
    /// that are not the wire form of one.
    pub fn deserialize(data: &[u8]) -> (out: Result<UnidentifiedSenderMessage, SignalProtocolError>)
        ensures
            match out {
                Ok(m) => parse_envelope(data@) == Some(m@) && envelope_wire(m@) == data@,
                Err(e) => parse_envelope(data@) is None && e == SignalProtocolError::InvalidMessage,
            },
    {
        if data.len() == 0 || data[0] != SEALED_SENDER_VERSION_BYTE {
            return Err(SignalProtocolError::InvalidMessage);
        }
        let (key, pos1) = match read_bytes_field(data, 1, 10) {
            Some(found) => found,
            None => {
                return Err(SignalProtocolError::InvalidMessage);
            },
        };
        let (encrypted_static, pos2) = match read_bytes_field(data, pos1, 18) {
            Some(found) => found,
            None => {
                return Err(SignalProtocolError::InvalidMessage);
            },
        };
        let (encrypted_message, pos3) = match read_bytes_field(data, pos2, 26) {
            Some(found) => found,
            None => {
                return Err(SignalProtocolError::InvalidMessage);
            },
        };
        let ephemeral_public = match PublicKey::deserialize(key.as_slice()) {
            Ok(k) => k,
            Err(_) => {
                return Err(SignalProtocolError::InvalidMessage);
            },
        };
        if pos3 != data.len() {
            return Err(SignalProtocolError::InvalidMessage);
        }
        let serialized = to_vec(data);
        proof {
            lemma_envelope_parsed(data@);
        }
        Ok(
            UnidentifiedSenderMessage {
                ephemeral_public,
                encrypted_static,
                encrypted_message,
                serialized,
            },
        )
    }

    /// The ephemeral key that the envelope was sealed with.
    pub fn ephemeral_public(&self) -> (out: PublicKey)
        ensures
            out@ == self@.ephemeral_public,
    {
        self.ephemeral_public
    }

    /// The encrypted static part.
    pub fn encrypted_static(&self) -> (out: &Vec<u8>)
        ensures
            out@ == self@.encrypted_static,
    {
        &self.encrypted_static
    }

    /// The encrypted message.
    pub fn encrypted_message(&self) -> (out: &Vec<u8>)
        ensures
            out@ == self@.encrypted_message,
    {
        &self.encrypted_message
    }

    /// The bytes of the envelope on the wire.
    pub fn serialized(&self) -> (out: &Vec<u8>)
        ensures
            out@ == envelope_wire(self@),
            parse_envelope(out@) == Some(self@),
    {
        proof {
            use_type_invariant(self);
            lemma_envelope_round_trip(self@);
        }
        &self.serialized
    }
}

} // verus!
