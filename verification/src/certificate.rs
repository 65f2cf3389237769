use vstd::prelude::*;
use crate::bytes::{lemma_join6, to_vec};
use crate::curve::{
    decoded, encoded, lemma_decode_encode, lemma_encode_decode, PrivateKey, PublicKey,
};
use crate::signature::{calculate_signature, signature_of, signature_verifies, verify_signature};
use crate::error::SignalProtocolError;
use crate::wire::{
    bytes_field, fixed64_field, lemma_bytes_field_parsed, lemma_bytes_field_round_trip,
    lemma_field_len, lemma_fixed64_field_parsed, lemma_fixed64_field_round_trip,
    lemma_optional_bytes_field_parsed, lemma_optional_bytes_field_round_trip,
    lemma_u32_field_parsed, lemma_u32_field_round_trip, optional_bytes_field, parse_bytes_field,
    parse_fixed64_field, parse_optional_bytes_field, parse_u32_field, read_bytes_field,
    read_fixed64_field, read_optional_bytes_field, read_u32_field, u32_field, write_bytes_field,
    write_fixed64_field, write_u32_field,
};

verus! {

/// Bytes of a signature.
pub const CERTIFICATE_SIGNATURE_LENGTH: usize = 64;

/// A signed structure on the wire: what was signed, then the signature.
pub open spec fn signed_wire(body: Seq<u8>, signature: Seq<u8>) -> Seq<u8> {
    bytes_field(10, body) + bytes_field(18, signature)
}

/// The bytes of a server certificate that the trust root signs: the id
/// of the server's key, then the key.
pub open spec fn server_certificate_body(key_id: u32, key: Seq<u8>) -> Seq<u8> {
    u32_field(8, key_id) + bytes_field(18, encoded(key))
}

/// The bytes of a sender certificate that the server signs: the phone
/// number if there is one, the device id, the time it expires, the
/// sender's key, the server's certificate, and the account id.
pub open spec fn sender_certificate_body(
    sender_e164: Option<Seq<u8>>,
    sender_device_id: u32,
    expiration: u64,
    key: Seq<u8>,
    signer: Seq<u8>,
    sender_uuid: Seq<u8>,
) -> Seq<u8> {
    optional_bytes_field(10, sender_e164) + u32_field(16, sender_device_id) + fixed64_field(
        25,
        expiration,
    ) + bytes_field(34, encoded(key)) + bytes_field(42, signer) + bytes_field(50, sender_uuid)
}

/// What was signed and the signature, where `data` is a signed
/// structure on the wire.
pub open spec fn parse_signed(data: Seq<u8>) -> Option<(Seq<u8>, Seq<u8>)> {
    match parse_bytes_field(10, data) {
        Some((body, r1)) => match parse_bytes_field(18, r1) {
            Some((signature, r2)) => if r2.len() == 0 && signature.len()
                == CERTIFICATE_SIGNATURE_LENGTH {
                Some((body, signature))
            } else {
                None
            },
            None => None,
        },
        None => None,
    }
}

/// Reading a signed structure gives what was signed and the signature
/// back.
pub proof fn lemma_signed_round_trip(body: Seq<u8>, signature: Seq<u8>)
    requires
        body.len() <= u32::MAX,
        signature.len() == CERTIFICATE_SIGNATURE_LENGTH,
    ensures
        parse_signed(signed_wire(body, signature)) == Some((body, signature)),
{
    let empty = Seq::<u8>::empty();
    let f2 = bytes_field(18, signature);
    assert(f2 + empty =~= f2);
    lemma_bytes_field_round_trip(10, body, f2);
    lemma_bytes_field_round_trip(18, signature, empty);
}

/// What reads as a signed structure is the wire form of what was read.
pub proof fn lemma_signed_parsed(data: Seq<u8>)
    requires
        parse_signed(data) is Some,
    ensures
        signed_wire(parse_signed(data).unwrap().0, parse_signed(data).unwrap().1) == data,
        parse_signed(data).unwrap().0.len() <= u32::MAX,
{
    let (body, r1) = parse_bytes_field(10, data).unwrap();
    let (signature, r2) = parse_bytes_field(18, r1).unwrap();
    lemma_bytes_field_parsed(10, data);
    lemma_bytes_field_parsed(18, r1);
    let f2 = bytes_field(18, signature);
    assert(r2 =~= Seq::<u8>::empty());
    assert(f2 + r2 =~= f2);
}

/// The key id and the key that `body` is the signed part of a server
/// certificate for, if any.
pub open spec fn parse_server_certificate_body(body: Seq<u8>) -> Option<(u32, Seq<u8>)> {
    match parse_u32_field(8, body) {
        Some((key_id, r1)) => match parse_bytes_field(18, r1) {
            Some((key, r2)) => match decoded(key) {
                Some(k) => if r2.len() == 0 {
                    Some((key_id, k))
                } else {
                    None
                },
                None => None,
            },
            None => None,
        },
        None => None,
    }
}

/// The server certificate that `data` is the wire form of, if any.
pub open spec fn parse_server_certificate(data: Seq<u8>) -> Option<ServerCertificateView> {
    match parse_signed(data) {
        Some((body, signature)) => match parse_server_certificate_body(body) {
            Some((key_id, key)) => Some(ServerCertificateView { key_id, key, signature }),
            None => None,
        },
        None => None,
    }
}

/// Whether these values can stand in a server certificate.
pub open spec fn valid_server_certificate(v: ServerCertificateView) -> bool {
    v.key.len() == 32 && v.signature.len() == CERTIFICATE_SIGNATURE_LENGTH
}

/// Reading the wire form of a server certificate gives it back.
pub proof fn lemma_server_certificate_round_trip(v: ServerCertificateView)
    requires
        valid_server_certificate(v),
    ensures
        parse_server_certificate(server_certificate_wire(v)) == Some(v),
        server_certificate_wire(v).len() <= 200,
{
    let empty = Seq::<u8>::empty();
    let body = server_certificate_body(v.key_id, v.key);
    let f2 = bytes_field(18, encoded(v.key));
    assert(f2 + empty =~= f2);
    lemma_u32_field_round_trip(8, v.key_id, f2);
    lemma_bytes_field_round_trip(18, encoded(v.key), empty);
    lemma_decode_encode(v.key);
    lemma_field_len(18, encoded(v.key), v.key_id);
    assert(body.len() <= 45);
    lemma_signed_round_trip(body, v.signature);
    lemma_field_len(10, body, 0);
    lemma_field_len(18, v.signature, 0);
}

/// What reads as a server certificate is the wire form of that
/// certificate, and the certificate is valid.
pub proof fn lemma_server_certificate_parsed(data: Seq<u8>)
    requires
        parse_server_certificate(data) is Some,
    ensures
        valid_server_certificate(parse_server_certificate(data).unwrap()),
        server_certificate_wire(parse_server_certificate(data).unwrap()) == data,
        parse_signed(data).unwrap().0 == server_certificate_body(
            parse_server_certificate(data).unwrap().key_id,
            parse_server_certificate(data).unwrap().key,
        ),
{
    let (body, signature) = parse_signed(data).unwrap();
    lemma_signed_parsed(data);
    let (key_id, r1) = parse_u32_field(8, body).unwrap();
    let (key, r2) = parse_bytes_field(18, r1).unwrap();
    lemma_u32_field_parsed(8, body);
    lemma_bytes_field_parsed(18, r1);
    lemma_encode_decode(key);
    let f2 = bytes_field(18, key);
    assert(r2 =~= Seq::<u8>::empty());
    assert(f2 + r2 =~= f2);
}

fn write_signed(body: &[u8], signature: &[u8]) -> (out: Vec<u8>)
    ensures
        out@ == signed_wire(body@, signature@),
{
    let mut out: Vec<u8> = Vec::new();
    write_bytes_field(&mut out, 10, body);
    write_bytes_field(&mut out, 18, signature);
    assert(out@ =~= signed_wire(body@, signature@));
    out
}

/// The bytes of a server certificate that the trust root signs.
pub fn server_certificate_bytes_to_sign(key_id: u32, key: &PublicKey) -> (out: Vec<u8>)
    ensures
        out@ == server_certificate_body(key_id, key@),
{
    let mut out: Vec<u8> = Vec::new();
    write_u32_field(&mut out, 8, key_id);
    let encoded_key = key.serialize();
    write_bytes_field(&mut out, 18, encoded_key.as_slice());
    assert(out@ =~= server_certificate_body(key_id, key@));
    out
}

/// A server's key, signed by the trust root.
#[derive(Debug, PartialEq, Eq)]
pub struct ServerCertificate {
    key_id: u32,
    key: PublicKey,
    certificate: Vec<u8>,
    signature: Vec<u8>,
    serialized: Vec<u8>,
}

/// What a server certificate holds.
pub struct ServerCertificateView {
    pub key_id: u32,
    pub key: Seq<u8>,
    pub signature: Seq<u8>,
}

impl View for ServerCertificate {
    type V = ServerCertificateView;

    closed spec fn view(&self) -> ServerCertificateView {
        ServerCertificateView { key_id: self.key_id, key: self.key@, signature: self.signature@ }
    }
}

/// Whether a server certificate's signature verifies under the trust
/// root's key.
pub open spec fn server_certificate_valid(v: ServerCertificateView, trust_root: Seq<u8>) -> bool {
    signature_verifies(trust_root, server_certificate_body(v.key_id, v.key), v.signature)
}

/// The bytes of a server certificate on the wire.
pub open spec fn server_certificate_wire(v: ServerCertificateView) -> Seq<u8> {
    signed_wire(server_certificate_body(v.key_id, v.key), v.signature)
}

impl ServerCertificate {
    #[verifier::type_invariant]
    spec fn inv(self) -> bool {
        &&& self.signature@.len() == CERTIFICATE_SIGNATURE_LENGTH
        &&& self.certificate@ == server_certificate_body(self.key_id, self.key@)
        &&& self.serialized@ == server_certificate_wire(self@)
    }

    /// The certificate of the server key `key` with the id `key_id`,
    /// where `signature` is the trust root's signature over
    /// `server_certificate_bytes_to_sign` of the two. `InvalidArgument` for
    /// a signature that is not 64 bytes.
    pub fn new(key_id: u32, key: PublicKey, signature: &[u8]) -> (out: Result<
        ServerCertificate,
        SignalProtocolError,
    >)
        ensures
            match out {
                Ok(c) => signature@.len() == CERTIFICATE_SIGNATURE_LENGTH && c@ == (
                ServerCertificateView { key_id, key: key@, signature: signature@ }),
                Err(e) => signature@.len() != CERTIFICATE_SIGNATURE_LENGTH && e
                    == SignalProtocolError::InvalidArgument,
            },
    {
        if signature.len() != CERTIFICATE_SIGNATURE_LENGTH {
            return Err(SignalProtocolError::InvalidArgument);
        }
        let certificate = server_certificate_bytes_to_sign(key_id, &key);
        let serialized = write_signed(certificate.as_slice(), signature);
        Ok(ServerCertificate { key_id, key, certificate, signature: to_vec(signature), serialized })
    }

    /// Reads a certificate from its wire form; `InvalidMessage` for bytes
    /// that are not the wire form of one.
    pub fn deserialize(data: &[u8]) -> (out: Result<ServerCertificate, SignalProtocolError>)
        ensures
            match out {
                Ok(c) => parse_server_certificate(data@) == Some(c@) && server_certificate_wire(
                    c@,
                ) == data@,
                Err(e) => parse_server_certificate(data@) is None && e
                    == SignalProtocolError::InvalidMessage,
            },
    {
        assert(data@.skip(0) =~= data@);
        let (body, pos1) = match read_bytes_field(data, 0, 10) {
            Some(found) => found,
            None => {
                return Err(SignalProtocolError::InvalidMessage);
            },
        };
        let (signature, pos2) = match read_bytes_field(data, pos1, 18) {
            Some(found) => found,
            None => {
                return Err(SignalProtocolError::InvalidMessage);
            },
        };
        if pos2 != data.len() || signature.len() != CERTIFICATE_SIGNATURE_LENGTH {
            return Err(SignalProtocolError::InvalidMessage);
        }
        assert(body@.skip(0) =~= body@);
        let (key_id, q1) = match read_u32_field(body.as_slice(), 0, 8) {
            Some(found) => found,
            None => {
                return Err(SignalProtocolError::InvalidMessage);
            },
        };
        let (encoded_key, q2) = match read_bytes_field(body.as_slice(), q1, 18) {
            Some(found) => found,
            None => {
                return Err(SignalProtocolError::InvalidMessage);
            },
        };
        let key = match PublicKey::deserialize(encoded_key.as_slice()) {
            Ok(k) => k,
            Err(_) => {
                return Err(SignalProtocolError::InvalidMessage);
            },
        };
        if q2 != body.len() {
            return Err(SignalProtocolError::InvalidMessage);
        }
        proof {
            lemma_server_certificate_parsed(data@);
            lemma_signed_parsed(data@);
        }
        Ok(ServerCertificate { key_id, key, certificate: body, signature, serialized: to_vec(data) })
    }

    /// The certificate of the server key `key` with the id `key_id`,
    /// signed with the trust root's private key and fresh randomness.
    /// `InvalidState` where the system's generator gave nothing.
    pub fn sign(key_id: u32, key: PublicKey, trust_root: &PrivateKey) -> (out: Result<
        ServerCertificate,
        SignalProtocolError,
    >)
        ensures
            match out {
                Ok(c) => c@.key_id == key_id && c@.key == key@ && exists|random: Seq<u8>|
                    random.len() == 64 && c@.signature == #[trigger] signature_of(
                        trust_root@,
                        server_certificate_body(key_id, key@),
                        random,
                    ),
                Err(e) => e == SignalProtocolError::InvalidState,
            },
    {
        let body = server_certificate_bytes_to_sign(key_id, &key);
        match calculate_signature(trust_root, body.as_slice()) {
            Ok(signature) => ServerCertificate::new(key_id, key, signature.as_slice()),
            Err(e) => Err(e),
        }
    }

    /// Whether the certificate's signature verifies under the trust
    /// root's key.
    pub fn validate(&self, trust_root: &PublicKey) -> (out: bool)
        ensures
            out == server_certificate_valid(self@, trust_root@),
    {
        proof {
            use_type_invariant(self);
        }
        match verify_signature(trust_root, self.certificate.as_slice(), self.signature.as_slice()) {
            Ok(valid) => valid,
            Err(_) => false,
        }
    }

    /// The id of the server's key.
    pub fn key_id(&self) -> (out: u32)
        ensures
            out == self@.key_id,
    {
        self.key_id
    }

    /// The server's key.
    pub fn public_key(&self) -> (out: PublicKey)
        ensures
            out@ == self@.key,
    {
        self.key
    }

    /// The bytes that the trust root signed.
    pub fn certificate(&self) -> (out: &Vec<u8>)
        ensures
            out@ == server_certificate_body(self@.key_id, self@.key),
    {
        proof {
            use_type_invariant(self);
        }
        &self.certificate
    }

    /// The trust root's signature.
    pub fn signature(&self) -> (out: &Vec<u8>)
        ensures
            out@ == self@.signature,
            out@.len() == CERTIFICATE_SIGNATURE_LENGTH,
    {
        proof {
            use_type_invariant(self);
        }
        &self.signature
    }

    /// The bytes of the certificate on the wire.
    pub fn serialized(&self) -> (out: &Vec<u8>)
        ensures
            out@ == server_certificate_wire(self@),
            parse_server_certificate(out@) == Some(self@),
            valid_server_certificate(self@),
    {
        proof {
            use_type_invariant(self);
            self.key.lemma_len();
            lemma_server_certificate_round_trip(self@);
        }
        &self.serialized
    }
}

/// What a sender certificate holds.
pub struct SenderCertificateView {
    pub sender_uuid: Seq<u8>,
    pub sender_e164: Option<Seq<u8>>,
    pub sender_device_id: u32,
    pub key: Seq<u8>,
    pub expiration: u64,
    pub signer: ServerCertificateView,
    pub signature: Seq<u8>,
}

/// The bytes of a sender certificate that the server signs.
pub open spec fn sender_certificate_signed_part(v: SenderCertificateView) -> Seq<u8> {
    sender_certificate_body(
        v.sender_e164,
        v.sender_device_id,
        v.expiration,
        v.key,
        server_certificate_wire(v.signer),
        v.sender_uuid,
    )
}

/// The bytes of a sender certificate on the wire.
pub open spec fn sender_certificate_wire(v: SenderCertificateView) -> Seq<u8> {
    signed_wire(sender_certificate_signed_part(v), v.signature)
}

/// Whether these values can stand in a sender certificate.
pub open spec fn valid_sender_certificate(v: SenderCertificateView) -> bool {
    &&& v.key.len() == 32
    &&& v.signature.len() == CERTIFICATE_SIGNATURE_LENGTH
    &&& valid_server_certificate(v.signer)
    &&& v.sender_uuid.len() <= u32::MAX
    &&& v.sender_e164 is Some ==> v.sender_e164.unwrap().len() <= u32::MAX
    &&& sender_certificate_signed_part(v).len() <= u32::MAX
}

/// The sender certificate with this signature that `body` is the signed
/// part of, if any.
pub open spec fn parse_sender_certificate_body(body: Seq<u8>, signature: Seq<u8>) -> Option<
    SenderCertificateView,
> {
    match parse_optional_bytes_field(10, body) {
        Some((sender_e164, r1)) => match parse_u32_field(16, r1) {
            Some((sender_device_id, r2)) => match parse_fixed64_field(25, r2) {
                Some((expiration, r3)) => match parse_bytes_field(34, r3) {
                    Some((encoded_key, r4)) => match parse_bytes_field(42, r4) {
                        Some((signer_bytes, r5)) => match parse_bytes_field(50, r5) {
                            Some((sender_uuid, r6)) => match (
                                decoded(encoded_key),
                                parse_server_certificate(signer_bytes),
                            ) {
                                (Some(key), Some(signer)) => if r6.len() == 0 {
                                    Some(
                                        SenderCertificateView {
                                            sender_uuid,
                                            sender_e164,
                                            sender_device_id,
                                            key,
                                            expiration,
                                            signer,
                                            signature,
                                        },
                                    )
                                } else {
                                    None
                                },
                                _ => None,
                            },
                            None => None,
                        },
                        None => None,
                    },
                    None => None,
                },
                None => None,
            },
            None => None,
        },
        None => None,
    }
}

/// The sender certificate that `data` is the wire form of, if any.
pub open spec fn parse_sender_certificate(data: Seq<u8>) -> Option<SenderCertificateView> {
    match parse_signed(data) {
        Some((body, signature)) => parse_sender_certificate_body(body, signature),
        None => None,
    }
}

/// Reading the signed part of a valid sender certificate gives the
/// certificate back.
pub proof fn lemma_sender_certificate_body_round_trip(v: SenderCertificateView)
    requires
        valid_sender_certificate(v),
    ensures
        parse_sender_certificate_body(sender_certificate_signed_part(v), v.signature) == Some(v),
{
    let empty = Seq::<u8>::empty();
    let signer = server_certificate_wire(v.signer);
    let f1 = optional_bytes_field(10, v.sender_e164);
    let f2 = u32_field(16, v.sender_device_id);
    let f3 = fixed64_field(25, v.expiration);
    let f4 = bytes_field(34, encoded(v.key));
    let f5 = bytes_field(42, signer);
    let f6 = bytes_field(50, v.sender_uuid);
    let r5 = f6;
    let r4 = f5 + r5;
    let r3 = f4 + r4;
    let r2 = f3 + r3;
    let r1 = f2 + r2;
    lemma_join6(f1, f2, f3, f4, f5, f6);
    assert(f6 + empty =~= f6);
    assert(r1[0] == 16) by {
        assert(f2[0] == 16);
    }
    lemma_server_certificate_round_trip(v.signer);
    lemma_optional_bytes_field_round_trip(10, v.sender_e164, r1);
    lemma_u32_field_round_trip(16, v.sender_device_id, r2);
    lemma_fixed64_field_round_trip(25, v.expiration, r3);
    lemma_bytes_field_round_trip(34, encoded(v.key), r4);
    lemma_bytes_field_round_trip(42, signer, r5);
    lemma_bytes_field_round_trip(50, v.sender_uuid, empty);
    lemma_decode_encode(v.key);
    let body = sender_certificate_signed_part(v);
    assert(parse_optional_bytes_field(10, body) == Some((v.sender_e164, r1)));
    assert(parse_u32_field(16, r1) == Some((v.sender_device_id, r2)));
    assert(parse_fixed64_field(25, r2) == Some((v.expiration, r3)));
    assert(parse_bytes_field(34, r3) == Some((encoded(v.key), r4)));
    assert(parse_bytes_field(42, r4) == Some((signer, r5)));
    assert(parse_bytes_field(50, r5) == Some((v.sender_uuid, empty)));
}

/// Reading the wire form of a valid sender certificate gives the
/// certificate back.
pub proof fn lemma_sender_certificate_round_trip(v: SenderCertificateView)
    requires
        valid_sender_certificate(v),
    ensures
        parse_sender_certificate(sender_certificate_wire(v)) == Some(v),
{
    lemma_sender_certificate_body_round_trip(v);
    lemma_signed_round_trip(sender_certificate_signed_part(v), v.signature);
}

/// What reads as the signed part of a sender certificate is the signed
/// part of that certificate.
pub proof fn lemma_sender_certificate_body_parsed(body: Seq<u8>, signature: Seq<u8>)
    requires
        parse_sender_certificate_body(body, signature) is Some,
    ensures
        sender_certificate_signed_part(
            parse_sender_certificate_body(body, signature).unwrap(),
        ) == body,
        parse_sender_certificate_body(body, signature).unwrap().key.len() == 32,
        valid_server_certificate(parse_sender_certificate_body(body, signature).unwrap().signer),
        parse_sender_certificate_body(body, signature).unwrap().sender_uuid.len() <= u32::MAX,
        parse_sender_certificate_body(body, signature).unwrap().sender_e164 is Some
            ==> parse_sender_certificate_body(body, signature).unwrap().sender_e164.unwrap().len()
            <= u32::MAX,
        parse_sender_certificate_body(body, signature).unwrap().signature == signature,
{
    let v = parse_sender_certificate_body(body, signature).unwrap();
    let (sender_e164, r1) = parse_optional_bytes_field(10, body).unwrap();
    let (sender_device_id, r2) = parse_u32_field(16, r1).unwrap();
    let (expiration, r3) = parse_fixed64_field(25, r2).unwrap();
    let (encoded_key, r4) = parse_bytes_field(34, r3).unwrap();
    let (signer_bytes, r5) = parse_bytes_field(42, r4).unwrap();
    let (sender_uuid, r6) = parse_bytes_field(50, r5).unwrap();
    lemma_optional_bytes_field_parsed(10, body);
    lemma_u32_field_parsed(16, r1);
    lemma_fixed64_field_parsed(25, r2);
    lemma_bytes_field_parsed(34, r3);
    lemma_bytes_field_parsed(42, r4);
    lemma_bytes_field_parsed(50, r5);
    lemma_encode_decode(encoded_key);
    lemma_server_certificate_parsed(signer_bytes);
    let f1 = optional_bytes_field(10, v.sender_e164);
    let f2 = u32_field(16, v.sender_device_id);
    let f3 = fixed64_field(25, v.expiration);
    let f4 = bytes_field(34, encoded(v.key));
    let f5 = bytes_field(42, server_certificate_wire(v.signer));
    let f6 = bytes_field(50, v.sender_uuid);
    assert(r6 =~= Seq::<u8>::empty());
    assert(f6 + r6 =~= f6);
    assert(r5 == f6);
    assert(r4 == f5 + f6);
    assert(r3 == f4 + (f5 + f6));
    assert(r2 == f3 + (f4 + (f5 + f6)));
    assert(r1 == f2 + (f3 + (f4 + (f5 + f6))));
    assert(body == f1 + (f2 + (f3 + (f4 + (f5 + f6)))));
    lemma_join6(f1, f2, f3, f4, f5, f6);
}

/// What reads as a sender certificate is the wire form of that
/// certificate, and the certificate is valid.
pub proof fn lemma_sender_certificate_parsed(data: Seq<u8>)
    requires
        parse_sender_certificate(data) is Some,
    ensures
        valid_sender_certificate(parse_sender_certificate(data).unwrap()),
        sender_certificate_wire(parse_sender_certificate(data).unwrap()) == data,
        sender_certificate_signed_part(parse_sender_certificate(data).unwrap()) == parse_signed(
            data,
        ).unwrap().0,
{
    let (body, signature) = parse_signed(data).unwrap();
    lemma_signed_parsed(data);
    lemma_sender_certificate_body_parsed(body, signature);
}

/// Whether a sender certificate is valid at `time` under the trust
/// root's key: the server's certificate verifies under the trust root,
/// the sender's verifies under the server's key, and the certificate has
/// not expired.
pub open spec fn sender_certificate_valid(
    v: SenderCertificateView,
    trust_root: Seq<u8>,
    time: u64,
) -> bool {
    certificate_holds(
        server_certificate_valid(v.signer, trust_root),
        signature_verifies(v.signer.key, sender_certificate_signed_part(v), v.signature),
        time,
        v.expiration,
    )
}

/// Whether a sender certificate holds at `time`: the trust root's
/// signature on the server certificate verified, the server's signature
/// on the sender certificate verified, and the certificate has not
/// expired. At the moment of expiry it has.
pub open spec fn certificate_holds(
    server_signature_verified: bool,
    sender_signature_verified: bool,
    time: u64,
    expiration: u64,
) -> bool {
    server_signature_verified && sender_signature_verified && time < expiration
}

/// A certificate is refused at its expiry and accepted the moment
/// before, and never holds without both signatures.
pub proof fn lemma_expiry_is_strict(expiration: u64, time: u64, first: bool, second: bool)
    ensures
        !certificate_holds(true, true, expiration, expiration),
        expiration > 0 ==> certificate_holds(true, true, (expiration - 1) as u64, expiration),
        !first || !second ==> !certificate_holds(first, second, time, expiration),
{
}

/// The bytes of a sender certificate that the server signs.
pub fn sender_certificate_bytes_to_sign(
    sender_uuid: &[u8],
    sender_e164: Option<&[u8]>,
    key: &PublicKey,
    sender_device_id: u32,
    expiration: u64,
    signer: &ServerCertificate,
) -> (out: Vec<u8>)
    ensures
        out@ == sender_certificate_body(
            match sender_e164 {
                Some(n) => Some(n@),
                None => None,
            },
            sender_device_id,
            expiration,
            key@,
            server_certificate_wire(signer@),
            sender_uuid@,
        ),
        valid_server_certificate(signer@),
{
    let mut out: Vec<u8> = Vec::new();
    match sender_e164 {
        Some(number) => {
            write_bytes_field(&mut out, 10, number);
        },
        None => {},
    }
    write_u32_field(&mut out, 16, sender_device_id);
    write_fixed64_field(&mut out, 25, expiration);
    let encoded_key = key.serialize();
    write_bytes_field(&mut out, 34, encoded_key.as_slice());
    write_bytes_field(&mut out, 42, signer.serialized().as_slice());
    write_bytes_field(&mut out, 50, sender_uuid);
    assert(out@ =~= sender_certificate_body(
        match sender_e164 {
            Some(n) => Some(n@),
            None => None,
        },
        sender_device_id,
        expiration,
        key@,
        server_certificate_wire(signer@),
        sender_uuid@,
    ));
    out
}

/// A sender's key, signed by a server whose certificate it carries.
#[derive(Debug, PartialEq, Eq)]
pub struct SenderCertificate {
    sender_uuid: Vec<u8>,
    sender_e164: Option<Vec<u8>>,
    sender_device_id: u32,
    key: PublicKey,
    expiration: u64,
    signer: ServerCertificate,
    certificate: Vec<u8>,
    signature: Vec<u8>,
    serialized: Vec<u8>,
}

impl View for SenderCertificate {
    type V = SenderCertificateView;

    closed spec fn view(&self) -> SenderCertificateView {
        SenderCertificateView {
            sender_uuid: self.sender_uuid@,
            sender_e164: match self.sender_e164 {
                Some(n) => Some(n@),
                None => None,
            },
            sender_device_id: self.sender_device_id,
            key: self.key@,
            expiration: self.expiration,
            signer: self.signer@,
            signature: self.signature@,
        }
    }
}

impl SenderCertificate {
    #[verifier::type_invariant]
    spec fn inv(self) -> bool {
        &&& valid_sender_certificate(self@)
        &&& self.certificate@ == sender_certificate_signed_part(self@)
        &&& self.serialized@ == sender_certificate_wire(self@)
    }

    /// Whether `new` accepts these values: the signature is 64 bytes and
    /// the signed part has less than 4 GiB.
    pub open spec fn new_accepts(
        sender_uuid: Seq<u8>,
        sender_e164: Option<Seq<u8>>,
        key: Seq<u8>,
        sender_device_id: u32,
        expiration: u64,
        signer: ServerCertificateView,
        signature: Seq<u8>,
    ) -> bool {
        signature.len() == CERTIFICATE_SIGNATURE_LENGTH && sender_certificate_body(
            sender_e164,
            sender_device_id,
            expiration,
            key,
            server_certificate_wire(signer),
            sender_uuid,
        ).len() <= u32::MAX
    }

    /// The certificate of these values, where `signature` is the server's
    /// signature over `sender_certificate_bytes_to_sign` of the others.
    /// `InvalidArgument` for a signature that is not 64 bytes or a signed
    /// part of 4 GiB or more.
    pub fn new(
        sender_uuid: &[u8],
        sender_e164: Option<&[u8]>,
        key: PublicKey,
        sender_device_id: u32,
        expiration: u64,
        signer: ServerCertificate,
        signature: &[u8],
    ) -> (out: Result<SenderCertificate, SignalProtocolError>)
        ensures
            match out {
                Ok(c) => Self::new_accepts(
                    sender_uuid@,
                    match sender_e164 {
                        Some(n) => Some(n@),
                        None => None,
                    },
                    key@,
                    sender_device_id,
                    expiration,
                    signer@,
                    signature@,
                ) && c@ == (SenderCertificateView {
                    sender_uuid: sender_uuid@,
                    sender_e164: match sender_e164 {
                        Some(n) => Some(n@),
                        None => None,
                    },
                    sender_device_id,
                    key: key@,
                    expiration,
                    signer: signer@,
                    signature: signature@,
                }),
                Err(e) => !Self::new_accepts(
                    sender_uuid@,
                    match sender_e164 {
                        Some(n) => Some(n@),
                        None => None,
                    },
                    key@,
                    sender_device_id,
                    expiration,
                    signer@,
                    signature@,
                ) && e == SignalProtocolError::InvalidArgument,
            },
    {
        let certificate = sender_certificate_bytes_to_sign(
            sender_uuid,
            sender_e164,
            &key,
            sender_device_id,
            expiration,
            &signer,
        );
        if signature.len() != CERTIFICATE_SIGNATURE_LENGTH || certificate.len() > 0xffff_ffff {
            return Err(SignalProtocolError::InvalidArgument);
        }
        let serialized = write_signed(certificate.as_slice(), signature);
        let number = match sender_e164 {
            Some(n) => Some(to_vec(n)),
            None => None,
        };
        proof {
            key.lemma_len();
        }
        Ok(
            SenderCertificate {
                sender_uuid: to_vec(sender_uuid),
                sender_e164: number,
                sender_device_id,
                key,
                expiration,
                signer,
                certificate,
                signature: to_vec(signature),
                serialized,
            },
        )
    }

    /// Reads a certificate from its wire form; `InvalidMessage` for bytes
    /// that are not the wire form of one.
    pub fn deserialize(data: &[u8]) -> (out: Result<SenderCertificate, SignalProtocolError>)
        ensures
            match out {
                Ok(c) => parse_sender_certificate(data@) == Some(c@) && sender_certificate_wire(
                    c@,
                ) == data@,
                Err(e) => parse_sender_certificate(data@) is None && e
                    == SignalProtocolError::InvalidMessage,
            },
    {
        assert(data@.skip(0) =~= data@);
        let (body, pos1) = match read_bytes_field(data, 0, 10) {
            Some(found) => found,
            None => {
                return Err(SignalProtocolError::InvalidMessage);
            },
        };
        let (signature, pos2) = match read_bytes_field(data, pos1, 18) {
            Some(found) => found,
            None => {
                return Err(SignalProtocolError::InvalidMessage);
            },
        };
        if pos2 != data.len() || signature.len() != CERTIFICATE_SIGNATURE_LENGTH {
            return Err(SignalProtocolError::InvalidMessage);
        }
        assert(body@.skip(0) =~= body@);
        let (sender_e164, q1) = match read_optional_bytes_field(body.as_slice(), 0, 10) {
            Some(found) => found,
            None => {
                return Err(SignalProtocolError::InvalidMessage);
            },
        };
        let (sender_device_id, q2) = match read_u32_field(body.as_slice(), q1, 16) {
            Some(found) => found,
            None => {
                return Err(SignalProtocolError::InvalidMessage);
            },
        };
        let (expiration, q3) = match read_fixed64_field(body.as_slice(), q2, 25) {
            Some(found) => found,
            None => {
                return Err(SignalProtocolError::InvalidMessage);
            },
        };
        let (encoded_key, q4) = match read_bytes_field(body.as_slice(), q3, 34) {
            Some(found) => found,
            None => {
                return Err(SignalProtocolError::InvalidMessage);
            },
        };
        let (signer_bytes, q5) = match read_bytes_field(body.as_slice(), q4, 42) {
            Some(found) => found,
            None => {
                return Err(SignalProtocolError::InvalidMessage);
            },
        };
        let (sender_uuid, q6) = match read_bytes_field(body.as_slice(), q5, 50) {
            Some(found) => found,
            None => {
                return Err(SignalProtocolError::InvalidMessage);
            },
        };
        let key = match PublicKey::deserialize(encoded_key.as_slice()) {
            Ok(k) => k,
            Err(_) => {
                return Err(SignalProtocolError::InvalidMessage);
            },
        };
        let signer = match ServerCertificate::deserialize(signer_bytes.as_slice()) {
            Ok(c) => c,
            Err(_) => {
                return Err(SignalProtocolError::InvalidMessage);
            },
        };
        if q6 != body.len() {
            return Err(SignalProtocolError::InvalidMessage);
        }
        proof {
            lemma_sender_certificate_parsed(data@);
            lemma_signed_parsed(data@);
        }
        Ok(
            SenderCertificate {
                sender_uuid,
                sender_e164,
                sender_device_id,
                key,
                expiration,
                signer,
                certificate: body,
                signature,
                serialized: to_vec(data),
            },
        )
    }

    /// The certificate of these values, signed with the server's private
    /// key and fresh randomness. `InvalidArgument` for a signed part of
    /// 4 GiB or more; otherwise `InvalidState` where the system's
    /// generator gave nothing.
    pub fn sign(
        sender_uuid: &[u8],
        sender_e164: Option<&[u8]>,
        key: PublicKey,
        sender_device_id: u32,
        expiration: u64,
        signer: ServerCertificate,
        signer_key: &PrivateKey,
    ) -> (out: Result<SenderCertificate, SignalProtocolError>)
        ensures
            match out {
                Ok(c) => c@.sender_uuid == sender_uuid@ && c@.sender_e164 == (match sender_e164 {
                    Some(n) => Some(n@),
                    None => None,
                }) && c@.sender_device_id == sender_device_id && c@.key == key@ && c@.expiration
                    == expiration && c@.signer == signer@ && exists|random: Seq<u8>|
                    random.len() == 64 && c@.signature == #[trigger] signature_of(
                        signer_key@,
                        sender_certificate_signed_part(c@),
                        random,
                    ),
                Err(e) => if sender_certificate_body(
                    match sender_e164 {
                        Some(n) => Some(n@),
                        None => None,
                    },
                    sender_device_id,
                    expiration,
                    key@,
                    server_certificate_wire(signer@),
                    sender_uuid@,
                ).len() > u32::MAX {
                    e == SignalProtocolError::InvalidArgument
                } else {
                    e == SignalProtocolError::InvalidState
                },
            },
    {
        let body = sender_certificate_bytes_to_sign(
            sender_uuid,
            sender_e164,
            &key,
            sender_device_id,
            expiration,
            &signer,
        );
        if body.len() > 0xffff_ffff {
            return Err(SignalProtocolError::InvalidArgument);
        }
        match calculate_signature(signer_key, body.as_slice()) {
            Ok(signature) => {
                let out = SenderCertificate::new(
                    sender_uuid,
                    sender_e164,
                    key,
                    sender_device_id,
                    expiration,
                    signer,
                    signature.as_slice(),
                );
                proof {
                    if out is Ok {
                        assert(sender_certificate_signed_part(out.unwrap()@) == body@);
                    }
                }
                out
            },
            Err(e) => Err(e),
        }
    }

    /// Validates the certificate at `time` under the trust root's key.
    /// `SignatureVerificationFailed` where the server's certificate does
    /// not verify under the trust root, this certificate does not verify
    /// under the server's key, or the certificate has expired; at the
    /// moment of expiry it has.
    pub fn validate(&self, trust_root: &PublicKey, time: u64) -> (out: Result<
        (),
        SignalProtocolError,
    >)
        ensures
            match out {
                Ok(_) => sender_certificate_valid(self@, trust_root@, time),
                Err(e) => e == SignalProtocolError::SignatureVerificationFailed
                    && !sender_certificate_valid(self@, trust_root@, time),
            },
    {
        proof {
            use_type_invariant(self);
        }
        let server_verified = self.signer.validate(trust_root);
        let sender_verified = match verify_signature(
            &self.signer.public_key(),
            self.certificate.as_slice(),
            self.signature.as_slice(),
        ) {
            Ok(valid) => valid,
            Err(_) => false,
        };
        self.validate_with(server_verified, sender_verified, time)
    }

    /// Decides whether the certificate holds at `time`, given whether the
    /// trust root's signature on the server certificate and the server's
    /// signature on this certificate verified.
    /// `SignatureVerificationFailed` where a signature did not verify or
    /// the certificate has expired.
    pub fn validate_with(
        &self,
        server_signature_verified: bool,
        sender_signature_verified: bool,
        time: u64,
    ) -> (out: Result<(), SignalProtocolError>)
        ensures
            match out {
                Ok(_) => certificate_holds(
                    server_signature_verified,
                    sender_signature_verified,
                    time,
                    self@.expiration,
                ),
                Err(e) => e == SignalProtocolError::SignatureVerificationFailed
                    && !certificate_holds(
                    server_signature_verified,
                    sender_signature_verified,
                    time,
                    self@.expiration,
                ),
            },
    {
        if server_signature_verified && sender_signature_verified && time < self.expiration {
            Ok(())
        } else {
            Err(SignalProtocolError::SignatureVerificationFailed)
        }
    }

    /// The server's certificate.
    pub fn signer(&self) -> (out: &ServerCertificate)
        ensures
            out@ == self@.signer,
    {
        &self.signer
    }

    /// The sender's key.
    pub fn key(&self) -> (out: PublicKey)
        ensures
            out@ == self@.key,
    {
        self.key
    }

    /// The sender's device id.
    pub fn sender_device_id(&self) -> (out: u32)
        ensures
            out == self@.sender_device_id,
    {
        self.sender_device_id
    }

    /// The time at which the certificate expires.
    pub fn expiration(&self) -> (out: u64)
        ensures
            out == self@.expiration,
    {
        self.expiration
    }

    /// The sender's account id.
    pub fn sender_uuid(&self) -> (out: &Vec<u8>)
        ensures
            out@ == self@.sender_uuid,
    {
        &self.sender_uuid
    }

    /// The sender's phone number, if the certificate names one.
    pub fn sender_e164(&self) -> (out: &Option<Vec<u8>>)
        ensures
            match (*out, self@.sender_e164) {
                (Some(a), Some(b)) => a@ == b,
                (None, None) => true,
                _ => false,
            },
    {
        &self.sender_e164
    }

    /// The bytes that the server signed.
    pub fn certificate(&self) -> (out: &Vec<u8>)
        ensures
            out@ == sender_certificate_signed_part(self@),
    {
        proof {
            use_type_invariant(self);
        }
        &self.certificate
    }

    /// The server's signature.
    pub fn signature(&self) -> (out: &Vec<u8>)
        ensures
            out@ == self@.signature,
    {
        &self.signature
    }

    /// The bytes of the certificate on the wire.
    pub fn serialized(&self) -> (out: &Vec<u8>)
        ensures
            out@ == sender_certificate_wire(self@),
            parse_sender_certificate(out@) == Some(self@),
            valid_sender_certificate(self@),
    {
        proof {
            use_type_invariant(self);
            lemma_sender_certificate_round_trip(self@);
        }
        &self.serialized
    }
}

} // verus!
