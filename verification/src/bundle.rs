use vstd::prelude::*;
use crate::bytes::to_vec;
use crate::curve::{
    decoded, encoded, lemma_decode_encode, lemma_encode_decode, KeyPair, PrivateKey, PublicKey,
};
use crate::wire::{
    bytes_field, fixed64_field, lemma_bytes_field_parsed, lemma_bytes_field_round_trip,
    lemma_fixed64_field_parsed, lemma_fixed64_field_round_trip, lemma_u32_field_parsed,
    lemma_u32_field_round_trip, parse_bytes_field, parse_fixed64_field, parse_u32_field,
    read_bytes_field, read_fixed64_field, read_u32_field, u32_field, write_bytes_field,
    write_fixed64_field, write_u32_field,
};
use crate::error::SignalProtocolError;

verus! {

/// What a peer publishes so that a session with it can be opened: its
/// ids, an optional one-time pre-key, its signed pre-key with the
/// signature over it, and its identity key.
#[derive(Debug, PartialEq, Eq)]
pub struct PreKeyBundle {
    pub registration_id: u32,
    pub device_id: u32,
    pub pre_key: Option<(u32, PublicKey)>,
    pub signed_pre_key_id: u32,
    pub signed_pre_key_public: PublicKey,
    pub signed_pre_key_signature: Vec<u8>,
    pub identity_key: PublicKey,
}

/// The one-time pre-key of a bundle, given its id and its key: both, or
/// neither. One without the other has no bundle.
pub open spec fn paired(prekey_id: Option<u32>, prekey: Option<PublicKey>) -> Option<
    Option<(u32, PublicKey)>,
> {
    match (prekey_id, prekey) {
        (None, None) => Some(None),
        (Some(id), Some(key)) => Some(Some((id, key))),
        _ => None,
    }
}

impl PreKeyBundle {
    /// The bundle of these values. `InvalidArgument` where the one-time
    /// pre-key comes without its id, or the id without the key.
    pub fn new(
        registration_id: u32,
        device_id: u32,
        prekey_id: Option<u32>,
        prekey: Option<PublicKey>,
        signed_prekey_id: u32,
        signed_prekey: PublicKey,
        signed_prekey_signature: &[u8],
        identity_key: PublicKey,
    ) -> (out: Result<PreKeyBundle, SignalProtocolError>)
        ensures
            match out {
                Ok(bundle) => paired(prekey_id, prekey) == Some(bundle.pre_key)
                    && bundle.registration_id == registration_id && bundle.device_id == device_id
                    && bundle.signed_pre_key_id == signed_prekey_id
                    && bundle.signed_pre_key_public == signed_prekey
                    && bundle.signed_pre_key_signature@ == signed_prekey_signature@
                    && bundle.identity_key == identity_key,
                Err(e) => paired(prekey_id, prekey) is None && e
                    == SignalProtocolError::InvalidArgument,
            },
    {
        let pre_key = match (prekey_id, prekey) {
            (None, None) => None,
            (Some(id), Some(key)) => Some((id, key)),
            _ => {
                return Err(SignalProtocolError::InvalidArgument);
            },
        };
        Ok(
            PreKeyBundle {
                registration_id,
                device_id,
                pre_key,
                signed_pre_key_id: signed_prekey_id,
                signed_pre_key_public: signed_prekey,
                signed_pre_key_signature: to_vec(signed_prekey_signature),
                identity_key,
            },
        )
    }

    /// The id of the one-time pre-key, if the bundle has one.
    pub fn pre_key_id(&self) -> (out: Option<u32>)
        ensures
            out == match self.pre_key {
                Some(pair) => Some(pair.0),
                None => None,
            },
    {
        match self.pre_key {
            Some(pair) => Some(pair.0),
            None => None,
        }
    }

    /// The one-time pre-key, if the bundle has one.
    pub fn pre_key_public(&self) -> (out: Option<PublicKey>)
        ensures
            out == match self.pre_key {
                Some(pair) => Some(pair.1),
                None => None,
            },
    {
        match self.pre_key {
            Some(pair) => Some(pair.1),
            None => None,
        }
    }
}

/// What a stored pre-key holds.
pub struct PreKeyRecordView {
    pub id: u32,
    pub public_key: Seq<u8>,
    pub private_key: Seq<u8>,
}

/// The bytes of a pre-key in storage: the id, the encoded public key and
/// the encoded private key.
pub open spec fn pre_key_record_wire(v: PreKeyRecordView) -> Seq<u8> {
    u32_field(8, v.id) + (bytes_field(18, encoded(v.public_key)) + bytes_field(
        26,
        encoded(v.private_key),
    ))
}

/// The pre-key that `data` is the stored form of, with what follows it.
pub open spec fn parse_pre_key_record_prefix(data: Seq<u8>) -> Option<(PreKeyRecordView, Seq<u8>)> {
    match parse_u32_field(8, data) {
        Some((id, r1)) => match parse_bytes_field(18, r1) {
            Some((first, r2)) => match parse_bytes_field(26, r2) {
                Some((second, r3)) => match (decoded(first), decoded(second)) {
                    (Some(public_key), Some(private_key)) => Some(
                        (PreKeyRecordView { id, public_key, private_key }, r3),
                    ),
                    _ => None,
                },
                None => None,
            },
            None => None,
        },
        None => None,
    }
}

/// The pre-key that `data` is the stored form of, if any.
pub open spec fn parse_pre_key_record(data: Seq<u8>) -> Option<PreKeyRecordView> {
    match parse_pre_key_record_prefix(data) {
        Some((v, rest)) => if rest.len() == 0 {
            Some(v)
        } else {
            None
        },
        None => None,
    }
}

/// A stored pre-key is read back, whatever follows it.
pub proof fn lemma_pre_key_record_prefix_round_trip(v: PreKeyRecordView, rest: Seq<u8>)
    requires
        v.public_key.len() == 32,
        v.private_key.len() == 32,
    ensures
        parse_pre_key_record_prefix(pre_key_record_wire(v) + rest) == Some((v, rest)),
{
    let f1 = u32_field(8, v.id);
    let f2 = bytes_field(18, encoded(v.public_key));
    let f3 = bytes_field(26, encoded(v.private_key));
    assert(pre_key_record_wire(v) + rest =~= f1 + (f2 + (f3 + rest)));
    lemma_u32_field_round_trip(8, v.id, f2 + (f3 + rest));
    lemma_bytes_field_round_trip(18, encoded(v.public_key), f3 + rest);
    lemma_bytes_field_round_trip(26, encoded(v.private_key), rest);
    lemma_decode_encode(v.public_key);
    lemma_decode_encode(v.private_key);
}

/// Reading the stored form of a pre-key gives the pre-key back.
pub proof fn lemma_pre_key_record_round_trip(v: PreKeyRecordView)
    requires
        v.public_key.len() == 32,
        v.private_key.len() == 32,
    ensures
        parse_pre_key_record(pre_key_record_wire(v)) == Some(v),
{
    let empty = Seq::<u8>::empty();
    assert(pre_key_record_wire(v) + empty =~= pre_key_record_wire(v));
    lemma_pre_key_record_prefix_round_trip(v, empty);
}

/// What reads as a stored pre-key is the stored form of that pre-key,
/// then what follows it.
pub proof fn lemma_pre_key_record_prefix_parsed(data: Seq<u8>)
    requires
        parse_pre_key_record_prefix(data) is Some,
    ensures
        pre_key_record_wire(parse_pre_key_record_prefix(data).unwrap().0)
            + parse_pre_key_record_prefix(data).unwrap().1 == data,
        parse_pre_key_record_prefix(data).unwrap().0.public_key.len() == 32,
        parse_pre_key_record_prefix(data).unwrap().0.private_key.len() == 32,
{
    let (v, rest) = parse_pre_key_record_prefix(data).unwrap();
    let (id, r1) = parse_u32_field(8, data).unwrap();
    let (first, r2) = parse_bytes_field(18, r1).unwrap();
    let (second, r3) = parse_bytes_field(26, r2).unwrap();
    lemma_u32_field_parsed(8, data);
    lemma_bytes_field_parsed(18, r1);
    lemma_bytes_field_parsed(26, r2);
    lemma_encode_decode(first);
    lemma_encode_decode(second);
    let f1 = u32_field(8, v.id);
    let f2 = bytes_field(18, encoded(v.public_key));
    let f3 = bytes_field(26, encoded(v.private_key));
    assert(data == f1 + (f2 + (f3 + rest)));
    assert(pre_key_record_wire(v) + rest =~= f1 + (f2 + (f3 + rest)));
}

/// What a stored signed pre-key holds.
pub struct SignedPreKeyRecordView {
    pub key: PreKeyRecordView,
    pub signature: Seq<u8>,
    pub timestamp: u64,
}

/// The bytes of a signed pre-key in storage: those of a pre-key, then the
/// signature and the time it was made.
pub open spec fn signed_pre_key_record_wire(v: SignedPreKeyRecordView) -> Seq<u8> {
    pre_key_record_wire(v.key) + (bytes_field(34, v.signature) + fixed64_field(41, v.timestamp))
}

/// The signed pre-key that `data` is the stored form of, if any.
pub open spec fn parse_signed_pre_key_record(data: Seq<u8>) -> Option<SignedPreKeyRecordView> {
    match parse_pre_key_record_prefix(data) {
        Some((key, r1)) => match parse_bytes_field(34, r1) {
            Some((signature, r2)) => match parse_fixed64_field(41, r2) {
                Some((timestamp, r3)) => if r3.len() == 0 {
                    Some(SignedPreKeyRecordView { key, signature, timestamp })
                } else {
                    None
                },
                None => None,
            },
            None => None,
        },
        None => None,
    }
}

/// Reading the stored form of a signed pre-key gives it back.
pub proof fn lemma_signed_pre_key_record_round_trip(v: SignedPreKeyRecordView)
    requires
        v.key.public_key.len() == 32,
        v.key.private_key.len() == 32,
        v.signature.len() <= u32::MAX,
    ensures
        parse_signed_pre_key_record(signed_pre_key_record_wire(v)) == Some(v),
{
    let empty = Seq::<u8>::empty();
    let f2 = fixed64_field(41, v.timestamp);
    assert(f2 + empty =~= f2);
    lemma_pre_key_record_prefix_round_trip(v.key, bytes_field(34, v.signature) + f2);
    lemma_bytes_field_round_trip(34, v.signature, f2);
    lemma_fixed64_field_round_trip(41, v.timestamp, empty);
}

/// What reads as a stored signed pre-key is the stored form of it.
pub proof fn lemma_signed_pre_key_record_parsed(data: Seq<u8>)
    requires
        parse_signed_pre_key_record(data) is Some,
    ensures
        signed_pre_key_record_wire(parse_signed_pre_key_record(data).unwrap()) == data,
{
    let (key, r1) = parse_pre_key_record_prefix(data).unwrap();
    let (signature, r2) = parse_bytes_field(34, r1).unwrap();
    let (timestamp, r3) = parse_fixed64_field(41, r2).unwrap();
    lemma_pre_key_record_prefix_parsed(data);
    lemma_bytes_field_parsed(34, r1);
    lemma_fixed64_field_parsed(41, r2);
    let f2 = fixed64_field(41, timestamp);
    assert(r3 =~= Seq::<u8>::empty());
    assert(f2 + r3 =~= f2);
}

fn write_pre_key_record(out: &mut Vec<u8>, id: u32, key_pair: &KeyPair)
    ensures
        final(out)@ == old(out)@ + pre_key_record_wire(
            PreKeyRecordView {
                id,
                public_key: key_pair.public_key@,
                private_key: key_pair.private_key@,
            },
        ),
{
    write_u32_field(out, 8, id);
    let public_key = key_pair.public_key.serialize();
    write_bytes_field(out, 18, public_key.as_slice());
    let private_key = key_pair.private_key.serialize();
    write_bytes_field(out, 26, private_key.as_slice());
    assert(out@ =~= old(out)@ + pre_key_record_wire(
        PreKeyRecordView {
            id,
            public_key: key_pair.public_key@,
            private_key: key_pair.private_key@,
        },
    ));
}

fn read_pre_key_record(data: &[u8]) -> (out: Option<(u32, KeyPair, usize)>)
    ensures
        match out {
            Some((id, key_pair, next)) => next <= data@.len() && parse_pre_key_record_prefix(
                data@,
            ) == Some(
                (
                    PreKeyRecordView {
                        id,
                        public_key: key_pair.public_key@,
                        private_key: key_pair.private_key@,
                    },
                    data@.skip(next as int),
                ),
            ),
            None => parse_pre_key_record_prefix(data@) is None,
        },
{
    assert(data@.skip(0) =~= data@);
    let (id, pos1) = match read_u32_field(data, 0, 8) {
        Some(found) => found,
        None => {
            return None;
        },
    };
    let (first, pos2) = match read_bytes_field(data, pos1, 18) {
        Some(found) => found,
        None => {
            return None;
        },
    };
    let (second, pos3) = match read_bytes_field(data, pos2, 26) {
        Some(found) => found,
        None => {
            return None;
        },
    };
    let public_key = match PublicKey::deserialize(first.as_slice()) {
        Ok(k) => k,
        Err(_) => {
            return None;
        },
    };
    let private_key = match PrivateKey::deserialize(second.as_slice()) {
        Ok(k) => k,
        Err(_) => {
            return None;
        },
    };
    Some((id, KeyPair::new(public_key, private_key), pos3))
}

/// A one-time pre-key: its id and its key pair.
#[derive(Clone, Copy, Debug, PartialEq, Eq)]
pub struct PreKeyRecord {
    pub id: u32,
    pub key_pair: KeyPair,
}

impl View for PreKeyRecord {
    type V = PreKeyRecordView;

    open spec fn view(&self) -> PreKeyRecordView {
        PreKeyRecordView {
            id: self.id,
            public_key: self.key_pair.public_key@,
            private_key: self.key_pair.private_key@,
        }
    }
}

impl PreKeyRecord {
    /// The record of the pre-key `id` with this key pair.
    pub fn new(id: u32, key_pair: KeyPair) -> (out: PreKeyRecord)
        ensures
            out.id == id,
            out.key_pair == key_pair,
    {
        PreKeyRecord { id, key_pair }
    }

    /// The bytes of the record in storage.
    pub fn serialize(&self) -> (out: Vec<u8>)
        ensures
            out@ == pre_key_record_wire(self@),
            parse_pre_key_record(out@) == Some(self@),
    {
        let mut out: Vec<u8> = Vec::new();
        write_pre_key_record(&mut out, self.id, &self.key_pair);
        proof {
            self.key_pair.public_key.lemma_len();
            self.key_pair.private_key.lemma_len();
            lemma_pre_key_record_round_trip(self@);
            assert(out@ =~= pre_key_record_wire(self@));
        }
        out
    }

    /// Reads a record from its stored form; `InvalidKey` for bytes that
    /// are not the stored form of one.
    pub fn deserialize(data: &[u8]) -> (out: Result<PreKeyRecord, SignalProtocolError>)
        ensures
            match out {
                Ok(record) => parse_pre_key_record(data@) == Some(record@),
                Err(e) => parse_pre_key_record(data@) is None && e
                    == SignalProtocolError::InvalidKey,
            },
    {
        match read_pre_key_record(data) {
            Some((id, key_pair, next)) => {
                if next != data.len() {
                    return Err(SignalProtocolError::InvalidKey);
                }
                Ok(PreKeyRecord { id, key_pair })
            },
            None => Err(SignalProtocolError::InvalidKey),
        }
    }
}

/// A signed pre-key: its id, the time it was made, its key pair, and the
/// identity key's signature over its public key.
#[derive(Debug, PartialEq, Eq)]
pub struct SignedPreKeyRecord {
    pub id: u32,
    pub timestamp: u64,
    pub key_pair: KeyPair,
    pub signature: Vec<u8>,
}

impl View for SignedPreKeyRecord {
    type V = SignedPreKeyRecordView;

    open spec fn view(&self) -> SignedPreKeyRecordView {
        SignedPreKeyRecordView {
            key: PreKeyRecordView {
                id: self.id,
                public_key: self.key_pair.public_key@,
                private_key: self.key_pair.private_key@,
            },
            signature: self.signature@,
            timestamp: self.timestamp,
        }
    }
}

impl SignedPreKeyRecord {
    /// The record of the signed pre-key `id` with these values.
    pub fn new(id: u32, timestamp: u64, key_pair: KeyPair, signature: &[u8]) -> (out:
        SignedPreKeyRecord)
        ensures
            out.id == id,
            out.timestamp == timestamp,
            out.key_pair == key_pair,
            out.signature@ == signature@,
    {
        SignedPreKeyRecord { id, timestamp, key_pair, signature: to_vec(signature) }
    }

    /// The bytes of the record in storage.
    pub fn serialize(&self) -> (out: Vec<u8>)
        ensures
            out@ == signed_pre_key_record_wire(self@),
            self.signature@.len() <= u32::MAX ==> parse_signed_pre_key_record(out@) == Some(
                self@,
            ),
    {
        let mut out: Vec<u8> = Vec::new();
        write_pre_key_record(&mut out, self.id, &self.key_pair);
        write_bytes_field(&mut out, 34, self.signature.as_slice());
        write_fixed64_field(&mut out, 41, self.timestamp);
        proof {
            self.key_pair.public_key.lemma_len();
            self.key_pair.private_key.lemma_len();
            assert(out@ =~= signed_pre_key_record_wire(self@));
            if self.signature@.len() <= u32::MAX {
                lemma_signed_pre_key_record_round_trip(self@);
            }
        }
        out
    }

    /// Reads a record from its stored form; `InvalidKey` for bytes that
    /// are not the stored form of one.
    pub fn deserialize(data: &[u8]) -> (out: Result<SignedPreKeyRecord, SignalProtocolError>)
        ensures
            match out {
                Ok(record) => parse_signed_pre_key_record(data@) == Some(record@),
                Err(e) => parse_signed_pre_key_record(data@) is None && e
                    == SignalProtocolError::InvalidKey,
            },
    {
        let (id, key_pair, pos1) = match read_pre_key_record(data) {
            Some(found) => found,
            None => {
                return Err(SignalProtocolError::InvalidKey);
            },
        };
        let (signature, pos2) = match read_bytes_field(data, pos1, 34) {
            Some(found) => found,
            None => {
                return Err(SignalProtocolError::InvalidKey);
            },
        };
        let (timestamp, pos3) = match read_fixed64_field(data, pos2, 41) {
            Some(found) => found,
            None => {
                return Err(SignalProtocolError::InvalidKey);
            },
        };
        if pos3 != data.len() {
            return Err(SignalProtocolError::InvalidKey);
        }
        Ok(SignedPreKeyRecord { id, timestamp, key_pair, signature })
    }
}

} // verus!
