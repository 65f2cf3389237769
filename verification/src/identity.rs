use vstd::prelude::*;
use crate::curve::{decoded, encoded, lemma_decode_encode, KeyPair, PrivateKey, PublicKey};
use crate::error::SignalProtocolError;
use crate::wire::{
    bytes_field,
    lemma_bytes_field_round_trip,
    parse_bytes_field,
    read_bytes_field,
    write_bytes_field,
};

verus! {

/// The bytes of an identity key pair in storage: the encoded public key,
/// then the encoded private key, each as a field.
pub open spec fn identity_key_pair_wire(public_key: Seq<u8>, private_key: Seq<u8>) -> Seq<u8> {
    bytes_field(10, encoded(public_key)) + bytes_field(18, encoded(private_key))
}

/// The two keys that `data` is the stored form of, if any.
pub open spec fn parse_identity_key_pair(data: Seq<u8>) -> Option<(Seq<u8>, Seq<u8>)> {
    match parse_bytes_field(10, data) {
        Some((first, r1)) => match parse_bytes_field(18, r1) {
            Some((second, r2)) => match (decoded(first), decoded(second)) {
                (Some(public_key), Some(private_key)) => if r2.len() == 0 {
                    Some((public_key, private_key))
                } else {
                    None
                },
                _ => None,
            },
            None => None,
        },
        None => None,
    }
}

/// Reading the stored form of a key pair gives the two keys back.
pub proof fn lemma_identity_key_pair_round_trip(public_key: Seq<u8>, private_key: Seq<u8>)
    requires
        public_key.len() == 32,
        private_key.len() == 32,
    ensures
        parse_identity_key_pair(identity_key_pair_wire(public_key, private_key)) == Some(
            (public_key, private_key),
        ),
{
    let empty = Seq::<u8>::empty();
    let f2 = bytes_field(18, encoded(private_key));
    assert(f2 + empty =~= f2);
    lemma_bytes_field_round_trip(10, encoded(public_key), f2);
    lemma_bytes_field_round_trip(18, encoded(private_key), empty);
    lemma_decode_encode(public_key);
    lemma_decode_encode(private_key);
}

/// The long-term key pair of an account.
#[derive(Clone, Copy, Debug, PartialEq, Eq)]
pub struct IdentityKeyPair {
    pub identity_key: PublicKey,
    pub private_key: PrivateKey,
}

impl IdentityKeyPair {
    /// The pair of these two keys.
    pub fn new(identity_key: PublicKey, private_key: PrivateKey) -> (out: IdentityKeyPair)
        ensures
            out.identity_key == identity_key,
            out.private_key == private_key,
    {
        IdentityKeyPair { identity_key, private_key }
    }

    /// The pair as a plain key pair.
    pub fn key_pair(&self) -> (out: KeyPair)
        ensures
            out.public_key == self.identity_key,
            out.private_key == self.private_key,
    {
        KeyPair::new(self.identity_key, self.private_key)
    }

    /// The bytes of the pair in storage.
    pub fn serialize(&self) -> (out: Vec<u8>)
        ensures
            out@ == identity_key_pair_wire(self.identity_key@, self.private_key@),
            parse_identity_key_pair(out@) == Some((self.identity_key@, self.private_key@)),
    {
        let mut out: Vec<u8> = Vec::new();
        let public_key = self.identity_key.serialize();
        let private_key = self.private_key.serialize();
        write_bytes_field(&mut out, 10, public_key.as_slice());
        write_bytes_field(&mut out, 18, private_key.as_slice());
        proof {
            self.identity_key.lemma_len();
            self.private_key.lemma_len();
            assert(out@ =~= identity_key_pair_wire(self.identity_key@, self.private_key@));
            lemma_identity_key_pair_round_trip(self.identity_key@, self.private_key@);
        }
        out
    }

    /// Reads a pair from its stored form; `InvalidKey` for bytes that are
    /// not the stored form of one.
    pub fn deserialize(data: &[u8]) -> (out: Result<IdentityKeyPair, SignalProtocolError>)
        ensures
            match out {
                Ok(pair) => parse_identity_key_pair(data@) == Some(
                    (pair.identity_key@, pair.private_key@),
                ),
                Err(e) => parse_identity_key_pair(data@) is None && e
                    == SignalProtocolError::InvalidKey,
            },
    {
        assert(data@.skip(0) =~= data@);
        let (first, pos1) = match read_bytes_field(data, 0, 10) {
            Some(found) => found,
            None => {
                return Err(SignalProtocolError::InvalidKey);
            },
        };
        let (second, pos2) = match read_bytes_field(data, pos1, 18) {
            Some(found) => found,
            None => {
                return Err(SignalProtocolError::InvalidKey);
            },
        };
        let identity_key = match PublicKey::deserialize(first.as_slice()) {
            Ok(k) => k,
            Err(e) => {
                return Err(e);
            },
        };
        let private_key = match PrivateKey::deserialize(second.as_slice()) {
            Ok(k) => k,
            Err(e) => {
                return Err(e);
            },
        };
        if pos2 != data.len() {
            return Err(SignalProtocolError::InvalidKey);
        }
        Ok(IdentityKeyPair { identity_key, private_key })
    }
}

} // verus!
