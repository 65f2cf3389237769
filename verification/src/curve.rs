use vstd::prelude::*;
use crate::bytes::{append, array32_at, compare};
use crate::error::SignalProtocolError;
use rand::RngCore;

verus! {

/// The type tag of a Curve25519 key.
pub const DJB_TYPE: u8 = 5;

/// Bytes of a key without its tag.
pub const KEY_LENGTH: usize = 32;

/// Bytes of an encoded key: the tag, then the key.
pub const ENCODED_KEY_LENGTH: usize = 33;

/// The X25519 function of a 32-byte scalar and a 32-byte point.
pub uninterp spec fn x25519(scalar: Seq<u8>, point: Seq<u8>) -> Seq<u8>;

/// The point that public keys are computed from: 9, then zeros.
pub open spec fn base_point() -> Seq<u8> {
    Seq::new(32, |i: int| if i == 0 { 9u8 } else { 0u8 })
}

/// The encoded form of key bytes: the type tag, then the key.
pub open spec fn encoded(key: Seq<u8>) -> Seq<u8> {
    seq![DJB_TYPE] + key
}

/// The key that `data` encodes, if it is the tag and 32 bytes.
pub open spec fn decoded(data: Seq<u8>) -> Option<Seq<u8>> {
    if data.len() == ENCODED_KEY_LENGTH && data[0] == DJB_TYPE {
        Some(data.subrange(1, ENCODED_KEY_LENGTH as int))
    } else {
        None
    }
}

/// Decoding an encoded key gives the key back.
pub proof fn lemma_decode_encode(key: Seq<u8>)
    requires
        key.len() == KEY_LENGTH,
    ensures
        decoded(encoded(key)) == Some(key),
{
    assert(encoded(key).subrange(1, ENCODED_KEY_LENGTH as int) =~= key);
}

/// Encoding what was decoded gives the bytes back.
pub proof fn lemma_encode_decode(data: Seq<u8>)
    requires
        decoded(data) is Some,
    ensures
        encoded(decoded(data).unwrap()) == data,
{
    assert(encoded(decoded(data).unwrap()) =~= data);
}

/// Calls `x25519_dalek::x25519`, the byte-oriented function of RFC 7748,
/// and names what it returns.
#[verifier::external_body]
fn x25519_raw(scalar: &[u8; 32], point: &[u8; 32]) -> (out: [u8; 32])
    ensures
        out@ == x25519(scalar@, point@),
{
    x25519_dalek::x25519(*scalar, *point)
}

/// Calls `try_fill_bytes` of `rand::rngs::OsRng` on 32 bytes. Nothing is
/// known of the bytes; `None` where the system's generator failed.
#[verifier::external_body]
pub(crate) fn random_bytes() -> (out: Option<[u8; 32]>) {
    let mut out = [0u8; 32];
    match rand::rngs::OsRng.try_fill_bytes(&mut out) {
        Ok(()) => Some(out),
        Err(_) => None,
    }
}

fn encode(key: &[u8; 32]) -> (out: Vec<u8>)
    ensures
        out@ == encoded(key@),
{
    let mut out: Vec<u8> = Vec::new();
    out.push(DJB_TYPE);
    append(&mut out, key.as_slice());
    assert(out@ =~= encoded(key@));
    out
}

fn decode(data: &[u8]) -> (out: Result<[u8; 32], SignalProtocolError>)
    ensures
        match out {
            Ok(key) => decoded(data@) == Some(key@),
            Err(e) => decoded(data@) is None && e == SignalProtocolError::InvalidKey,
        },
{
    if data.len() != ENCODED_KEY_LENGTH || data[0] != DJB_TYPE {
        return Err(SignalProtocolError::InvalidKey);
    }
    Ok(array32_at(data, 1))
}

/// A Curve25519 public key.
#[derive(Clone, Copy, Debug, PartialEq, Eq)]
pub struct PublicKey {
    key: [u8; 32],
}

impl View for PublicKey {
    type V = Seq<u8>;

    closed spec fn view(&self) -> Seq<u8> {
        self.key@
    }
}

impl PublicKey {
    /// A public key is 32 bytes.
    pub proof fn lemma_len(&self)
        ensures
            self@.len() == KEY_LENGTH,
    {
    }

    /// The key with these bytes.
    pub fn from_bytes(key: [u8; 32]) -> (out: PublicKey)
        ensures
            out@ == key@,
    {
        PublicKey { key }
    }

    /// Reads a key from its encoded form: the tag 5, then 32 bytes.
    pub fn deserialize(data: &[u8]) -> (out: Result<PublicKey, SignalProtocolError>)
        ensures
            match out {
                Ok(key) => decoded(data@) == Some(key@),
                Err(e) => decoded(data@) is None && e == SignalProtocolError::InvalidKey,
            },
    {
        match decode(data) {
            Ok(key) => Ok(PublicKey { key }),
            Err(e) => Err(e),
        }
    }

    /// Reads the encoded key that `data` holds from `offset` to its end:
    /// what `deserialize` gives on that tail. The bytes before `offset` are
    /// not looked at. `InvalidKey` for an offset beyond the data.
    pub fn deserialize_at(data: &[u8], offset: u32) -> (out: Result<
        PublicKey,
        SignalProtocolError,
    >)
        ensures
            match out {
                Ok(key) => offset <= data@.len() && decoded(
                    data@.subrange(offset as int, data@.len() as int),
                ) == Some(key@),
                Err(e) => e == SignalProtocolError::InvalidKey && (offset > data@.len() || decoded(
                    data@.subrange(offset as int, data@.len() as int),
                ) is None),
            },
    {
        let start: usize = offset as usize;
        if start > data.len() {
            return Err(SignalProtocolError::InvalidKey);
        }
        PublicKey::deserialize(vstd::slice::slice_subrange(data, start, data.len()))
    }

    /// The encoded form: the tag 5, then the key.
    pub fn serialize(&self) -> (out: Vec<u8>)
        ensures
            out@ == encoded(self@),
            decoded(out@) == Some(self@),
    {
        proof {
            lemma_decode_encode(self@);
        }
        encode(&self.key)
    }

    /// Whether the two keys hold the same bytes.
    pub fn equals(&self, other: &PublicKey) -> (same: bool)
        ensures
            same == (self@ == other@),
    {
        crate::bytes::equal(self.key.as_slice(), other.key.as_slice())
    }

    /// The key's 32 bytes, without the tag.
    pub fn public_key_bytes(&self) -> (out: [u8; 32])
        ensures
            out@ == self@,
    {
        self.key
    }

    /// Where this key stands against `other` in the order of public keys,
    /// the dictionary order of their bytes: -1 before, 0 equal, 1 after.
    pub fn compare(&self, other: &PublicKey) -> (order: i32)
        ensures
            order == crate::bytes::lex_order(self@, other@),
            order == 0 <==> self@ == other@,
    {
        proof {
            crate::bytes::lemma_lex_order_zero(self@, other@);
        }
        compare(self.key.as_slice(), other.key.as_slice())
    }
}

/// A Curve25519 private key.
#[derive(Clone, Copy, Debug, PartialEq, Eq)]
pub struct PrivateKey {
    key: [u8; 32],
}

impl View for PrivateKey {
    type V = Seq<u8>;

    closed spec fn view(&self) -> Seq<u8> {
        self.key@
    }
}

impl PrivateKey {
    /// A private key is 32 bytes.
    pub proof fn lemma_len(&self)
        ensures
            self@.len() == KEY_LENGTH,
    {
    }

    /// The key with these bytes.
    pub fn from_bytes(key: [u8; 32]) -> (out: PrivateKey)
        ensures
            out@ == key@,
    {
        PrivateKey { key }
    }

    /// Reads a key from its encoded form: the tag 5, then 32 bytes.
    pub fn deserialize(data: &[u8]) -> (out: Result<PrivateKey, SignalProtocolError>)
        ensures
            match out {
                Ok(key) => decoded(data@) == Some(key@),
                Err(e) => decoded(data@) is None && e == SignalProtocolError::InvalidKey,
            },
    {
        match decode(data) {
            Ok(key) => Ok(PrivateKey { key }),
            Err(e) => Err(e),
        }
    }

    /// The encoded form: the tag 5, then the key.
    pub fn serialize(&self) -> (out: Vec<u8>)
        ensures
            out@ == encoded(self@),
            decoded(out@) == Some(self@),
    {
        proof {
            lemma_decode_encode(self@);
        }
        encode(&self.key)
    }

    /// The key's 32 bytes, without the tag.
    pub fn key_bytes(&self) -> (out: [u8; 32])
        ensures
            out@ == self@,
    {
        self.key
    }

    /// The public key of this private key: X25519 of it and the base point.
    pub fn public_key(&self) -> (out: PublicKey)
        ensures
            out@ == x25519(self@, base_point()),
    {
        let mut base = [0u8; 32];
        base[0] = 9;
        assert(base@ =~= base_point());
        PublicKey { key: x25519_raw(&self.key, &base) }
    }

    /// The secret shared with the holder of `their_key`.
    pub fn calculate_agreement(&self, their_key: &PublicKey) -> (out: [u8; 32])
        ensures
            out@ == x25519(self@, their_key@),
    {
        x25519_raw(&self.key, &their_key.key)
    }
}

/// A private key with a public key.
#[derive(Clone, Copy, Debug, PartialEq, Eq)]
pub struct KeyPair {
    pub public_key: PublicKey,
    pub private_key: PrivateKey,
}

impl KeyPair {
    /// The pair of these two keys.
    pub fn new(public_key: PublicKey, private_key: PrivateKey) -> (out: KeyPair)
        ensures
            out.public_key == public_key,
            out.private_key == private_key,
    {
        KeyPair { public_key, private_key }
    }

    /// The pair of `private_key` and the public key that belongs to it.
    pub fn from_private(private_key: PrivateKey) -> (out: KeyPair)
        ensures
            out.private_key == private_key,
            out.public_key@ == x25519(private_key@, base_point()),
    {
        KeyPair { public_key: private_key.public_key(), private_key }
    }

    /// A fresh pair from the system's random generator; `InvalidState` where
    /// the generator gave nothing.
    pub fn generate() -> (out: Result<KeyPair, SignalProtocolError>)
        ensures
            match out {
                Ok(pair) => pair.public_key@ == x25519(pair.private_key@, base_point()),
                Err(e) => e == SignalProtocolError::InvalidState,
            },
    {
        match random_bytes() {
            Some(seed) => Ok(KeyPair::from_private(PrivateKey::from_bytes(seed))),
            None => Err(SignalProtocolError::InvalidState),
        }
    }
}

} // verus!
