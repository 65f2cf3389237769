use vstd::prelude::*;
use crate::bytes::{append, slice_to_vec, to_vec};
use crate::error::SignalProtocolError;
use aes_gcm_siv::aead::{AeadInPlace, KeyInit};

verus! {

/// Bytes of a key.
pub const AEAD_KEY_LENGTH: usize = 32;

/// Bytes of a nonce.
pub const NONCE_LENGTH: usize = 12;

/// Bytes of the tag that follows a ciphertext.
pub const TAG_LENGTH: usize = 16;

/// What AES-256-GCM-SIV makes of a plaintext: the ciphertext and the tag,
/// or nothing where the cipher refuses the input.
pub uninterp spec fn gcm_siv_seal(key: Seq<u8>, nonce: Seq<u8>, aad: Seq<u8>, plaintext: Seq<u8>) -> Option<
    (Seq<u8>, Seq<u8>),
>;

/// What AES-256-GCM-SIV makes of a ciphertext and its tag: the plaintext,
/// or nothing where the tag does not fit.
pub uninterp spec fn gcm_siv_open(
    key: Seq<u8>,
    nonce: Seq<u8>,
    aad: Seq<u8>,
    ciphertext: Seq<u8>,
    tag: Seq<u8>,
) -> Option<Seq<u8>>;

/// Calls `encrypt_in_place_detached` of `aes_gcm_siv::Aes256GcmSiv` on a
/// cipher made from `key`. The buffer keeps its length; the contract names
/// what it then holds and the tag, and `None` stands for the cipher's
/// error, which it gives for inputs beyond its length limits.
#[verifier::external_body]
fn seal_in_place(key: &[u8; 32], nonce: &[u8; 12], aad: &[u8], buffer: &mut Vec<u8>) -> (tag:
    Option<[u8; 16]>)
    ensures
        final(buffer)@.len() == old(buffer)@.len(),
        match tag {
            Some(t) => gcm_siv_seal(key@, nonce@, aad@, old(buffer)@) == Some(
                (final(buffer)@, t@),
            ),
            None => gcm_siv_seal(key@, nonce@, aad@, old(buffer)@) is None,
        },
{
    let cipher = aes_gcm_siv::Aes256GcmSiv::new(aes_gcm_siv::Key::<aes_gcm_siv::Aes256GcmSiv>::from_slice(key));
    match cipher.encrypt_in_place_detached(aes_gcm_siv::Nonce::from_slice(nonce), aad, buffer.as_mut_slice()) {
        Ok(t) => Some(t.into()),
        Err(_) => None,
    }
}

/// Calls `decrypt_in_place_detached` of `aes_gcm_siv::Aes256GcmSiv` on a
/// cipher made from `key`. The buffer keeps its length; where the call
/// succeeds the contract names what the buffer then holds, and `false`
/// stands for the cipher's error.
#[verifier::external_body]
fn open_in_place(key: &[u8; 32], nonce: &[u8; 12], aad: &[u8], buffer: &mut Vec<u8>, tag: &[u8; 16]) -> (ok: bool)
    ensures
        final(buffer)@.len() == old(buffer)@.len(),
        ok ==> gcm_siv_open(key@, nonce@, aad@, old(buffer)@, tag@) == Some(final(buffer)@),
        !ok ==> gcm_siv_open(key@, nonce@, aad@, old(buffer)@, tag@) is None,
{
    let cipher = aes_gcm_siv::Aes256GcmSiv::new(aes_gcm_siv::Key::<aes_gcm_siv::Aes256GcmSiv>::from_slice(key));
    cipher.decrypt_in_place_detached(
        aes_gcm_siv::Nonce::from_slice(nonce),
        aad,
        buffer.as_mut_slice(),
        aes_gcm_siv::Tag::from_slice(tag),
    ).is_ok()
}

/// The ciphertext with its tag appended, as `encrypt` returns it.
pub open spec fn sealed(key: Seq<u8>, nonce: Seq<u8>, aad: Seq<u8>, plaintext: Seq<u8>) -> Option<
    Seq<u8>,
> {
    match gcm_siv_seal(key, nonce, aad, plaintext) {
        Some((ciphertext, tag)) => Some(ciphertext + tag),
        None => None,
    }
}

/// The plaintext of a ciphertext with its tag appended, as `decrypt`
/// returns it.
pub open spec fn opened(key: Seq<u8>, nonce: Seq<u8>, aad: Seq<u8>, data: Seq<u8>) -> Option<
    Seq<u8>,
> {
    if data.len() < TAG_LENGTH {
        None
    } else {
        gcm_siv_open(
            key,
            nonce,
            aad,
            data.subrange(0, data.len() - TAG_LENGTH),
            data.subrange(data.len() - TAG_LENGTH, data.len() as int),
        )
    }
}

fn nonce_of(src: &[u8]) -> (out: [u8; 12])
    requires
        src@.len() == NONCE_LENGTH,
    ensures
        out@ == src@,
{
    let mut out = [0u8; 12];
    let mut i: usize = 0;
    while i < 12
        invariant
            i <= 12,
            src@.len() == 12,
            forall|j: int| 0 <= j < i ==> out@[j] == src@[j],
        decreases 12 - i,
    {
        out[i] = src[i];
        i += 1;
    }
    assert(out@ =~= src@);
    out
}

fn tag_of(src: &[u8]) -> (out: [u8; 16])
    requires
        src@.len() >= TAG_LENGTH,
    ensures
        out@ == src@.subrange(src@.len() - TAG_LENGTH, src@.len() as int),
{
    let n: usize = src.len();
    let start: usize = n - TAG_LENGTH;
    let mut out = [0u8; 16];
    let mut i: usize = 0;
    while i < 16
        invariant
            i <= 16,
            start + 16 == n,
            n == src@.len(),
            forall|j: int| 0 <= j < i ==> out@[j] == src@[start + j],
        decreases 16 - i,
    {
        out[i] = src[start + i];
        i += 1;
    }
    assert(out@ =~= src@.subrange(src@.len() - TAG_LENGTH, src@.len() as int));
    out
}

/// The AES-256-GCM-SIV cipher under one key.
#[derive(Clone, Copy, Debug)]
pub struct Aes256GcmSiv {
    key: [u8; 32],
}

impl Aes256GcmSiv {
    /// The key of the cipher.
    pub closed spec fn key(&self) -> Seq<u8> {
        self.key@
    }

    /// The cipher under `key`; `InvalidKey` for a key that is not 32 bytes.
    pub fn new(key: &[u8]) -> (out: Result<Aes256GcmSiv, SignalProtocolError>)
        ensures
            match out {
                Ok(cipher) => key@.len() == AEAD_KEY_LENGTH && cipher.key() == key@,
                Err(e) => key@.len() != AEAD_KEY_LENGTH && e == SignalProtocolError::InvalidKey,
            },
    {
        if key.len() != AEAD_KEY_LENGTH {
            return Err(SignalProtocolError::InvalidKey);
        }
        let bytes = crate::bytes::array32_at(key, 0);
        assert(bytes@ =~= key@);
        Ok(Aes256GcmSiv { key: bytes })
    }

    /// The cipher under the 32 bytes `key`.
    pub fn from_key(key: [u8; 32]) -> (out: Aes256GcmSiv)
        ensures
            out.key() == key@,
    {
        Aes256GcmSiv { key }
    }

    /// Encrypts `ptext` and returns the ciphertext with the tag appended.
    /// `InvalidArgument` for a nonce that is not 12 bytes or an input that
    /// the cipher refuses.
    pub fn encrypt(&self, ptext: &[u8], nonce: &[u8], associated_data: &[u8]) -> (out: Result<
        Vec<u8>,
        SignalProtocolError,
    >)
        ensures
            match out {
                Ok(bytes) => nonce@.len() == NONCE_LENGTH && sealed(
                    self.key(),
                    nonce@,
                    associated_data@,
                    ptext@,
                ) == Some(bytes@) && bytes@.len() == ptext@.len() + TAG_LENGTH,
                Err(e) => e == SignalProtocolError::InvalidArgument && (nonce@.len()
                    != NONCE_LENGTH || sealed(self.key(), nonce@, associated_data@, ptext@)
                    is None),
            },
    {
        if nonce.len() != NONCE_LENGTH {
            return Err(SignalProtocolError::InvalidArgument);
        }
        let n = nonce_of(nonce);
        let mut buffer = to_vec(ptext);
        match seal_in_place(&self.key, &n, associated_data, &mut buffer) {
            Some(tag) => {
                append(&mut buffer, tag.as_slice());
                Ok(buffer)
            },
            None => Err(SignalProtocolError::InvalidArgument),
        }
    }

    /// Decrypts a ciphertext with its tag appended. `InvalidArgument` for
    /// a nonce that is not 12 bytes; `InvalidMessage` for bytes too short
    /// to hold a tag, or whose tag does not fit.
    pub fn decrypt(&self, ctext: &[u8], nonce: &[u8], associated_data: &[u8]) -> (out: Result<
        Vec<u8>,
        SignalProtocolError,
    >)
        ensures
            match out {
                Ok(bytes) => nonce@.len() == NONCE_LENGTH && opened(
                    self.key(),
                    nonce@,
                    associated_data@,
                    ctext@,
                ) == Some(bytes@) && bytes@.len() + TAG_LENGTH == ctext@.len(),
                Err(e) => if nonce@.len() != NONCE_LENGTH {
                    e == SignalProtocolError::InvalidArgument
                } else {
                    e == SignalProtocolError::InvalidMessage && opened(
                        self.key(),
                        nonce@,
                        associated_data@,
                        ctext@,
                    ) is None
                },
            },
    {
        if nonce.len() != NONCE_LENGTH {
            return Err(SignalProtocolError::InvalidArgument);
        }
        if ctext.len() < TAG_LENGTH {
            return Err(SignalProtocolError::InvalidMessage);
        }
        let n = nonce_of(nonce);
        let tag = tag_of(ctext);
        let mut buffer = slice_to_vec(ctext, 0, ctext.len() - TAG_LENGTH);
        if open_in_place(&self.key, &n, associated_data, &mut buffer, &tag) {
            Ok(buffer)
        } else {
            Err(SignalProtocolError::InvalidMessage)
        }
    }
}

} // verus!
