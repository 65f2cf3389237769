use vstd::prelude::*;
use crate::bytes::{append, array32_at, equal};
use crate::curve::{random_bytes, PrivateKey, PublicKey};
use crate::error::SignalProtocolError;
use crate::hash::{sha512, sha512_digest};
use curve25519_dalek::edwards::{CompressedEdwardsY, EdwardsPoint};
use curve25519_dalek::montgomery::MontgomeryPoint;
use curve25519_dalek::scalar::Scalar;

verus! {

/// Bytes of a signature.
pub const SIGNATURE_LENGTH: usize = 64;

/// The compressed Edwards form of the base point times a scalar, the
/// scalar taken modulo the group order.
pub uninterp spec fn edwards_base_mul(scalar: Seq<u8>) -> Seq<u8>;

/// The scalar of 32 bytes that 64 bytes reduce to modulo the group order.
pub uninterp spec fn scalar_reduce_wide(bytes: Seq<u8>) -> Seq<u8>;

/// The product of two scalars modulo the group order.
pub uninterp spec fn scalar_mul(a: Seq<u8>, b: Seq<u8>) -> Seq<u8>;

/// The sum of two scalars modulo the group order.
pub uninterp spec fn scalar_add(a: Seq<u8>, b: Seq<u8>) -> Seq<u8>;

/// The compressed Edwards point with the Montgomery coordinate `u` and
/// the sign `sign`, if `u` is on the curve.
pub uninterp spec fn montgomery_to_edwards(u: Seq<u8>, sign: bool) -> Option<Seq<u8>>;

/// The compressed Edwards form of `s` times the base point less `h` times
/// the point that `point` is the compressed form of, if it is one.
pub uninterp spec fn edwards_check_point(h: Seq<u8>, point: Seq<u8>, s: Seq<u8>) -> Option<Seq<u8>>;

/// Calls `EdwardsPoint::mul_base` of `curve25519_dalek` on the scalar that
/// `Scalar::from_bytes_mod_order` makes of the bytes, and compresses the
/// point. The contract names the 32 bytes.
#[verifier::external_body]
fn edwards_base_mul_raw(scalar: &[u8; 32]) -> (out: [u8; 32])
    ensures
        out@ == edwards_base_mul(scalar@),
{
    EdwardsPoint::mul_base(&Scalar::from_bytes_mod_order(*scalar)).compress().to_bytes()
}

/// Calls `Scalar::from_bytes_mod_order_wide` of `curve25519_dalek` and
/// names the scalar's 32 bytes.
#[verifier::external_body]
fn scalar_reduce_wide_raw(bytes: &[u8; 64]) -> (out: [u8; 32])
    ensures
        out@ == scalar_reduce_wide(bytes@),
{
    Scalar::from_bytes_mod_order_wide(bytes).to_bytes()
}

/// Multiplies two scalars of `curve25519_dalek`, each made with
/// `Scalar::from_bytes_mod_order`, and names the product's 32 bytes.
#[verifier::external_body]
fn scalar_mul_raw(a: &[u8; 32], b: &[u8; 32]) -> (out: [u8; 32])
    ensures
        out@ == scalar_mul(a@, b@),
{
    (Scalar::from_bytes_mod_order(*a) * Scalar::from_bytes_mod_order(*b)).to_bytes()
}

/// Adds two scalars of `curve25519_dalek`, each made with
/// `Scalar::from_bytes_mod_order`, and names the sum's 32 bytes.
#[verifier::external_body]
fn scalar_add_raw(a: &[u8; 32], b: &[u8; 32]) -> (out: [u8; 32])
    ensures
        out@ == scalar_add(a@, b@),
{
    (Scalar::from_bytes_mod_order(*a) + Scalar::from_bytes_mod_order(*b)).to_bytes()
}

/// Calls `MontgomeryPoint::to_edwards` of `curve25519_dalek` with the sign
/// 1 for `true` and 0 for `false`, and compresses the point. `None` is the
/// call's own `None`, for a coordinate that is not on the curve.
#[verifier::external_body]
fn montgomery_to_edwards_raw(u: &[u8; 32], sign: bool) -> (out: Option<[u8; 32]>)
    ensures
        match out {
            Some(point) => montgomery_to_edwards(u@, sign) == Some(point@),
            None => montgomery_to_edwards(u@, sign) is None,
        },
{
    match MontgomeryPoint(*u).to_edwards(u8::from(sign)) {
        Some(point) => Some(point.compress().to_bytes()),
        None => None,
    }
}

/// Decompresses `point` with `CompressedEdwardsY::decompress` and calls
/// `EdwardsPoint::vartime_double_scalar_mul_basepoint` of
/// `curve25519_dalek` on `h`, the negated point and `s`, the scalars made
/// with `Scalar::from_bytes_mod_order`. `None` where `point` does not
/// decompress.
#[verifier::external_body]
fn edwards_check_point_raw(h: &[u8; 32], point: &[u8; 32], s: &[u8; 32]) -> (out: Option<[u8; 32]>)
    ensures
        match out {
            Some(check) => edwards_check_point(h@, point@, s@) == Some(check@),
            None => edwards_check_point(h@, point@, s@) is None,
        },
{
    match CompressedEdwardsY(*point).decompress() {
        Some(a) => Some(
            EdwardsPoint::vartime_double_scalar_mul_basepoint(
                &Scalar::from_bytes_mod_order(*h),
                &-a,
                &Scalar::from_bytes_mod_order(*s),
            ).compress().to_bytes(),
        ),
        None => None,
    }
}

/// A private key as the scalar it stands for: the low three bits and the
/// top bit cleared, the bit below the top set.
pub open spec fn clamped(key: Seq<u8>) -> Seq<u8> {
    key.update(0, (key[0] - key[0] % 8) as u8).update(31, (key[31] % 64 + 64) as u8)
}

/// What the nonce of a signature is hashed after: 0xFE, then 31 bytes of
/// 0xFF.
pub open spec fn hash_prefix() -> Seq<u8> {
    Seq::new(32, |i: int| if i == 0 { 254u8 } else { 255u8 })
}

/// The signature that a private key gives a message with 64 bytes of
/// randomness: the commitment, then the response with the sign of the
/// key's Edwards form in its top bit.
pub open spec fn signature_of(private_key: Seq<u8>, message: Seq<u8>, random: Seq<u8>) -> Seq<u8> {
    let a = clamped(private_key);
    let public = edwards_base_mul(a);
    let r = scalar_reduce_wide(sha512(hash_prefix() + a + message + random));
    let commitment = edwards_base_mul(r);
    let h = scalar_reduce_wide(sha512(commitment + public + message));
    let s = scalar_add(scalar_mul(h, a), r);
    commitment + s.update(31, (s[31] % 128 + 128 * (public[31] / 128)) as u8)
}

/// Whether a signature of 64 bytes verifies for a message under a public
/// key: the key has an Edwards form with the sign in the signature's top
/// bit, the response is below 2^253, and the commitment is the one that
/// the response and the hash give.
pub open spec fn signature_verifies(public_key: Seq<u8>, message: Seq<u8>, signature: Seq<u8>) -> bool {
    let commitment = signature.subrange(0, 32);
    let s = signature.subrange(32, 64).update(31, (signature[63] % 128) as u8);
    match montgomery_to_edwards(public_key, signature[63] >= 128) {
        Some(point) => s[31] < 32 && edwards_check_point(
            scalar_reduce_wide(sha512(commitment + point + message)),
            point,
            s,
        ) == Some(commitment),
        None => false,
    }
}

fn clamp(key: &[u8; 32]) -> (out: [u8; 32])
    ensures
        out@ == clamped(key@),
{
    let mut out = *key;
    out[0] = key[0] - key[0] % 8;
    out[31] = key[31] % 64 + 64;
    assert(out@ =~= clamped(key@));
    out
}

fn hash_to_scalar(input: &Vec<u8>) -> (out: [u8; 32])
    ensures
        out@ == scalar_reduce_wide(sha512(input@)),
{
    let digest = sha512_digest(input.as_slice());
    scalar_reduce_wide_raw(&digest)
}

/// Signs `message` with `private_key` and the 64 bytes `random`.
pub fn calculate_signature_with(private_key: &PrivateKey, message: &[u8], random: &[u8; 64]) -> (out:
    [u8; 64])
    ensures
        out@ == signature_of(private_key@, message@, random@),
{
    let key_bytes = private_key.key_bytes();
    let a = clamp(&key_bytes);
    let public = edwards_base_mul_raw(&a);
    let mut first: Vec<u8> = Vec::new();
    let mut i: usize = 0;
    while i < 32
        invariant
            i <= 32,
            first@ == hash_prefix().subrange(0, i as int),
        decreases 32 - i,
    {
        first.push(if i == 0 { 254 } else { 255 });
        i += 1;
        assert(first@ =~= hash_prefix().subrange(0, i as int));
    }
    assert(first@ =~= hash_prefix());
    append(&mut first, a.as_slice());
    append(&mut first, message);
    append(&mut first, random.as_slice());
    let r = hash_to_scalar(&first);
    let commitment = edwards_base_mul_raw(&r);
    let mut second: Vec<u8> = Vec::new();
    append(&mut second, commitment.as_slice());
    append(&mut second, public.as_slice());
    append(&mut second, message);
    assert(second@ =~= commitment@ + public@ + message@);
    let h = hash_to_scalar(&second);
    let product = scalar_mul_raw(&h, &a);
    let mut s = scalar_add_raw(&product, &r);
    s[31] = s[31] % 128 + 128 * (public[31] / 128);
    let mut out = [0u8; 64];
    let mut j: usize = 0;
    while j < 32
        invariant
            j <= 32,
            forall|k: int| 0 <= k < j ==> out@[k] == commitment@[k] && out@[32 + k] == s@[k],
        decreases 32 - j,
    {
        out[j] = commitment[j];
        out[32 + j] = s[j];
        j += 1;
    }
    assert(out@ =~= commitment@ + s@);
    out
}

/// Sixty-four bytes from the system's random generator, if it gave them.
pub(crate) fn random_64() -> (out: Option<[u8; 64]>) {
    let first = match random_bytes() {
        Some(bytes) => bytes,
        None => {
            return None;
        },
    };
    let second = match random_bytes() {
        Some(bytes) => bytes,
        None => {
            return None;
        },
    };
    let mut random = [0u8; 64];
    let mut i: usize = 0;
    while i < 32
        invariant
            i <= 32,
        decreases 32 - i,
    {
        random[i] = first[i];
        random[32 + i] = second[i];
        i += 1;
    }
    Some(random)
}

/// Signs `message` with `private_key` and fresh randomness from the
/// system's generator; `InvalidState` where the generator gave nothing.
pub fn calculate_signature(private_key: &PrivateKey, message: &[u8]) -> (out: Result<
    [u8; 64],
    SignalProtocolError,
>)
    ensures
        match out {
            Ok(signature) => exists|random: Seq<u8>|
                random.len() == 64 && signature@ == #[trigger] signature_of(
                    private_key@,
                    message@,
                    random,
                ),
            Err(e) => e == SignalProtocolError::InvalidState,
        },
{
    let random = match random_64() {
        Some(bytes) => bytes,
        None => {
            return Err(SignalProtocolError::InvalidState);
        },
    };
    Ok(calculate_signature_with(private_key, message, &random))
}

/// Whether `signature` verifies for `message` under `public_key`. A
/// signature that does not fit is `false`, not an error; `InvalidArgument`
/// for one that is not 64 bytes.
pub fn verify_signature(public_key: &PublicKey, message: &[u8], signature: &[u8]) -> (out: Result<
    bool,
    SignalProtocolError,
>)
    ensures
        match out {
            Ok(valid) => signature@.len() == SIGNATURE_LENGTH && valid == signature_verifies(
                public_key@,
                message@,
                signature@,
            ),
            Err(e) => signature@.len() != SIGNATURE_LENGTH && e
                == SignalProtocolError::InvalidArgument,
        },
{
    if signature.len() != SIGNATURE_LENGTH {
        return Err(SignalProtocolError::InvalidArgument);
    }
    let commitment = array32_at(signature, 0);
    let mut s = array32_at(signature, 32);
    let top: u8 = signature[63];
    s[31] = top % 128;
    assert(s@ =~= signature@.subrange(32, 64).update(31, (signature@[63] % 128) as u8));
    let point = match montgomery_to_edwards_raw(&public_key.public_key_bytes(), top >= 128) {
        Some(point) => point,
        None => {
            return Ok(false);
        },
    };
    if s[31] >= 32 {
        return Ok(false);
    }
    let mut input: Vec<u8> = Vec::new();
    append(&mut input, commitment.as_slice());
    append(&mut input, point.as_slice());
    append(&mut input, message);
    assert(input@ =~= commitment@ + point@ + message@);
    let h = hash_to_scalar(&input);
    match edwards_check_point_raw(&h, &point, &s) {
        Some(check) => Ok(equal(check.as_slice(), commitment.as_slice())),
        None => Ok(false),
    }
}

} // verus!
