use vstd::prelude::*;
use crate::bytes::append;
use crate::error::SignalProtocolError;
use hmac::Hmac;
use hmac::Mac;
use sha2::Sha256;

verus! {

/// Bytes in one output block of the hash.
pub const HASH_OUTPUT_SIZE: usize = 32;

/// The most bytes one derivation can give: 255 blocks.
pub const MAX_OUTPUT_LENGTH: usize = 8160;

/// HMAC-SHA256 of `data` under `key`.
pub uninterp spec fn hmac_sha256(key: Seq<u8>, data: Seq<u8>) -> Seq<u8>;

/// Calls `Hmac::<Sha256>::new_from_slice`, `update` and `finalize` of the
/// `hmac` crate. The contract names the tag; its 32 bytes are the digest
/// size of SHA-256. HMAC takes a key of any length, so the call cannot fail.
#[verifier::external_body]
pub(crate) fn hmac_sha256_digest(key: &[u8], data: &[u8]) -> (tag: [u8; 32])
    ensures
        tag@ == hmac_sha256(key@, data@),
{
    let mut mac = <Hmac<Sha256> as Mac>::new_from_slice(key).unwrap();
    mac.update(data);
    mac.finalize().into_bytes().into()
}

/// The counter offset that a protocol version derives with, if it has one.
pub open spec fn version_offset(version: u32) -> Option<u8> {
    if version == 2 {
        Some(0u8)
    } else if version == 3 {
        Some(1u8)
    } else {
        None
    }
}

/// Blocks needed for `len` bytes.
pub open spec fn blocks_for(len: nat) -> nat {
    (len + 31) / 32
}

/// A tag as one block of hash output: its 32 bytes. (A string of another
/// length is cut or filled with zeros to 32 bytes, so that every block has
/// the length of the hash output.)
pub open spec fn block_of(tag: Seq<u8>) -> Seq<u8> {
    Seq::new(
        32,
        |i: int|
            if i < tag.len() {
                tag[i]
            } else {
                0u8
            },
    )
}

/// Block `i` of the expansion: the tag over the block before it (none for
/// the first), the label and a one-byte counter.
pub open spec fn expand_block(prk: Seq<u8>, info: Seq<u8>, offset: u8, i: nat) -> Seq<u8>
    decreases i,
{
    let before = if i == 0 {
        Seq::<u8>::empty()
    } else {
        expand_block(prk, info, offset, (i - 1) as nat)
    };
    block_of(hmac_sha256(prk, before + info + seq![((i + offset) % 256) as u8]))
}

/// The first `n` blocks of the expansion, one after the other.
pub open spec fn expand_stream(prk: Seq<u8>, info: Seq<u8>, offset: u8, n: nat) -> Seq<u8>
    decreases n,
{
    if n == 0 {
        Seq::<u8>::empty()
    } else {
        expand_stream(prk, info, offset, (n - 1) as nat) + expand_block(
            prk,
            info,
            offset,
            (n - 1) as nat,
        )
    }
}

/// What a derivation yields: the first `len` bytes of the expansion under
/// the key extracted from `ikm` with `salt`.
pub open spec fn derived(offset: u8, ikm: Seq<u8>, salt: Seq<u8>, info: Seq<u8>, len: nat) -> Seq<u8> {
    expand_stream(hmac_sha256(salt, ikm), info, offset, blocks_for(len)).subrange(0, len as int)
}

/// The salt that stands in when the caller gives none: one block of zeros.
pub open spec fn default_salt() -> Seq<u8> {
    Seq::new(32, |i: int| 0u8)
}

/// Whether a derivation of `len` bytes is served.
pub open spec fn valid_output_length(len: nat) -> bool {
    1 <= len <= MAX_OUTPUT_LENGTH
}

/// The first `n` blocks have 32 bytes each.
pub proof fn lemma_expand_stream_len(prk: Seq<u8>, info: Seq<u8>, offset: u8, n: nat)
    ensures
        expand_stream(prk, info, offset, n).len() == 32 * n,
    decreases n,
{
    if n > 0 {
        lemma_expand_stream_len(prk, info, offset, (n - 1) as nat);
    }
}

/// Fewer blocks are the start of more blocks.
pub proof fn lemma_expand_stream_prefix(prk: Seq<u8>, info: Seq<u8>, offset: u8, a: nat, b: nat)
    requires
        a <= b,
    ensures
        expand_stream(prk, info, offset, a) == expand_stream(prk, info, offset, b).subrange(
            0,
            (32 * a) as int,
        ),
    decreases b,
{
    lemma_expand_stream_len(prk, info, offset, a);
    lemma_expand_stream_len(prk, info, offset, b);
    if a == b {
        assert(expand_stream(prk, info, offset, a) =~= expand_stream(
            prk,
            info,
            offset,
            b,
        ).subrange(0, (32 * a) as int));
    } else {
        lemma_expand_stream_prefix(prk, info, offset, a, (b - 1) as nat);
        lemma_expand_stream_len(prk, info, offset, (b - 1) as nat);
        assert(expand_stream(prk, info, offset, a) =~= expand_stream(
            prk,
            info,
            offset,
            b,
        ).subrange(0, (32 * a) as int));
    }
}

/// A derivation has the length asked for, and a shorter derivation from
/// the same inputs is the start of a longer one.
pub proof fn lemma_derived_prefix(
    offset: u8,
    ikm: Seq<u8>,
    salt: Seq<u8>,
    info: Seq<u8>,
    n: nat,
    m: nat,
)
    requires
        n <= m,
    ensures
        derived(offset, ikm, salt, info, n).len() == n,
        derived(offset, ikm, salt, info, m).len() == m,
        derived(offset, ikm, salt, info, n) == derived(offset, ikm, salt, info, m).subrange(
            0,
            n as int,
        ),
{
    let prk = hmac_sha256(salt, ikm);
    let few = blocks_for(n);
    let many = blocks_for(m);
    assert(few <= many);
    assert(n <= 32 * few);
    assert(m <= 32 * many);
    lemma_expand_stream_len(prk, info, offset, few);
    lemma_expand_stream_len(prk, info, offset, many);
    lemma_expand_stream_prefix(prk, info, offset, few, many);
    assert(derived(offset, ikm, salt, info, n) =~= derived(offset, ikm, salt, info, m).subrange(
        0,
        n as int,
    ));
}

/// Of two derivations that differ in the length alone, both served, the
/// shorter is the start of the longer.
pub proof fn lemma_derive_secrets_prefix(
    n: u32,
    m: u32,
    version: u32,
    ikm: Seq<u8>,
    label: Seq<u8>,
    salt: Option<Seq<u8>>,
)
    requires
        n <= m,
        derive_secrets_spec(n, version, ikm, label, salt) is Some,
        derive_secrets_spec(m, version, ikm, label, salt) is Some,
    ensures
        derive_secrets_spec(n, version, ikm, label, salt).unwrap().len() == n,
        derive_secrets_spec(m, version, ikm, label, salt).unwrap().len() == m,
        derive_secrets_spec(n, version, ikm, label, salt).unwrap() == derive_secrets_spec(
            m,
            version,
            ikm,
            label,
            salt,
        ).unwrap().subrange(0, n as int),
{
    let s = match salt {
        Some(s) => s,
        None => default_salt(),
    };
    lemma_derived_prefix(version_offset(version).unwrap(), ikm, s, label, n as nat, m as nat);
}

/// A key derivation function bound to one protocol version.
#[derive(Clone, Copy, Debug)]
pub struct Hkdf {
    iteration_start_offset: u8,
}

impl Hkdf {
    /// The counter offset of this version.
    pub closed spec fn offset(&self) -> u8 {
        self.iteration_start_offset
    }

    /// The function of protocol version 2 or 3; other versions are refused.
    pub fn new(version: u32) -> (out: Result<Hkdf, SignalProtocolError>)
        ensures
            match out {
                Ok(kdf) => version_offset(version) == Some(kdf.offset()),
                Err(e) => version_offset(version) is None && e
                    == SignalProtocolError::InvalidArgument,
            },
    {
        if version == 2 {
            Ok(Hkdf { iteration_start_offset: 0 })
        } else if version == 3 {
            Ok(Hkdf { iteration_start_offset: 1 })
        } else {
            Err(SignalProtocolError::InvalidArgument)
        }
    }

    /// The function of protocol version 3.
    pub fn version3() -> (out: Hkdf)
        ensures
            out.offset() == 1,
    {
        Hkdf { iteration_start_offset: 1 }
    }

    /// Expands `prk` into `len` bytes.
    fn expand(&self, prk: &[u8; 32], info: &[u8], len: usize) -> (out: Vec<u8>)
        requires
            valid_output_length(len as nat),
        ensures
            out@ == expand_stream(prk@, info@, self.offset(), blocks_for(len as nat)).subrange(
                0,
                len as int,
            ),
            out@.len() == len,
    {
        let blocks: usize = (len + 31) / 32;
        let mut out: Vec<u8> = Vec::new();
        let mut before: Vec<u8> = Vec::new();
        let mut i: usize = 0;
        while i < blocks
            invariant
                i <= blocks <= 255,
                out@ == expand_stream(prk@, info@, self.offset(), i as nat),
                out@.len() == 32 * i,
                before@ == if i == 0 {
                    Seq::<u8>::empty()
                } else {
                    expand_block(prk@, info@, self.offset(), (i - 1) as nat)
                },
            decreases blocks - i,
        {
            let counter: u8 = ((i + self.iteration_start_offset as usize) % 256) as u8;
            let mut input: Vec<u8> = Vec::new();
            append(&mut input, before.as_slice());
            append(&mut input, info);
            input.push(counter);
            assert(input@ =~= before@ + info@ + seq![((i + self.offset()) % 256) as u8]);
            let block = hmac_sha256_digest(prk.as_slice(), input.as_slice());
            assert(block@ =~= block_of(block@));
            assert(block@ == expand_block(prk@, info@, self.offset(), i as nat));
            append(&mut out, block.as_slice());
            before = Vec::new();
            append(&mut before, block.as_slice());
            assert(before@ =~= block@);
            i += 1;
        }
        out.truncate(len);
        out
    }

    /// Derives `len` bytes from `ikm` under `salt` and the label `info`.
    /// A length of zero, or one beyond 255 blocks, is refused.
    pub fn derive_salted_secrets(&self, ikm: &[u8], salt: &[u8], info: &[u8], len: usize) -> (out:
        Result<Vec<u8>, SignalProtocolError>)
        ensures
            match out {
                Ok(bytes) => valid_output_length(len as nat) && bytes@ == derived(
                    self.offset(),
                    ikm@,
                    salt@,
                    info@,
                    len as nat,
                ) && bytes@.len() == len,
                Err(e) => !valid_output_length(len as nat) && e
                    == SignalProtocolError::InvalidArgument,
            },
    {
        if len == 0 || len > MAX_OUTPUT_LENGTH {
            return Err(SignalProtocolError::InvalidArgument);
        }
        Ok(self.derive_exact(ikm, salt, info, len))
    }

    /// Derives `len` bytes, for a length that is served.
    pub(crate) fn derive_exact(&self, ikm: &[u8], salt: &[u8], info: &[u8], len: usize) -> (out:
        Vec<u8>)
        requires
            valid_output_length(len as nat),
        ensures
            out@ == derived(self.offset(), ikm@, salt@, info@, len as nat),
            out@.len() == len,
    {
        let prk = hmac_sha256_digest(salt, ikm);
        self.expand(&prk, info, len)
    }

    /// The salt that stands in when the caller gives none.
    pub(crate) fn zero_salt() -> (out: [u8; 32])
        ensures
            out@ == default_salt(),
    {
        let salt = [0u8; 32];
        assert(salt@ =~= default_salt());
        salt
    }

    /// Derives `len` bytes from `ikm` under the default salt.
    pub fn derive_secrets(&self, ikm: &[u8], info: &[u8], len: usize) -> (out: Result<
        Vec<u8>,
        SignalProtocolError,
    >)
        ensures
            match out {
                Ok(bytes) => valid_output_length(len as nat) && bytes@ == derived(
                    self.offset(),
                    ikm@,
                    default_salt(),
                    info@,
                    len as nat,
                ) && bytes@.len() == len,
                Err(e) => !valid_output_length(len as nat) && e
                    == SignalProtocolError::InvalidArgument,
            },
    {
        let salt = Hkdf::zero_salt();
        self.derive_salted_secrets(ikm, salt.as_slice(), info, len)
    }
}

/// What `derive_secrets` returns for these arguments: the derived bytes, or
/// nothing where the version or the length is refused.
pub open spec fn derive_secrets_spec(
    len: u32,
    version: u32,
    ikm: Seq<u8>,
    label: Seq<u8>,
    salt: Option<Seq<u8>>,
) -> Option<Seq<u8>> {
    match version_offset(version) {
        Some(offset) => if valid_output_length(len as nat) {
            Some(
                derived(
                    offset,
                    ikm,
                    match salt {
                        Some(s) => s,
                        None => default_salt(),
                    },
                    label,
                    len as nat,
                ),
            )
        } else {
            None
        },
        None => None,
    }
}

/// Derives `output_length` bytes for protocol version `version`, under
/// `salt` or, with none, the default salt.
pub fn derive_secrets(
    output_length: u32,
    version: u32,
    ikm: &[u8],
    label: &[u8],
    salt: Option<&[u8]>,
) -> (out: Result<Vec<u8>, SignalProtocolError>)
    ensures
        match out {
            Ok(bytes) => derive_secrets_spec(
                output_length,
                version,
                ikm@,
                label@,
                match salt {
                    Some(s) => Some(s@),
                    None => None,
                },
            ) == Some(bytes@) && bytes@.len() == output_length,
            Err(e) => e == SignalProtocolError::InvalidArgument && derive_secrets_spec(
                output_length,
                version,
                ikm@,
                label@,
                match salt {
                    Some(s) => Some(s@),
                    None => None,
                },
            ) is None,
        },
{
    let kdf = match Hkdf::new(version) {
        Ok(kdf) => kdf,
        Err(e) => {
            return Err(e);
        },
    };
    match salt {
        Some(salt) => kdf.derive_salted_secrets(ikm, salt, label, output_length as usize),
        None => kdf.derive_secrets(ikm, label, output_length as usize),
    }
}

/// Fills `output` with bytes derived under `salt`, keeping its length.
/// Where the version or the length is refused, `output` is left as it was.
pub fn derive_into(
    output: &mut Vec<u8>,
    version: u32,
    ikm: &[u8],
    label: &[u8],
    salt: &[u8],
) -> (out: Result<(), SignalProtocolError>)
    ensures
        match out {
            Ok(_) => match version_offset(version) {
                Some(offset) => valid_output_length(old(output)@.len()) && final(output)@
                    == derived(offset, ikm@, salt@, label@, old(output)@.len()),
                None => false,
            },
            Err(e) => e == SignalProtocolError::InvalidArgument && final(output)@ == old(output)@
                && (version_offset(version) is None || !valid_output_length(old(output)@.len())),
        },
{
    let kdf = match Hkdf::new(version) {
        Ok(kdf) => kdf,
        Err(e) => {
            return Err(e);
        },
    };
    match kdf.derive_salted_secrets(ikm, salt, label, output.len()) {
        Ok(bytes) => {
            *output = bytes;
            Ok(())
        },
        Err(e) => Err(e),
    }
}

} // verus!
