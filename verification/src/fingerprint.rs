use vstd::prelude::*;
use crate::bytes::{append, compare, equal, slice_to_vec};
use crate::curve::{encoded, PublicKey};
use crate::error::SignalProtocolError;
use crate::hash::{sha512, sha512_digest};
use crate::wire::{
    bytes_field,
    lemma_bytes_field_round_trip,
    lemma_u32_field_round_trip,
    parse_bytes_field,
    parse_u32_field,
    read_bytes_field,
    read_u32_field,
    u32_field,
    write_bytes_field,
    write_u32_field,
};

verus! {

/// The most rounds of hashing a fingerprint may ask for.
pub const MAX_ITERATIONS: u32 = 1000000;

/// Bytes of each party's hash that the scannable form holds.
pub const SCANNABLE_LENGTH: usize = 32;

/// The hash of one party after `rounds` rounds, `rounds` at least 1: the
/// first round hashes two zero bytes, the encoded key, the identifier and
/// the encoded key again; each later round hashes the hash before it and
/// the encoded key.
pub open spec fn party_hash(rounds: nat, identifier: Seq<u8>, key: Seq<u8>) -> Seq<u8>
    decreases rounds,
{
    if rounds <= 1 {
        sha512(seq![0u8, 0u8] + encoded(key) + identifier + encoded(key))
    } else {
        sha512(party_hash((rounds - 1) as nat, identifier, key) + encoded(key))
    }
}

/// The number that five bytes spell, most significant first.
pub open spec fn chunk_value(b: Seq<u8>, at: int) -> int {
    b[at] * 4294967296 + b[at + 1] * 16777216 + b[at + 2] * 65536 + b[at + 3] * 256 + b[at + 4]
}

/// The decimal digit of `n` at `place`, counted from the right, in ASCII.
pub open spec fn digit(n: int, place: int) -> u8 {
    let power: int = if place == 0 {
        1
    } else if place == 1 {
        10
    } else if place == 2 {
        100
    } else if place == 3 {
        1000
    } else {
        10000
    };
    (48 + (n / power) % 10) as u8
}

/// The five digits that five bytes of a hash show as: their number modulo
/// 100000, with leading zeros.
pub open spec fn chunk_digits(hash: Seq<u8>, at: int) -> Seq<u8> {
    let n = chunk_value(hash, at) % 100000;
    seq![digit(n, 4), digit(n, 3), digit(n, 2), digit(n, 1), digit(n, 0)]
}

/// The thirty digits that a party's hash shows as: six chunks of five
/// bytes, five digits each.
pub open spec fn party_digits(hash: Seq<u8>) -> Seq<u8> {
    chunk_digits(hash, 0) + chunk_digits(hash, 5) + chunk_digits(hash, 10) + chunk_digits(
        hash,
        15,
    ) + chunk_digits(hash, 20) + chunk_digits(hash, 25)
}

/// The sixty digits that two parties compare by eye: the thirty of each,
/// the smaller thirty first, so that both parties see the same digits.
pub open spec fn display_digits(local: Seq<u8>, remote: Seq<u8>) -> Seq<u8> {
    if crate::bytes::lex_order(party_digits(local), party_digits(remote)) <= 0 {
        party_digits(local) + party_digits(remote)
    } else {
        party_digits(remote) + party_digits(local)
    }
}

/// Whether every byte of a string is an ASCII decimal digit.
pub open spec fn all_digits(s: Seq<u8>) -> bool {
    forall|i: int| 0 <= i < s.len() ==> 48 <= #[trigger] s[i] <= 57
}

/// The digits of a party's hash are thirty ASCII decimal digits.
pub proof fn lemma_party_digits(hash: Seq<u8>)
    ensures
        party_digits(hash).len() == 30,
        all_digits(party_digits(hash)),
{
    let a = chunk_digits(hash, 0);
    let b = chunk_digits(hash, 5);
    let c = chunk_digits(hash, 10);
    let d = chunk_digits(hash, 15);
    let e = chunk_digits(hash, 20);
    let f = chunk_digits(hash, 25);
    lemma_chunk_digits(hash, 0);
    lemma_chunk_digits(hash, 5);
    lemma_chunk_digits(hash, 10);
    lemma_chunk_digits(hash, 15);
    lemma_chunk_digits(hash, 20);
    lemma_chunk_digits(hash, 25);
    lemma_all_digits_join(a, b);
    lemma_all_digits_join(a + b, c);
    lemma_all_digits_join(a + b + c, d);
    lemma_all_digits_join(a + b + c + d, e);
    lemma_all_digits_join(a + b + c + d + e, f);
}

proof fn lemma_chunk_digits(hash: Seq<u8>, at: int)
    ensures
        chunk_digits(hash, at).len() == 5,
        all_digits(chunk_digits(hash, at)),
{
}

proof fn lemma_all_digits_join(a: Seq<u8>, b: Seq<u8>)
    requires
        all_digits(a),
        all_digits(b),
    ensures
        all_digits(a + b),
        (a + b).len() == a.len() + b.len(),
{
    assert forall|i: int| 0 <= i < (a + b).len() implies 48 <= #[trigger] (a + b)[i] <= 57 by {
        if i < a.len() {
            assert((a + b)[i] == a[i]);
        } else {
            assert((a + b)[i] == b[i - a.len()]);
        }
    }
}

/// What two parties compare by eye is sixty ASCII decimal digits.
pub proof fn lemma_display_digits(local: Seq<u8>, remote: Seq<u8>)
    ensures
        display_digits(local, remote).len() == 60,
        all_digits(display_digits(local, remote)),
{
    lemma_party_digits(local);
    lemma_party_digits(remote);
    lemma_all_digits_join(party_digits(local), party_digits(remote));
    lemma_all_digits_join(party_digits(remote), party_digits(local));
}

/// What the scannable form of a fingerprint holds.
pub struct ScannableView {
    pub version: u32,
    pub local: Seq<u8>,
    pub remote: Seq<u8>,
}

/// The bytes of a scannable fingerprint on the wire.
pub open spec fn scannable_wire(v: ScannableView) -> Seq<u8> {
    u32_field(8, v.version) + bytes_field(18, bytes_field(10, v.local)) + bytes_field(
        26,
        bytes_field(10, v.remote),
    )
}

/// The scannable fingerprint that `data` is the wire form of, if any.
pub open spec fn parse_scannable(data: Seq<u8>) -> Option<ScannableView> {
    match parse_u32_field(8, data) {
        Some((version, r1)) => match parse_bytes_field(18, r1) {
            Some((first, r2)) => match parse_bytes_field(26, r2) {
                Some((second, r3)) => match (
                    parse_bytes_field(10, first),
                    parse_bytes_field(10, second),
                ) {
                    (Some((local, e1)), Some((remote, e2))) => if r3.len() == 0 && e1.len() == 0
                        && e2.len() == 0 && local.len() == SCANNABLE_LENGTH && remote.len()
                        == SCANNABLE_LENGTH {
                        Some(ScannableView { version, local, remote })
                    } else {
                        None
                    },
                    _ => None,
                },
                None => None,
            },
            None => None,
        },
        None => None,
    }
}

/// Whether the fingerprint `mine` and the fingerprint `theirs`, which the
/// other party computed, speak of the same two keys: the versions are the
/// same, and what each calls local the other calls remote.
pub open spec fn fingerprints_match(mine: ScannableView, theirs: ScannableView) -> bool {
    mine.version == theirs.version && mine.local == theirs.remote && mine.remote == theirs.local
}

/// Which of two parties compares makes no difference.
pub proof fn lemma_match_symmetric(a: ScannableView, b: ScannableView)
    ensures
        fingerprints_match(a, b) == fingerprints_match(b, a),
{
}

/// The fingerprints that two parties compute of each other match, and a
/// fingerprint in which either hash differs matches neither.
pub proof fn lemma_match_of_swapped(version: u32, a: Seq<u8>, b: Seq<u8>, other: ScannableView)
    ensures
        fingerprints_match(
            ScannableView { version, local: a, remote: b },
            ScannableView { version, local: b, remote: a },
        ),
        fingerprints_match(
            ScannableView { version, local: b, remote: a },
            ScannableView { version, local: a, remote: b },
        ),
        other.local != b || other.remote != a ==> !fingerprints_match(
            ScannableView { version, local: a, remote: b },
            other,
        ),
{
}

/// The scannable forms that two parties compute of each other, each with
/// the other's hash as its remote one, are read back from the wire and
/// match in both directions.
pub proof fn lemma_swapped_forms_compare(version: u32, a: Seq<u8>, b: Seq<u8>)
    requires
        a.len() == SCANNABLE_LENGTH,
        b.len() == SCANNABLE_LENGTH,
    ensures
        ({
            let mine = ScannableView { version, local: a, remote: b };
            let theirs = ScannableView { version, local: b, remote: a };
            &&& parse_scannable(scannable_wire(mine)) == Some(mine)
            &&& parse_scannable(scannable_wire(theirs)) == Some(theirs)
            &&& fingerprints_match(mine, parse_scannable(scannable_wire(theirs)).unwrap())
            &&& fingerprints_match(theirs, parse_scannable(scannable_wire(mine)).unwrap())
        }),
{
    lemma_scannable_round_trip(ScannableView { version, local: a, remote: b });
    lemma_scannable_round_trip(ScannableView { version, local: b, remote: a });
}

/// Reading the wire form of a scannable fingerprint gives it back.
pub proof fn lemma_scannable_round_trip(v: ScannableView)
    requires
        v.local.len() == SCANNABLE_LENGTH,
        v.remote.len() == SCANNABLE_LENGTH,
    ensures
        parse_scannable(scannable_wire(v)) == Some(v),
{
    let empty = Seq::<u8>::empty();
    let f1 = u32_field(8, v.version);
    let inner1 = bytes_field(10, v.local);
    let inner2 = bytes_field(10, v.remote);
    let f2 = bytes_field(18, inner1);
    let f3 = bytes_field(26, inner2);
    assert(scannable_wire(v) =~= f1 + (f2 + f3));
    assert(f3 + empty =~= f3);
    assert(inner1 + empty =~= inner1);
    assert(inner2 + empty =~= inner2);
    lemma_varint_short(v.local.len());
    lemma_varint_short(v.remote.len());
    lemma_u32_field_round_trip(8, v.version, f2 + f3);
    lemma_bytes_field_round_trip(18, inner1, f3);
    lemma_bytes_field_round_trip(26, inner2, empty);
    lemma_bytes_field_round_trip(10, v.local, empty);
    lemma_bytes_field_round_trip(10, v.remote, empty);
}

/// The length of a number below 128 is written in one byte.
proof fn lemma_varint_short(n: nat)
    requires
        n < 128,
    ensures
        crate::wire::varint(n).len() == 1,
{
}

/// The hash of one party after `iterations` rounds.
fn compute_party_hash(iterations: u32, identifier: &[u8], key: &PublicKey) -> (out: [u8; 64])
    requires
        iterations >= 1,
    ensures
        out@ == party_hash(iterations as nat, identifier@, key@),
{
    let key_bytes = key.serialize();
    let mut input: Vec<u8> = Vec::new();
    input.push(0);
    input.push(0);
    append(&mut input, key_bytes.as_slice());
    append(&mut input, identifier);
    append(&mut input, key_bytes.as_slice());
    assert(input@ =~= seq![0u8, 0u8] + encoded(key@) + identifier@ + encoded(key@));
    let mut hash = sha512_digest(input.as_slice());
    let mut round: u32 = 1;
    while round < iterations
        invariant
            1 <= round <= iterations,
            key_bytes@ == encoded(key@),
            hash@ == party_hash(round as nat, identifier@, key@),
        decreases iterations - round,
    {
        let mut next: Vec<u8> = Vec::new();
        append(&mut next, hash.as_slice());
        append(&mut next, key_bytes.as_slice());
        assert(next@ =~= hash@ + encoded(key@));
        hash = sha512_digest(next.as_slice());
        round += 1;
    }
    hash
}

/// Appends the five digits of the five bytes of `hash` at `at`.
fn write_chunk(out: &mut Vec<u8>, hash: &[u8; 64], at: usize)
    requires
        at + 5 <= 64,
    ensures
        final(out)@ == old(out)@ + chunk_digits(hash@, at as int),
{
    let value: u64 = (hash[at] as u64) * 4294967296 + (hash[at + 1] as u64) * 16777216 + (hash[at
        + 2] as u64) * 65536 + (hash[at + 3] as u64) * 256 + (hash[at + 4] as u64);
    let n: u64 = value % 100000;
    out.push((48 + (n / 10000) % 10) as u8);
    out.push((48 + (n / 1000) % 10) as u8);
    out.push((48 + (n / 100) % 10) as u8);
    out.push((48 + (n / 10) % 10) as u8);
    out.push((48 + n % 10) as u8);
    assert(out@ =~= old(out)@ + chunk_digits(hash@, at as int));
}

/// The thirty digits of a party's hash.
fn write_party_digits(hash: &[u8; 64]) -> (out: Vec<u8>)
    ensures
        out@ == party_digits(hash@),
{
    let mut out: Vec<u8> = Vec::new();
    write_chunk(&mut out, hash, 0);
    write_chunk(&mut out, hash, 5);
    write_chunk(&mut out, hash, 10);
    write_chunk(&mut out, hash, 15);
    write_chunk(&mut out, hash, 20);
    write_chunk(&mut out, hash, 25);
    assert(out@ =~= party_digits(hash@));
    out
}

/// The scannable form of a fingerprint: the version and the first 32
/// bytes of each party's hash.
#[derive(Clone, Debug, PartialEq, Eq)]
pub struct ScannableFingerprint {
    pub version: u32,
    pub local_fingerprint: Vec<u8>,
    pub remote_fingerprint: Vec<u8>,
}

impl View for ScannableFingerprint {
    type V = ScannableView;

    open spec fn view(&self) -> ScannableView {
        ScannableView {
            version: self.version,
            local: self.local_fingerprint@,
            remote: self.remote_fingerprint@,
        }
    }
}

impl ScannableFingerprint {
    /// The bytes of the fingerprint on the wire.
    pub fn serialize(&self) -> (out: Vec<u8>)
        ensures
            out@ == scannable_wire(self@),
            self@.local.len() == SCANNABLE_LENGTH && self@.remote.len() == SCANNABLE_LENGTH
                ==> parse_scannable(out@) == Some(self@),
    {
        proof {
            if self@.local.len() == SCANNABLE_LENGTH && self@.remote.len() == SCANNABLE_LENGTH {
                lemma_scannable_round_trip(self@);
            }
        }
        let mut out: Vec<u8> = Vec::new();
        write_u32_field(&mut out, 8, self.version);
        let mut inner: Vec<u8> = Vec::new();
        write_bytes_field(&mut inner, 10, self.local_fingerprint.as_slice());
        write_bytes_field(&mut out, 18, inner.as_slice());
        let mut second: Vec<u8> = Vec::new();
        write_bytes_field(&mut second, 10, self.remote_fingerprint.as_slice());
        write_bytes_field(&mut out, 26, second.as_slice());
        assert(inner@ =~= bytes_field(10, self.local_fingerprint@));
        assert(second@ =~= bytes_field(10, self.remote_fingerprint@));
        assert(out@ =~= scannable_wire(self@));
        out
    }

    /// Reads a fingerprint from its wire form; `InvalidMessage` for bytes
    /// that are not the wire form of one.
    pub fn deserialize(data: &[u8]) -> (out: Result<ScannableFingerprint, SignalProtocolError>)
        ensures
            match out {
                Ok(f) => parse_scannable(data@) == Some(f@),
                Err(e) => parse_scannable(data@) is None && e
                    == SignalProtocolError::InvalidMessage,
            },
    {
        assert(data@.skip(0) =~= data@);
        let (version, pos1) = match read_u32_field(data, 0, 8) {
            Some(found) => found,
            None => {
                return Err(SignalProtocolError::InvalidMessage);
            },
        };
        let (first, pos2) = match read_bytes_field(data, pos1, 18) {
            Some(found) => found,
            None => {
                return Err(SignalProtocolError::InvalidMessage);
            },
        };
        let (second, pos3) = match read_bytes_field(data, pos2, 26) {
            Some(found) => found,
            None => {
                return Err(SignalProtocolError::InvalidMessage);
            },
        };
        assert(first@.skip(0) =~= first@);
        assert(second@.skip(0) =~= second@);
        let (local, e1) = match read_bytes_field(first.as_slice(), 0, 10) {
            Some(found) => found,
            None => {
                return Err(SignalProtocolError::InvalidMessage);
            },
        };
        let (remote, e2) = match read_bytes_field(second.as_slice(), 0, 10) {
            Some(found) => found,
            None => {
                return Err(SignalProtocolError::InvalidMessage);
            },
        };
        if pos3 != data.len() || e1 != first.len() || e2 != second.len() || local.len()
            != SCANNABLE_LENGTH || remote.len() != SCANNABLE_LENGTH {
            return Err(SignalProtocolError::InvalidMessage);
        }
        Ok(ScannableFingerprint { version, local_fingerprint: local, remote_fingerprint: remote })
    }

    /// Whether this fingerprint and the one in `combined`, which the other
    /// party computed, speak of the same two keys. `InvalidMessage` for
    /// bytes that are not a fingerprint; `InvalidArgument` for one of
    /// another version.
    pub fn compare(&self, combined: &[u8]) -> (out: Result<bool, SignalProtocolError>)
        ensures
            match parse_scannable(combined@) {
                Some(theirs) => if theirs.version == self@.version {
                    out == Ok::<bool, SignalProtocolError>(fingerprints_match(self@, theirs))
                } else {
                    out == Err::<bool, SignalProtocolError>(SignalProtocolError::InvalidArgument)
                },
                None => out == Err::<bool, SignalProtocolError>(
                    SignalProtocolError::InvalidMessage,
                ),
            },
    {
        let theirs = match ScannableFingerprint::deserialize(combined) {
            Ok(f) => f,
            Err(e) => {
                return Err(e);
            },
        };
        if theirs.version != self.version {
            return Err(SignalProtocolError::InvalidArgument);
        }
        let first = equal(self.local_fingerprint.as_slice(), theirs.remote_fingerprint.as_slice());
        let second = equal(self.remote_fingerprint.as_slice(), theirs.local_fingerprint.as_slice());
        Ok(first && second)
    }
}

/// A safety number: sixty digits to compare by eye, and a scannable form.
#[derive(Clone, Debug, PartialEq, Eq)]
pub struct Fingerprint {
    pub display: Vec<u8>,
    pub scannable: ScannableFingerprint,
}

impl Fingerprint {
    /// The fingerprint of two parties after `iterations` rounds of
    /// hashing. `InvalidArgument` for no rounds or more than a million.
    pub fn new(
        version: u32,
        iterations: u32,
        local_identifier: &[u8],
        local_key: &PublicKey,
        remote_identifier: &[u8],
        remote_key: &PublicKey,
    ) -> (out: Result<Fingerprint, SignalProtocolError>)
        ensures
            match out {
                Ok(f) => {
                    let local = party_hash(iterations as nat, local_identifier@, local_key@);
                    let remote = party_hash(iterations as nat, remote_identifier@, remote_key@);
                    &&& 1 <= iterations <= MAX_ITERATIONS
                    &&& f.display@ == display_digits(local, remote)
                    &&& f.display@.len() == 60
                    &&& all_digits(f.display@)
                    &&& f.scannable@ == (ScannableView {
                        version,
                        local: local.subrange(0, SCANNABLE_LENGTH as int),
                        remote: remote.subrange(0, SCANNABLE_LENGTH as int),
                    })
                    &&& f.scannable@.local.len() == SCANNABLE_LENGTH
                    &&& f.scannable@.remote.len() == SCANNABLE_LENGTH
                    &&& parse_scannable(scannable_wire(f.scannable@)) == Some(f.scannable@)
                },
                Err(e) => e == SignalProtocolError::InvalidArgument && !(1 <= iterations
                    <= MAX_ITERATIONS),
            },
    {
        if iterations == 0 || iterations > MAX_ITERATIONS {
            return Err(SignalProtocolError::InvalidArgument);
        }
        let local = compute_party_hash(iterations, local_identifier, local_key);
        let remote = compute_party_hash(iterations, remote_identifier, remote_key);
        let local_digits = write_party_digits(&local);
        let remote_digits = write_party_digits(&remote);
        let mut display: Vec<u8> = Vec::new();
        if compare(local_digits.as_slice(), remote_digits.as_slice()) <= 0 {
            append(&mut display, local_digits.as_slice());
            append(&mut display, remote_digits.as_slice());
        } else {
            append(&mut display, remote_digits.as_slice());
            append(&mut display, local_digits.as_slice());
        }
        assert(display@ =~= display_digits(local@, remote@));
        let local_fingerprint = slice_to_vec(local.as_slice(), 0, SCANNABLE_LENGTH);
        let remote_fingerprint = slice_to_vec(remote.as_slice(), 0, SCANNABLE_LENGTH);
        proof {
            lemma_display_digits(local@, remote@);
            lemma_scannable_round_trip(
                ScannableView { version, local: local_fingerprint@, remote: remote_fingerprint@ },
            );
        }
        Ok(
            Fingerprint {
                display,
                scannable: ScannableFingerprint { version, local_fingerprint, remote_fingerprint },
            },
        )
    }

    /// The fingerprint of two parties whose keys come in encoded form.
    /// `InvalidKey` for bytes that are not an encoded key.
    pub fn from_encoded_keys(
        version: u32,
        iterations: u32,
        local_identifier: &[u8],
        local_key: &[u8],
        remote_identifier: &[u8],
        remote_key: &[u8],
    ) -> (out: Result<Fingerprint, SignalProtocolError>)
        ensures
            match out {
                Ok(f) => {
                    let local_bytes = crate::curve::decoded(local_key@);
                    let remote_bytes = crate::curve::decoded(remote_key@);
                    let local = party_hash(
                        iterations as nat,
                        local_identifier@,
                        local_bytes.unwrap(),
                    );
                    let remote = party_hash(
                        iterations as nat,
                        remote_identifier@,
                        remote_bytes.unwrap(),
                    );
                    &&& local_bytes is Some
                    &&& remote_bytes is Some
                    &&& 1 <= iterations <= MAX_ITERATIONS
                    &&& f.display@ == display_digits(local, remote)
                    &&& f.display@.len() == 60
                    &&& all_digits(f.display@)
                    &&& f.scannable@ == (ScannableView {
                        version,
                        local: local.subrange(0, SCANNABLE_LENGTH as int),
                        remote: remote.subrange(0, SCANNABLE_LENGTH as int),
                    })
                    &&& f.scannable@.local.len() == SCANNABLE_LENGTH
                    &&& f.scannable@.remote.len() == SCANNABLE_LENGTH
                    &&& parse_scannable(scannable_wire(f.scannable@)) == Some(f.scannable@)
                },
                Err(e) => if crate::curve::decoded(local_key@) is None || crate::curve::decoded(
                    remote_key@,
                ) is None {
                    e == SignalProtocolError::InvalidKey
                } else {
                    e == SignalProtocolError::InvalidArgument && !(1 <= iterations
                        <= MAX_ITERATIONS)
                },
            },
    {
        let local = match PublicKey::deserialize(local_key) {
            Ok(k) => k,
            Err(e) => {
                return Err(e);
            },
        };
        let remote = match PublicKey::deserialize(remote_key) {
            Ok(k) => k,
            Err(e) => {
                return Err(e);
            },
        };
        Fingerprint::new(version, iterations, local_identifier, &local, remote_identifier, &remote)
    }
}

/// Whether the fingerprint in `fprint1` and the one in `fprint2`, which
/// the other party computed, speak of the same two keys.
pub fn scannable_fingerprint_compare(fprint1: &[u8], fprint2: &[u8]) -> (out: Result<
    bool,
    SignalProtocolError,
>)
    ensures
        match (parse_scannable(fprint1@), parse_scannable(fprint2@)) {
            (Some(mine), Some(theirs)) => if theirs.version == mine.version {
                out == Ok::<bool, SignalProtocolError>(fingerprints_match(mine, theirs))
            } else {
                out == Err::<bool, SignalProtocolError>(SignalProtocolError::InvalidArgument)
            },
            _ => out == Err::<bool, SignalProtocolError>(SignalProtocolError::InvalidMessage),
        },
{
    match ScannableFingerprint::deserialize(fprint1) {
        Ok(mine) => mine.compare(fprint2),
        Err(e) => Err(e),
    }
}

} // verus!
