use vstd::prelude::*;
use crate::bytes::{append, slice_to_vec};

verus! {

/// The variable-length encoding of a number: seven bits to a byte, low
/// bits first, the top bit set on every byte but the last.
pub open spec fn varint(v: nat) -> Seq<u8>
    decreases v,
{
    if v < 128 {
        seq![v as u8]
    } else {
        seq![(v % 128 + 128) as u8] + varint(v / 128)
    }
}

/// The number that stands at the head of `data` in at most `max_bytes`
/// bytes of the shortest encoding, with what follows it.
pub open spec fn parse_varint(data: Seq<u8>, max_bytes: nat) -> Option<(nat, Seq<u8>)>
    decreases max_bytes,
{
    if max_bytes == 0 || data.len() == 0 {
        None
    } else if data[0] < 128 {
        Some((data[0] as nat, data.skip(1)))
    } else {
        match parse_varint(data.skip(1), (max_bytes - 1) as nat) {
            Some((high, rest)) => if high == 0 {
                None
            } else {
                Some(((data[0] - 128) as nat + 128 * high, rest))
            },
            None => None,
        }
    }
}

/// The first number that does not fit in `k` bytes.
pub open spec fn limit(k: nat) -> nat
    decreases k,
{
    if k == 0 {
        1
    } else {
        128 * limit((k - 1) as nat)
    }
}

proof fn lemma_limit_positive(k: nat)
    ensures
        limit(k) >= 1,
    decreases k,
{
    if k > 0 {
        lemma_limit_positive((k - 1) as nat);
    }
}

proof fn lemma_limit_values()
    ensures
        limit(0) == 1,
        limit(1) == 128,
        limit(2) == 16384,
        limit(3) == 2097152,
        limit(4) == 268435456,
        limit(5) == 34359738368,
{
    reveal_with_fuel(limit, 6);
}

/// A number below `limit(k)` is read back from its encoding, whatever
/// follows it.
pub proof fn lemma_parse_varint_of_varint(v: nat, k: nat, rest: Seq<u8>)
    requires
        k >= 1,
        v < limit(k),
    ensures
        parse_varint(varint(v) + rest, k) == Some((v, rest)),
    decreases k,
{
    let data = varint(v) + rest;
    assert(limit(0) == 1);
    assert(limit(k) == 128 * limit((k - 1) as nat));
    if v < 128 {
        assert(data[0] == v as u8);
        assert(data.skip(1) =~= rest);
    } else {
        assert(data[0] == (v % 128 + 128) as u8);
        assert(data.skip(1) =~= varint(v / 128) + rest);
        lemma_parse_varint_of_varint(v / 128, (k - 1) as nat, rest);
    }
}

/// What was read as a number is that number's encoding.
pub proof fn lemma_varint_of_parse_varint(data: Seq<u8>, k: nat)
    requires
        parse_varint(data, k) is Some,
    ensures
        data == varint(parse_varint(data, k).unwrap().0) + parse_varint(data, k).unwrap().1,
        parse_varint(data, k).unwrap().0 < limit(k),
        parse_varint(data, k).unwrap().1.len() < data.len(),
    decreases k,
{
    let (v, rest) = parse_varint(data, k).unwrap();
    lemma_limit_positive((k - 1) as nat);
    if data[0] < 128 {
        assert(data =~= varint(v) + rest);
    } else {
        lemma_varint_of_parse_varint(data.skip(1), (k - 1) as nat);
        let (high, r) = parse_varint(data.skip(1), (k - 1) as nat).unwrap();
        assert(v == (data[0] - 128) as nat + 128 * high);
        assert(v / 128 == high);
        assert(v % 128 == data[0] - 128);
        assert(data =~= seq![data[0]] + data.skip(1));
        assert(data =~= varint(v) + rest);
    }
}

/// A number below `limit(k)` is written in at most `k` bytes.
pub proof fn lemma_varint_len(v: nat, k: nat)
    requires
        k >= 1,
        v < limit(k),
    ensures
        1 <= varint(v).len() <= k,
    decreases k,
{
    assert(limit(0) == 1);
    assert(limit(k) == 128 * limit((k - 1) as nat));
    if v >= 128 {
        lemma_varint_len(v / 128, (k - 1) as nat);
    }
}

/// A field of bytes is at most six bytes longer than the bytes, and a
/// numeric field is at most six bytes long.
pub proof fn lemma_field_len(tag: u8, b: Seq<u8>, v: u32)
    requires
        b.len() <= u32::MAX,
    ensures
        bytes_field(tag, b).len() <= b.len() + 6,
        bytes_field(tag, b).len() >= b.len() + 2,
        2 <= u32_field(tag, v).len() <= 6,
{
    lemma_limit_values();
    lemma_varint_len(b.len(), 5);
    lemma_varint_len(v as nat, 5);
}

/// The 32-bit number at the head of `data`, with what follows it.
pub open spec fn parse_u32(data: Seq<u8>) -> Option<(u32, Seq<u8>)> {
    match parse_varint(data, 5) {
        Some((v, rest)) => if v <= u32::MAX {
            Some((v as u32, rest))
        } else {
            None
        },
        None => None,
    }
}

/// A numeric field: its tag, then the number.
pub open spec fn u32_field(tag: u8, v: u32) -> Seq<u8> {
    seq![tag] + varint(v as nat)
}

/// A field of bytes: its tag, the length, then the bytes.
pub open spec fn bytes_field(tag: u8, b: Seq<u8>) -> Seq<u8> {
    seq![tag] + varint(b.len()) + b
}

/// The numeric field with this tag at the head of `data`, with what
/// follows it.
pub open spec fn parse_u32_field(tag: u8, data: Seq<u8>) -> Option<(u32, Seq<u8>)> {
    if data.len() > 0 && data[0] == tag {
        parse_u32(data.skip(1))
    } else {
        None
    }
}

/// The field of bytes with this tag at the head of `data`, with what
/// follows it.
pub open spec fn parse_bytes_field(tag: u8, data: Seq<u8>) -> Option<(Seq<u8>, Seq<u8>)> {
    if data.len() > 0 && data[0] == tag {
        match parse_u32(data.skip(1)) {
            Some((len, rest)) => if len <= rest.len() {
                Some((rest.subrange(0, len as int), rest.skip(len as int)))
            } else {
                None
            },
            None => None,
        }
    } else {
        None
    }
}

/// A numeric field is read back, whatever follows it.
pub proof fn lemma_u32_field_round_trip(tag: u8, v: u32, rest: Seq<u8>)
    ensures
        parse_u32_field(tag, u32_field(tag, v) + rest) == Some((v, rest)),
{
    lemma_limit_values();
    let data = u32_field(tag, v) + rest;
    assert(data.skip(1) =~= varint(v as nat) + rest);
    lemma_parse_varint_of_varint(v as nat, 5, rest);
}

/// A field of bytes is read back, whatever follows it.
pub proof fn lemma_bytes_field_round_trip(tag: u8, b: Seq<u8>, rest: Seq<u8>)
    requires
        b.len() <= u32::MAX,
    ensures
        parse_bytes_field(tag, bytes_field(tag, b) + rest) == Some((b, rest)),
{
    lemma_limit_values();
    let data = bytes_field(tag, b) + rest;
    assert(data.skip(1) =~= varint(b.len()) + (b + rest));
    lemma_parse_varint_of_varint(b.len(), 5, b + rest);
    assert((b + rest).subrange(0, b.len() as int) =~= b);
    assert((b + rest).skip(b.len() as int) =~= rest);
}

/// What was read as a numeric field is that field's encoding.
pub proof fn lemma_u32_field_parsed(tag: u8, data: Seq<u8>)
    requires
        parse_u32_field(tag, data) is Some,
    ensures
        data == u32_field(tag, parse_u32_field(tag, data).unwrap().0) + parse_u32_field(
            tag,
            data,
        ).unwrap().1,
        parse_u32_field(tag, data).unwrap().1.len() < data.len(),
{
    lemma_varint_of_parse_varint(data.skip(1), 5);
    let (v, rest) = parse_u32_field(tag, data).unwrap();
    assert(data =~= seq![tag] + data.skip(1));
    assert(data =~= u32_field(tag, v) + rest);
}

/// What was read as a field of bytes is that field's encoding.
pub proof fn lemma_bytes_field_parsed(tag: u8, data: Seq<u8>)
    requires
        parse_bytes_field(tag, data) is Some,
    ensures
        data == bytes_field(tag, parse_bytes_field(tag, data).unwrap().0) + parse_bytes_field(
            tag,
            data,
        ).unwrap().1,
        parse_bytes_field(tag, data).unwrap().0.len() <= u32::MAX,
        parse_bytes_field(tag, data).unwrap().1.len() < data.len(),
{
    lemma_varint_of_parse_varint(data.skip(1), 5);
    let (b, rest) = parse_bytes_field(tag, data).unwrap();
    let (len, after) = parse_u32(data.skip(1)).unwrap();
    assert(after =~= b + rest);
    assert(data =~= seq![tag] + data.skip(1));
    assert(data =~= bytes_field(tag, b) + rest);
}

/// A numeric field that may be absent.
pub open spec fn optional_u32_field(tag: u8, v: Option<u32>) -> Seq<u8> {
    match v {
        Some(x) => u32_field(tag, x),
        None => Seq::<u8>::empty(),
    }
}

/// The numeric field with this tag if `data` starts with the tag, and
/// nothing otherwise, with what follows.
pub open spec fn parse_optional_u32_field(tag: u8, data: Seq<u8>) -> Option<
    (Option<u32>, Seq<u8>),
> {
    if data.len() > 0 && data[0] == tag {
        match parse_u32_field(tag, data) {
            Some((v, rest)) => Some((Some(v), rest)),
            None => None,
        }
    } else {
        Some((None, data))
    }
}

/// An optional field is read back, present or absent, before anything
/// that does not start with its tag.
pub proof fn lemma_optional_u32_field_round_trip(tag: u8, v: Option<u32>, rest: Seq<u8>)
    requires
        v is None ==> rest.len() == 0 || rest[0] != tag,
    ensures
        parse_optional_u32_field(tag, optional_u32_field(tag, v) + rest) == Some((v, rest)),
{
    match v {
        Some(x) => {
            lemma_u32_field_round_trip(tag, x, rest);
            assert((u32_field(tag, x) + rest)[0] == tag);
        },
        None => {
            assert(Seq::<u8>::empty() + rest =~= rest);
        },
    }
}

/// What was read as an optional field is that field's encoding.
pub proof fn lemma_optional_u32_field_parsed(tag: u8, data: Seq<u8>)
    requires
        parse_optional_u32_field(tag, data) is Some,
    ensures
        data == optional_u32_field(tag, parse_optional_u32_field(tag, data).unwrap().0)
            + parse_optional_u32_field(tag, data).unwrap().1,
{
    if data.len() > 0 && data[0] == tag {
        lemma_u32_field_parsed(tag, data);
    } else {
        assert(Seq::<u8>::empty() + data =~= data);
    }
}

/// A field of bytes that may be absent.
pub open spec fn optional_bytes_field(tag: u8, b: Option<Seq<u8>>) -> Seq<u8> {
    match b {
        Some(bytes) => bytes_field(tag, bytes),
        None => Seq::<u8>::empty(),
    }
}

/// The field of bytes with this tag if `data` starts with the tag, and
/// nothing otherwise, with what follows.
pub open spec fn parse_optional_bytes_field(tag: u8, data: Seq<u8>) -> Option<
    (Option<Seq<u8>>, Seq<u8>),
> {
    if data.len() > 0 && data[0] == tag {
        match parse_bytes_field(tag, data) {
            Some((b, rest)) => Some((Some(b), rest)),
            None => None,
        }
    } else {
        Some((None, data))
    }
}

/// An optional field of bytes is read back, present or absent, before
/// anything that does not start with its tag.
pub proof fn lemma_optional_bytes_field_round_trip(tag: u8, b: Option<Seq<u8>>, rest: Seq<u8>)
    requires
        b is None ==> rest.len() == 0 || rest[0] != tag,
        b is Some ==> b.unwrap().len() <= u32::MAX,
    ensures
        parse_optional_bytes_field(tag, optional_bytes_field(tag, b) + rest) == Some((b, rest)),
{
    match b {
        Some(x) => {
            lemma_bytes_field_round_trip(tag, x, rest);
            assert((bytes_field(tag, x) + rest)[0] == tag);
        },
        None => {
            assert(Seq::<u8>::empty() + rest =~= rest);
        },
    }
}

/// What was read as an optional field of bytes is that field's encoding.
pub proof fn lemma_optional_bytes_field_parsed(tag: u8, data: Seq<u8>)
    requires
        parse_optional_bytes_field(tag, data) is Some,
    ensures
        data == optional_bytes_field(tag, parse_optional_bytes_field(tag, data).unwrap().0)
            + parse_optional_bytes_field(tag, data).unwrap().1,
        parse_optional_bytes_field(tag, data).unwrap().0 is Some ==> parse_optional_bytes_field(
            tag,
            data,
        ).unwrap().0.unwrap().len() <= u32::MAX,
{
    if data.len() > 0 && data[0] == tag {
        lemma_bytes_field_parsed(tag, data);
    } else {
        assert(Seq::<u8>::empty() + data =~= data);
    }
}

/// The `n` low bytes of a number, least significant first.
pub open spec fn le_bytes(v: nat, n: nat) -> Seq<u8>
    decreases n,
{
    if n == 0 {
        Seq::<u8>::empty()
    } else {
        seq![(v % 256) as u8] + le_bytes(v / 256, (n - 1) as nat)
    }
}

/// The number that bytes spell, least significant first.
pub open spec fn le_value(b: Seq<u8>) -> nat
    decreases b.len(),
{
    if b.len() == 0 {
        0
    } else {
        b[0] as nat + 256 * le_value(b.skip(1))
    }
}

/// The first number that `n` bytes do not spell.
pub open spec fn le_limit(n: nat) -> nat
    decreases n,
{
    if n == 0 {
        1
    } else {
        256 * le_limit((n - 1) as nat)
    }
}

proof fn lemma_le_limit_eight()
    ensures
        le_limit(8) == 18446744073709551616,
        le_limit(7) == 72057594037927936,
        forall|n: nat| n <= 7 ==> #[trigger] le_limit(n) <= 72057594037927936,
{
    reveal_with_fuel(le_limit, 10);
    assert forall|n: nat| n <= 7 implies #[trigger] le_limit(n) <= 72057594037927936 by {
        if n == 0 {
        } else if n == 1 {
        } else if n == 2 {
        } else if n == 3 {
        } else if n == 4 {
        } else if n == 5 {
        } else if n == 6 {
        } else {
        }
    }
}

/// The bytes of a number that fits spell the number.
pub proof fn lemma_le_value_of_bytes(v: nat, n: nat)
    requires
        v < le_limit(n),
    ensures
        le_bytes(v, n).len() == n,
        le_value(le_bytes(v, n)) == v,
    decreases n,
{
    if n > 0 {
        lemma_le_value_of_bytes(v / 256, (n - 1) as nat);
        assert(le_bytes(v, n).skip(1) =~= le_bytes(v / 256, (n - 1) as nat));
    }
}

/// The bytes that spell a number are the bytes of that number.
pub proof fn lemma_le_bytes_of_value(b: Seq<u8>)
    ensures
        le_value(b) < le_limit(b.len()),
        le_bytes(le_value(b), b.len()) == b,
    decreases b.len(),
{
    if b.len() > 0 {
        lemma_le_bytes_of_value(b.skip(1));
        let v = le_value(b);
        let high = le_value(b.skip(1));
        assert(v == b[0] + 256 * high);
        assert(v / 256 == high);
        assert(v % 256 == b[0]);
        assert(le_bytes(v, b.len()) =~= b);
    } else {
        assert(le_bytes(0, 0) =~= b);
    }
}

/// A field of eight bytes: its tag, then the number, least significant
/// byte first.
pub open spec fn fixed64_field(tag: u8, v: u64) -> Seq<u8> {
    seq![tag] + le_bytes(v as nat, 8)
}

/// The eight-byte field with this tag at the head of `data`, with what
/// follows it.
pub open spec fn parse_fixed64_field(tag: u8, data: Seq<u8>) -> Option<(u64, Seq<u8>)> {
    if data.len() >= 9 && data[0] == tag {
        Some((le_value(data.subrange(1, 9)) as u64, data.skip(9)))
    } else {
        None
    }
}

/// An eight-byte field is read back, whatever follows it.
pub proof fn lemma_fixed64_field_round_trip(tag: u8, v: u64, rest: Seq<u8>)
    ensures
        parse_fixed64_field(tag, fixed64_field(tag, v) + rest) == Some((v, rest)),
{
    lemma_le_limit_eight();
    lemma_le_value_of_bytes(v as nat, 8);
    let data = fixed64_field(tag, v) + rest;
    assert(data.subrange(1, 9) =~= le_bytes(v as nat, 8));
    assert(data.skip(9) =~= rest);
}

/// What was read as an eight-byte field is that field's encoding.
pub proof fn lemma_fixed64_field_parsed(tag: u8, data: Seq<u8>)
    requires
        parse_fixed64_field(tag, data) is Some,
    ensures
        data == fixed64_field(tag, parse_fixed64_field(tag, data).unwrap().0)
            + parse_fixed64_field(tag, data).unwrap().1,
{
    lemma_le_limit_eight();
    lemma_le_bytes_of_value(data.subrange(1, 9));
    let (v, rest) = parse_fixed64_field(tag, data).unwrap();
    assert(data =~= seq![tag] + data.subrange(1, 9) + rest);
}

/// Reads the number at `pos` in at most `max_bytes` bytes.
fn read_varint(data: &[u8], pos: usize, max_bytes: u8) -> (out: Option<(u64, usize)>)
    requires
        pos <= data@.len(),
        max_bytes <= 5,
    ensures
        match out {
            Some((v, next)) => pos < next <= data@.len() && v < limit(max_bytes as nat)
                && parse_varint(data@.skip(pos as int), max_bytes as nat) == Some(
                (v as nat, data@.skip(next as int)),
            ),
            None => parse_varint(data@.skip(pos as int), max_bytes as nat) is None,
        },
    decreases max_bytes,
{
    proof {
        lemma_limit_values();
    }
    if max_bytes == 0 || pos >= data.len() {
        return None;
    }
    let first = data[pos];
    assert(data@.skip(pos as int)[0] == first);
    assert(data@.skip(pos as int).skip(1) =~= data@.skip(pos + 1));
    if first < 128 {
        return Some((first as u64, pos + 1));
    }
    match read_varint(data, pos + 1, max_bytes - 1) {
        Some((high, next)) => {
            if high == 0 {
                None
            } else {
                assert(limit(max_bytes as nat) == 128 * limit((max_bytes - 1) as nat));
                assert(high < 268435456) by {
                    reveal_with_fuel(limit, 6);
                }
                Some(((first - 128) as u64 + 128 * high, next))
            }
        },
        None => None,
    }
}

/// Reads the 32-bit number at `pos`.
pub fn read_u32(data: &[u8], pos: usize) -> (out: Option<(u32, usize)>)
    requires
        pos <= data@.len(),
    ensures
        match out {
            Some((v, next)) => pos < next <= data@.len() && parse_u32(data@.skip(pos as int))
                == Some((v, data@.skip(next as int))),
            None => parse_u32(data@.skip(pos as int)) is None,
        },
{
    match read_varint(data, pos, 5) {
        Some((v, next)) => {
            if v <= 0xffff_ffff {
                Some((v as u32, next))
            } else {
                None
            }
        },
        None => None,
    }
}

/// Reads the numeric field with this tag at `pos`.
pub fn read_u32_field(data: &[u8], pos: usize, tag: u8) -> (out: Option<(u32, usize)>)
    requires
        pos <= data@.len(),
    ensures
        match out {
            Some((v, next)) => pos < next <= data@.len() && parse_u32_field(
                tag,
                data@.skip(pos as int),
            ) == Some((v, data@.skip(next as int))),
            None => parse_u32_field(tag, data@.skip(pos as int)) is None,
        },
{
    if pos >= data.len() || data[pos] != tag {
        return None;
    }
    assert(data@.skip(pos as int)[0] == data@[pos as int]);
    assert(data@.skip(pos as int).skip(1) =~= data@.skip(pos + 1));
    read_u32(data, pos + 1)
}

/// Reads the numeric field with this tag at `pos` if the tag stands there.
pub fn read_optional_u32_field(data: &[u8], pos: usize, tag: u8) -> (out: Option<
    (Option<u32>, usize),
>)
    requires
        pos <= data@.len(),
    ensures
        match out {
            Some((v, next)) => pos <= next <= data@.len() && parse_optional_u32_field(
                tag,
                data@.skip(pos as int),
            ) == Some((v, data@.skip(next as int))),
            None => parse_optional_u32_field(tag, data@.skip(pos as int)) is None,
        },
{
    if pos < data.len() && data[pos] == tag {
        assert(data@.skip(pos as int)[0] == data@[pos as int]);
        match read_u32_field(data, pos, tag) {
            Some((v, next)) => Some((Some(v), next)),
            None => None,
        }
    } else {
        assert(pos < data@.len() ==> data@.skip(pos as int)[0] == data@[pos as int]);
        Some((None, pos))
    }
}

/// Reads the field of bytes with this tag at `pos`.
pub fn read_bytes_field(data: &[u8], pos: usize, tag: u8) -> (out: Option<(Vec<u8>, usize)>)
    requires
        pos <= data@.len(),
    ensures
        match out {
            Some((b, next)) => pos < next <= data@.len() && parse_bytes_field(
                tag,
                data@.skip(pos as int),
            ) == Some((b@, data@.skip(next as int))),
            None => parse_bytes_field(tag, data@.skip(pos as int)) is None,
        },
{
    if pos >= data.len() || data[pos] != tag {
        return None;
    }
    assert(data@.skip(pos as int)[0] == data@[pos as int]);
    assert(data@.skip(pos as int).skip(1) =~= data@.skip(pos + 1));
    match read_u32(data, pos + 1) {
        Some((len, start)) => {
            let len: usize = len as usize;
            if len > data.len() - start {
                return None;
            }
            let b = slice_to_vec(data, start, start + len);
            assert(data@.skip(start as int).subrange(0, len as int) =~= b@);
            assert(data@.skip(start as int).skip(len as int) =~= data@.skip(start + len));
            Some((b, start + len))
        },
        None => None,
    }
}

/// Reads the field of bytes with this tag at `pos` if the tag stands
/// there.
pub fn read_optional_bytes_field(data: &[u8], pos: usize, tag: u8) -> (out: Option<
    (Option<Vec<u8>>, usize),
>)
    requires
        pos <= data@.len(),
    ensures
        match out {
            Some((v, next)) => pos <= next <= data@.len() && parse_optional_bytes_field(
                tag,
                data@.skip(pos as int),
            ) == Some(
                (
                    match v {
                        Some(b) => Some(b@),
                        None => None,
                    },
                    data@.skip(next as int),
                ),
            ),
            None => parse_optional_bytes_field(tag, data@.skip(pos as int)) is None,
        },
{
    if pos < data.len() && data[pos] == tag {
        assert(data@.skip(pos as int)[0] == data@[pos as int]);
        match read_bytes_field(data, pos, tag) {
            Some((v, next)) => Some((Some(v), next)),
            None => None,
        }
    } else {
        assert(pos < data@.len() ==> data@.skip(pos as int)[0] == data@[pos as int]);
        Some((None, pos))
    }
}

/// Reads the number that the `n` bytes at `pos` spell.
fn read_le(data: &[u8], pos: usize, n: u8) -> (out: u64)
    requires
        pos + n <= data@.len(),
        n <= 8,
    ensures
        out == le_value(data@.subrange(pos as int, pos + n)),
        out < le_limit(n as nat),
    decreases n,
{
    proof {
        lemma_le_limit_eight();
    }
    if n == 0 {
        return 0;
    }
    let len: usize = data.len();
    assert(pos < len);
    let rest = read_le(data, pos + 1, n - 1);
    let ghost b = data@.subrange(pos as int, pos + n);
    assert(b.skip(1) =~= data@.subrange(pos + 1, pos + n));
    assert(b[0] == data@[pos as int]);
    assert(le_limit(n as nat) == 256 * le_limit((n - 1) as nat));
    assert(le_limit((n - 1) as nat) <= 72057594037927936);
    data[pos] as u64 + 256 * rest
}

/// Reads the eight-byte field with this tag at `pos`.
pub fn read_fixed64_field(data: &[u8], pos: usize, tag: u8) -> (out: Option<(u64, usize)>)
    requires
        pos <= data@.len(),
    ensures
        match out {
            Some((v, next)) => pos < next <= data@.len() && parse_fixed64_field(
                tag,
                data@.skip(pos as int),
            ) == Some((v, data@.skip(next as int))),
            None => parse_fixed64_field(tag, data@.skip(pos as int)) is None,
        },
{
    if data.len() - pos < 9 || data[pos] != tag {
        assert(data@.len() - pos >= 9 ==> data@.skip(pos as int)[0] == data@[pos as int]);
        return None;
    }
    let ghost tail = data@.skip(pos as int);
    assert(tail[0] == data@[pos as int]);
    assert(tail.subrange(1, 9) =~= data@.subrange(pos + 1, pos + 9));
    assert(tail.skip(9) =~= data@.skip(pos + 9));
    let v = read_le(data, pos + 1, 8);
    Some((v, pos + 9))
}

/// Appends the `n` low bytes of `v`, least significant first.
fn write_le(out: &mut Vec<u8>, v: u64, n: u8)
    ensures
        final(out)@ == old(out)@ + le_bytes(v as nat, n as nat),
    decreases n,
{
    if n == 0 {
        assert(out@ =~= old(out)@ + le_bytes(v as nat, 0));
    } else {
        out.push((v % 256) as u8);
        write_le(out, v / 256, n - 1);
        assert(out@ =~= old(out)@ + le_bytes(v as nat, n as nat));
    }
}

/// Appends an eight-byte field.
pub fn write_fixed64_field(out: &mut Vec<u8>, tag: u8, v: u64)
    ensures
        final(out)@ == old(out)@ + fixed64_field(tag, v),
{
    out.push(tag);
    write_le(out, v, 8);
    assert(out@ =~= old(out)@ + fixed64_field(tag, v));
}

/// Appends the encoding of `v`.
pub fn write_varint(out: &mut Vec<u8>, v: u64)
    ensures
        final(out)@ == old(out)@ + varint(v as nat),
    decreases v,
{
    if v < 128 {
        out.push(v as u8);
        assert(out@ =~= old(out)@ + varint(v as nat));
    } else {
        out.push((v % 128 + 128) as u8);
        write_varint(out, v / 128);
        assert(out@ =~= old(out)@ + varint(v as nat));
    }
}

/// Appends a numeric field.
pub fn write_u32_field(out: &mut Vec<u8>, tag: u8, v: u32)
    ensures
        final(out)@ == old(out)@ + u32_field(tag, v),
{
    out.push(tag);
    write_varint(out, v as u64);
    assert(out@ =~= old(out)@ + u32_field(tag, v));
}

/// Appends a field of bytes.
pub fn write_bytes_field(out: &mut Vec<u8>, tag: u8, b: &[u8])
    ensures
        final(out)@ == old(out)@ + bytes_field(tag, b@),
{
    out.push(tag);
    write_varint(out, b.len() as u64);
    append(out, b);
    assert(out@ =~= old(out)@ + bytes_field(tag, b@));
}

} // verus!
