//! Wire primitives: VarInt, unsigned short, UTF-8 string, UUID and bool.
use vstd::prelude::*;

use vstd::utf8::{decode_utf8, encode_utf8, valid_utf8};

use crate::error::ProtocolError;

verus! {

/// `128^k`, the weight of the `k`-th seven-bit group of a VarInt.
pub open spec fn pow128(k: nat) -> nat
    decreases k,
{
    if k == 0 {
        1
    } else {
        128 * pow128((k - 1) as nat)
    }
}

/// The minimal VarInt encoding of `v`: seven bits per byte, least significant
/// group first, the high bit set on every byte but the last.
pub open spec fn varint_bytes(v: u32) -> Seq<u8>
    decreases v,
{
    if v < 128 {
        seq![v as u8]
    } else {
        seq![(v % 128 + 128) as u8] + varint_bytes(v / 128)
    }
}

/// What the VarInt reader makes of `b` from `pos`, having read `k` bytes whose
/// groups sum to `acc`: the value and the number of bytes read, or the error.
pub open spec fn varint_decode_from(b: Seq<u8>, pos: int, k: nat, acc: nat) -> Result<
    (u32, nat),
    ProtocolError,
>
    decreases 5 - k,
{
    if k >= 5 || pos + k >= b.len() || pos < 0 {
        Err(ProtocolError::ShortBuffer)
    } else {
        let byte = b[pos + k];
        let sum = acc + (byte % 128) as nat * pow128(k);
        if byte < 128 {
            Ok(((sum % 0x1_0000_0000) as u32, k + 1))
        } else if k + 1 >= 5 {
            Err(ProtocolError::VarintOverflow)
        } else {
            varint_decode_from(b, pos, k + 1, sum)
        }
    }
}

/// What the VarInt reader makes of `b` from `pos`.
pub open spec fn varint_decode(b: Seq<u8>, pos: int) -> Result<(u32, nat), ProtocolError> {
    varint_decode_from(b, pos, 0, 0)
}

/// Appends the minimal VarInt encoding of `value`.
pub fn write_varint(buffer: &mut Vec<u8>, value: u32)
    ensures
        final(buffer)@ == old(buffer)@ + varint_bytes(value),
{
    let mut v: u32 = value;
    while v >= 128
        invariant
            buffer@ + varint_bytes(v) == old(buffer)@ + varint_bytes(value),
        decreases v,
    {
        let ghost before = buffer@;
        buffer.push((v % 128 + 128) as u8);
        assert(buffer@ + varint_bytes(v / 128) =~= before + varint_bytes(v));
        v = v / 128;
    }
    let ghost before = buffer@;
    buffer.push(v as u8);
    assert(buffer@ =~= before + varint_bytes(v));
}

/// An encoding of a value below `128^n` takes at most `n` bytes.
pub proof fn lemma_varint_len_bound(v: u32, n: nat)
    requires
        n >= 1,
        v < pow128(n),
    ensures
        1 <= varint_bytes(v).len() <= n,
    decreases v,
{
    if v >= 128 {
        let m = (n - 1) as nat;
        if m == 0 {
            assert(pow128(n) == 128) by {
                reveal_with_fuel(pow128, 2);
            }
        }
        assert(v / 128 < pow128(m)) by (nonlinear_arith)
            requires
                v < 128 * pow128(m),
        ;
        lemma_varint_len_bound(v / 128, m);
    }
}

/// Every `u32` is encoded in one to five bytes.
pub proof fn lemma_varint_len(v: u32)
    ensures
        1 <= varint_bytes(v).len() <= 5,
{
    assert(pow128(5) == 0x8_0000_0000) by {
        reveal_with_fuel(pow128, 6);
    }
    lemma_varint_len_bound(v, 5);
}

/// The number of bytes that the VarInt encoding of `value` takes.
pub fn varint_size(value: u32) -> (r: usize)
    ensures
        r == varint_bytes(value).len(),
        1 <= r <= 5,
{
    proof {
        lemma_varint_len(value);
    }
    let mut v: u32 = value;
    let mut size: usize = 1;
    while v >= 128
        invariant
            size + varint_bytes(v).len() == varint_bytes(value).len() + 1,
            1 <= size,
            1 <= varint_bytes(v).len(),
            varint_bytes(value).len() <= 5,
        decreases v,
    {
        proof {
            lemma_varint_len(v / 128);
        }
        size += 1;
        v = v / 128;
    }
    size
}

/// A VarInt that was read lies within the bytes.
pub proof fn lemma_varint_decode_within(b: Seq<u8>, pos: int, k: nat, acc: nat)
    ensures
        varint_decode_from(b, pos, k, acc) matches Ok((v, n)) ==> 0 <= pos && k < n && pos + n
            <= b.len() && n <= 5,
    decreases 5 - k,
{
    if !(k >= 5 || pos + k >= b.len() || pos < 0) {
        let byte = b[pos + k];
        let sum = acc + (byte % 128) as nat * pow128(k);
        if byte >= 128 && k + 1 < 5 {
            lemma_varint_decode_within(b, pos, k + 1, sum);
        }
    }
}

/// Reads a VarInt at `*position`. On success the position moves past it; on
/// failure it stays where it was.
pub fn read_varint(buffer: &[u8], position: &mut usize) -> (r: Result<u32, ProtocolError>)
    ensures
        match varint_decode(buffer@, *old(position) as int) {
            Ok((v, n)) => r == Ok::<u32, ProtocolError>(v) && *final(position) == *old(position)
                + n,
            Err(e) => r == Err::<u32, ProtocolError>(e) && *final(position) == *old(position),
        },
{
    let start: usize = *position;
    let mut acc: u64 = 0;
    let mut mult: u64 = 1;
    let mut k: usize = 0;
    loop
        invariant
            k < 5,
            mult == pow128(k as nat),
            mult <= 0x1000_0000,
            acc < mult,
            start == *position,
            start == *old(position),
            varint_decode(buffer@, start as int) == varint_decode_from(
                buffer@,
                start as int,
                k as nat,
                acc as nat,
            ),
        decreases 5 - k,
    {
        if start >= buffer.len() || k >= buffer.len() - start {
            return Err(ProtocolError::ShortBuffer);
        }
        let byte = buffer[start + k];
        let low = (byte % 128) as u64;
        assert(acc + low * mult < 128 * mult) by (nonlinear_arith)
            requires
                acc < mult,
                low <= 127,
        ;
        let sum = acc + low * mult;
        if byte < 128 {
            *position = start + k + 1;
            return Ok((sum % 0x1_0000_0000) as u32);
        }
        if k + 1 >= 5 {
            return Err(ProtocolError::VarintOverflow);
        }
        proof {
            reveal_with_fuel(pow128, 5);
            assert(mult <= 0x20_0000) by {
                assert(k == 0 || k == 1 || k == 2 || k == 3);
            }
        }
        acc = sum;
        mult = mult * 128;
        k += 1;
    }
}

/// Reading the groups of an encoding after `k` bytes with sum `acc` adds the
/// encoded value at weight `128^k`.
proof fn lemma_varint_decode_from_encoded(b: Seq<u8>, pos: int, k: nat, acc: nat, v: u32)
    requires
        0 <= pos,
        k + varint_bytes(v).len() <= 5,
        pos + k + varint_bytes(v).len() <= b.len(),
        b.subrange(pos + k, pos + k + varint_bytes(v).len()) == varint_bytes(v),
        acc < pow128(k),
        acc + v * pow128(k) < 0x1_0000_0000,
    ensures
        varint_decode_from(b, pos, k, acc) == Ok::<(u32, nat), ProtocolError>(
            ((acc + v * pow128(k)) as u32, k + varint_bytes(v).len()),
        ),
    decreases v,
{
    let e = varint_bytes(v);
    assert(b[pos + k] == e[0]) by {
        assert(b.subrange(pos + k, pos + k + e.len())[0] == b[pos + k]);
    }
    let p = pow128(k);
    if v >= 128 {
        let t = varint_bytes(v / 128);
        assert(e == seq![(v % 128 + 128) as u8] + t);
        assert(b[pos + k] % 128 == v % 128);
        let sum = acc + (v % 128) as nat * p;
        assert(pow128(k + 1) == 128 * p);
        assert(sum < 128 * p) by (nonlinear_arith)
            requires
                acc < p,
                v % 128 <= 127,
                sum == acc + (v % 128) as nat * p,
        ;
        assert(sum + (v / 128) as nat * (128 * p) == acc + v * p) by (nonlinear_arith)
            requires
                sum == acc + (v % 128) as nat * p,
                v == 128 * (v / 128) + v % 128,
        ;
        assert(b.subrange(pos + k + 1, pos + k + 1 + t.len()) =~= t) by {
            assert(forall|i: int|
                0 <= i < t.len() ==> #[trigger] t[i] == e[i + 1] && e[i + 1] == b.subrange(
                    pos + k,
                    pos + k + e.len(),
                )[i + 1]);
        }
        lemma_varint_decode_from_encoded(b, pos, k + 1, sum, v / 128);
    }
}

/// Reading back what `write_varint` wrote gives the value and its size,
/// whatever follows it.
pub proof fn lemma_varint_round_trip(v: u32, rest: Seq<u8>)
    ensures
        varint_decode(varint_bytes(v) + rest, 0) == Ok::<(u32, nat), ProtocolError>(
            (v, varint_bytes(v).len()),
        ),
{
    let e = varint_bytes(v);
    lemma_varint_len(v);
    assert((e + rest).subrange(0, e.len() as int) =~= e);
    assert(pow128(0) == 1);
    assert(0 + v * pow128(0) == v);
    lemma_varint_decode_from_encoded(e + rest, 0, 0, 0, v);
}

/// Appends `bytes` to `buffer`.
pub fn push_all(buffer: &mut Vec<u8>, bytes: &[u8])
    ensures
        final(buffer)@ == old(buffer)@ + bytes@,
{
    let mut i: usize = 0;
    while i < bytes.len()
        invariant
            i <= bytes.len(),
            buffer@ == old(buffer)@ + bytes@.subrange(0, i as int),
        decreases bytes.len() - i,
    {
        buffer.push(bytes[i]);
        i += 1;
        assert(buffer@ =~= old(buffer)@ + bytes@.subrange(0, i as int));
    }
    assert(bytes@.subrange(0, i as int) =~= bytes@);
}

/// A copy of `bytes[start..end]`.
pub fn copy_range(bytes: &[u8], start: usize, end: usize) -> (r: Vec<u8>)
    requires
        start <= end <= bytes@.len(),
    ensures
        r@ == bytes@.subrange(start as int, end as int),
{
    let mut r: Vec<u8> = Vec::new();
    let mut i: usize = start;
    while i < end
        invariant
            start <= i <= end,
            end <= bytes@.len(),
            r@ == bytes@.subrange(start as int, i as int),
        decreases end - i,
    {
        r.push(bytes[i]);
        i += 1;
        assert(r@ =~= bytes@.subrange(start as int, i as int));
    }
    r
}

/// The two big-endian bytes of an unsigned short.
pub open spec fn ushort_bytes(v: u16) -> Seq<u8> {
    seq![(v / 256) as u8, (v % 256) as u8]
}

/// What the unsigned-short reader makes of `b` from `pos`.
pub open spec fn ushort_decode(b: Seq<u8>, pos: int) -> Result<u16, ProtocolError> {
    if pos + 2 > b.len() {
        Err(ProtocolError::ShortBuffer)
    } else {
        Ok((b[pos] * 256 + b[pos + 1]) as u16)
    }
}

/// Appends `value` as two big-endian bytes.
pub fn write_ushort(buffer: &mut Vec<u8>, value: u16)
    ensures
        final(buffer)@ == old(buffer)@ + ushort_bytes(value),
{
    buffer.push((value / 256) as u8);
    buffer.push((value % 256) as u8);
    assert(buffer@ =~= old(buffer)@ + ushort_bytes(value));
}

/// Reads a big-endian unsigned short at `*position`.
pub fn read_ushort(buffer: &Vec<u8>, position: &mut usize) -> (r: Result<u16, ProtocolError>)
    ensures
        r == ushort_decode(buffer@, *old(position) as int),
        *final(position) == if r is Ok {
            *old(position) + 2
        } else {
            *old(position) as int
        },
{
    let p: usize = *position;
    if p >= buffer.len() || buffer.len() - p < 2 {
        return Err(ProtocolError::ShortBuffer);
    }
    let r: u16 = (buffer[p] as u16) * 256 + buffer[p + 1] as u16;
    *position = p + 2;
    Ok(r)
}

/// The byte that encodes a bool.
pub open spec fn bool_byte(v: bool) -> u8 {
    if v {
        1
    } else {
        0
    }
}

/// What the bool reader makes of `b` from `pos`: any byte but zero is true.
pub open spec fn bool_decode(b: Seq<u8>, pos: int) -> Result<bool, ProtocolError> {
    if pos < 0 || pos >= b.len() {
        Err(ProtocolError::ShortBuffer)
    } else {
        Ok(b[pos] != 0)
    }
}

/// Appends `value` as one byte.
pub fn write_bool(buffer: &mut Vec<u8>, value: bool)
    ensures
        final(buffer)@ == old(buffer)@.push(bool_byte(value)),
{
    buffer.push(if value {
        1
    } else {
        0
    });
}

/// Reads a bool at `*position`.
pub fn read_bool(buffer: &Vec<u8>, position: &mut usize) -> (r: Result<bool, ProtocolError>)
    ensures
        r == bool_decode(buffer@, *old(position) as int),
        *final(position) == if r is Ok {
            *old(position) + 1
        } else {
            *old(position) as int
        },
{
    let p: usize = *position;
    if p >= buffer.len() {
        return Err(ProtocolError::ShortBuffer);
    }
    let r = buffer[p] != 0;
    *position = p + 1;
    Ok(r)
}

/// The encoding of a string: the VarInt byte count (taken modulo `2^32`),
/// then the UTF-8 bytes.
pub open spec fn string_bytes(s: Seq<char>) -> Seq<u8> {
    varint_bytes((encode_utf8(s).len() % 0x1_0000_0000) as u32) + encode_utf8(s)
}

/// What the string reader makes of `b` from `pos`: the characters and the
/// number of bytes read, or the error.
pub open spec fn string_decode(b: Seq<u8>, pos: int) -> Result<(Seq<char>, nat), ProtocolError> {
    match varint_decode(b, pos) {
        Err(e) => Err(e),
        Ok((n, c)) => {
            let start = pos + c;
            if start + n > b.len() {
                Err(ProtocolError::ShortBuffer)
            } else if !valid_utf8(b.subrange(start, start + n)) {
                Err(ProtocolError::BadUtf8)
            } else {
                Ok((decode_utf8(b.subrange(start, start + n)), (c + n) as nat))
            }
        },
    }
}

/// Relies on `String::from_utf8`: it succeeds exactly on valid UTF-8, and the
/// string then holds the characters those bytes encode.
#[verifier::external_body]
fn utf8_to_string(bytes: Vec<u8>) -> (r: Option<String>)
    ensures
        r is Some <==> valid_utf8(bytes@),
        r is Some ==> r->0@ == decode_utf8(bytes@),
{
    String::from_utf8(bytes).ok()
}

/// Appends `val` as a VarInt byte count followed by its UTF-8 bytes.
pub fn write_string(buffer: &mut Vec<u8>, val: &str)
    ensures
        final(buffer)@ == old(buffer)@ + string_bytes(val@),
{
    let bytes = val.as_bytes();
    let len: u64 = bytes.len() as u64;
    write_varint(buffer, (len % 0x1_0000_0000) as u32);
    push_all(buffer, bytes);
    assert(final(buffer)@ =~= old(buffer)@ + string_bytes(val@));
}

/// Reads a string at `*position`. On success the position moves past it; on
/// failure it stays where it was.
pub fn read_string(buffer: &[u8], position: &mut usize) -> (r: Result<String, ProtocolError>)
    ensures
        match string_decode(buffer@, *old(position) as int) {
            Ok((s, n)) => r is Ok && r->Ok_0@ == s && *final(position) == *old(position) + n,
            Err(e) => r == Err::<String, ProtocolError>(e) && *final(position) == *old(position),
        },
{
    let start: usize = *position;
    let mut p: usize = start;
    proof {
        lemma_varint_decode_within(buffer@, start as int, 0, 0);
    }
    let length = match read_varint(buffer, &mut p) {
        Ok(n) => n as usize,
        Err(e) => return Err(e),
    };
    if length > buffer.len() - p {
        return Err(ProtocolError::ShortBuffer);
    }
    let bytes = copy_range(buffer, p, p + length);
    match utf8_to_string(bytes) {
        Some(s) => {
            *position = p + length;
            Ok(s)
        },
        None => Err(ProtocolError::BadUtf8),
    }
}

/// Reading back what `write_string` wrote gives the same string, for every
/// string whose encoding is shorter than `2^32` bytes.
pub proof fn lemma_string_round_trip(s: Seq<char>, rest: Seq<u8>)
    requires
        encode_utf8(s).len() < 0x1_0000_0000,
    ensures
        string_decode(string_bytes(s) + rest, 0) == Ok::<(Seq<char>, nat), ProtocolError>(
            (s, string_bytes(s).len()),
        ),
{
    let u = encode_utf8(s);
    let n = u.len() as u32;
    let e = varint_bytes(n);
    let b = string_bytes(s) + rest;
    assert(b =~= e + (u + rest));
    lemma_varint_round_trip(n, u + rest);
    assert(b.subrange(e.len() as int, (e.len() + u.len()) as int) =~= u);
    vstd::utf8::encode_utf8_valid_utf8(s);
    vstd::utf8::encode_utf8_decode_utf8(s);
}

/// `256^k`.
pub open spec fn pow256(k: nat) -> nat
    decreases k,
{
    if k == 0 {
        1
    } else {
        256 * pow256((k - 1) as nat)
    }
}

/// The sixteen big-endian bytes of a UUID.
pub open spec fn uuid_bytes(u: u128) -> Seq<u8> {
    Seq::new(16, |i: int| ((u as nat / pow256((15 - i) as nat)) % 256) as u8)
}

/// The number that big-endian bytes stand for.
pub open spec fn be_value(b: Seq<u8>) -> nat
    decreases b.len(),
{
    if b.len() == 0 {
        0
    } else {
        (be_value(b.drop_last()) * 256 + b.last()) as nat
    }
}

/// What the UUID reader makes of `b` from `pos`.
pub open spec fn uuid_decode(b: Seq<u8>, pos: int) -> Result<u128, ProtocolError> {
    if pos < 0 || pos + 16 > b.len() {
        Err(ProtocolError::ShortBuffer)
    } else {
        Ok(be_value(b.subrange(pos, pos + 16)) as u128)
    }
}

/// Appends `uuid` as sixteen big-endian bytes.
pub fn write_uuid(buffer: &mut Vec<u8>, uuid: u128)
    ensures
        final(buffer)@ == old(buffer)@ + uuid_bytes(uuid),
{
    let mut divisor: u128 = 0x0100_0000_0000_0000_0000_0000_0000_0000;
    let mut i: usize = 0;
    assert(pow256(15) == 0x0100_0000_0000_0000_0000_0000_0000_0000) by {
        reveal_with_fuel(pow256, 16);
    }
    while i < 16
        invariant
            i <= 16,
            i < 16 ==> divisor == pow256((15 - i) as nat),
            buffer@ == old(buffer)@ + uuid_bytes(uuid).subrange(0, i as int),
        decreases 16 - i,
    {
        proof {
            lemma_pow256_mono(0, (15 - i) as nat);
        }
        buffer.push(((uuid / divisor) % 256) as u8);
        proof {
            assert(buffer@ =~= old(buffer)@ + uuid_bytes(uuid).subrange(0, i + 1));
            if i < 15 {
                assert(pow256((15 - i) as nat) == 256 * pow256((14 - i) as nat));
            }
        }
        divisor = divisor / 256;
        i += 1;
    }
    assert(uuid_bytes(uuid).subrange(0, 16) =~= uuid_bytes(uuid));
}

/// Big-endian bytes stand for a number below `256^len`.
proof fn lemma_be_value_bound(b: Seq<u8>)
    ensures
        be_value(b) < pow256(b.len()),
    decreases b.len(),
{
    if b.len() > 0 {
        let d = b.drop_last();
        lemma_be_value_bound(d);
        let v = be_value(d);
        let p = pow256(d.len());
        assert(v * 256 + b.last() < 256 * p) by (nonlinear_arith)
            requires
                v < p,
                b.last() < 256,
        ;
    }
}

/// Reads a UUID at `*position`.
pub fn read_uuid(buffer: &[u8], position: &mut usize) -> (r: Result<u128, ProtocolError>)
    ensures
        r == uuid_decode(buffer@, *old(position) as int),
        *final(position) == if r is Ok {
            *old(position) + 16
        } else {
            *old(position) as int
        },
{
    let p: usize = *position;
    if p >= buffer.len() || buffer.len() - p < 16 {
        return Err(ProtocolError::ShortBuffer);
    }
    let n: usize = buffer.len();
    let mut acc: u128 = 0;
    let mut i: usize = 0;
    assert(pow256(16) == 0x1_0000_0000_0000_0000_0000_0000_0000_0000) by {
        reveal_with_fuel(pow256, 17);
    }
    while i < 16
        invariant
            i <= 16,
            n == buffer@.len(),
            p + 16 <= n,
            pow256(16) == 0x1_0000_0000_0000_0000_0000_0000_0000_0000,
            acc == be_value(buffer@.subrange(p as int, p + i)),
        decreases 16 - i,
    {
        let ghost s = buffer@.subrange(p as int, p + i + 1);
        assert(s.drop_last() =~= buffer@.subrange(p as int, p + i));
        proof {
            lemma_be_value_bound(s);
            lemma_pow256_mono((i + 1) as nat, 16);
        }
        acc = acc * 256 + buffer[p + i] as u128;
        i += 1;
    }
    *position = p + 16;
    Ok(acc)
}

/// `256^k` grows with `k`.
proof fn lemma_pow256_mono(a: nat, b: nat)
    requires
        a <= b,
    ensures
        pow256(a) <= pow256(b),
    decreases b,
{
    if a < b {
        lemma_pow256_mono(a, (b - 1) as nat);
    }
}

/// A VarInt written at `pos` reads back there.
pub proof fn lemma_varint_at(b: Seq<u8>, pos: int, v: u32)
    requires
        0 <= pos,
        pos + varint_bytes(v).len() <= b.len(),
        b.subrange(pos, pos + varint_bytes(v).len()) == varint_bytes(v),
    ensures
        varint_decode(b, pos) == Ok::<(u32, nat), ProtocolError>((v, varint_bytes(v).len())),
{
    lemma_varint_len(v);
    assert(pow128(0) == 1);
    assert(0 + v * pow128(0) == v);
    lemma_varint_decode_from_encoded(b, pos, 0, 0, v);
}

/// A string written at `pos` reads back there, where its encoding is shorter
/// than `2^32` bytes.
pub proof fn lemma_string_at(b: Seq<u8>, pos: int, s: Seq<char>)
    requires
        0 <= pos,
        encode_utf8(s).len() < 0x1_0000_0000,
        pos + string_bytes(s).len() <= b.len(),
        b.subrange(pos, pos + string_bytes(s).len()) == string_bytes(s),
    ensures
        string_decode(b, pos) == Ok::<(Seq<char>, nat), ProtocolError>(
            (s, string_bytes(s).len()),
        ),
{
    let u = encode_utf8(s);
    let n = u.len() as u32;
    let e = varint_bytes(n);
    let sb = string_bytes(s);
    assert(sb =~= e + u);
    let w = b.subrange(pos, pos + sb.len());
    assert(w == sb);
    assert(b.subrange(pos, pos + e.len()) =~= w.subrange(0, e.len() as int));
    assert(w.subrange(0, e.len() as int) =~= e);
    lemma_varint_at(b, pos, n);
    assert(b.subrange(pos + e.len(), pos + e.len() + u.len()) =~= w.subrange(
        e.len() as int,
        w.len() as int,
    ));
    assert(w.subrange(e.len() as int, w.len() as int) =~= u);
    vstd::utf8::encode_utf8_valid_utf8(s);
    vstd::utf8::encode_utf8_decode_utf8(s);
}

/// An unsigned short written at `pos` reads back there.
pub proof fn lemma_ushort_at(b: Seq<u8>, pos: int, v: u16)
    requires
        0 <= pos,
        pos + 2 <= b.len(),
        b.subrange(pos, pos + 2) == ushort_bytes(v),
    ensures
        ushort_decode(b, pos) == Ok::<u16, ProtocolError>(v),
{
    assert(b[pos] == b.subrange(pos, pos + 2)[0]);
    assert(b[pos + 1] == b.subrange(pos, pos + 2)[1]);
    assert(b[pos] * 256 + b[pos + 1] == v);
}

/// The first `k` bytes that `write_uuid` writes stand for the UUID divided by
/// `256^(16-k)`.
proof fn lemma_uuid_prefix_value(u: u128, k: nat)
    requires
        k <= 16,
    ensures
        be_value(uuid_bytes(u).subrange(0, k as int)) == u as nat / pow256((16 - k) as nat),
    decreases k,
{
    let b = uuid_bytes(u);
    if k == 0 {
        assert(pow256(16) == 0x1_0000_0000_0000_0000_0000_0000_0000_0000) by {
            reveal_with_fuel(pow256, 17);
        }
        assert(b.subrange(0, 0).len() == 0);
        vstd::arithmetic::div_mod::lemma_basic_div(u as int, pow256(16) as int);
    } else {
        let j = (k - 1) as nat;
        lemma_uuid_prefix_value(u, j);
        let s = b.subrange(0, k as int);
        assert(s.drop_last() =~= b.subrange(0, j as int));
        let p = pow256((16 - k) as nat);
        lemma_pow256_mono(0, (16 - k) as nat);
        assert(pow256((16 - j) as nat) == 256 * p);
        let y = u as nat / p;
        assert(s.last() == (y % 256) as u8);
        vstd::arithmetic::div_mod::lemma_div_denominator(u as int, p as int, 256);
        assert(p * 256 == 256 * p);
        vstd::arithmetic::div_mod::lemma_fundamental_div_mod(y as int, 256);
    }
}

/// The sixteen bytes that `write_uuid` writes stand for the UUID.
pub proof fn lemma_uuid_bytes_value(u: u128)
    ensures
        be_value(uuid_bytes(u)) == u,
{
    lemma_uuid_prefix_value(u, 16);
    assert(uuid_bytes(u).subrange(0, 16) =~= uuid_bytes(u));
    assert(pow256(0) == 1);
    vstd::arithmetic::div_mod::lemma_div_basics(u as int);
}

} // verus!
