//! Unsigned LEB128: the variable-length integer encoding used for call ids,
//! method indices, error codes, lengths and frame prefixes.

use vstd::prelude::*;

verus! {

/// Why a LEB128 integer could not be read.
#[derive(Debug, Clone, Copy, PartialEq, Eq, Structural)]
pub enum DecodeError {
    /// The input ended before a byte without the continuation bit.
    UnexpectedEof,
    /// The encoded value does not fit in 64 bits.
    Overflow,
}

impl DecodeError {
    /// A human-readable description of the error.
    pub fn message(&self) -> (res: String)
        ensures
            res@ == self.spec_message(),
    {
        match self {
            DecodeError::UnexpectedEof => String::from_str("unexpected end of input"),
            DecodeError::Overflow => String::from_str("LEB128 value overflows 64 bits"),
        }
    }

    /// The text that [`DecodeError::message`] returns.
    pub open spec fn spec_message(&self) -> Seq<char> {
        match self {
            DecodeError::UnexpectedEof => "unexpected end of input"@,
            DecodeError::Overflow => "LEB128 value overflows 64 bits"@,
        }
    }
}

/// The LEB128 bytes of `v`: seven bits per byte, least significant group
/// first, the high bit set on every byte but the last.
pub open spec fn leb128_encoding(v: nat) -> Seq<u8>
    decreases v,
{
    if v < 128 {
        seq![v as u8]
    } else {
        seq![(v % 128 + 128) as u8] + leb128_encoding(v / 128)
    }
}

/// One more than the largest value that the bytes from the `group`-th
/// seven-bit group on may carry without overflowing 64 bits.
pub open spec fn group_limit(group: nat) -> nat
    decreases 9 - group,
{
    if group >= 9 {
        2
    } else {
        128 * group_limit(group + 1)
    }
}

/// Reads one LEB128 integer from the front of `bytes`, whose first byte holds
/// the `group`-th seven-bit group: the value and the number of bytes read.
/// The tenth group may only hold 0 or 1 and must end the integer.
pub open spec fn leb128_decode_from(bytes: Seq<u8>, group: nat) -> Result<(nat, nat), DecodeError>
    decreases bytes.len(),
{
    if bytes.len() == 0 {
        Err(DecodeError::UnexpectedEof)
    } else if group >= 9 && bytes[0] > 1 {
        Err(DecodeError::Overflow)
    } else if bytes[0] < 128 {
        Ok((bytes[0] as nat, 1))
    } else {
        match leb128_decode_from(bytes.drop_first(), group + 1) {
            Ok((v, n)) => Ok(((bytes[0] - 128) as nat + 128 * v, n + 1)),
            Err(e) => Err(e),
        }
    }
}

/// Reads one LEB128 integer from the front of `bytes`.
pub open spec fn leb128_decode(bytes: Seq<u8>) -> Result<(nat, nat), DecodeError> {
    leb128_decode_from(bytes, 0)
}

/// What [`decode_leb128_u64`] returns for `bytes` read from `pos`: the value
/// and the position just past it.
pub open spec fn leb128_decode_at(bytes: Seq<u8>, pos: int) -> Result<(u64, usize), DecodeError> {
    match leb128_decode(bytes.skip(pos)) {
        Ok((v, n)) => Ok((v as u64, (pos + n) as usize)),
        Err(e) => Err(e),
    }
}

/// The first group's limit is 2^64.
proof fn lemma_group_limit_zero()
    ensures
        group_limit(0) == 0x1_0000_0000_0000_0000,
{
    assert(group_limit(9) == 2);
    assert(group_limit(8) == 0x100);
    assert(group_limit(7) == 0x8000);
    assert(group_limit(6) == 0x40_0000);
    assert(group_limit(5) == 0x2000_0000);
    assert(group_limit(4) == 0x10_0000_0000);
    assert(group_limit(3) == 0x800_0000_0000);
    assert(group_limit(2) == 0x4_0000_0000_0000);
    assert(group_limit(1) == 0x200_0000_0000_0000);
}

proof fn lemma_group_limit(group: nat)
    requires
        group <= 9,
    ensures
        group_limit(group) <= 0x1_0000_0000_0000_0000,
        group_limit(group) >= 2,
    decreases 9 - group,
{
    if group < 9 {
        lemma_group_limit(group + 1);
        lemma_group_limit_zero();
        lemma_group_limit_mono(group);
    }
}

proof fn lemma_group_limit_mono(group: nat)
    requires
        group <= 9,
    ensures
        group_limit(group) <= group_limit(0),
    decreases group,
{
    if group > 0 {
        lemma_group_limit_mono((group - 1) as nat);
    }
}

/// Every integer that decodes from the `group`-th group on is below the
/// limit of that group, and its bytes lie within the input.
proof fn lemma_decode_bounds(bytes: Seq<u8>, group: nat)
    requires
        group <= 9,
    ensures
        leb128_decode_from(bytes, group) matches Ok((v, n)) ==> v < group_limit(group) && 1 <= n
            <= bytes.len() && n <= 10 - group,
    decreases bytes.len(),
{
    lemma_group_limit(group);
    if group < 9 {
        lemma_group_limit(group + 1);
    }
    if bytes.len() > 0 && !(group >= 9 && bytes[0] > 1) && bytes[0] >= 128 {
        if group < 9 {
            lemma_decode_bounds(bytes.drop_first(), group + 1);
        }
    }
}

/// The decoded value always fits in 64 bits and takes at most ten bytes.
pub proof fn lemma_decode_fits(bytes: Seq<u8>)
    ensures
        leb128_decode(bytes) matches Ok((v, n)) ==> v <= u64::MAX && 1 <= n <= bytes.len() && n
            <= 10,
{
    lemma_decode_bounds(bytes, 0);
    lemma_group_limit(0);
    lemma_group_limit_zero();
}

proof fn lemma_roundtrip_from(v: nat, rest: Seq<u8>, group: nat)
    requires
        group <= 9,
        v < group_limit(group),
    ensures
        leb128_decode_from(leb128_encoding(v) + rest, group) == Ok::<(nat, nat), DecodeError>(
            (v, leb128_encoding(v).len()),
        ),
    decreases v,
{
    let bytes = leb128_encoding(v) + rest;
    if v < 128 {
        assert(bytes[0] == v as u8);
    } else {
        assert(group < 9);
        lemma_roundtrip_from(v / 128, rest, group + 1);
        assert(bytes.drop_first() == leb128_encoding(v / 128) + rest);
        assert(bytes[0] == (v % 128 + 128) as u8);
    }
}

/// Decoding the encoding of `v`, whatever follows it, gives back `v` and
/// the length of its encoding.
pub proof fn lemma_leb128_roundtrip(v: u64, rest: Seq<u8>)
    ensures
        leb128_decode(leb128_encoding(v as nat) + rest) == Ok::<(nat, nat), DecodeError>(
            (v as nat, leb128_encoding(v as nat).len()),
        ),
        1 <= leb128_encoding(v as nat).len() <= 10,
{
    lemma_group_limit_zero();
    lemma_roundtrip_from(v as nat, rest, 0);
    lemma_decode_bounds(leb128_encoding(v as nat) + rest, 0);
}

/// Appends the LEB128 encoding of `value` to `buf`.
pub fn encode_leb128_u64(value: u64, buf: &mut Vec<u8>)
    ensures
        final(buf)@ == old(buf)@ + leb128_encoding(value as nat),
{
    let mut v = value;
    while v >= 128
        invariant
            old(buf)@ + leb128_encoding(value as nat) == buf@ + leb128_encoding(v as nat),
        decreases v,
    {
        let ghost before = buf@;
        let ghost v0 = v as nat;
        let byte = (v % 128 + 128) as u8;
        buf.push(byte);
        v = v / 128;
        assert(leb128_encoding(v0) == seq![byte] + leb128_encoding(v as nat));
        assert(before + (seq![byte] + leb128_encoding(v as nat)) =~= buf@ + leb128_encoding(
            v as nat,
        ));
    }
    let ghost before = buf@;
    buf.push(v as u8);
    assert(before + leb128_encoding(v as nat) =~= buf@);
}

fn decode_from(buf: &[u8], pos: usize, group: u8) -> (res: Result<(u64, usize), DecodeError>)
    requires
        pos <= buf@.len(),
        group <= 9,
    ensures
        match leb128_decode_from(buf@.skip(pos as int), group as nat) {
            Ok((v, n)) => res == Ok::<(u64, usize), DecodeError>((v as u64, (pos + n) as usize)),
            Err(e) => res == Err::<(u64, usize), DecodeError>(e),
        },
    decreases buf@.len() - pos,
{
    let ghost rest = buf@.skip(pos as int);
    proof {
        lemma_decode_bounds(rest, group as nat);
        lemma_group_limit(group as nat);
    }
    if pos >= buf.len() {
        return Err(DecodeError::UnexpectedEof);
    }
    let b = buf[pos];
    assert(rest[0] == b);
    if group >= 9 && b > 1 {
        return Err(DecodeError::Overflow);
    }
    if b < 128 {
        return Ok((b as u64, pos + 1));
    }
    assert(rest.drop_first() =~= buf@.skip(pos + 1));
    proof {
        lemma_decode_bounds(rest.drop_first(), (group + 1) as nat);
        lemma_group_limit((group + 1) as nat);
    }
    match decode_from(buf, pos + 1, group + 1) {
        Ok((v, end)) => Ok(((b - 128) as u64 + 128 * v, end)),
        Err(e) => Err(e),
    }
}

/// Reads one LEB128 integer from `buf` starting at `pos`: its value and
/// the position just past its last byte.
pub fn decode_leb128_u64(buf: &[u8], pos: usize) -> (res: Result<(u64, usize), DecodeError>)
    requires
        pos <= buf@.len(),
    ensures
        res == leb128_decode_at(buf@, pos as int),
        res matches Ok((v, end)) ==> pos < end <= buf@.len(),
        res matches Ok((v, end)) ==> leb128_decode(buf@.skip(pos as int))
            == Ok::<(nat, nat), DecodeError>((v as nat, (end - pos) as nat)),
{
    let len = buf.len();
    proof {
        assert(len == buf@.len());
        lemma_decode_fits(buf@.skip(pos as int));
    }
    let res = decode_from(buf, pos, 0);
    proof {
        if let Ok((v, n)) = leb128_decode(buf@.skip(pos as int)) {
            assert(v <= u64::MAX && n <= buf@.len() - pos);
            assert((v as u64) as nat == v);
        }

    }
    res
}

} // verus!
