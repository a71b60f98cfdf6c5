//! Framing on a byte stream: each message is preceded by its length as
//! LEB128. The reader takes the prefix one byte at a time, as the bytes
//! arrive.

use crate::leb128::{encode_leb128_u64, leb128_encoding, lemma_leb128_roundtrip};
use vstd::arithmetic::div_mod::lemma_add_mod_noop;
use vstd::prelude::*;

verus! {

/// The number the seven-bit groups of `bytes` spell, least significant
/// group first; the high bit of each byte is not part of the number.
pub open spec fn groups_value(bytes: Seq<u8>) -> nat
    decreases bytes.len(),
{
    if bytes.len() == 0 {
        0
    } else {
        (bytes[0] % 128) as nat + 128 * groups_value(bytes.drop_first())
    }
}

/// 128 to the power `k`.
pub open spec fn pow128(k: nat) -> nat
    decreases k,
{
    if k == 0 {
        1
    } else {
        128 * pow128((k - 1) as nat)
    }
}

/// The frame length that the prefix bytes `bytes` give: the number their
/// groups spell, kept to its low 64 bits.
pub open spec fn frame_length(bytes: Seq<u8>) -> nat {
    groups_value(bytes) % 0x1_0000_0000_0000_0000
}

proof fn lemma_groups_value_push(bytes: Seq<u8>, b: u8)
    ensures
        groups_value(bytes.push(b)) == groups_value(bytes) + (b % 128) as nat * pow128(bytes.len()),
    decreases bytes.len(),
{
    if bytes.len() == 0 {
        assert(bytes.push(b).drop_first() =~= Seq::<u8>::empty());
        assert(pow128(0) == 1);
        assert(groups_value(bytes.push(b).drop_first()) == 0);
        assert(bytes.push(b)[0] == b);
    } else {
        let rest = bytes.drop_first();
        assert(bytes.push(b).drop_first() =~= rest.push(b));
        lemma_groups_value_push(rest, b);
        let x = (b % 128) as nat;
        let p = pow128(rest.len());
        assert(pow128(bytes.len()) == 128 * p);
        assert(bytes.push(b)[0] == bytes[0]);
        assert(128 * (groups_value(rest) + x * p) == 128 * groups_value(rest) + x * (128 * p))
            by (nonlinear_arith);
    }
}

proof fn lemma_pow128_le(k: nat, m: nat)
    requires
        k <= m,
    ensures
        pow128(k) <= pow128(m),
    decreases m,
{
    if k < m {
        lemma_pow128_le(k, (m - 1) as nat);
    }
}

proof fn lemma_pow128_fits(k: nat)
    requires
        k <= 9,
    ensures
        pow128(k) <= 0x8000_0000_0000_0000,
{
    lemma_pow128_le(k, 9);
    assert(pow128(0) == 1);
    assert(pow128(1) == 0x80);
    assert(pow128(2) == 0x4000);
    assert(pow128(3) == 0x20_0000);
    assert(pow128(4) == 0x1000_0000);
    assert(pow128(5) == 0x8_0000_0000);
    assert(pow128(6) == 0x400_0000_0000);
    assert(pow128(7) == 0x2_0000_0000_0000);
    assert(pow128(8) == 0x100_0000_0000_0000);
    assert(pow128(9) == 0x8000_0000_0000_0000);
}

/// Reads a frame's length prefix one byte at a time.
pub struct FrameLengthReader {
    length: u64,
    multiplier: u64,
    count: usize,
    consumed: Ghost<Seq<u8>>,
}

impl FrameLengthReader {
    #[verifier::type_invariant]
    closed spec fn consistent(self) -> bool {
        &&& self.count == self.consumed@.len()
        &&& self.count <= 10
        &&& self.length == frame_length(self.consumed@)
        &&& self.count < 10 ==> self.multiplier == pow128(self.count as nat)
    }

    /// The bytes read so far.
    pub closed spec fn consumed(&self) -> Seq<u8> {
        self.consumed@
    }

    /// A reader that has read nothing.
    pub fn new() -> (r: Self)
        ensures
            r.consumed() == Seq::<u8>::empty(),
    {
        FrameLengthReader { length: 0, multiplier: 1, count: 0, consumed: Ghost(Seq::empty()) }
    }

    /// Whether another byte may be read: at most ten bytes make a prefix.
    pub fn can_read(&self) -> (r: bool)
        ensures
            r == (self.consumed().len() < 10),
    {
        proof {
            use_type_invariant(self);
        }
        self.count < 10
    }

    /// Reads one byte of the prefix. A byte without the continuation bit
    /// ends the prefix, and the frame length is returned.
    pub fn read(&mut self, byte: u8) -> (r: Option<u64>)
        requires
            old(self).consumed().len() < 10,
        ensures
            final(self).consumed() == old(self).consumed().push(byte),
            byte < 128 ==> r == Some(frame_length(final(self).consumed()) as u64),
            byte >= 128 ==> r is None,
    {
        proof {
            use_type_invariant(&*self);
        }
        let ghost before = self.consumed@;
        let low = (byte % 128) as u64;
        let length = self.length.wrapping_add(low.wrapping_mul(self.multiplier));
        let count = self.count + 1;
        let multiplier = if count < 10 {
            proof {
                lemma_pow128_fits(count as nat);
            }
            self.multiplier * 128
        } else {
            self.multiplier
        };
        proof {
            let n: int = 0x1_0000_0000_0000_0000;
            lemma_groups_value_push(before, byte);
            let v = groups_value(before) as int;
            let t = low as int * self.multiplier as int;
            assert((low.wrapping_mul(self.multiplier)) as int == t % n);
            lemma_add_mod_noop(v, t, n);
            assert((v % n) % n == v % n) by {
                vstd::arithmetic::div_mod::lemma_mod_twice(v, n);
            }
            assert(length as int == ((v % n) + (t % n)) % n);
        }
        *self = FrameLengthReader {
            length,
            multiplier,
            count,
            consumed: Ghost(before.push(byte)),
        };
        if byte < 128 {
            Some(length)
        } else {
            None
        }
    }
}

/// The length prefix of a frame whose message is `len` bytes long.
pub fn frame_prefix(len: u64) -> (prefix: Vec<u8>)
    ensures
        prefix@ == leb128_encoding(len as nat),
{
    let mut prefix = Vec::new();
    encode_leb128_u64(len, &mut prefix);
    assert(prefix@ =~= leb128_encoding(len as nat));
    prefix
}

proof fn lemma_encoding_groups(v: nat)
    ensures
        groups_value(leb128_encoding(v)) == v,
        leb128_encoding(v).last() < 128,
        forall|i: int| 0 <= i < leb128_encoding(v).len() - 1 ==> #[trigger] leb128_encoding(v)[i]
            >= 128,
    decreases v,
{
    let e = leb128_encoding(v);
    if v < 128 {
        assert(e.drop_first() =~= Seq::<u8>::empty());
        assert(groups_value(e.drop_first()) == 0);
        assert(e[0] == v as u8);
    } else {
        lemma_encoding_groups(v / 128);
        let rest = leb128_encoding(v / 128);
        assert(e.drop_first() =~= rest);
        assert(e[0] == (v % 128 + 128) as u8);
        assert(e[0] % 128 == v % 128);
        assert forall|i: int| 0 <= i < e.len() - 1 implies #[trigger] e[i] >= 128 by {
            if i > 0 {
                assert(e[i] == rest[i - 1]);
            }
        }
    }
}

/// A frame's length prefix reads back as the length it was written with:
/// it takes at most ten bytes, every byte but the last carries the
/// continuation bit, and the number its groups spell is the length.
pub proof fn lemma_frame_prefix_roundtrip(len: u64)
    ensures
        ({
            let prefix = leb128_encoding(len as nat);
            &&& 1 <= prefix.len() <= 10
            &&& forall|i: int| 0 <= i < prefix.len() - 1 ==> #[trigger] prefix[i] >= 128
            &&& prefix.last() < 128
            &&& frame_length(prefix) == len
        }),
{
    lemma_leb128_roundtrip(len, Seq::<u8>::empty());
    lemma_encoding_groups(len as nat);
}

/// A message as it is written on a byte stream: its length as LEB128,
/// then its bytes.
pub open spec fn frame(message: Seq<u8>) -> Seq<u8> {
    leb128_encoding(message.len()) + message
}

/// The messages `messages` written one after another.
pub open spec fn frames(messages: Seq<Seq<u8>>) -> Seq<u8>
    decreases messages.len(),
{
    if messages.len() == 0 {
        seq![]
    } else {
        frame(messages[0]) + frames(messages.drop_first())
    }
}

/// Where the length prefix at the front of `stream` ends, looking from
/// byte `i` on: just past the first byte without the continuation bit,
/// which must come within the first ten bytes.
pub open spec fn prefix_end(stream: Seq<u8>, i: nat) -> Option<nat>
    decreases 10 - i,
{
    if i >= 10 || i >= stream.len() {
        None
    } else if stream[i as int] < 128 {
        Some(i + 1)
    } else {
        prefix_end(stream, i + 1)
    }
}

/// Reads one message from the front of `stream`, as a reader does that
/// takes the length prefix byte by byte and then that many bytes: the
/// message and the number of bytes it took, or `None` when the stream ends
/// first or the prefix runs past ten bytes.
pub open spec fn read_frame(stream: Seq<u8>) -> Option<(Seq<u8>, nat)> {
    match prefix_end(stream, 0) {
        Some(n) => {
            let len = frame_length(stream.take(n as int));
            if stream.len() >= n + len {
                Some((stream.subrange(n as int, (n + len) as int), n + len))
            } else {
                None
            }
        },
        None => None,
    }
}

/// Reads `k` messages from the front of `stream`, one after another.
pub open spec fn read_frames(stream: Seq<u8>, k: nat) -> Option<Seq<Seq<u8>>>
    decreases k,
{
    if k == 0 {
        Some(seq![])
    } else {
        match read_frame(stream) {
            Some((message, n)) => match read_frames(stream.skip(n as int), (k - 1) as nat) {
                Some(rest) => Some(seq![message] + rest),
                None => None,
            },
            None => None,
        }
    }
}

proof fn lemma_prefix_end_at(stream: Seq<u8>, i: nat, m: nat)
    requires
        i < m <= 10,
        m <= stream.len(),
        forall|j: int| i <= j < m - 1 ==> stream[j] >= 128,
        stream[m - 1] < 128,
    ensures
        prefix_end(stream, i) == Some(m),
    decreases m - i,
{
    if i < m - 1 {
        lemma_prefix_end_at(stream, i + 1, m);
    }
}

/// Reading a message back from a stream that starts with it gives the
/// message and the length of its frame, whatever follows.
pub proof fn lemma_frame_roundtrip(message: Seq<u8>, rest: Seq<u8>)
    requires
        message.len() <= u64::MAX,
    ensures
        read_frame(frame(message) + rest) == Some((message, frame(message).len())),
{
    let len = message.len() as u64;
    let e = leb128_encoding(len as nat);
    let stream = frame(message) + rest;
    lemma_frame_prefix_roundtrip(len);
    assert forall|j: int| 0 <= j < e.len() - 1 implies stream[j] >= 128 by {
        assert(stream[j] == e[j]);
    }
    assert(stream[e.len() - 1] == e[e.len() - 1]);
    lemma_prefix_end_at(stream, 0, e.len());
    assert(stream.take(e.len() as int) =~= e);
    assert(stream.subrange(e.len() as int, (e.len() + message.len()) as int) =~= message);
}

/// Messages written one after another on a byte stream are read back as
/// the same messages, in order, each with its own boundaries, whatever
/// follows them.
pub proof fn lemma_frames_roundtrip(messages: Seq<Seq<u8>>, rest: Seq<u8>)
    requires
        forall|i: int| 0 <= i < messages.len() ==> (#[trigger] messages[i]).len() <= u64::MAX,
    ensures
        read_frames(frames(messages) + rest, messages.len()) == Some(messages),
    decreases messages.len(),
{
    if messages.len() > 0 {
        let tail = messages.drop_first();
        let first = frame(messages[0]);
        let stream = frames(messages) + rest;
        assert(stream =~= first + (frames(tail) + rest));
        lemma_frame_roundtrip(messages[0], frames(tail) + rest);
        assert(stream.skip(first.len() as int) =~= frames(tail) + rest);
        assert forall|i: int| 0 <= i < tail.len() implies (#[trigger] tail[i]).len() <= u64::MAX by {
            assert(tail[i] == messages[i + 1]);
        }
        lemma_frames_roundtrip(tail, rest);
        assert(seq![messages[0]] + tail =~= messages);
    }
}

} // verus!
