//! The packet format of an audio stream: each packet is its length as eight bytes, least
//! significant first, followed by the payload.

use vstd::prelude::*;

verus! {

/// The number of bytes in front of a payload.
pub const PREFIX_LEN: usize = 8;

/// The `width` low bytes of `n`, least significant first.
pub open spec fn le_bytes(n: nat, width: nat) -> Seq<u8>
    decreases width,
{
    if width == 0 {
        Seq::empty()
    } else {
        seq![(n % 256) as u8] + le_bytes(n / 256, (width - 1) as nat)
    }
}

/// The number that `bytes` write down, least significant first.
pub open spec fn le_value(bytes: Seq<u8>) -> nat
    decreases bytes.len(),
{
    if bytes.len() == 0 {
        0
    } else {
        bytes[0] as nat + 256 * le_value(bytes.drop_first())
    }
}

/// How many numbers fit in `width` bytes.
pub open spec fn byte_range(width: nat) -> nat
    decreases width,
{
    if width == 0 {
        1
    } else {
        256 * byte_range((width - 1) as nat)
    }
}

/// The prefix of a payload of `len` bytes.
pub open spec fn prefix(len: nat) -> Seq<u8> {
    le_bytes(len, PREFIX_LEN as nat)
}

/// The length of the buffer that a reader makes for the payload behind a prefix: the
/// announced number, cut down to the machine's word.
pub open spec fn announced_len(bytes: Seq<u8>) -> usize {
    (le_value(bytes) as u64) as usize
}

/// A packet on the wire.
pub open spec fn framed(payload: Seq<u8>) -> Seq<u8> {
    prefix(payload.len()) + payload
}

/// Packets on the wire, one after the other.
pub open spec fn framed_all(payloads: Seq<Seq<u8>>) -> Seq<u8>
    decreases payloads.len(),
{
    if payloads.len() == 0 {
        Seq::empty()
    } else {
        framed(payloads[0]) + framed_all(payloads.drop_first())
    }
}

/// What a reader takes off the front of a stream: eight bytes, then as many as those
/// announce. The result is the payload and what follows it, or nothing where the
/// stream ends before that.
pub open spec fn take_packet(stream: Seq<u8>) -> Option<(Seq<u8>, Seq<u8>)> {
    if stream.len() < PREFIX_LEN {
        None
    } else {
        let len = announced_len(stream.take(PREFIX_LEN as int));
        let behind = stream.skip(PREFIX_LEN as int);
        if behind.len() < len {
            None
        } else {
            Some((behind.take(len as int), behind.skip(len as int)))
        }
    }
}

/// What a reader has after `n` packets, and what is left of the stream.
pub open spec fn take_packets(stream: Seq<u8>, n: nat) -> Option<(Seq<Seq<u8>>, Seq<u8>)>
    decreases n,
{
    if n == 0 {
        Some((Seq::empty(), stream))
    } else {
        match take_packet(stream) {
            None => None,
            Some((payload, rest)) => match take_packets(rest, (n - 1) as nat) {
                None => None,
                Some((payloads, tail)) => Some((seq![payload] + payloads, tail)),
            },
        }
    }
}

proof fn lemma_le_bytes_len(n: nat, width: nat)
    ensures
        le_bytes(n, width).len() == width,
    decreases width,
{
    if width > 0 {
        lemma_le_bytes_len(n / 256, (width - 1) as nat);
    }
}

/// Every prefix has eight bytes.
pub proof fn lemma_prefix_len(len: nat)
    ensures
        prefix(len).len() == PREFIX_LEN,
{
    lemma_le_bytes_len(len, PREFIX_LEN as nat);
}

proof fn lemma_le_value_bound(bytes: Seq<u8>)
    ensures
        le_value(bytes) < byte_range(bytes.len()),
    decreases bytes.len(),
{
    if bytes.len() > 0 {
        lemma_le_value_bound(bytes.drop_first());
    }
}

proof fn lemma_prefix_range()
    ensures
        byte_range(8) == u64::MAX + 1,
{
    reveal_with_fuel(byte_range, 9);
}

proof fn lemma_byte_range_grows(a: nat, b: nat)
    requires
        a <= b,
    ensures
        byte_range(a) <= byte_range(b),
    decreases b,
{
    if a < b {
        lemma_byte_range_grows(a, (b - 1) as nat);
    }
}

/// A number that fits in `width` bytes is read back from its bytes.
pub proof fn law_le_bytes_round_trip(n: nat, width: nat)
    requires
        n < byte_range(width),
    ensures
        le_bytes(n, width).len() == width,
        le_value(le_bytes(n, width)) == n,
    decreases width,
{
    lemma_le_bytes_len(n, width);
    if width > 0 {
        law_le_bytes_round_trip(n / 256, (width - 1) as nat);
        assert(le_bytes(n, width).drop_first() =~= le_bytes(n / 256, (width - 1) as nat));
    }
}

/// Two payload lengths have the same prefix only if they are the same.
pub proof fn law_prefix_is_unambiguous(a: nat, b: nat)
    requires
        a <= u64::MAX,
        b <= u64::MAX,
        prefix(a) == prefix(b),
    ensures
        a == b,
{
    lemma_prefix_range();
    law_le_bytes_round_trip(a, 8);
    law_le_bytes_round_trip(b, 8);
}

/// A reader takes a framed payload off the front of a stream whole, and leaves what
/// follows it untouched.
pub proof fn law_packet_round_trip(payload: Seq<u8>, rest: Seq<u8>)
    requires
        payload.len() <= usize::MAX,
    ensures
        take_packet(framed(payload) + rest) == Some((payload, rest)),
{
    lemma_prefix_range();
    law_le_bytes_round_trip(payload.len(), 8);
    let stream = framed(payload) + rest;
    assert(stream.take(8) =~= prefix(payload.len()));
    assert(stream.skip(8) =~= payload + rest);
    assert((payload + rest).take(payload.len() as int) =~= payload);
    assert((payload + rest).skip(payload.len() as int) =~= rest);
}

/// A reader gets back the packets that a writer framed, all of them and in order, and
/// leaves what follows them untouched.
pub proof fn law_stream_round_trip(payloads: Seq<Seq<u8>>, rest: Seq<u8>)
    requires
        forall|i: int| 0 <= i < payloads.len() ==> #[trigger] payloads[i].len() <= usize::MAX,
    ensures
        take_packets(framed_all(payloads) + rest, payloads.len()) == Some((payloads, rest)),
    decreases payloads.len(),
{
    if payloads.len() == 0 {
        assert(framed_all(payloads) + rest =~= rest);
        assert(payloads =~= Seq::empty());
    } else {
        let first = payloads[0];
        let others = payloads.drop_first();
        assert forall|i: int| 0 <= i < others.len() implies #[trigger] others[i].len()
            <= usize::MAX by {
            assert(others[i] == payloads[i + 1]);
        }
        law_stream_round_trip(others, rest);
        law_packet_round_trip(first, framed_all(others) + rest);
        assert(framed_all(payloads) + rest =~= framed(first) + (framed_all(others) + rest));
        assert(seq![first] + others =~= payloads);
    }
}

/// The eight bytes that announce a payload of `len` bytes.
pub fn length_prefix(len: usize) -> (bytes: Vec<u8>)
    ensures
        bytes@ == prefix(len as nat),
        bytes@.len() == PREFIX_LEN,
{
    let mut bytes: Vec<u8> = Vec::new();
    let mut rest: u64 = len as u64;
    let mut i: usize = 0;
    proof {
        lemma_le_bytes_len(len as nat, 8);
    }
    while i < PREFIX_LEN
        invariant
            i <= PREFIX_LEN,
            bytes@ + le_bytes(rest as nat, (PREFIX_LEN - i) as nat) == prefix(len as nat),
        decreases PREFIX_LEN - i,
    {
        let low = (rest % 256) as u8;
        let ghost before = bytes@;
        bytes.push(low);
        proof {
            let tail = le_bytes(rest as nat / 256, (PREFIX_LEN - i - 1) as nat);
            assert(before + (seq![low] + tail) =~= bytes@ + tail);
        }
        rest = rest / 256;
        i = i + 1;
    }
    assert(bytes@ + le_bytes(rest as nat, 0) =~= bytes@);
    bytes
}

/// The payload length that eight bytes announce.
pub fn prefix_value(bytes: &[u8]) -> (len: u64)
    requires
        bytes@.len() == PREFIX_LEN,
    ensures
        len == le_value(bytes@),
{
    let mut value: u64 = 0;
    let mut i: usize = PREFIX_LEN;
    assert(bytes@.skip(8) =~= Seq::empty());
    while i > 0
        invariant
            i <= PREFIX_LEN,
            bytes@.len() == PREFIX_LEN,
            value == le_value(bytes@.skip(i as int)),
        decreases i,
    {
        i = i - 1;
        proof {
            let from = bytes@.skip(i as int);
            assert(from.drop_first() =~= bytes@.skip(i + 1));
            lemma_le_value_bound(from);
            lemma_byte_range_grows(from.len(), 8);
            lemma_prefix_range();
        }
        value = value * 256 + bytes[i] as u64;
    }
    assert(bytes@.skip(0) =~= bytes@);
    value
}

/// Whether a buffer can have the length that eight bytes announce.
pub fn announces_a_buffer(bytes: &[u8]) -> (can: bool)
    requires
        bytes@.len() == PREFIX_LEN,
    ensures
        can == (announced_len(bytes@) <= isize::MAX),
{
    prefix_value(bytes) as usize <= isize::MAX as usize
}

/// The byte at place `i` of a number is its digit of that place to the base of 256.
pub proof fn law_bytes_are_digits(n: nat, width: nat, i: nat)
    requires
        i < width,
    ensures
        le_bytes(n, width).len() == width,
        le_bytes(n, width)[i as int] == (n / byte_range(i)) % 256,
    decreases width,
{
    lemma_le_bytes_len(n, width);
    if i > 0 {
        let j = (i - 1) as nat;
        lemma_le_bytes_len(n / 256, (width - 1) as nat);
        law_bytes_are_digits(n / 256, (width - 1) as nat, j);
        lemma_byte_range_grows(0, j);
        vstd::arithmetic::div_mod::lemma_div_denominator(n as int, 256, byte_range(j) as int);
    } else {
        assert(n / 1 == n);
    }
}

/// A length prefix has eight bytes, and the byte at place `i` is the digit of that place of the
/// length, to the base of 256.
pub proof fn law_prefix_is_the_length(len: nat, i: nat)
    requires
        i < 8,
    ensures
        prefix(len).len() == 8,
        prefix(len)[i as int] == (len / byte_range(i)) % 256,
{
    law_bytes_are_digits(len, 8, i);
}

/// Bytes are written down again by the number that they stand for.
pub proof fn law_le_value_round_trip(bytes: Seq<u8>)
    ensures
        le_bytes(le_value(bytes), bytes.len()) == bytes,
    decreases bytes.len(),
{
    if bytes.len() > 0 {
        let rest = bytes.drop_first();
        law_le_value_round_trip(rest);
        let n = le_value(bytes);
        assert(n % 256 == bytes[0] && n / 256 == le_value(rest));
        assert(seq![bytes[0]] + rest =~= bytes);
    } else {
        assert(le_bytes(0, 0) =~= bytes);
    }
}

/// The buffer for a payload has the length that its writer put in front of it.
pub proof fn law_announced_len_is_the_length(len: nat)
    requires
        len <= usize::MAX,
    ensures
        announced_len(prefix(len)) == len,
{
    lemma_prefix_range();
    law_le_bytes_round_trip(len, 8);
}

/// The buffer for a payload has the length that eight bytes stand for, where the machine can
/// write that length down.
pub proof fn law_announced_len_is_the_value(bytes: Seq<u8>)
    requires
        bytes.len() == 8,
        le_value(bytes) <= usize::MAX,
    ensures
        announced_len(bytes) == le_value(bytes),
{
}

} // verus!
