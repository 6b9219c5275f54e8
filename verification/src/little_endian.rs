//! Fixed-width little-endian integers, as the record header stores them.

use vstd::prelude::*;

verus! {

/// One more than the largest number that `width` bytes can hold.
pub open spec fn le_limit(width: nat) -> nat
    decreases width,
{
    if width == 0 {
        1
    } else {
        256 * le_limit((width - 1) as nat)
    }
}

/// The `width` lowest base-256 digits of `value`, least significant first.
pub open spec fn le_bytes(value: nat, width: nat) -> Seq<u8>
    decreases width,
{
    if width == 0 {
        Seq::empty()
    } else {
        seq![(value % 256) as u8] + le_bytes(value / 256, (width - 1) as nat)
    }
}

/// The number whose base-256 digits, least significant first, are `bytes`.
pub open spec fn le_value(bytes: Seq<u8>) -> nat
    decreases bytes.len(),
{
    if bytes.len() == 0 {
        0
    } else {
        bytes[0] as nat + 256 * le_value(bytes.drop_first())
    }
}

/// `le_bytes` yields exactly `width` bytes.
pub proof fn lemma_le_bytes_len(value: nat, width: nat)
    ensures
        le_bytes(value, width).len() == width,
    decreases width,
{
    if width > 0 {
        lemma_le_bytes_len(value / 256, (width - 1) as nat);
    }
}

/// A byte string of length `n` denotes a number below `le_limit(n)`.
pub proof fn lemma_le_value_bound(bytes: Seq<u8>)
    ensures
        le_value(bytes) < le_limit(bytes.len()),
    decreases bytes.len(),
{
    if bytes.len() > 0 {
        lemma_le_value_bound(bytes.drop_first());
    }
}

/// More bytes hold at least as much.
pub proof fn lemma_le_limit_monotonic(narrow: nat, wide: nat)
    requires
        narrow <= wide,
    ensures
        1 <= le_limit(narrow) <= le_limit(wide),
    decreases wide,
{
    if narrow < wide {
        lemma_le_limit_monotonic(narrow, (wide - 1) as nat);
    } else if narrow > 0 {
        lemma_le_limit_monotonic((narrow - 1) as nat, (narrow - 1) as nat);
    }
}

/// Two bytes hold a `u16`, sixteen bytes hold a `u128`.
pub proof fn lemma_le_limit_values()
    ensures
        le_limit(2) == 0x1_0000,
        le_limit(16) == 0x1_0000_0000_0000_0000_0000_0000_0000_0000,
{
    reveal_with_fuel(le_limit, 17);
}

/// Decoding what was encoded gives the number back, when it fits the width.
pub proof fn lemma_le_value_of_bytes(value: nat, width: nat)
    requires
        value < le_limit(width),
    ensures
        le_value(le_bytes(value, width)) == value,
    decreases width,
{
    if width > 0 {
        let rest = le_bytes(value / 256, (width - 1) as nat);
        lemma_le_value_of_bytes(value / 256, (width - 1) as nat);
        assert(le_bytes(value, width).drop_first() =~= rest);
    }
}

/// Encoding what was decoded gives the bytes back.
pub proof fn lemma_le_bytes_of_value(bytes: Seq<u8>)
    ensures
        le_bytes(le_value(bytes), bytes.len()) == bytes,
    decreases bytes.len(),
{
    if bytes.len() > 0 {
        lemma_le_bytes_of_value(bytes.drop_first());
        assert(le_bytes(le_value(bytes), bytes.len()) =~= bytes);
    } else {
        assert(le_bytes(le_value(bytes), bytes.len()) =~= bytes);
    }
}

/// Appends the `width` low-order bytes of `value` to `buf`, least
/// significant first.
pub fn push_le(buf: &mut Vec<u8>, value: u128, width: usize)
    ensures
        final(buf)@ == old(buf)@ + le_bytes(value as nat, width as nat),
{
    let mut rest: u128 = value;
    let mut done: usize = 0;
    while done < width
        invariant
            done <= width,
            buf@ + le_bytes(rest as nat, (width - done) as nat) == old(buf)@ + le_bytes(
                value as nat,
                width as nat,
            ),
        decreases width - done,
    {
        let ghost before = buf@;
        let digit: u8 = (rest % 256) as u8;
        buf.push(digit);
        proof {
            let tail = le_bytes((rest / 256) as nat, (width - done - 1) as nat);
            assert(le_bytes(rest as nat, (width - done) as nat) == seq![digit] + tail);
            assert(before.push(digit) + tail =~= before + (seq![digit] + tail));
        }
        rest = rest / 256;
        done = done + 1;
    }
}

/// Reads the little-endian number that `bytes` holds.
pub fn read_le(bytes: &[u8]) -> (value: u128)
    requires
        bytes@.len() <= 16,
    ensures
        value == le_value(bytes@),
{
    let mut value: u128 = 0;
    let mut at: usize = bytes.len();
    assert(bytes@.subrange(at as int, bytes@.len() as int) =~= Seq::<u8>::empty());
    while at > 0
        invariant
            at <= bytes@.len() <= 16,
            value == le_value(bytes@.subrange(at as int, bytes@.len() as int)),
        decreases at,
    {
        proof {
            let high = bytes@.subrange(at as int, bytes@.len() as int);
            let next = bytes@.subrange(at - 1, bytes@.len() as int);
            assert(next.drop_first() =~= high);
            lemma_le_value_bound(next);
            lemma_le_limit_monotonic(next.len(), 16);
            lemma_le_limit_values();
        }
        at = at - 1;
        value = value * 256 + bytes[at] as u128;
    }
    assert(bytes@.subrange(0, bytes@.len() as int) =~= bytes@);
    value
}

} // verus!
