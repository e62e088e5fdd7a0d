//! Big-endian integers: what a byte sequence stands for and how a number is
//! written down in a fixed number of bytes.

use vstd::prelude::*;

verus! {

/// The number that `bytes` spells, most significant byte first.
pub open spec fn be_value(bytes: Seq<u8>) -> nat
    decreases bytes.len(),
{
    if bytes.len() == 0 {
        0
    } else {
        be_value(bytes.drop_last()) * 256 + bytes.last() as nat
    }
}

/// `value` written with `count` bytes, most significant byte first. Higher
/// digits that do not fit are dropped.
pub open spec fn be_bytes(value: nat, count: nat) -> Seq<u8>
    decreases count,
{
    if count == 0 {
        Seq::empty()
    } else {
        be_bytes(value / 256, (count - 1) as nat).push((value % 256) as u8)
    }
}

/// How many numbers `count` bytes can tell apart.
pub open spec fn be_range(count: nat) -> nat
    decreases count,
{
    if count == 0 {
        1
    } else {
        256 * be_range((count - 1) as nat)
    }
}

pub proof fn lemma_be_range_values()
    ensures
        be_range(1) == 0x100,
        be_range(2) == 0x1_0000,
        be_range(4) == 0x1_0000_0000,
        be_range(8) == 0x1_0000_0000_0000_0000,
{
    reveal_with_fuel(be_range, 9);
}

pub proof fn lemma_be_bytes_len(value: nat, count: nat)
    ensures
        be_bytes(value, count).len() == count,
    decreases count,
{
    if count > 0 {
        lemma_be_bytes_len(value / 256, (count - 1) as nat);
    }
}

pub proof fn lemma_be_value_bound(bytes: Seq<u8>)
    ensures
        be_value(bytes) < be_range(bytes.len()),
    decreases bytes.len(),
{
    if bytes.len() > 0 {
        lemma_be_value_bound(bytes.drop_last());
    }
}

/// Writing a number that fits and reading it back gives the number.
pub proof fn lemma_be_value_of_bytes(value: nat, count: nat)
    requires
        value < be_range(count),
    ensures
        be_value(be_bytes(value, count)) == value,
        be_bytes(value, count).len() == count,
    decreases count,
{
    lemma_be_bytes_len(value, count);
    if count > 0 {
        lemma_be_value_of_bytes(value / 256, (count - 1) as nat);
        assert(be_bytes(value, count).drop_last() =~= be_bytes(value / 256, (count - 1) as nat));
    }
}

/// Reading bytes and writing the number in as many bytes gives the bytes.
pub proof fn lemma_be_bytes_of_value(bytes: Seq<u8>)
    ensures
        be_bytes(be_value(bytes), bytes.len()) == bytes,
    decreases bytes.len(),
{
    if bytes.len() > 0 {
        lemma_be_bytes_of_value(bytes.drop_last());
        assert(be_bytes(be_value(bytes), bytes.len()) =~= bytes);
    }
}

/// Appends `value` to `out` in `count` big-endian bytes.
pub fn append_be(out: &mut Vec<u8>, value: u64, count: usize)
    ensures
        final(out)@ == old(out)@ + be_bytes(value as nat, count as nat),
    decreases count,
{
    if count > 0 {
        append_be(out, value / 256, count - 1);
        out.push((value % 256) as u8);
    }
    assert(out@ =~= old(out)@ + be_bytes(value as nat, count as nat));
}

/// The number spelled by the `count` bytes of `bytes` that start at `at`.
pub fn read_be(bytes: &[u8], at: usize, count: usize) -> (value: u64)
    requires
        at + count <= bytes@.len(),
        count <= 8,
    ensures
        value == be_value(bytes@.subrange(at as int, at + count)),
        value < be_range(count as nat),
{
    let mut value: u64 = 0;
    let mut i: usize = 0;
    let len: usize = bytes.len();
    assert(bytes@.subrange(at as int, at as int) =~= Seq::<u8>::empty());
    while i < count
        invariant
            i <= count <= 8,
            at + count <= len == bytes@.len(),
            value == be_value(bytes@.subrange(at as int, at + i)),
        decreases count - i,
    {
        let ghost head = bytes@.subrange(at as int, at + i);
        let ghost next = bytes@.subrange(at as int, at + i + 1);
        proof {
            lemma_be_value_bound(head);
            lemma_be_range_values();
            assert(next.drop_last() =~= head);
            reveal_with_fuel(be_range, 9);
        }
        value = value * 256 + bytes[at + i] as u64;
        i = i + 1;
    }
    proof {
        lemma_be_value_bound(bytes@.subrange(at as int, at + count));
    }
    value
}

} // verus!
