//! Big-endian numbers.

use vstd::prelude::*;

verus! {

/// The `width` low-order bytes of `value`, most significant first.
pub open spec fn be_bytes(value: nat, width: nat) -> Seq<u8>
    decreases width,
{
    if width == 0 {
        seq![]
    } else {
        be_bytes(value / 256, (width - 1) as nat).push((value % 256) as u8)
    }
}

/// The number that `bytes` write out, most significant byte first.
pub open spec fn be_value(bytes: Seq<u8>) -> nat
    decreases bytes.len(),
{
    if bytes.len() == 0 {
        0
    } else {
        be_value(bytes.drop_last()) * 256 + bytes.last() as nat
    }
}

/// The number of values that `width` bytes can write out.
pub open spec fn be_range(width: nat) -> nat
    decreases width,
{
    if width == 0 {
        1
    } else {
        256 * be_range((width - 1) as nat)
    }
}

/// `be_bytes` writes exactly `width` bytes.
pub proof fn lemma_be_bytes_len(value: nat, width: nat)
    ensures
        be_bytes(value, width).len() == width,
    decreases width,
{
    if width > 0 {
        lemma_be_bytes_len(value / 256, (width - 1) as nat);
    }
}

/// Reading a number back from its big-endian bytes gives the number, if it fits the width.
pub proof fn lemma_be_round_trip(value: nat, width: nat)
    requires
        value < be_range(width),
    ensures
        be_value(be_bytes(value, width)) == value,
    decreases width,
{
    if width > 0 {
        lemma_be_round_trip(value / 256, (width - 1) as nat);
        let bytes = be_bytes(value, width);
        assert(bytes.drop_last() =~= be_bytes(value / 256, (width - 1) as nat));
    }
}

/// The number that a sequence of bytes writes out is below the range of its length.
pub proof fn lemma_be_value_bound(bytes: Seq<u8>)
    ensures
        be_value(bytes) < be_range(bytes.len()),
    decreases bytes.len(),
{
    if bytes.len() > 0 {
        lemma_be_value_bound(bytes.drop_last());
    }
}

/// The ranges of the two widths that the packet format uses.
pub proof fn lemma_be_ranges()
    ensures
        be_range(2) == 0x1_0000,
        be_range(8) == 0x1_0000_0000_0000_0000,
{
    reveal_with_fuel(be_range, 9);
}

/// The number in the eight bytes from `at` on, each byte with its weight.
pub open spec fn weighed(data: Seq<u8>, at: int) -> int {
    data[at] * 0x100_0000_0000_0000 + data[at + 1] * 0x1_0000_0000_0000 + data[at + 2]
        * 0x100_0000_0000 + data[at + 3] * 0x1_0000_0000 + data[at + 4] * 0x100_0000 + data[at + 5]
        * 0x1_0000 + data[at + 6] * 0x100 + data[at + 7]
}

/// Of two bytes the first counts 256 times as much as the second.
pub proof fn law_two_bytes(bytes: Seq<u8>)
    requires
        bytes.len() == 2,
    ensures
        be_value(bytes) == bytes[0] * 256 + bytes[1],
{
    reveal_with_fuel(be_value, 3);
    assert(bytes.drop_last().drop_last() =~= seq![]);
}

/// Of eight bytes each counts 256 times as much as the next.
pub proof fn law_eight_bytes(bytes: Seq<u8>)
    requires
        bytes.len() == 8,
    ensures
        be_value(bytes) == weighed(bytes, 0),
{
    let b7 = bytes.drop_last();
    let b6 = b7.drop_last();
    let b5 = b6.drop_last();
    let b4 = b5.drop_last();
    let b3 = b4.drop_last();
    let b2 = b3.drop_last();
    assert(be_value(b7) == be_value(b6) * 256 + bytes[6]);
    assert(be_value(b6) == be_value(b5) * 256 + bytes[5]);
    assert(be_value(b5) == be_value(b4) * 256 + bytes[4]);
    assert(be_value(b4) == be_value(b3) * 256 + bytes[3]);
    assert(be_value(b3) == be_value(b2) * 256 + bytes[2]);
    law_two_bytes(b2);
}

/// The two bytes of a 16-bit number, and the eight bytes of a 64-bit number, write out that
/// number.
pub proof fn law_numbers_are_written_out(short: u16, long: u64)
    ensures
        be_bytes(short as nat, 2).len() == 2,
        be_bytes(short as nat, 2)[0] * 256 + be_bytes(short as nat, 2)[1] == short,
        be_bytes(long as nat, 8).len() == 8,
        weighed(be_bytes(long as nat, 8), 0) == long,
{
    lemma_be_ranges();
    lemma_be_bytes_len(short as nat, 2);
    lemma_be_bytes_len(long as nat, 8);
    lemma_be_round_trip(short as nat, 2);
    lemma_be_round_trip(long as nat, 8);
    law_two_bytes(be_bytes(short as nat, 2));
    law_eight_bytes(be_bytes(long as nat, 8));
}

/// Appends the two big-endian bytes of `value`.
pub fn put_u16(out: &mut Vec<u8>, value: u16)
    ensures
        final(out)@ == old(out)@ + be_bytes(value as nat, 2),
{
    proof {
        reveal_with_fuel(be_bytes, 3);
    }
    out.push((value / 256) as u8);
    out.push((value % 256) as u8);
    assert(out@ =~= old(out)@ + be_bytes(value as nat, 2));
}

/// Appends the eight big-endian bytes of `value`.
pub fn put_u64(out: &mut Vec<u8>, value: u64)
    ensures
        final(out)@ == old(out)@ + be_bytes(value as nat, 8),
{
    proof {
        reveal_with_fuel(be_bytes, 9);
    }
    let v1: u64 = value / 256;
    let v2: u64 = v1 / 256;
    let v3: u64 = v2 / 256;
    let v4: u64 = v3 / 256;
    let v5: u64 = v4 / 256;
    let v6: u64 = v5 / 256;
    let v7: u64 = v6 / 256;
    out.push((v7 % 256) as u8);
    out.push((v6 % 256) as u8);
    out.push((v5 % 256) as u8);
    out.push((v4 % 256) as u8);
    out.push((v3 % 256) as u8);
    out.push((v2 % 256) as u8);
    out.push((v1 % 256) as u8);
    out.push((value % 256) as u8);
    assert(out@ =~= old(out)@ + be_bytes(value as nat, 8));
}

/// The number in the two bytes of `data` that start at `at`.
pub fn get_u16(data: &[u8], at: usize) -> (value: u16)
    requires
        at + 2 <= data@.len(),
    ensures
        value as nat == be_value(data@.subrange(at as int, at + 2)),
{
    proof {
        let field = data@.subrange(at as int, at + 2);
        assert(field.drop_last().drop_last() =~= seq![]);
        reveal_with_fuel(be_value, 3);
    }
    (data[at] as u16) * 256 + data[at + 1] as u16
}

/// The number in the eight bytes of `data` that start at `at`.
pub fn get_u64(data: &[u8], at: usize) -> (value: u64)
    requires
        at + 8 <= data@.len(),
    ensures
        value as nat == be_value(data@.subrange(at as int, at + 8)),
{
    let mut value: u64 = 0;
    let mut i: usize = 0;
    assert(data@.subrange(at as int, at as int) =~= seq![]);
    while i < 8
        invariant
            i <= 8,
            at + 8 <= data.len(),
            value as nat == be_value(data@.subrange(at as int, at + i)),
        decreases 8 - i,
    {
        let ghost done = data@.subrange(at as int, at + i);
        let ghost next = data@.subrange(at as int, at + i + 1);
        proof {
            assert(next.drop_last() =~= done);
            lemma_be_value_bound(next);
            reveal_with_fuel(be_range, 9);
        }
        value = value * 256 + data[at + i] as u64;
        i = i + 1;
    }
    value
}

} // verus!
