//! The byte-level building blocks of the canonical encoding: little-endian
//! integers of a fixed width and the compact length prefix of a list. Also
//! the two halves of a 32-byte string read as numbers, by which digests and
//! principals are keyed in ordered maps.

use vstd::prelude::*;

verus! {

/// The `width` low-order bytes of `value`, least significant first.
pub open spec fn le_bytes(value: nat, width: nat) -> Seq<u8>
    decreases width,
{
    if width == 0 {
        Seq::empty()
    } else {
        seq![(value % 256) as u8] + le_bytes(value / 256, (width - 1) as nat)
    }
}

/// The number that a sequence of bytes stands for, least significant byte
/// first.
pub open spec fn le_value(bytes: Seq<u8>) -> nat
    decreases bytes.len(),
{
    if bytes.len() == 0 {
        0
    } else {
        bytes[0] as nat + 256 * le_value(bytes.drop_first())
    }
}

/// The number of values that `width` bytes can tell apart.
pub open spec fn byte_range(width: nat) -> nat
    decreases width,
{
    if width == 0 {
        1
    } else {
        256 * byte_range((width - 1) as nat)
    }
}

/// A number is encoded in as many bytes as asked for.
pub proof fn lemma_le_bytes_len(value: nat, width: nat)
    ensures
        le_bytes(value, width).len() == width,
    decreases width,
{
    if width > 0 {
        lemma_le_bytes_len(value / 256, (width - 1) as nat);
    }
}

/// A number that fits the width is read back from its bytes.
pub proof fn lemma_le_bytes_value(value: nat, width: nat)
    requires
        value < byte_range(width),
    ensures
        le_value(le_bytes(value, width)) == value,
    decreases width,
{
    if width > 0 {
        let rest = le_bytes(value / 256, (width - 1) as nat);
        let bytes = le_bytes(value, width);
        assert(bytes.drop_first() =~= rest);
        assert(value / 256 < byte_range((width - 1) as nat)) by (nonlinear_arith)
            requires
                value < 256 * byte_range((width - 1) as nat),
        ;
        lemma_le_bytes_value(value / 256, (width - 1) as nat);
        lemma_le_bytes_len(value / 256, (width - 1) as nat);
    }
}

/// The ranges of the widths that the encoding uses.
pub proof fn lemma_byte_ranges()
    ensures
        byte_range(1) == 0x100,
        byte_range(2) == 0x1_0000,
        byte_range(4) == 0x1_0000_0000,
        byte_range(8) == 0x1_0000_0000_0000_0000,
        byte_range(16) == 0x1_0000_0000_0000_0000_0000_0000_0000_0000,
{
    reveal_with_fuel(byte_range, 9);
    assert(byte_range(16) == 0x1_0000_0000_0000_0000 * byte_range(8)) by {
        reveal_with_fuel(byte_range, 9);
    }
}

/// More bytes tell more values apart.
pub proof fn lemma_byte_range_grows(narrow: nat, wide: nat)
    requires
        narrow <= wide,
    ensures
        0 < byte_range(narrow) <= byte_range(wide),
    decreases wide,
{
    if wide > 0 {
        if narrow < wide {
            lemma_byte_range_grows(narrow, (wide - 1) as nat);
        } else {
            lemma_byte_range_grows((narrow - 1) as nat, (wide - 1) as nat);
        }
    }
}

/// The number that bytes stand for fits their width.
pub proof fn lemma_le_value_fits(bytes: Seq<u8>)
    ensures
        le_value(bytes) < byte_range(bytes.len()),
    decreases bytes.len(),
{
    if bytes.len() > 0 {
        lemma_le_value_fits(bytes.drop_first());
    }
}

/// Byte strings of one length that stand for the same number are the same.
pub proof fn lemma_le_value_is_injective(first: Seq<u8>, second: Seq<u8>)
    requires
        first.len() == second.len(),
        le_value(first) == le_value(second),
    ensures
        first == second,
    decreases first.len(),
{
    if first.len() > 0 {
        lemma_le_value_is_injective(first.drop_first(), second.drop_first());
        assert(first =~= seq![first[0]] + first.drop_first());
        assert(second =~= seq![second[0]] + second.drop_first());
    }
}

/// As many pieces of one size are, put together, that many times the size
/// long.
pub proof fn lemma_pieces_len(pieces: Seq<Seq<u8>>, size: nat)
    requires
        forall|i: int| 0 <= i < pieces.len() ==> (#[trigger] pieces[i]).len() == size,
    ensures
        pieces.flatten().len() == pieces.len() * size,
    decreases pieces.len(),
{
    if pieces.len() > 0 {
        let rest = pieces.drop_first();
        lemma_pieces_len(rest, size);
        assert(pieces.len() * size == size + rest.len() * size) by (nonlinear_arith)
            requires
                pieces.len() == rest.len() + 1,
        ;
    }
}

/// The two 128-bit numbers that the halves of a 32-byte string stand for.
pub open spec fn halves(bytes: Seq<u8>) -> (u128, u128) {
    (le_value(bytes.subrange(0, 16)) as u128, le_value(bytes.subrange(16, 32)) as u128)
}

/// Two 32-byte strings with the same halves are the same.
pub proof fn lemma_halves_are_injective(first: Seq<u8>, second: Seq<u8>)
    requires
        first.len() == 32,
        second.len() == 32,
        halves(first) == halves(second),
    ensures
        first == second,
{
    lemma_byte_ranges();
    lemma_le_value_fits(first.subrange(0, 16));
    lemma_le_value_fits(first.subrange(16, 32));
    lemma_le_value_fits(second.subrange(0, 16));
    lemma_le_value_fits(second.subrange(16, 32));
    lemma_le_value_is_injective(first.subrange(0, 16), second.subrange(0, 16));
    lemma_le_value_is_injective(first.subrange(16, 32), second.subrange(16, 32));
    assert(first =~= first.subrange(0, 16) + first.subrange(16, 32));
    assert(second =~= second.subrange(0, 16) + second.subrange(16, 32));
}

/// The number that the sixteen bytes from `start` on stand for.
fn le_u128(bytes: &[u8; 32], start: usize) -> (value: u128)
    requires
        start + 16 <= 32,
    ensures
        value == le_value(bytes@.subrange(start as int, start + 16)),
{
    let mut value: u128 = 0;
    let mut i: usize = 16;
    while i > 0
        invariant
            i <= 16,
            start + 16 <= 32,
            value == le_value(bytes@.subrange(start + i, start + 16)),
            value < byte_range((16 - i) as nat),
        decreases i,
    {
        proof {
            lemma_byte_ranges();
            lemma_byte_range_grows((17 - i) as nat, 16);
            let now = bytes@.subrange(start + i - 1, start + 16);
            assert(now.drop_first() =~= bytes@.subrange(start + i, start + 16));
        }
        i -= 1;
        value = value * 256 + bytes[start + i] as u128;
    }
    value
}

/// The halves of a 32-byte array.
pub fn halves_of(bytes: &[u8; 32]) -> (key: (u128, u128))
    ensures
        key == halves(bytes@),
{
    (le_u128(bytes, 0), le_u128(bytes, 16))
}

/// Appends the `width` low-order bytes of `value` to `dest`, least
/// significant first.
pub fn push_le_bytes(dest: &mut Vec<u8>, value: u64, width: usize)
    ensures
        final(dest)@ == old(dest)@ + le_bytes(value as nat, width as nat),
    decreases width,
{
    if width > 0 {
        dest.push((value % 256) as u8);
        push_le_bytes(dest, value / 256, width - 1);
    }
}

/// The number of bytes that the length prefix of a list of `n` items takes.
pub open spec fn compact_width(n: u32) -> nat {
    if n < 0x40 {
        1
    } else if n < 0x4000 {
        2
    } else if n < 0x4000_0000 {
        4
    } else {
        5
    }
}

/// The length prefix of an encoded list: the compact form of an unsigned
/// 32-bit integer. The two low bits of the first byte tell the width. Below
/// 2^6, 2^14 and 2^30 the number takes one, two and four bytes, which hold
/// four times the number plus 0, 1 and 2, least significant byte first. Above
/// that the byte 3 is followed by the four bytes of the number itself.
pub open spec fn compact_len(n: u32) -> Seq<u8> {
    if n < 0x40 {
        le_bytes(4 * n as nat, 1)
    } else if n < 0x4000 {
        le_bytes(4 * n as nat + 1, 2)
    } else if n < 0x4000_0000 {
        le_bytes(4 * n as nat + 2, 4)
    } else {
        seq![3u8] + le_bytes(n as nat, 4)
    }
}

/// Appends the length prefix of a list of `n` items to `dest`.
pub fn push_compact_len(dest: &mut Vec<u8>, n: u32)
    ensures
        final(dest)@ == old(dest)@ + compact_len(n),
{
    let n: u64 = n as u64;
    if n < 0x40 {
        push_le_bytes(dest, 4 * n, 1);
    } else if n < 0x4000 {
        push_le_bytes(dest, 4 * n + 1, 2);
    } else if n < 0x4000_0000 {
        push_le_bytes(dest, 4 * n + 2, 4);
    } else {
        dest.push(3u8);
        push_le_bytes(dest, n, 4);
    }
}

/// A length prefix has the width that its first byte tells.
pub proof fn lemma_compact_len_width(n: u32)
    ensures
        compact_len(n).len() == compact_width(n),
        compact_len(n)[0] % 4 == if n < 0x40 {
            0nat
        } else if n < 0x4000 {
            1nat
        } else if n < 0x4000_0000 {
            2nat
        } else {
            3nat
        },
{
    lemma_le_bytes_len(4 * n as nat, 1);
    lemma_le_bytes_len(4 * n as nat + 1, 2);
    lemma_le_bytes_len(4 * n as nat + 2, 4);
    lemma_le_bytes_len(n as nat, 4);
    reveal_with_fuel(le_bytes, 2);
}

/// No two lengths share a prefix, and no prefix begins another: where two
/// byte strings that each begin with a length prefix are equal, the lengths
/// are equal, and so is what follows the prefix.
pub proof fn lemma_compact_len_is_prefix_free(n: u32, after_n: Seq<u8>, m: u32, after_m: Seq<u8>)
    requires
        compact_len(n) + after_n == compact_len(m) + after_m,
    ensures
        n == m,
        after_n == after_m,
{
    let left = compact_len(n) + after_n;
    let right = compact_len(m) + after_m;
    lemma_compact_len_width(n);
    lemma_compact_len_width(m);
    assert(left[0] == compact_len(n)[0]);
    assert(right[0] == compact_len(m)[0]);
    let width = compact_width(n) as int;
    assert(compact_len(n) =~= left.subrange(0, width));
    assert(compact_len(m) =~= right.subrange(0, width));
    assert(after_n =~= left.subrange(width, left.len() as int));
    assert(after_m =~= right.subrange(width, right.len() as int));
    lemma_byte_ranges();
    if n < 0x40 {
        lemma_le_bytes_value(4 * n as nat, 1);
        lemma_le_bytes_value(4 * m as nat, 1);
    } else if n < 0x4000 {
        lemma_le_bytes_value(4 * n as nat + 1, 2);
        lemma_le_bytes_value(4 * m as nat + 1, 2);
    } else if n < 0x4000_0000 {
        lemma_le_bytes_value(4 * n as nat + 2, 4);
        lemma_le_bytes_value(4 * m as nat + 2, 4);
    } else {
        lemma_le_bytes_value(n as nat, 4);
        lemma_le_bytes_value(m as nat, 4);
        assert(le_bytes(n as nat, 4) =~= compact_len(n).drop_first());
        assert(le_bytes(m as nat, 4) =~= compact_len(m).drop_first());
    }
}

} // verus!
