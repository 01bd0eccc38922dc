//! The heads of CBOR data items: an initial byte that names the major type,
//! followed by the item's argument in the shortest of the five forms.

use vstd::prelude::*;

verus! {

/// Major type of a non-negative integer.
pub const MAJOR_UNSIGNED: u8 = 0;

/// Major type of a negative integer; the argument `n` stands for `-1 - n`.
pub const MAJOR_NEGATIVE: u8 = 1;

/// Major type of a text string; the argument is its length in bytes.
pub const MAJOR_TEXT: u8 = 3;

/// Major type of a map; the argument is its number of entries.
pub const MAJOR_MAP: u8 = 5;

/// `256` to the power `n`.
pub open spec fn pow256(n: nat) -> nat
    decreases n,
{
    if n == 0 {
        1
    } else {
        256 * pow256((n - 1) as nat)
    }
}

/// The `width` low bytes of `value`, most significant byte first.
pub open spec fn be_bytes(value: nat, width: nat) -> Seq<u8>
    decreases width,
{
    if width == 0 {
        Seq::empty()
    } else {
        be_bytes(value / 256, (width - 1) as nat).push((value % 256) as u8)
    }
}

/// The number that `bytes` spell, most significant byte first.
pub open spec fn be_value(bytes: Seq<u8>) -> nat
    decreases bytes.len(),
{
    if bytes.len() == 0 {
        0
    } else {
        be_value(bytes.drop_last()) * 256 + bytes.last() as nat
    }
}

/// The head of an item of major type `major` with the argument `arg`: the
/// argument stands in the initial byte where it is below 24, and else in the
/// fewest of 1, 2, 4 or 8 bytes that hold it.
pub open spec fn head(major: u8, arg: u64) -> Seq<u8>
    recommends
        major < 8,
{
    if arg < 24 {
        seq![(major * 32 + arg) as u8]
    } else if arg < 0x100 {
        seq![(major * 32 + 24) as u8] + be_bytes(arg as nat, 1)
    } else if arg < 0x1_0000 {
        seq![(major * 32 + 25) as u8] + be_bytes(arg as nat, 2)
    } else if arg < 0x1_0000_0000 {
        seq![(major * 32 + 26) as u8] + be_bytes(arg as nat, 4)
    } else {
        seq![(major * 32 + 27) as u8] + be_bytes(arg as nat, 8)
    }
}

/// A head as it is read back: the major type, the argument, and the number
/// of bytes that the head takes.
pub struct Head {
    pub major: u8,
    pub arg: u64,
    pub len: nat,
}

/// The number of argument bytes that follow an initial byte whose low five
/// bits are `info`, for the four forms that have any.
pub open spec fn argument_width(info: u8) -> nat {
    if info == 24 {
        1
    } else if info == 25 {
        2
    } else if info == 26 {
        4
    } else {
        8
    }
}

/// The least argument that may stand in `width` bytes: what is below it has
/// a shorter form.
pub open spec fn least_argument(width: nat) -> nat {
    if width == 1 {
        24
    } else {
        pow256(width / 2)
    }
}

/// The head at the front of `bytes`, if `bytes` begins with one in its
/// shortest form.
pub open spec fn parse_head(bytes: Seq<u8>) -> Option<Head> {
    if bytes.len() == 0 {
        None
    } else {
        let major = bytes[0] / 32;
        let info = bytes[0] % 32;
        if info < 24 {
            Some(Head { major, arg: info as u64, len: 1 })
        } else if info > 27 {
            None
        } else {
            let width = argument_width(info);
            if bytes.len() < 1 + width {
                None
            } else {
                let arg = be_value(bytes.subrange(1, 1 + width as int));
                if arg < least_argument(width) {
                    None
                } else {
                    Some(Head { major, arg: arg as u64, len: 1 + width })
                }
            }
        }
    }
}

/// The powers of 256 that bound the argument forms.
pub proof fn lemma_pow256_values()
    ensures
        pow256(0) == 1,
        pow256(1) == 0x100,
        pow256(2) == 0x1_0000,
        pow256(3) == 0x100_0000,
        pow256(4) == 0x1_0000_0000,
        pow256(5) == 0x100_0000_0000,
        pow256(6) == 0x1_0000_0000_0000,
        pow256(7) == 0x100_0000_0000_0000,
        pow256(8) == 0x1_0000_0000_0000_0000,
{
    assert(pow256(0) == 1);
    assert(pow256(1) == 256 * pow256(0));
    assert(pow256(2) == 256 * pow256(1));
    assert(pow256(3) == 256 * pow256(2));
    assert(pow256(4) == 256 * pow256(3));
    assert(pow256(5) == 256 * pow256(4));
    assert(pow256(6) == 256 * pow256(5));
    assert(pow256(7) == 256 * pow256(6));
    assert(pow256(8) == 256 * pow256(7));
}

/// `be_bytes` gives as many bytes as it is asked for.
pub proof fn lemma_be_bytes_len(value: nat, width: nat)
    ensures
        be_bytes(value, width).len() == width,
    decreases width,
{
    if width > 0 {
        lemma_be_bytes_len(value / 256, (width - 1) as nat);
    }
}

/// A number that fits in `width` bytes is read back from them.
pub proof fn lemma_be_value_of_bytes(value: nat, width: nat)
    requires
        value < pow256(width),
    ensures
        be_value(be_bytes(value, width)) == value,
    decreases width,
{
    if width > 0 {
        let shorter = be_bytes(value / 256, (width - 1) as nat);
        let bytes = be_bytes(value, width);
        lemma_be_bytes_len(value, width);
        assert(bytes.drop_last() =~= shorter);
        assert(bytes.last() == (value % 256) as u8);
        lemma_be_value_of_bytes(value / 256, (width - 1) as nat);
    }
}

/// Bytes are written back from the number they spell, and that number fits
/// in as many bytes as there were.
pub proof fn lemma_be_bytes_of_value(bytes: Seq<u8>)
    ensures
        be_value(bytes) < pow256(bytes.len()),
        be_bytes(be_value(bytes), bytes.len()) == bytes,
    decreases bytes.len(),
{
    if bytes.len() > 0 {
        let front = bytes.drop_last();
        lemma_be_bytes_of_value(front);
        let value = be_value(bytes);
        assert(value / 256 == be_value(front));
        assert(value % 256 == bytes.last() as nat);
        assert(be_bytes(value, bytes.len()) =~= bytes);
    } else {
        assert(be_bytes(0, 0) =~= bytes);
    }
}

/// A head that is followed by anything is read back as it was written.
pub proof fn lemma_parse_head_of_head(major: u8, arg: u64, rest: Seq<u8>)
    requires
        major < 8,
    ensures
        parse_head(head(major, arg) + rest) == Some(
            Head { major, arg, len: head(major, arg).len() },
        ),
        (head(major, arg) + rest).skip(head(major, arg).len() as int) == rest,
{
    lemma_pow256_values();
    let written = head(major, arg);
    let bytes = written + rest;
    if arg < 24 {
        assert(bytes[0] == (major * 32 + arg) as u8);
    } else {
        let info: u8 = if arg < 0x100 {
            24
        } else if arg < 0x1_0000 {
            25
        } else if arg < 0x1_0000_0000 {
            26
        } else {
            27
        };
        let width = argument_width(info);
        lemma_be_bytes_len(arg as nat, width);
        lemma_be_value_of_bytes(arg as nat, width);
        assert(bytes[0] == (major * 32 + info) as u8);
        assert(bytes.subrange(1, 1 + width as int) =~= be_bytes(arg as nat, width));
    }
    assert(bytes.skip(written.len() as int) =~= rest);
}

/// What is read as a head was written as that head: the bytes are the head
/// followed by what the reading leaves.
pub proof fn lemma_head_of_parse_head(bytes: Seq<u8>)
    requires
        parse_head(bytes) is Some,
    ensures
        ({
            let found = parse_head(bytes)->0;
            &&& found.major < 8
            &&& 1 <= found.len <= bytes.len()
            &&& found.len == head(found.major, found.arg).len()
            &&& bytes == head(found.major, found.arg) + bytes.skip(found.len as int)
        }),
{
    lemma_pow256_values();
    let found = parse_head(bytes)->0;
    let info = bytes[0] % 32;
    if info < 24 {
        assert(bytes =~= head(found.major, found.arg) + bytes.skip(1));
    } else {
        let width = argument_width(info);
        let argument = bytes.subrange(1, 1 + width as int);
        lemma_be_bytes_of_value(argument);
        assert(bytes =~= head(found.major, found.arg) + bytes.skip(found.len as int));
    }
}

/// Appends the `width` low bytes of `value` to `out`, most significant first.
fn write_be(out: &mut Vec<u8>, value: u64, width: u8)
    ensures
        final(out)@ == old(out)@ + be_bytes(value as nat, width as nat),
    decreases width,
{
    if width == 0 {
        assert(out@ =~= old(out)@ + be_bytes(value as nat, 0));
    } else {
        write_be(out, value / 256, width - 1);
        out.push((value % 256) as u8);
        assert(out@ =~= old(out)@ + be_bytes(value as nat, width as nat));
    }
}

/// Appends the head of an item of major type `major` with the argument `arg`.
pub(crate) fn write_head(out: &mut Vec<u8>, major: u8, arg: u64)
    requires
        major < 8,
    ensures
        final(out)@ == old(out)@ + head(major, arg),
{
    if arg < 24 {
        out.push(major * 32 + arg as u8);
        assert(out@ =~= old(out)@ + head(major, arg));
    } else {
        let (info, width): (u8, u8) = if arg < 0x100 {
            (24, 1)
        } else if arg < 0x1_0000 {
            (25, 2)
        } else if arg < 0x1_0000_0000 {
            (26, 4)
        } else {
            (27, 8)
        };
        out.push(major * 32 + info);
        write_be(out, arg, width);
        assert(out@ =~= old(out)@ + head(major, arg));
    }
}

/// The number that the `width` bytes of `bytes` from `start` on spell.
fn read_be(bytes: &[u8], start: usize, width: usize) -> (value: u64)
    requires
        width <= 8,
        start + width <= bytes@.len(),
    ensures
        value == be_value(bytes@.subrange(start as int, start + width)),
{
    let total = bytes.len();
    let mut value: u64 = 0;
    let mut taken: usize = 0;
    proof {
        lemma_pow256_values();
    }
    while taken < width
        invariant
            taken <= width <= 8,
            start + width <= bytes@.len() == total,
            value == be_value(bytes@.subrange(start as int, start + taken)),
            value < pow256(taken as nat),
        decreases width - taken,
    {
        let byte = bytes[start + taken];
        proof {
            let longer = bytes@.subrange(start as int, start + taken + 1);
            assert(longer.drop_last() =~= bytes@.subrange(start as int, start + taken));
            assert(longer.last() == byte);
            lemma_pow256_values();
            assert(pow256((taken + 1) as nat) == 256 * pow256(taken as nat));
            assert(pow256((taken + 1) as nat) <= pow256(8)) by {
                lemma_pow256_grows((taken + 1) as nat, 8);
            }
        }
        value = value * 256 + byte as u64;
        taken += 1;
    }
    value
}

/// A greater power of 256 is not below a lesser one.
proof fn lemma_pow256_grows(low: nat, high: nat)
    requires
        low <= high,
    ensures
        pow256(low) <= pow256(high),
        pow256(low) >= 1,
    decreases high,
{
    if low < high {
        lemma_pow256_grows(low, (high - 1) as nat);
    } else if low > 0 {
        lemma_pow256_grows((low - 1) as nat, (low - 1) as nat);
    }
}

/// Reads the head that stands at `start`. Gives the major type, the
/// argument, and the place behind the head; or `None` where no head in its
/// shortest form stands there.
pub(crate) fn read_head(bytes: &[u8], start: usize) -> (found: Option<(u8, u64, usize)>)
    requires
        start <= bytes@.len(),
    ensures
        match found {
            Some((major, arg, next)) => {
                &&& start < next <= bytes@.len()
                &&& parse_head(bytes@.skip(start as int)) == Some(
                    Head { major, arg, len: (next - start) as nat },
                )
            },
            None => parse_head(bytes@.skip(start as int)) is None,
        },
{
    let ghost tail = bytes@.skip(start as int);
    if start >= bytes.len() {
        return None;
    }
    let initial = bytes[start];
    assert(tail[0] == initial);
    let major = initial / 32;
    let info = initial % 32;
    if info < 24 {
        return Some((major, info as u64, start + 1));
    }
    if info > 27 {
        return None;
    }
    let (width, least): (usize, u64) = if info == 24 {
        (1, 24)
    } else if info == 25 {
        (2, 0x100)
    } else if info == 26 {
        (4, 0x1_0000)
    } else {
        (8, 0x1_0000_0000)
    };
    proof {
        lemma_pow256_values();
        assert(width == argument_width(info));
        assert(least == least_argument(width as nat));
    }
    if bytes.len() - start - 1 < width {
        return None;
    }
    let arg = read_be(bytes, start + 1, width);
    assert(bytes@.subrange(start + 1, start + 1 + width) =~= tail.subrange(1, 1 + width));
    if arg < least {
        return None;
    }
    Some((major, arg, start + 1 + width))
}

} // verus!
