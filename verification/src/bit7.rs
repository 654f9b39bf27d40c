//! Integers in 7-bit groups: each byte holds seven bits of the number, and
//! its highest bit says whether another byte follows.
use vstd::prelude::*;

verus! {

/// The seven low bits of a byte: its part of the number.
pub const LOWER7_MASK: u8 = 127;

/// The highest bit of a byte: set where another byte follows.
pub const HIGH8_MASK: u8 = 128;

/// The number of 7-bit groups that `value` fills, one at least.
pub open spec fn groups(value: nat) -> nat
    decreases value,
{
    if value < 128 {
        1
    } else {
        1 + groups(value / 128)
    }
}

/// The number of bytes that `value` takes in 7-bit groups.
pub fn length_7bit(value: usize) -> (size: usize)
    ensures
        size == groups(value as nat),
        1 <= size <= 10,
{
    let mut rest: u64 = value as u64;
    let mut size: usize = 0;
    let ghost mut bound: nat = 0x1_0000_0000_0000_0000;
    loop
        invariant_except_break
            groups(value as nat) == size + groups(rest as nat),
            size <= 9,
            rest < bound,
            size == 0 ==> bound == 0x1_0000_0000_0000_0000,
            size == 1 ==> bound == 0x200_0000_0000_0000,
            size == 2 ==> bound == 0x4_0000_0000_0000,
            size == 3 ==> bound == 0x800_0000_0000,
            size == 4 ==> bound == 0x10_0000_0000,
            size == 5 ==> bound == 0x2000_0000,
            size == 6 ==> bound == 0x40_0000,
            size == 7 ==> bound == 0x8000,
            size == 8 ==> bound == 0x100,
            size == 9 ==> bound == 0x2,
        ensures
            size == groups(value as nat),
            1 <= size <= 10,
        decreases rest,
    {
        let before = rest;
        assert(before >> 7 == before / 128) by (bit_vector);
        rest = rest >> 7;
        size += 1;
        proof {
            bound = bound / 128;
        }
        if rest == 0 {
            break ;
        }
    }
    size
}

/// The most bytes that a number is read from.
pub open spec fn most_bytes() -> nat {
    (usize::BITS / 8) as nat
}

/// The number that `bytes` make: each byte moves what came before it seven
/// bits up, and puts its own seven low bits in their place.
pub open spec fn gathered(bytes: Seq<u8>) -> usize
    decreases bytes.len(),
{
    if bytes.len() == 0 {
        0
    } else {
        (gathered(bytes.drop_last()) << 7) | ((bytes.last() & LOWER7_MASK) as usize)
    }
}

/// Whether reading stops behind `bytes`: the last of them has its highest
/// bit clear, or they are as many as are ever read; and it did not stop
/// before.
pub open spec fn ends_a_number(bytes: Seq<u8>) -> bool {
    &&& 1 <= bytes.len() <= most_bytes()
    &&& forall|i: int| 0 <= i < bytes.len() - 1 ==> #[trigger] bytes[i] & HIGH8_MASK != 0
    &&& (bytes.last() & HIGH8_MASK == 0 || bytes.len() == most_bytes())
}

/// Reads a number in 7-bit groups, byte by byte from `callback`, as long as
/// the highest bit is set and the number holds more.
pub fn read_7bit<F: Fn() -> u8>(callback: F) -> (value: usize)
    requires
        call_requires(callback, ()),
    ensures
        exists|bytes: Seq<u8>|
            #![trigger gathered(bytes)]
            ends_a_number(bytes) && value == gathered(bytes) && forall|i: int|
                0 <= i < bytes.len() ==> call_ensures(callback, (), #[trigger] bytes[i]),
{
    let mut value: usize = 0;
    let mut shift: usize = 7;
    let limit_bits: usize = (usize::BITS as usize / 8) * 7;
    let ghost mut bytes: Seq<u8> = Seq::empty();
    assert(0usize << 7 == 0) by (bit_vector);
    loop
        invariant
            call_requires(callback, ()),
            limit_bits == most_bytes() * 7,
            shift == 7 + 7 * bytes.len(),
            shift <= limit_bits,
            value == gathered(bytes) << 7,
            forall|i: int| 0 <= i < bytes.len() ==> #[trigger] bytes[i] & HIGH8_MASK != 0,
            forall|i: int|
                0 <= i < bytes.len() ==> call_ensures(callback, (), #[trigger] bytes[i]),
        decreases limit_bits - shift,
    {
        let byte = callback();
        let ghost before = bytes;
        proof {
            bytes = bytes.push(byte);
            assert(bytes.drop_last() == before);
        }
        value |= (byte & LOWER7_MASK) as usize;
        shift += 7;
        assert(value == gathered(bytes));
        if byte & HIGH8_MASK == 0 || shift > limit_bits {
            assert(ends_a_number(bytes));
            return value;
        }
        value <<= 7;
    }
}

/// The bytes that `value` is written as: seven bits in each, the lowest
/// first, and the highest bit set in all but the last. What ends the bytes is
/// the lowest byte of what is left: a rest whose lowest byte is under 128 is
/// written as that byte.
pub open spec fn written(value: usize) -> Seq<u8>
    decreases value,
{
    if (value & 0xff) >= 128 && value > 0 {
        seq![((value & 0x7f) as u8) | HIGH8_MASK] + written(value / 128)
    } else {
        seq![(value & 0xff) as u8]
    }
}

/// The bytes that `value` is written as.
pub fn encode_7bit(value: usize) -> (bytes: Vec<u8>)
    ensures
        bytes@ == written(value),
{
    let mut bytes: Vec<u8> = Vec::new();
    let mut rest: u64 = value as u64;
    let ghost mut done: Seq<u8> = Seq::empty();
    assert(done + written(value) == written(value));
    loop
        invariant_except_break
            rest <= usize::MAX,
            bytes@ == done,
            written(value) == done + written(rest as usize),
        ensures
            bytes@ == written(value),
        decreases rest,
    {
        assert(rest & 0xff < 256) by (bit_vector);
        let low: u8 = (rest & 0xff) as u8;
        assert((rest as usize) & 0xff == rest & 0xff) by {
            if usize::BITS == 32 {
                let r: u32 = rest as u32;
                assert(r & 0xff == (r as u64) & 0xff) by (bit_vector);
            }
        }
        if low >= HIGH8_MASK {
            assert(rest & 0xff >= 128 ==> rest > 0 && rest / 128 < rest && (rest & 0x7f) < 128
                && rest >> 7 == rest / 128 && (rest & 0x7f) == (rest & 0xff) & 0x7f)
                by (bit_vector);
            assert((rest as usize) & 0x7f == rest & 0x7f) by {
                if usize::BITS == 32 {
                    let r: u32 = rest as u32;
                    assert(r & 0x7f == (r as u64) & 0x7f) by (bit_vector);
                }
            }
            let piece: u8 = (low & LOWER7_MASK) | HIGH8_MASK;
            assert(low & 127 == ((rest & 0x7f) as u8)) by {
                let l: u64 = rest & 0xff;
                assert(l < 256 ==> (l as u8) & 127 == ((l & 0x7f) as u8)) by (bit_vector);
            }
            bytes.push(piece);
            proof {
                let next = written((rest / 128) as usize);
                assert((done.push(piece)) + next == done + (seq![piece] + next));
                done = done.push(piece);
            }
            rest = rest >> 7;
        } else {
            bytes.push(low);
            assert(done.push(low) == done + seq![low]);
            break ;
        }
    }
    bytes
}

/// Writes `value` in 7-bit groups: `callback` gets each byte of
/// `encode_7bit`, in order.
pub fn write_7bit<F: Fn(u8) -> ()>(value: usize, callback: F)
    requires
        forall|byte: u8| call_requires(callback, (byte,)),
    ensures
        forall|i: int|
            0 <= i < written(value).len() ==> call_ensures(
                callback,
                (#[trigger] written(value)[i],),
                (),
            ),
{
    let bytes = encode_7bit(value);
    let mut i: usize = 0;
    while i < bytes.len()
        invariant
            i <= bytes.len(),
            bytes@ == written(value),
            forall|byte: u8| call_requires(callback, (byte,)),
            forall|k: int| 0 <= k < i ==> call_ensures(callback, (#[trigger] bytes[k],), ()),
        decreases bytes.len() - i,
    {
        callback(bytes[i]);
        i += 1;
    }
}

} // verus!
