//! Bounds-checked big-endian reads from the front of a byte slice.
//!
//! Each read either hands back the bytes that follow the value together with the
//! value, or fails with `Error::TruncatedInput` when too few bytes remain.
use vstd::prelude::*;

use crate::error::Error;

verus! {

/// The unsigned number that `s` spells in big-endian order.
pub open spec fn be_value(s: Seq<u8>) -> nat
    decreases s.len(),
{
    if s.len() == 0 {
        0
    } else {
        be_value(s.drop_last()) * 256 + s.last() as nat
    }
}

/// Splits off the first `len` bytes: `Ok((rest, head))`.
pub fn take(input: &[u8], len: usize) -> (r: Result<(&[u8], &[u8]), Error>)
    ensures
        match r {
            Ok((rest, head)) => {
                &&& len <= input@.len()
                &&& head@ == input@.take(len as int)
                &&& rest@ == input@.skip(len as int)
            },
            Err(e) => len > input@.len() && e == Error::TruncatedInput,
        },
{
    if len <= input.len() {
        let (head, rest) = input.split_at(len);
        Ok((rest, head))
    } else {
        Err(Error::TruncatedInput)
    }
}

/// Reads one byte.
pub fn be_u8(input: &[u8]) -> (r: Result<(&[u8], u8), Error>)
    ensures
        match r {
            Ok((rest, v)) => {
                &&& input@.len() >= 1
                &&& v == input@[0]
                &&& rest@ == input@.skip(1)
            },
            Err(e) => input@.len() < 1 && e == Error::TruncatedInput,
        },
{
    if input.len() >= 1 {
        let (_, rest) = input.split_at(1);
        Ok((rest, input[0]))
    } else {
        Err(Error::TruncatedInput)
    }
}

/// Reads a big-endian 16-bit number.
pub fn be_u16(input: &[u8]) -> (r: Result<(&[u8], u16), Error>)
    ensures
        match r {
            Ok((rest, v)) => {
                &&& input@.len() >= 2
                &&& v as nat == be_value(input@.take(2))
                &&& rest@ == input@.skip(2)
            },
            Err(e) => input@.len() < 2 && e == Error::TruncatedInput,
        },
{
    if input.len() < 2 {
        return Err(Error::TruncatedInput);
    }
    let v: u16 = (input[0] as u16) * 256 + (input[1] as u16);
    proof {
        let s = input@.take(2);
        reveal_with_fuel(be_value, 3);
        assert(s.drop_last().drop_last() =~= Seq::<u8>::empty());
        assert(s.drop_last() =~= seq![input@[0]]);
    }
    let (_, rest) = input.split_at(2);
    Ok((rest, v))
}

/// Reads a big-endian 32-bit number.
pub fn be_u32(input: &[u8]) -> (r: Result<(&[u8], u32), Error>)
    ensures
        match r {
            Ok((rest, v)) => {
                &&& input@.len() >= 4
                &&& v as nat == be_value(input@.take(4))
                &&& rest@ == input@.skip(4)
            },
            Err(e) => input@.len() < 4 && e == Error::TruncatedInput,
        },
{
    if input.len() < 4 {
        return Err(Error::TruncatedInput);
    }
    let v: u32 = (input[0] as u32) * 0x100_0000 + (input[1] as u32) * 0x1_0000 + (input[2] as u32)
        * 0x100 + (input[3] as u32);
    proof {
        let s = input@.take(4);
        reveal_with_fuel(be_value, 5);
        assert(s.drop_last().drop_last().drop_last().drop_last() =~= Seq::<u8>::empty());
        assert(s.drop_last().drop_last().drop_last() =~= seq![input@[0]]);
        assert(s.drop_last().drop_last() =~= seq![input@[0], input@[1]]);
        assert(s.drop_last() =~= seq![input@[0], input@[1], input@[2]]);
    }
    let (_, rest) = input.split_at(4);
    Ok((rest, v))
}

/// A signed 32-bit read: the bit pattern of `be_u32`, reinterpreted.
pub fn be_i32(input: &[u8]) -> (r: Result<(&[u8], i32), Error>)
    ensures
        match r {
            Ok((rest, v)) => {
                &&& input@.len() >= 4
                &&& v == (be_value(input@.take(4)) as u32) as i32
                &&& rest@ == input@.skip(4)
            },
            Err(e) => input@.len() < 4 && e == Error::TruncatedInput,
        },
{
    let (rest, value) = be_u32(input)?;
    Ok((rest, value as i32))
}

/// Reads a big-endian 64-bit number.
pub fn be_u64(input: &[u8]) -> (r: Result<(&[u8], u64), Error>)
    ensures
        match r {
            Ok((rest, v)) => {
                &&& input@.len() >= 8
                &&& v as nat == be_value(input@.take(8))
                &&& rest@ == input@.skip(8)
            },
            Err(e) => input@.len() < 8 && e == Error::TruncatedInput,
        },
{
    if input.len() < 8 {
        return Err(Error::TruncatedInput);
    }
    let (head, rest) = input.split_at(4);
    let hi = (head[0] as u64) * 0x100_0000 + (head[1] as u64) * 0x1_0000 + (head[2] as u64) * 0x100
        + (head[3] as u64);
    let lo = (rest[0] as u64) * 0x100_0000 + (rest[1] as u64) * 0x1_0000 + (rest[2] as u64) * 0x100
        + (rest[3] as u64);
    let v: u64 = hi * 0x1_0000_0000 + lo;
    proof {
        let s = input@.take(8);
        reveal_with_fuel(be_value, 9);
        assert(s.drop_last().drop_last().drop_last().drop_last().drop_last().drop_last().drop_last().drop_last() =~= Seq::<u8>::empty());
        assert(s.drop_last().drop_last().drop_last().drop_last().drop_last().drop_last().drop_last() =~= input@.take(1));
        assert(s.drop_last().drop_last().drop_last().drop_last().drop_last().drop_last() =~= input@.take(2));
        assert(s.drop_last().drop_last().drop_last().drop_last().drop_last() =~= input@.take(3));
        assert(s.drop_last().drop_last().drop_last().drop_last() =~= input@.take(4));
        assert(s.drop_last().drop_last().drop_last() =~= input@.take(5));
        assert(s.drop_last().drop_last() =~= input@.take(6));
        assert(s.drop_last() =~= input@.take(7));
    }
    let (_, rest) = input.split_at(8);
    Ok((rest, v))
}

} // verus!
