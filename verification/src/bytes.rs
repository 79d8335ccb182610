//! Primitive decoder: fixed-width big-endian reads from an in-memory byte
//! source with an explicit cursor, and 4-byte payload padding.

use vstd::prelude::*;

verus! {

use crate::{round4, pad4};

/// Big-endian value of the two bytes at `i`.
pub open spec fn be_u16(s: Seq<u8>, i: int) -> int {
    s[i] * 0x100 + s[i + 1]
}

/// Big-endian value of the four bytes at `i`.
pub open spec fn be_u32(s: Seq<u8>, i: int) -> int {
    s[i] * 0x100_0000 + s[i + 1] * 0x1_0000 + s[i + 2] * 0x100 + s[i + 3]
}

/// Big-endian value of the eight bytes at `i`.
pub open spec fn be_u64(s: Seq<u8>, i: int) -> int {
    be_u32(s, i) * 0x1_0000_0000 + be_u32(s, i + 4)
}

/// Two's-complement reading of an 8-bit unsigned value.
pub open spec fn sign8(v: int) -> int {
    if v >= 0x80 {
        v - 0x100
    } else {
        v
    }
}

/// Two's-complement reading of a 16-bit unsigned value.
pub open spec fn sign16(v: int) -> int {
    if v >= 0x8000 {
        v - 0x1_0000
    } else {
        v
    }
}

/// Two's-complement reading of a 32-bit unsigned value.
pub open spec fn sign32(v: int) -> int {
    if v >= 0x8000_0000 {
        v - 0x1_0000_0000
    } else {
        v
    }
}

/// Reads one byte and advances the cursor; `None` on a short read.
pub fn read_u8(data: &Vec<u8>, pos: &mut usize) -> (r: Option<u8>)
    ensures
        match r {
            Some(v) => *old(pos) + 1 <= data@.len() && *final(pos) == *old(pos) + 1 && v == data@[*old(
                pos,
            ) as int],
            None => *final(pos) == *old(pos) && *old(pos) + 1 > data@.len(),
        },
{
    if *pos < data.len() {
        let v = data[*pos];
        *pos = *pos + 1;
        Some(v)
    } else {
        None
    }
}

/// Reads two bytes big-endian and advances the cursor; `None` on a short read.
pub fn read_u16_be(data: &Vec<u8>, pos: &mut usize) -> (r: Option<u16>)
    ensures
        match r {
            Some(v) => *old(pos) + 2 <= data@.len() && *final(pos) == *old(pos) + 2 && v == be_u16(
                data@,
                *old(pos) as int,
            ),
            None => *final(pos) == *old(pos) && *old(pos) + 2 > data@.len(),
        },
{
    if data.len() >= 2 && *pos <= data.len() - 2 {
        let b0 = data[*pos];
        let b1 = data[*pos + 1];
        *pos = *pos + 2;
        Some((b0 as u16) * 0x100 + (b1 as u16))
    } else {
        None
    }
}

/// Reads four bytes big-endian and advances the cursor; `None` on a short read.
pub fn read_u32_be(data: &Vec<u8>, pos: &mut usize) -> (r: Option<u32>)
    ensures
        match r {
            Some(v) => *old(pos) + 4 <= data@.len() && *final(pos) == *old(pos) + 4 && v == be_u32(
                data@,
                *old(pos) as int,
            ),
            None => *final(pos) == *old(pos) && *old(pos) + 4 > data@.len(),
        },
{
    if data.len() >= 4 && *pos <= data.len() - 4 {
        let b0 = data[*pos];
        let b1 = data[*pos + 1];
        let b2 = data[*pos + 2];
        let b3 = data[*pos + 3];
        *pos = *pos + 4;
        Some((b0 as u32) * 0x100_0000 + (b1 as u32) * 0x1_0000 + (b2 as u32) * 0x100 + (b3 as u32))
    } else {
        None
    }
}

/// Reads eight bytes big-endian and advances the cursor; `None` on a short read.
pub fn read_u64_be(data: &Vec<u8>, pos: &mut usize) -> (r: Option<u64>)
    ensures
        match r {
            Some(v) => *old(pos) + 8 <= data@.len() && *final(pos) == *old(pos) + 8 && v == be_u64(
                data@,
                *old(pos) as int,
            ),
            None => *final(pos) == *old(pos) && *old(pos) + 8 > data@.len(),
        },
{
    if data.len() >= 8 && *pos <= data.len() - 8 {
        let mut hi_pos = *pos;
        let hi = read_u32_be(data, &mut hi_pos);
        let hi = match hi {
            Some(v) => v,
            None => {
                return None;
            },
        };
        let mut lo_pos = hi_pos;
        let lo = read_u32_be(data, &mut lo_pos);
        let lo = match lo {
            Some(v) => v,
            None => {
                return None;
            },
        };
        *pos = lo_pos;
        Some((hi as u64) * 0x1_0000_0000 + (lo as u64))
    } else {
        None
    }
}

/// Reads one byte as a signed value; `None` on a short read.
pub fn read_i8(data: &Vec<u8>, pos: &mut usize) -> (r: Option<i8>)
    ensures
        match r {
            Some(v) => *old(pos) + 1 <= data@.len() && *final(pos) == *old(pos) + 1 && v == sign8(
                data@[*old(pos) as int] as int,
            ),
            None => *final(pos) == *old(pos) && *old(pos) + 1 > data@.len(),
        },
{
    match read_u8(data, pos) {
        Some(u) => {
            let v: i8 = if u >= 0x80 {
                -((0xFFu8 - u) as i8) - 1
            } else {
                u as i8
            };
            Some(v)
        },
        None => None,
    }
}

/// Reads two bytes big-endian as a signed value; `None` on a short read.
pub fn read_i16_be(data: &Vec<u8>, pos: &mut usize) -> (r: Option<i16>)
    ensures
        match r {
            Some(v) => *old(pos) + 2 <= data@.len() && *final(pos) == *old(pos) + 2 && v == sign16(
                be_u16(data@, *old(pos) as int),
            ),
            None => *final(pos) == *old(pos) && *old(pos) + 2 > data@.len(),
        },
{
    match read_u16_be(data, pos) {
        Some(u) => {
            let v: i16 = if u >= 0x8000 {
                -((0xFFFFu16 - u) as i16) - 1
            } else {
                u as i16
            };
            Some(v)
        },
        None => None,
    }
}

/// Reads four bytes big-endian as a signed value; `None` on a short read.
pub fn read_i32_be(data: &Vec<u8>, pos: &mut usize) -> (r: Option<i32>)
    ensures
        match r {
            Some(v) => *old(pos) + 4 <= data@.len() && *final(pos) == *old(pos) + 4 && v == sign32(
                be_u32(data@, *old(pos) as int),
            ),
            None => *final(pos) == *old(pos) && *old(pos) + 4 > data@.len(),
        },
{
    match read_u32_be(data, pos) {
        Some(u) => {
            let v: i32 = if u >= 0x8000_0000 {
                -((0xFFFF_FFFFu32 - u) as i32) - 1
            } else {
                u as i32
            };
            Some(v)
        },
        None => None,
    }
}

/// Reads `n` bytes verbatim and advances the cursor; `None` on a short read.
pub fn read_bytes(data: &Vec<u8>, pos: &mut usize, n: usize) -> (r: Option<Vec<u8>>)
    ensures
        match r {
            Some(v) => *old(pos) + n <= data@.len() && *final(pos) == *old(pos) + n && v@
                == data@.subrange(*old(pos) as int, *old(pos) + n),
            None => *final(pos) == *old(pos) && *old(pos) + n > data@.len(),
        },
{
    if n <= data.len() && *pos <= data.len() - n {
        let mut out: Vec<u8> = Vec::new();
        let mut i: usize = 0;
        while i < n
            invariant
                i <= n,
                *pos + n <= data@.len(),
                data@.len() <= usize::MAX,
                out@ == data@.subrange(*pos as int, *pos + i),
            decreases n - i,
        {
            assert(*pos + i < data@.len());
            out.push(data[*pos + i]);
            i = i + 1;
            proof {
                assert(out@ =~= data@.subrange(*pos as int, *pos + i));
            }
        }
        *pos = *pos + n;
        Some(out)
    } else {
        None
    }
}

/// Consumes and discards the `(-n) mod 4` padding bytes that follow a payload
/// of `n` bytes; `false` on a short read.
pub fn skip_padding(data: &Vec<u8>, pos: &mut usize, n: usize) -> (r: bool)
    ensures
        r ==> *old(pos) + pad4(n as int) <= data@.len() && *final(pos) == *old(pos) + pad4(
            n as int,
        ),
        !r ==> *final(pos) == *old(pos) && *old(pos) + pad4(n as int) > data@.len(),
{
    let pad: usize = ((4 - n % 4) % 4) as usize;
    if pad <= data.len() && *pos <= data.len() - pad {
        *pos = *pos + pad;
        true
    } else {
        false
    }
}

} // verus!
