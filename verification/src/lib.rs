//! Decoder for GPMF (GoPro Metadata Format) payloads: a self-describing,
//! type-length-value binary stream embedded in a camera's MP4 container.
//!
//! The crate parses a byte payload into a tree of KLV records and projects
//! the `GPS9` telemetry record (raw integer fields plus their `SCAL`
//! divisors) out of a `DEVC` subtree.

pub mod bytes;
pub mod datetime;
pub mod gps9;
pub mod klv;
pub mod laws;
pub mod text;
pub mod track;

pub use klv::Klv;

use vstd::prelude::*;

verus! {

/// `i` as a natural number; negative values clamp to zero.
pub open spec fn nat_of(i: int) -> nat {
    if i >= 0 {
        i as nat
    } else {
        0
    }
}

/// `n` rounded up to the next multiple of 4; payloads are 32-bit aligned.
pub open spec fn round4(n: int) -> int {
    n + ((4 - n % 4) % 4)
}

/// Number of zero padding bytes that follow a payload of `n` bytes.
pub open spec fn pad4(n: int) -> int {
    round4(n) - n
}

/// Rounds a payload length up to the next multiple of 4.
pub fn round_up_4(n: u32) -> (r: u32)
    requires
        n <= 0xFFFF_FFFC,
    ensures
        r == round4(n as int),
{
    n + ((4 - n % 4) % 4)
}

} // verus!
