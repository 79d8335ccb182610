//! The `U` (UTC datetime) payload: a fixed textual pattern of six two-digit
//! fields (`YYMMDDhhmmss`) optionally followed by `.` and one to nine
//! fractional-second digits, as in `YYMMDDhhmmss.fff`.

use vstd::prelude::*;

verus! {

use crate::klv::KlvError;

/// A parsed `U` payload. Two-digit years map to 1969..=2068.
#[derive(Debug, Clone, Copy, PartialEq, Eq, Structural, Hash)]
pub struct DateTime {
    pub year: u16,
    pub month: u8,
    pub day: u8,
    pub hour: u8,
    pub minute: u8,
    pub second: u8,
    pub nanosecond: u32,
}

pub open spec fn is_digit(b: u8) -> bool {
    0x30 <= b && b <= 0x39
}

pub open spec fn digit(b: u8) -> int {
    b - 0x30
}

/// Value of the two decimal digits at `i`.
pub open spec fn two_digits(s: Seq<u8>, i: int) -> int {
    digit(s[i]) * 10 + digit(s[i + 1])
}

/// Value of the decimal digits in `s[i..j]`.
pub open spec fn digits_val(s: Seq<u8>, i: int, j: int) -> int
    decreases j - i,
{
    if j <= i {
        0
    } else {
        digits_val(s, i, j - 1) * 10 + digit(s[j - 1])
    }
}

pub open spec fn pow10(k: nat) -> int
    decreases k,
{
    if k == 0 {
        1
    } else {
        10 * pow10((k - 1) as nat)
    }
}

pub proof fn lemma_pow10_pos(k: nat)
    ensures
        pow10(k) >= 1,
    decreases k,
{
    if k > 0 {
        lemma_pow10_pos((k - 1) as nat);
    }
}

pub proof fn lemma_pow10_mono(a: nat, b: nat)
    requires
        a <= b,
    ensures
        pow10(a) <= pow10(b),
    decreases b,
{
    if a < b {
        lemma_pow10_mono(a, (b - 1) as nat);
        lemma_pow10_pos((b - 1) as nat);
    }
}

pub proof fn lemma_pow10_add(a: nat, b: nat)
    ensures
        pow10(a) * pow10(b) == pow10(a + b),
    decreases a,
{
    if a == 0 {
    } else {
        lemma_pow10_add((a - 1) as nat, b);
        assert(pow10(a) * pow10(b) == 10 * (pow10((a - 1) as nat) * pow10(b)))
            by (nonlinear_arith)
            requires
                pow10(a) == 10 * pow10((a - 1) as nat),
        ;
    }
}

/// Digits are bounded by the power of ten of their count.
pub proof fn lemma_digits_val_bound(s: Seq<u8>, i: int, j: int)
    requires
        forall|k: int| i <= k < j ==> is_digit(#[trigger] s[k]),
    ensures
        0 <= digits_val(s, i, j),
        j > i ==> digits_val(s, i, j) < pow10((j - i) as nat),
    decreases j - i,
{
    if j > i {
        lemma_digits_val_bound(s, i, j - 1);
        if j - 1 > i {
            assert(digits_val(s, i, j - 1) * 10 + digit(s[j - 1]) < pow10((j - i) as nat))
                by (nonlinear_arith)
                requires
                    digits_val(s, i, j - 1) < pow10((j - i - 1) as nat),
                    digit(s[j - 1]) <= 9,
                    pow10((j - i) as nat) == 10 * pow10((j - i - 1) as nat),
            ;
        }
    }
}

/// Whether a payload matches the datetime pattern, field ranges included.
pub open spec fn datetime_bytes_valid(s: Seq<u8>) -> bool {
    &&& (s.len() == 12 || (14 <= s.len() && s.len() <= 22 && s[12] == 0x2E))
    &&& (forall|i: int| 0 <= i < 12 ==> is_digit(#[trigger] s[i]))
    &&& (forall|i: int| 13 <= i < s.len() ==> is_digit(#[trigger] s[i]))
    &&& 1 <= two_digits(s, 2) && two_digits(s, 2) <= 12
    &&& 1 <= two_digits(s, 4) && two_digits(s, 4) <= 31
    &&& two_digits(s, 6) <= 23
    &&& two_digits(s, 8) <= 59
    &&& two_digits(s, 10) <= 59
}

/// Two-digit years 00..=68 fall in the 2000s, 69..=99 in the 1900s.
pub open spec fn year_of(yy: int) -> int {
    if yy <= 68 {
        2000 + yy
    } else {
        1900 + yy
    }
}

/// The fractional digits scaled to nanoseconds.
pub open spec fn frac_nanos(s: Seq<u8>) -> int {
    if s.len() == 12 {
        0
    } else {
        digits_val(s, 13, s.len() as int) * pow10((22 - s.len()) as nat)
    }
}

/// The datetime a valid payload denotes.
pub open spec fn datetime_of(s: Seq<u8>) -> DateTime {
    DateTime {
        year: year_of(two_digits(s, 0)) as u16,
        month: two_digits(s, 2) as u8,
        day: two_digits(s, 4) as u8,
        hour: two_digits(s, 6) as u8,
        minute: two_digits(s, 8) as u8,
        second: two_digits(s, 10) as u8,
        nanosecond: frac_nanos(s) as u32,
    }
}

fn pow10_exec(k: usize) -> (r: u32)
    requires
        k <= 9,
    ensures
        r == pow10(k as nat),
{
    proof {
        reveal_with_fuel(pow10, 10);
    }
    match k {
        0 => 1,
        1 => 10,
        2 => 100,
        3 => 1_000,
        4 => 10_000,
        5 => 100_000,
        6 => 1_000_000,
        7 => 10_000_000,
        8 => 100_000_000,
        _ => 1_000_000_000,
    }
}

/// Reads the two decimal digits at `i`.
fn two_digits_exec(bytes: &Vec<u8>, i: usize) -> (r: u8)
    requires
        i + 2 <= bytes.len(),
        is_digit(bytes@[i as int]),
        is_digit(bytes@[i + 1]),
    ensures
        r == two_digits(bytes@, i as int),
{
    (bytes[i] - 0x30) * 10 + (bytes[i + 1] - 0x30)
}

/// Parses a whole `U` payload against the datetime pattern.
pub fn parse_datetime(bytes: &Vec<u8>) -> (r: Result<DateTime, KlvError>)
    ensures
        match r {
            Ok(dt) => datetime_bytes_valid(bytes@) && dt == datetime_of(bytes@),
            Err(e) => !datetime_bytes_valid(bytes@) && e == KlvError::InvalidDateTime,
        },
{
    let n = bytes.len();
    if !(n == 12 || (14 <= n && n <= 22)) {
        return Err(KlvError::InvalidDateTime);
    }
    let mut i: usize = 0;
    while i < 12
        invariant
            i <= 12,
            12 <= bytes@.len(),
            forall|j: int| 0 <= j < i ==> is_digit(#[trigger] bytes@[j]),
        decreases 12 - i,
    {
        if !(0x30 <= bytes[i] && bytes[i] <= 0x39) {
            return Err(KlvError::InvalidDateTime);
        }
        i = i + 1;
    }
    let nanosecond: u32 = if n == 12 {
        0u32
    } else {
        if bytes[12] != 0x2E {
            return Err(KlvError::InvalidDateTime);
        }
        let mut j: usize = 13;
        let mut acc: u32 = 0;
        while j < n
            invariant
                13 <= j <= n,
                n == bytes@.len(),
                14 <= n <= 22,
                forall|k: int| 13 <= k < j ==> is_digit(#[trigger] bytes@[k]),
                acc == digits_val(bytes@, 13, j as int),
                acc <= 999_999_999,
            decreases n - j,
        {
            if !(0x30 <= bytes[j] && bytes[j] <= 0x39) {
                return Err(KlvError::InvalidDateTime);
            }
            proof {
                lemma_digits_val_bound(bytes@, 13, j as int);
                if j > 13 {
                    lemma_pow10_mono((j - 13) as nat, 8);
                    assert(pow10(8) == 100_000_000) by {
                        reveal_with_fuel(pow10, 9);
                    }
                }
            }
            acc = acc * 10 + ((bytes[j] - 0x30) as u32);
            j = j + 1;
        }
        let p = pow10_exec(22 - n);
        proof {
            lemma_digits_val_bound(bytes@, 13, n as int);
            lemma_pow10_add((n - 13) as nat, (22 - n) as nat);
            assert(pow10(9) == 1_000_000_000) by {
                reveal_with_fuel(pow10, 10);
            }
            lemma_pow10_pos((22 - n) as nat);
            assert(acc * p <= (pow10((n - 13) as nat) - 1) * pow10((22 - n) as nat))
                by (nonlinear_arith)
                requires
                    acc < pow10((n - 13) as nat),
                    p == pow10((22 - n) as nat),
                    p >= 1,
            ;
            assert((pow10((n - 13) as nat) - 1) * pow10((22 - n) as nat) == pow10(9) - pow10(
                (22 - n) as nat,
            )) by (nonlinear_arith)
                requires
                    pow10((n - 13) as nat) * pow10((22 - n) as nat) == pow10(9),
            ;
        }
        acc * p
    };
    let month = two_digits_exec(bytes, 2);
    if !(1 <= month && month <= 12) {
        return Err(KlvError::InvalidDateTime);
    }
    let day = two_digits_exec(bytes, 4);
    if !(1 <= day && day <= 31) {
        return Err(KlvError::InvalidDateTime);
    }
    let hour = two_digits_exec(bytes, 6);
    if hour > 23 {
        return Err(KlvError::InvalidDateTime);
    }
    let minute = two_digits_exec(bytes, 8);
    if minute > 59 {
        return Err(KlvError::InvalidDateTime);
    }
    let second = two_digits_exec(bytes, 10);
    if second > 59 {
        return Err(KlvError::InvalidDateTime);
    }
    let yy = two_digits_exec(bytes, 0);
    let year: u16 = if yy <= 68 {
        2000 + (yy as u16)
    } else {
        1900 + (yy as u16)
    };
    Ok(DateTime { year, month, day, hour, minute, second, nanosecond })
}

} // verus!
