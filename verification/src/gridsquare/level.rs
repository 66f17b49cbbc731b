//! The level of a code, told from the number of its digits.

use vstd::prelude::*;
use vstd::string::*;
use crate::Error;
use crate::gridsquare::primary::PrimaryCode;
use crate::gridsquare::quad::{EighthCode, HalfCode, QuarterCode};
use crate::gridsquare::secondary::SecondaryCode;
use crate::gridsquare::standard::StandardCode;

verus! {

/// A code of any of the six levels, tagged with its level.
#[derive(Debug, Clone, Copy, PartialEq, Eq)]
pub enum LevelAndCode {
    /// Four digits.
    Primary(PrimaryCode),
    /// Six digits.
    Secondary(SecondaryCode),
    /// Eight digits.
    Standard(StandardCode),
    /// Nine digits.
    Half(HalfCode),
    /// Ten digits.
    Quarter(QuarterCode),
    /// Eleven digits.
    Eighth(EighthCode),
}

/// The number of digits that `n` is written with in decimal.
pub open spec fn digit_count(n: nat) -> nat
    decreases n,
{
    if n < 10 {
        1
    } else {
        1 + digit_count(n / 10)
    }
}

/// Counts the decimal digits of `n`.
fn count_digits(n: u64) -> (r: u8)
    ensures
        r == digit_count(n as nat),
        1 <= r <= 20,
{
    let mut rest: u64 = n;
    let mut count: u8 = 1;
    proof {
        lemma_pow10_20();
    }
    while rest >= 10
        invariant
            1 <= count <= 20,
            rest < pow10((21 - count) as nat),
            digit_count(n as nat) == count - 1 + digit_count(rest as nat),
        decreases rest,
    {
        proof {
            assert(pow10((21 - count) as nat) == 10 * pow10((20 - count) as nat));
            if count == 20 {
                assert(pow10(0) == 1);
            }
        }
        rest = rest / 10;
        count = count + 1;
    }
    count
}

/// Ten to the power `e`.
spec fn pow10(e: nat) -> nat
    decreases e,
{
    if e == 0 {
        1
    } else {
        10 * pow10((e - 1) as nat)
    }
}

/// Ten to the power of twenty exceeds every 64-bit number.
proof fn lemma_pow10_20()
    ensures
        pow10(20) > u64::MAX,
{
    reveal_with_fuel(pow10, 21);
}

impl LevelAndCode {
    /// The number of digits that a code of this level is written with.
    pub open spec fn width(&self) -> nat {
        match self {
            LevelAndCode::Primary(_) => 4,
            LevelAndCode::Secondary(_) => 6,
            LevelAndCode::Standard(_) => 8,
            LevelAndCode::Half(_) => 9,
            LevelAndCode::Quarter(_) => 10,
            LevelAndCode::Eighth(_) => 11,
        }
    }

    /// What `from_int` returns: the number of digits decides the level, and
    /// the level reads the number. Seven digits are the width of the x5
    /// level, which has no encoding here.
    pub open spec fn from_int_spec(code: int) -> Result<LevelAndCode, Error> {
        let digits = digit_count(code as nat);
        if digits == 4 {
            match PrimaryCode::from_int_spec(code) {
                Ok(c) => Ok(LevelAndCode::Primary(c)),
                Err(e) => Err(e),
            }
        } else if digits == 6 {
            match SecondaryCode::from_int_spec(code) {
                Ok(c) => Ok(LevelAndCode::Secondary(c)),
                Err(e) => Err(e),
            }
        } else if digits == 7 {
            Err(Error::UnsupportedLevel)
        } else if digits == 8 {
            match StandardCode::from_int_spec(code) {
                Ok(c) => Ok(LevelAndCode::Standard(c)),
                Err(e) => Err(e),
            }
        } else if digits == 9 {
            match HalfCode::from_int_spec(code) {
                Ok(c) => Ok(LevelAndCode::Half(c)),
                Err(e) => Err(e),
            }
        } else if digits == 10 {
            match QuarterCode::from_int_spec(code) {
                Ok(c) => Ok(LevelAndCode::Quarter(c)),
                Err(e) => Err(e),
            }
        } else if digits == 11 {
            match EighthCode::from_int_spec(code) {
                Ok(c) => Ok(LevelAndCode::Eighth(c)),
                Err(e) => Err(e),
            }
        } else {
            Err(Error::InvalidCode)
        }
    }

    /// Reads a code from its number; the number of digits decides the level.
    pub fn from_int(code: u64) -> (r: Result<LevelAndCode, Error>)
        ensures
            r == Self::from_int_spec(code as int),
            r matches Ok(c) ==> c.width() == digit_count(code as nat),
            digit_count(code as nat) == 7 ==> r == Err::<LevelAndCode, Error>(
                Error::UnsupportedLevel,
            ),
    {
        let digits: u8 = count_digits(code);
        proof {
            lemma_digit_count_range(code as nat);
        }
        if digits == 4 {
            match PrimaryCode::from_int(code as u16) {
                Ok(c) => Ok(LevelAndCode::Primary(c)),
                Err(e) => Err(e),
            }
        } else if digits == 6 {
            match SecondaryCode::from_int(code as u32) {
                Ok(c) => Ok(LevelAndCode::Secondary(c)),
                Err(e) => Err(e),
            }
        } else if digits == 7 {
            Err(Error::UnsupportedLevel)
        } else if digits == 8 {
            match StandardCode::from_int(code as u32) {
                Ok(c) => Ok(LevelAndCode::Standard(c)),
                Err(e) => Err(e),
            }
        } else if digits == 9 {
            match HalfCode::from_int(code as u32) {
                Ok(c) => Ok(LevelAndCode::Half(c)),
                Err(e) => Err(e),
            }
        } else if digits == 10 {
            match QuarterCode::from_int(code) {
                Ok(c) => Ok(LevelAndCode::Quarter(c)),
                Err(e) => Err(e),
            }
        } else if digits == 11 {
            match EighthCode::from_int(code) {
                Ok(c) => Ok(LevelAndCode::Eighth(c)),
                Err(e) => Err(e),
            }
        } else {
            Err(Error::InvalidCode)
        }
    }

    /// What `from_str` returns: the length of the text in bytes decides the
    /// level, and the level reads the text. Seven bytes are the width of the
    /// x5 level, which has no encoding here.
    pub open spec fn parse_spec(s: &str) -> Result<LevelAndCode, Error> {
        let len = s.spec_bytes().len();
        if len == 4 {
            match PrimaryCode::parse_spec(s@) {
                Ok(c) => Ok(LevelAndCode::Primary(c)),
                Err(e) => Err(e),
            }
        } else if len == 6 {
            match SecondaryCode::parse_spec(s@) {
                Ok(c) => Ok(LevelAndCode::Secondary(c)),
                Err(e) => Err(e),
            }
        } else if len == 7 {
            Err(Error::UnsupportedLevel)
        } else if len == 8 {
            match StandardCode::parse_spec(s@) {
                Ok(c) => Ok(LevelAndCode::Standard(c)),
                Err(e) => Err(e),
            }
        } else if len == 9 {
            match HalfCode::parse_spec(s@) {
                Ok(c) => Ok(LevelAndCode::Half(c)),
                Err(e) => Err(e),
            }
        } else if len == 10 {
            match QuarterCode::parse_spec(s@) {
                Ok(c) => Ok(LevelAndCode::Quarter(c)),
                Err(e) => Err(e),
            }
        } else if len == 11 {
            match EighthCode::parse_spec(s@) {
                Ok(c) => Ok(LevelAndCode::Eighth(c)),
                Err(e) => Err(e),
            }
        } else {
            Err(Error::InvalidCode)
        }
    }

    /// Reads a code from its digits; the length of the text decides the level.
    pub fn from_str(s: &str) -> (r: Result<LevelAndCode, Error>)
        ensures
            r == Self::parse_spec(s),
            r matches Ok(c) ==> c.width() == s.spec_bytes().len(),
            s.spec_bytes().len() == 7 ==> r == Err::<LevelAndCode, Error>(Error::UnsupportedLevel),
    {
        let len: usize = s.as_bytes().len();
        if len == 4 {
            match PrimaryCode::from_str(s) {
                Ok(c) => Ok(LevelAndCode::Primary(c)),
                Err(e) => Err(e),
            }
        } else if len == 6 {
            match SecondaryCode::from_str(s) {
                Ok(c) => Ok(LevelAndCode::Secondary(c)),
                Err(e) => Err(e),
            }
        } else if len == 7 {
            Err(Error::UnsupportedLevel)
        } else if len == 8 {
            match StandardCode::from_str(s) {
                Ok(c) => Ok(LevelAndCode::Standard(c)),
                Err(e) => Err(e),
            }
        } else if len == 9 {
            match HalfCode::from_str(s) {
                Ok(c) => Ok(LevelAndCode::Half(c)),
                Err(e) => Err(e),
            }
        } else if len == 10 {
            match QuarterCode::from_str(s) {
                Ok(c) => Ok(LevelAndCode::Quarter(c)),
                Err(e) => Err(e),
            }
        } else if len == 11 {
            match EighthCode::from_str(s) {
                Ok(c) => Ok(LevelAndCode::Eighth(c)),
                Err(e) => Err(e),
            }
        } else {
            Err(Error::InvalidCode)
        }
    }
}

/// A number of `d` digits, for `d` from 1 to 11, is at least ten to the
/// `d - 1` and less than ten to the `d`.
pub proof fn lemma_digit_count_range(n: nat)
    ensures
        digit_count(n) == 4 <==> 1_000 <= n <= 9_999,
        digit_count(n) == 6 <==> 100_000 <= n <= 999_999,
        digit_count(n) == 7 <==> 1_000_000 <= n <= 9_999_999,
        digit_count(n) == 8 <==> 10_000_000 <= n <= 99_999_999,
        digit_count(n) == 9 <==> 100_000_000 <= n <= 999_999_999,
        digit_count(n) == 10 <==> 1_000_000_000 <= n <= 9_999_999_999,
        digit_count(n) == 11 <==> 10_000_000_000 <= n <= 99_999_999_999,
{
    reveal_with_fuel(digit_count, 13);
}

impl core::str::FromStr for LevelAndCode {
    type Err = Error;

    /// Reads the code as `LevelAndCode::from_str` does.
    fn from_str(s: &str) -> (r: Result<Self, Error>)
        ensures
            r == LevelAndCode::parse_spec(s),
    {
        LevelAndCode::from_str(s)
    }
}

} // verus!
