//! Decimal digits as characters.

use vstd::prelude::*;
use vstd::string::*;

verus! {

/// Whether `c` is one of the ten ASCII decimal digits.
pub open spec fn is_digit(c: char) -> bool {
    '0' <= c <= '9'
}

/// The number that the digit `c` stands for.
pub open spec fn digit_value(c: char) -> int
    recommends
        is_digit(c),
{
    c as int - 48
}

/// The character of the digit `d`.
pub open spec fn digit_char(d: int) -> char
    recommends
        0 <= d <= 9,
{
    (d + 48) as char
}

/// The one-character text of the digit `d`.
pub(crate) fn digit_str(d: u8) -> (r: &'static str)
    requires
        d <= 9,
    ensures
        r@ == seq![digit_char(d as int)],
{
    proof {
        reveal_strlit("0");
        reveal_strlit("1");
        reveal_strlit("2");
        reveal_strlit("3");
        reveal_strlit("4");
        reveal_strlit("5");
        reveal_strlit("6");
        reveal_strlit("7");
        reveal_strlit("8");
        reveal_strlit("9");
    }
    let r = match d {
        0 => "0",
        1 => "1",
        2 => "2",
        3 => "3",
        4 => "4",
        5 => "5",
        6 => "6",
        7 => "7",
        8 => "8",
        _ => "9",
    };
    assert(r@ =~= seq![digit_char(d as int)]);
    r
}

/// Reads the character at `i` of an ASCII text as a digit, if it is one.
fn digit_at(s: &str, i: usize) -> (r: Option<u8>)
    requires
        s.is_ascii(),
        i < s@.len(),
    ensures
        is_digit(s@[i as int]) ==> r == Some(digit_value(s@[i as int]) as u8),
        !is_digit(s@[i as int]) ==> r is None,
{
    let b: u8 = s.get_ascii(i);
    if 48 <= b && b <= 57 {
        Some(b - 48)
    } else {
        None
    }
}

/// Whether every character of `s` is a decimal digit.
pub open spec fn all_digits(s: Seq<char>) -> bool {
    forall|i: int| 0 <= i < s.len() ==> is_digit(#[trigger] s[i])
}

/// Whether `s` is made of exactly `len` decimal digits.
pub(crate) fn has_digits(s: &str, len: usize) -> (r: bool)
    ensures
        r == (s@.len() == len && all_digits(s@)),
        r ==> s.is_ascii(),
{
    if !s.is_ascii() {
        return false;
    }
    proof {
        is_ascii_spec_bytes(s);
        assert(s.spec_bytes().len() == Seq::new(s@.len(), |i| s@.index(i) as u8).len());
    }
    if s.as_bytes().len() != len {
        return false;
    }
    let mut i: usize = 0;
    while i < len
        invariant
            s.is_ascii(),
            s@.len() == len,
            i <= len,
            forall|j: int| 0 <= j < i ==> is_digit(#[trigger] s@[j]),
        decreases len - i,
    {
        if digit_at(s, i).is_none() {
            return false;
        }
        i = i + 1;
    }
    true
}

/// The value of the digit at `i` of a text of digits.
pub(crate) fn digit_value_at(s: &str, i: usize) -> (r: u8)
    requires
        s.is_ascii(),
        i < s@.len(),
        is_digit(s@[i as int]),
    ensures
        r == digit_value(s@[i as int]),
        r <= 9,
{
    s.get_ascii(i) - 48
}

/// The number that a text of decimal digits stands for.
pub open spec fn text_value(s: Seq<char>) -> int
    decreases s.len(),
{
    if s.len() == 0 {
        0
    } else {
        text_value(s.drop_last()) * 10 + digit_value(s.last())
    }
}

/// The number that a text stands for is ten times the number that the text
/// without its last digit stands for, and the last digit.
pub proof fn lemma_text_value_step(s: Seq<char>, n: int)
    requires
        0 < n <= s.len(),
    ensures
        text_value(s.subrange(0, n)) == text_value(s.subrange(0, n - 1)) * 10 + digit_value(
            s[n - 1],
        ),
        text_value(s.subrange(0, 0)) == 0,
        s.subrange(0, s.len() as int) == s,
{
    assert(s.subrange(0, n).drop_last() =~= s.subrange(0, n - 1));
    assert(s.subrange(0, s.len() as int) =~= s);
}

/// The decimal digits of `n`, without leading zeros.
pub open spec fn nat_text(n: nat) -> Seq<char>
    decreases n,
{
    if n < 10 {
        seq![digit_char(n as int)]
    } else {
        nat_text(n / 10).push(digit_char((n % 10) as int))
    }
}

/// Whether `scale` is a power of ten.
pub open spec fn power_of_ten(scale: nat) -> bool
    decreases scale,
{
    scale == 1 || (scale >= 10 && scale % 10 == 0 && power_of_ten(scale / 10))
}

/// The decimal places of the fraction `f / (10 * scale)`, without trailing
/// zeros; `scale` is a power of ten and the value of the first place.
pub open spec fn fraction_text(f: nat, scale: nat) -> Seq<char>
    recommends
        f < 10 * scale,
    decreases scale,
{
    if f == 0 || scale == 0 {
        Seq::empty()
    } else {
        seq![digit_char((f / scale) as int)] + fraction_text(f % scale, scale / 10)
    }
}

/// The decimal text of `v / (10 * scale)`: a minus sign where `v` is
/// negative, the whole part, and, where there is a fraction, a point and the
/// decimal places without trailing zeros.
pub open spec fn decimal_text(v: int, scale: nat) -> Seq<char>
    recommends
        scale > 0,
{
    let m = if v < 0 {
        (-v) as nat
    } else {
        v as nat
    };
    let sign = if v < 0 {
        seq!['-']
    } else {
        Seq::empty()
    };
    let places = if m % (10 * scale) == 0 {
        Seq::empty()
    } else {
        seq!['.'] + fraction_text(m % (10 * scale), scale)
    };
    sign + nat_text(m / (10 * scale)) + places
}

/// Appends the decimal digits of `n`.
pub(crate) fn push_nat(s: &mut String, n: u64)
    ensures
        final(s)@ == old(s)@ + nat_text(n as nat),
    decreases n,
{
    if n >= 10 {
        push_nat(s, n / 10);
    }
    s.append(digit_str((n % 10) as u8));
    assert(final(s)@ =~= old(s)@ + nat_text(n as nat));
}

/// Appends the decimal places of `f / (10 * scale)`.
pub(crate) fn push_fraction(s: &mut String, f: u64, scale: u64)
    requires
        power_of_ten(scale as nat),
        f == 0 || f < 10 * scale,
    ensures
        final(s)@ == old(s)@ + fraction_text(f as nat, scale as nat),
    decreases scale,
{
    if f == 0 || scale == 0 {
        assert(final(s)@ =~= old(s)@ + fraction_text(f as nat, scale as nat));
        return ;
    }
    proof {
        vstd::arithmetic::div_mod::lemma_multiply_divide_lt(f as int, scale as int, 10);
    }
    s.append(digit_str((f / scale) as u8));
    if scale >= 10 {
        push_fraction(s, f % scale, scale / 10);
    }
    assert(final(s)@ =~= old(s)@ + fraction_text(f as nat, scale as nat));
}

/// Appends the decimal text of `v / (10 * scale)`.
pub(crate) fn push_decimal(s: &mut String, v: i64, scale: u64)
    requires
        power_of_ten(scale as nat),
        scale <= 1_000_000_000_000_000_000,
        v > i64::MIN,
    ensures
        final(s)@ == old(s)@ + decimal_text(v as int, scale as nat),
{
    let unit: u64 = 10 * scale;
    let m: u64 = if v < 0 {
        (-v) as u64
    } else {
        v as u64
    };
    if v < 0 {
        proof {
            reveal_strlit("-");
        }
        s.append("-");
    }
    push_nat(s, m / unit);
    if m % unit != 0 {
        proof {
            reveal_strlit(".");
        }
        s.append(".");
        push_fraction(s, m % unit, scale);
    }
    assert(final(s)@ =~= old(s)@ + decimal_text(v as int, scale as nat));
}

} // verus!
