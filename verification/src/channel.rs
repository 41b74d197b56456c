//! The report channel: how the number of a file descriptor travels through
//! an environment variable.
//!
//! The coordinator creates the descriptor and writes its number, in decimal,
//! into the environment of the child. The interception layer in the child
//! reads the number back. A value that is no decimal number, does not fit
//! in 32 bits or is negative names no descriptor, and reporting is off.

use vstd::prelude::*;

verus! {

/// The name of the variable that carries the number of the descriptor.
pub const REPORT_FD_VARIABLE: &'static str = "NIX_EVAL_CACHE_FD";

/// `0`
pub const DIGIT_ZERO: u8 = 0x30;

/// `+`
pub const PLUS: u8 = 0x2b;

/// `-`
pub const MINUS: u8 = 0x2d;

/// The byte is one of `0` to `9`.
pub open spec fn is_digit(b: u8) -> bool {
    0x30 <= b <= 0x39
}

/// Every byte is a digit.
pub open spec fn all_digits(s: Seq<u8>) -> bool {
    forall|i: int| 0 <= i < s.len() ==> is_digit(#[trigger] s[i])
}

/// The number that a string of digits stands for.
pub open spec fn decimal_value(digits: Seq<u8>) -> nat
    decreases digits.len(),
{
    if digits.len() == 0 {
        0
    } else {
        (decimal_value(digits.drop_last()) * 10 + (digits.last() - DIGIT_ZERO)) as nat
    }
}

/// The digits of `n`, without leading zeros.
pub open spec fn decimal_of(n: nat) -> Seq<u8>
    decreases n,
{
    if n < 10 {
        seq![(DIGIT_ZERO + n) as u8]
    } else {
        decimal_of(n / 10).push((DIGIT_ZERO + n % 10) as u8)
    }
}

/// Whether the string begins with a sign.
pub open spec fn has_sign(s: Seq<u8>) -> bool {
    s.len() > 0 && (s[0] == PLUS || s[0] == MINUS)
}

/// The integer that `s` stands for: an optional sign, then at least one
/// digit and nothing else. `None` if `s` is not of that form.
pub open spec fn parse_integer(s: Seq<u8>) -> Option<int> {
    let digits = if has_sign(s) {
        s.skip(1)
    } else {
        s
    };
    if digits.len() > 0 && all_digits(digits) {
        if has_sign(s) && s[0] == MINUS {
            Some(-(decimal_value(digits) as int))
        } else {
            Some(decimal_value(digits) as int)
        }
    } else {
        None
    }
}

/// The descriptor that the value of the variable names: the value has to be
/// an integer from 0 to `i32::MAX`.
pub open spec fn descriptor_in(value: Seq<u8>) -> Option<i32> {
    match parse_integer(value) {
        Some(n) => if 0 <= n <= i32::MAX {
            Some(n as i32)
        } else {
            None
        },
        None => None,
    }
}

/// The descriptor of the report channel, given the variable as it was found
/// in the environment: `None` if the variable is not set or names no
/// descriptor.
pub open spec fn report_channel(variable: Option<Seq<u8>>) -> Option<i32> {
    match variable {
        Some(value) => descriptor_in(value),
        None => None,
    }
}

/// The value that names the descriptor `fd`: its digits, after a minus
/// sign if it is negative.
pub open spec fn descriptor_value(fd: i32) -> Seq<u8> {
    if fd < 0 {
        seq![MINUS] + decimal_of((-fd) as nat)
    } else {
        decimal_of(fd as nat)
    }
}

/// One more digit at the end multiplies the value by ten and adds the
/// digit.
pub proof fn lemma_decimal_value_push(digits: Seq<u8>, d: u8)
    requires
        is_digit(d),
    ensures
        decimal_value(digits.push(d)) == decimal_value(digits) * 10 + (d - DIGIT_ZERO),
{
    assert(digits.push(d).drop_last() =~= digits);
}

/// The digits of a number are digits, at least one, and stand for the
/// number.
pub proof fn lemma_decimal_of(n: nat)
    ensures
        decimal_of(n).len() > 0,
        all_digits(decimal_of(n)),
        decimal_value(decimal_of(n)) == n,
    decreases n,
{
    if n < 10 {
        assert(decimal_value(decimal_of(n).drop_last()) == 0);
    } else {
        lemma_decimal_of(n / 10);
        lemma_decimal_value_push(decimal_of(n / 10), (DIGIT_ZERO + n % 10) as u8);
    }
}

/// A value written for a descriptor is read back as that descriptor.
pub proof fn lemma_channel_round_trip(fd: i32)
    requires
        fd >= 0,
    ensures
        report_channel(Some(descriptor_value(fd))) == Some(fd),
{
    lemma_decimal_of(fd as nat);
}

/// A longer string of digits stands for no smaller a number.
proof fn lemma_decimal_value_grows(digits: Seq<u8>, n: int)
    requires
        0 <= n <= digits.len(),
        all_digits(digits),
    ensures
        decimal_value(digits.take(n)) <= decimal_value(digits),
    decreases digits.len() - n,
{
    if n < digits.len() {
        assert(digits.take(n + 1).drop_last() =~= digits.take(n));
        lemma_decimal_value_grows(digits, n + 1);
    } else {
        assert(digits.take(n) =~= digits);
    }
}

/// The descriptor that `value` names, if it names one.
pub fn parse_descriptor(value: &[u8]) -> (fd: Option<i32>)
    ensures
        fd == descriptor_in(value@),
{
    let signed: bool = value.len() > 0 && (value[0] == PLUS || value[0] == MINUS);
    let negative: bool = signed && value[0] == MINUS;
    let start: usize = if signed {
        1
    } else {
        0
    };
    if start == value.len() {
        return None;
    }
    let ghost digits = value@.skip(start as int);
    let mut acc: i64 = 0;
    let mut i: usize = start;
    while i < value.len()
        invariant
            start <= i <= value.len(),
            start < value.len(),
            digits == value@.skip(start as int),
            signed == has_sign(value@),
            start == (if signed { 1int } else { 0int }),
            forall|j: int| 0 <= j < i - start ==> is_digit(#[trigger] digits[j]),
            acc == decimal_value(digits.take(i - start)),
            0 <= acc <= i32::MAX,
        decreases value.len() - i,
    {
        let b: u8 = value[i];
        assert(digits[i - start] == b);
        if b < 0x30 || b > 0x39 {
            return None;
        }
        let d: i64 = (b - DIGIT_ZERO) as i64;
        let next: i64 = acc * 10 + d;
        proof {
            assert(digits.take(i - start + 1) =~= digits.take(i - start).push(b));
            lemma_decimal_value_push(digits.take(i - start), b);
        }
        if next > i32::MAX as i64 {
            proof {
                // The digits so far already stand for too large a number;
                // if the rest are digits too, the whole does.
                assert(value@.skip(0) =~= value@);
                if all_digits(digits) {
                    lemma_decimal_value_grows(digits, i - start + 1);
                }
            }
            return None;
        }
        acc = next;
        i = i + 1;
    }
    assert(digits.take(digits.len() as int) =~= digits);
    assert(value@.skip(0) =~= value@);
    if negative && acc != 0 {
        return None;
    }
    Some(acc as i32)
}

/// The value that names the descriptor `fd`.
pub fn format_descriptor(fd: i32) -> (value: Vec<u8>)
    ensures
        value@ == descriptor_value(fd),
{
    let magnitude: i64 = if fd < 0 {
        -(fd as i64)
    } else {
        fd as i64
    };
    // The digits, last one first.
    let mut reversed: Vec<u8> = Vec::new();
    let mut rest: i64 = magnitude;
    while rest >= 10
        invariant
            0 <= rest <= magnitude,
            decimal_of(magnitude as nat) == decimal_of(rest as nat) + reversed@.reverse(),
        decreases rest,
    {
        let d: u8 = (rest % 10) as u8 + DIGIT_ZERO;
        let ghost before = reversed@;
        reversed.push(d);
        proof {
            assert(decimal_of((rest / 10) as nat).push(d) + before.reverse() =~= decimal_of(
                (rest / 10) as nat,
            ) + reversed@.reverse());
        }
        rest = rest / 10;
    }
    let mut value: Vec<u8> = Vec::new();
    if fd < 0 {
        value.push(MINUS);
    }
    let ghost prefix = value@;
    value.push(rest as u8 + DIGIT_ZERO);
    let mut i: usize = reversed.len();
    while i > 0
        invariant
            i <= reversed.len(),
            value@ == prefix + decimal_of(rest as nat) + reversed@.reverse().take(
                reversed.len() - i,
            ),
        decreases i,
    {
        i = i - 1;
        value.push(reversed[i]);
    }
    value
}

} // verus!
