//! Values of the command line that take more than a type to read.

use vstd::prelude::*;
use vstd::string::StrSliceExecFns;

verus! {

/// Width of the radio channel, in megahertz.
#[derive(Clone, Copy, Debug, PartialEq, Eq, Structural)]
pub enum Bandwidth {
    Bw10,
    Bw20,
    Bw40,
    Bw80,
    Bw160,
}

/// Why a number could not be read.
#[derive(Clone, Copy, Debug, PartialEq, Eq, Structural)]
pub enum NumberError {
    /// There is nothing to read.
    Empty,
    /// A character is not a decimal digit, or a sign stands alone.
    InvalidDigit,
    /// The number does not fit in 64 bits.
    Overflow,
}

/// What is said of a number that could not be read.
pub open spec fn number_error_text(error: NumberError) -> Seq<char> {
    match error {
        NumberError::Empty => "cannot parse integer from empty string"@,
        NumberError::InvalidDigit => "invalid digit found in string"@,
        NumberError::Overflow => "number too large to fit in target type"@,
    }
}

impl NumberError {
    /// The error in words.
    pub fn message(&self) -> (text: String)
        ensures
            text@ == number_error_text(*self),
    {
        match self {
            NumberError::Empty => "cannot parse integer from empty string".to_string(),
            NumberError::InvalidDigit => "invalid digit found in string".to_string(),
            NumberError::Overflow => "number too large to fit in target type".to_string(),
        }
    }
}

impl Bandwidth {
    /// The width in megahertz.
    pub fn megahertz(&self) -> (width: u16)
        ensures
            width == megahertz_of(*self),
    {
        match self {
            Bandwidth::Bw10 => 10,
            Bandwidth::Bw20 => 20,
            Bandwidth::Bw40 => 40,
            Bandwidth::Bw80 => 80,
            Bandwidth::Bw160 => 160,
        }
    }
}

/// The width of a channel in megahertz.
pub open spec fn megahertz_of(bandwidth: Bandwidth) -> u16 {
    match bandwidth {
        Bandwidth::Bw10 => 10,
        Bandwidth::Bw20 => 20,
        Bandwidth::Bw40 => 40,
        Bandwidth::Bw80 => 80,
        Bandwidth::Bw160 => 160,
    }
}

/// The bandwidth that an argument names, if it names one.
pub open spec fn bandwidth_of(arg: Seq<char>) -> Option<Bandwidth> {
    if arg == "10"@ {
        Some(Bandwidth::Bw10)
    } else if arg == "20"@ {
        Some(Bandwidth::Bw20)
    } else if arg == "40"@ {
        Some(Bandwidth::Bw40)
    } else if arg == "80"@ {
        Some(Bandwidth::Bw80)
    } else if arg == "160"@ {
        Some(Bandwidth::Bw160)
    } else {
        None
    }
}

/// Whether `c` is a decimal digit.
pub open spec fn is_digit(c: char) -> bool {
    '0' <= c <= '9'
}

/// The value of a decimal digit.
pub open spec fn digit_value(c: char) -> int {
    c as int - '0' as int
}

/// The number that a string of digits denotes, read from the left. Reading
/// stops at the first character that is not a digit, or at the first digit
/// with which the number leaves 64 bits.
pub open spec fn scan_digits(digits: Seq<char>) -> Result<int, NumberError>
    decreases digits.len(),
{
    if digits.len() == 0 {
        Ok(0)
    } else {
        match scan_digits(digits.drop_last()) {
            Err(e) => Err(e),
            Ok(above) => if !is_digit(digits.last()) {
                Err(NumberError::InvalidDigit)
            } else if above * 10 + digit_value(digits.last()) > u64::MAX {
                Err(NumberError::Overflow)
            } else {
                Ok(above * 10 + digit_value(digits.last()))
            },
        }
    }
}

/// The number of milliseconds that an argument states: decimal digits, with
/// or without a plus sign in front.
pub open spec fn millis_of(arg: Seq<char>) -> Result<int, NumberError> {
    if arg.len() == 0 {
        Err(NumberError::Empty)
    } else if arg[0] == '+' {
        if arg.len() == 1 {
            Err(NumberError::InvalidDigit)
        } else {
            scan_digits(arg.skip(1))
        }
    } else {
        scan_digits(arg)
    }
}

/// What `parse_duration` returns, as plain values.
pub open spec fn millis_view(parsed: Result<u64, NumberError>) -> Result<int, NumberError> {
    match parsed {
        Ok(millis) => Ok(millis as int),
        Err(e) => Err(e),
    }
}

/// The value of `c` if it is a decimal digit.
fn digit(c: char) -> (value: Option<u64>)
    ensures
        value is Some <==> is_digit(c),
        value is Some ==> value.unwrap() == digit_value(c),
{
    if c == '0' {
        Some(0)
    } else if c == '1' {
        Some(1)
    } else if c == '2' {
        Some(2)
    } else if c == '3' {
        Some(3)
    } else if c == '4' {
        Some(4)
    } else if c == '5' {
        Some(5)
    } else if c == '6' {
        Some(6)
    } else if c == '7' {
        Some(7)
    } else if c == '8' {
        Some(8)
    } else if c == '9' {
        Some(9)
    } else {
        None
    }
}

/// Reads a log interval: a whole number of milliseconds.
pub fn parse_duration(arg: &str) -> (parsed: Result<u64, NumberError>)
    ensures
        millis_view(parsed) == millis_of(arg@),
{
    let length = arg.unicode_len();
    if length == 0 {
        return Err(NumberError::Empty);
    }
    let start: usize = if arg.get_char(0) == '+' {
        1
    } else {
        0
    };
    if start == length {
        return Err(NumberError::InvalidDigit);
    }
    let ghost digits = if start == 1 {
        arg@.skip(1)
    } else {
        arg@
    };
    let mut millis: u64 = 0;
    let mut i: usize = start;
    assert(digits.take(0) =~= Seq::<char>::empty());
    while i < length
        invariant
            start <= i <= length,
            length == arg@.len(),
            start < length,
            start == (if arg@[0] == '+' { 1int } else { 0int }),
            digits == (if start == 1 {
                arg@.skip(1)
            } else {
                arg@
            }),
            scan_digits(digits.take(i - start)) == Ok::<int, NumberError>(millis as int),
        decreases length - i,
    {
        let ghost seen = digits.take(i - start + 1);
        assert(seen.drop_last() =~= digits.take(i - start));
        assert(digits[i - start] == arg@[i as int]);
        let value = match digit(arg.get_char(i)) {
            Some(value) => value,
            None => {
                proof {
                    assert(scan_digits(seen) == Err::<int, NumberError>(NumberError::InvalidDigit));
                    lemma_scan_error_stays(digits, i - start + 1);
                }
                return Err(NumberError::InvalidDigit);
            },
        };
        if millis > (u64::MAX - value) / 10 {
            proof {
                assert(scan_digits(seen) == Err::<int, NumberError>(NumberError::Overflow));
                lemma_scan_error_stays(digits, i - start + 1);
            }
            return Err(NumberError::Overflow);
        }
        millis = millis * 10 + value;
        i += 1;
    }
    assert(digits.take(i - start) =~= digits);
    Ok(millis)
}

/// Reads a channel bandwidth: one of 10, 20, 40, 80 and 160.
pub fn parse_bandwidth(arg: &str) -> (parsed: Result<Bandwidth, String>)
    ensures
        match parsed {
            Ok(bandwidth) => bandwidth_of(arg@) == Some(bandwidth),
            Err(message) => bandwidth_of(arg@) is None && message@ == "Invalid Bandwidth!"@,
        },
{
    proof {
        reveal_strlit("10");
        reveal_strlit("20");
        reveal_strlit("40");
        reveal_strlit("80");
        reveal_strlit("160");
    }
    let length = arg.unicode_len();
    if length == 2 && arg.get_char(1) == '0' {
        let tens = arg.get_char(0);
        if tens == '1' {
            assert(arg@ =~= "10"@);
            return Ok(Bandwidth::Bw10);
        } else if tens == '2' {
            assert(arg@ =~= "20"@);
            return Ok(Bandwidth::Bw20);
        } else if tens == '4' {
            assert(arg@ =~= "40"@);
            return Ok(Bandwidth::Bw40);
        } else if tens == '8' {
            assert(arg@ =~= "80"@);
            return Ok(Bandwidth::Bw80);
        }
    } else if length == 3 && arg.get_char(0) == '1' && arg.get_char(1) == '6' && arg.get_char(2)
        == '0' {
        assert(arg@ =~= "160"@);
        return Ok(Bandwidth::Bw160);
    }
    Err("Invalid Bandwidth!".to_string())
}

/// Once reading has failed, more characters do not mend it.
pub proof fn lemma_scan_error_stays(digits: Seq<char>, seen: int)
    requires
        0 <= seen <= digits.len(),
        scan_digits(digits.take(seen)) is Err,
    ensures
        scan_digits(digits) == scan_digits(digits.take(seen)),
    decreases digits.len() - seen,
{
    if seen == digits.len() {
        assert(digits.take(seen) =~= digits);
    } else {
        assert(digits.take(seen + 1).drop_last() =~= digits.take(seen));
        lemma_scan_error_stays(digits, seen + 1);
    }
}

} // verus!
