//! Reading the temperature sensor.
//!
//! The sensor file holds the temperature in thousandths of a degree Celsius,
//! as a decimal integer. A reading that cannot be read is tried again after
//! ten seconds, one that cannot be parsed after one second. A reading is kept
//! and reused for one and a half seconds.
use vstd::prelude::*;

verus! {

/// The characters are one or more decimal digits.
pub open spec fn is_decimal_digits(d: Seq<char>) -> bool {
    &&& d.len() > 0
    &&& forall|i: int| 0 <= i < d.len() ==> '0' <= #[trigger] d[i] && d[i] <= '9'
}

/// The value of a run of decimal digits.
pub open spec fn decimal_value(d: Seq<char>) -> int
    decreases d.len(),
{
    if d.len() == 0 {
        0
    } else {
        decimal_value(d.drop_last()) * 10 + (d.last() as int - '0' as int)
    }
}

/// The integer that a text writes: an optional `+` or `-` sign, then one or
/// more decimal digits, and nothing else.
pub open spec fn signed_decimal(s: Seq<char>) -> Option<int> {
    if s.len() > 0 && s[0] == '-' {
        if is_decimal_digits(s.skip(1)) {
            Some(-decimal_value(s.skip(1)))
        } else {
            None
        }
    } else if s.len() > 0 && s[0] == '+' {
        if is_decimal_digits(s.skip(1)) {
            Some(decimal_value(s.skip(1)))
        } else {
            None
        }
    } else if is_decimal_digits(s) {
        Some(decimal_value(s))
    } else {
        None
    }
}

/// The 32-bit integer that a text writes, where it writes one in range.
pub open spec fn parsed_i32(s: Seq<char>) -> Option<i32> {
    match signed_decimal(s) {
        Some(v) => if i32::MIN <= v && v <= i32::MAX {
            Some(v as i32)
        } else {
            None
        },
        None => None,
    }
}

/// What to do with the contents of the sensor file.
#[derive(Clone, Copy, Debug, PartialEq, Eq, Structural)]
pub enum ReadingStep {
    /// The temperature, in thousandths of a degree Celsius.
    Reading(i32),
    /// Read the file again after this many seconds.
    RetryAfterSeconds(u64),
}

/// What the contents of the sensor file (none where the file could not be read)
/// lead to.
pub open spec fn reading_step(contents: Option<Seq<char>>) -> ReadingStep {
    match contents {
        None => ReadingStep::RetryAfterSeconds(10),
        Some(text) => match parsed_i32(text) {
            Some(value) => ReadingStep::Reading(value),
            None => ReadingStep::RetryAfterSeconds(1),
        },
    }
}

/// Decides on the contents of the sensor file, `None` where it could not be read.
pub fn interpret_reading(contents: Option<&str>) -> (r: ReadingStep)
    ensures
        r == reading_step(
            match contents {
                Some(text) => Some(text@),
                None => None,
            },
        ),
{
    match contents {
        None => ReadingStep::RetryAfterSeconds(10),
        Some(text) => match parse_i32(text) {
            Ok(value) => ReadingStep::Reading(value),
            Err(_) => ReadingStep::RetryAfterSeconds(1),
        },
    }
}

/// How long a reading is reused, in nanoseconds.
pub const READING_LIFETIME_NANOS: u128 = 1_500_000_000u128;

/// Whether a reading taken this many nanoseconds ago is still used.
pub fn reading_is_fresh(elapsed_nanos: u128) -> (r: bool)
    ensures
        r == (elapsed_nanos < READING_LIFETIME_NANOS),
{
    elapsed_nanos < READING_LIFETIME_NANOS
}

/// `str::parse::<i32>`. Its documentation (`i32::from_str_radix`, radix 10)
/// accepts an optional `+` or `-` sign followed by decimal digits only, and
/// fails on anything else (whitespace included) and on a value out of range.
/// The contract says that.
#[verifier::external_body]
fn parse_i32(text: &str) -> (r: Result<i32, std::num::ParseIntError>)
    ensures
        r is Ok <==> parsed_i32(text@) is Some,
        r matches Ok(v) ==> parsed_i32(text@) == Some(v),
{
    text.parse::<i32>()
}

#[verifier::external_type_specification]
#[verifier::external_body]
pub struct ExParseIntError(std::num::ParseIntError);

} // verus!
