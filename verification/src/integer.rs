//! Integers of any size: a machine integer where the value fits, an
//! arbitrary-precision one where it does not.

use crate::text::chars_of;
use num_bigint::BigInt;
use vstd::prelude::*;

verus! {

/// `num_bigint::BigInt`, an integer without bounds.
#[verifier::external_type_specification]
#[verifier::external_body]
pub struct ExBigInt(BigInt);

/// The number that a `BigInt` holds.
pub uninterp spec fn big_value(b: BigInt) -> int;

/// Why a text is no integer.
#[derive(Debug, PartialEq)]
pub enum ParseIntError {
    General(String),
    TooLargeOrSmall,
}

/// A `ParseIntError` with its text as a sequence.
pub enum ParseIntErrorView {
    General(Seq<char>),
    TooLargeOrSmall,
}

impl View for ParseIntError {
    type V = ParseIntErrorView;

    open spec fn view(&self) -> ParseIntErrorView {
        match self {
            ParseIntError::General(m) => ParseIntErrorView::General(m@),
            ParseIntError::TooLargeOrSmall => ParseIntErrorView::TooLargeOrSmall,
        }
    }
}

impl ParseIntErrorView {
    /// The text of the error as it is shown to a reader.
    pub open spec fn message(self) -> Seq<char> {
        match self {
            ParseIntErrorView::General(m) => "general integer parsing error: "@ + m,
            ParseIntErrorView::TooLargeOrSmall => "integer too large or small"@,
        }
    }
}

impl ParseIntError {
    /// The text of the error as it is shown to a reader.
    pub fn message(&self) -> (s: String)
        ensures
            s@ == self@.message(),
    {
        match self {
            ParseIntError::General(m) => String::from_str("general integer parsing error: ").concat(
                m.as_str(),
            ),
            ParseIntError::TooLargeOrSmall => String::from_str("integer too large or small"),
        }
    }
}

/// An integer, held in an `i64` where it fits and in a `BigInt` where it does
/// not.
#[derive(Debug, PartialEq)]
pub enum AppropriateInt {
    Normal(i64),
    Big(BigInt),
}

impl View for AppropriateInt {
    type V = int;

    /// The number held.
    open spec fn view(&self) -> int {
        match self {
            AppropriateInt::Normal(n) => *n as int,
            AppropriateInt::Big(b) => big_value(*b),
        }
    }
}

impl AppropriateInt {
    /// The representation is the smallest that holds the number: `Big` only
    /// for what no `i64` can hold.
    pub open spec fn canonical(&self) -> bool {
        self is Big ==> !fits_i64(self@)
    }
}

pub open spec fn fits_i64(v: int) -> bool {
    i64::MIN <= v <= i64::MAX
}

pub open spec fn is_digit(c: char) -> bool {
    '0' <= c <= '9'
}

pub open spec fn digit_value(c: char) -> nat {
    (c as nat - '0' as nat) as nat
}

pub open spec fn all_digits(s: Seq<char>) -> bool {
    forall|i: int| 0 <= i < s.len() ==> is_digit(#[trigger] s[i])
}

/// The number that a run of decimal digits denotes.
pub open spec fn digits_value(s: Seq<char>) -> nat
    decreases s.len(),
{
    if s.len() == 0 {
        0
    } else {
        digits_value(s.drop_last()) * 10 + digit_value(s.last())
    }
}

pub open spec fn is_sign(c: char) -> bool {
    c == '-' || c == '+'
}

/// The text without its leading sign, if it has one.
pub open spec fn unsigned_part(s: Seq<char>) -> Seq<char> {
    if s.len() > 0 && is_sign(s[0]) {
        s.skip(1)
    } else {
        s
    }
}

/// An integer in decimal: an optional `+` or `-`, then one digit or more,
/// and nothing else.
pub open spec fn integer_text(s: Seq<char>) -> bool {
    unsigned_part(s).len() > 0 && all_digits(unsigned_part(s))
}

/// The number that an integer in decimal denotes.
pub open spec fn integer_text_value(s: Seq<char>) -> int {
    if s.len() > 0 && s[0] == '-' {
        -(digits_value(unsigned_part(s)) as int)
    } else {
        digits_value(unsigned_part(s)) as int
    }
}

/// What is reported of a text that is no integer: that it is empty, or that it
/// holds something other than digits after the sign.
pub open spec fn not_integer_text(s: Seq<char>) -> Seq<char> {
    if s.len() == 0 {
        "ParseIntError { kind: Empty }"@
    } else {
        "ParseIntError { kind: InvalidDigit }"@
    }
}

/// Calls `BigInt::from_str`, which reads an optional sign and then decimal
/// digits. On an integer in decimal it succeeds and gives the number that the
/// text denotes; of other texts nothing is claimed.
#[verifier::external_body]
fn parse_big(s: &str) -> (r: Option<BigInt>)
    ensures
        integer_text(s@) ==> r is Some && big_value(r->0) == integer_text_value(s@),
{
    <BigInt as std::str::FromStr>::from_str(s).ok()
}

proof fn lemma_digits_value_push(s: Seq<char>, c: char)
    ensures
        digits_value(s.push(c)) == digits_value(s) * 10 + digit_value(c),
{
    assert(s.push(c).drop_last() == s);
}

impl AppropriateInt {
    /// Reads an integer in decimal.
    ///
    /// The text is an optional sign followed by digits. The result is
    /// `Normal` where the number fits an `i64` and `Big` where it does not.
    /// Any other text is refused, with the reason as std words it.
    pub fn from_str(s: &str) -> (r: Result<AppropriateInt, ParseIntError>)
        ensures
            match r {
                Ok(v) => integer_text(s@) && v@ == integer_text_value(s@) && v.canonical() && (v is Normal
                    <==> fits_i64(integer_text_value(s@))),
                Err(e) => !integer_text(s@) && e@ == ParseIntErrorView::General(
                    not_integer_text(s@),
                ),
            },
    {
        let chars = chars_of(s);
        let n = chars.len();
        if n == 0 {
            return Err(ParseIntError::General(String::from_str("ParseIntError { kind: Empty }")));
        }
        let negative = chars[0] == '-';
        let start: usize = if chars[0] == '-' || chars[0] == '+' {
            1
        } else {
            0
        };
        if start == n {
            return Err(
                ParseIntError::General(String::from_str("ParseIntError { kind: InvalidDigit }")),
            );
        }
        let ghost digits = unsigned_part(s@);
        let mut acc: i64 = 0;
        let mut overflow = false;
        let mut i: usize = start;
        while i < n
            invariant
                chars@ == s@,
                n == chars.len(),
                start <= i <= n,
                start == (if is_sign(s@[0]) { 1usize } else { 0usize }),
                negative == (s@[0] == '-'),
                n > 0,
                digits == unsigned_part(s@),
                all_digits(digits.take(i - start)),
                !overflow ==> acc == (if negative {
                    -(digits_value(digits.take(i - start)) as int)
                } else {
                    digits_value(digits.take(i - start)) as int
                }),
                overflow ==> !fits_i64(
                    if negative {
                        -(digits_value(digits.take(i - start)) as int)
                    } else {
                        digits_value(digits.take(i - start)) as int
                    },
                ),
            decreases n - i,
        {
            let c = chars[i];
            proof {
                assert(digits[i - start] == c);
                assert(digits.take(i - start + 1) == digits.take(i - start).push(c));
                lemma_digits_value_push(digits.take(i - start), c);
            }
            if !('0' <= c && c <= '9') {
                proof {
                    assert(!is_digit(unsigned_part(s@)[i - start]));
                }
                return Err(
                    ParseIntError::General(
                        String::from_str("ParseIntError { kind: InvalidDigit }"),
                    ),
                );
            }
            let d: i64 = (c as u32 - '0' as u32) as i64;
            if !overflow {
                let next = match acc.checked_mul(10) {
                    Some(m) => if negative {
                        m.checked_sub(d)
                    } else {
                        m.checked_add(d)
                    },
                    None => None,
                };
                match next {
                    Some(v) => {
                        acc = v;
                    },
                    None => {
                        overflow = true;
                    },
                }
            }
            i += 1;
        }
        proof {
            assert(digits.take(n - start) == digits);
        }
        if overflow {
            match parse_big(s) {
                Some(b) => Ok(AppropriateInt::Big(b)),
                None => Err(ParseIntError::TooLargeOrSmall),
            }
        } else {
            Ok(AppropriateInt::Normal(acc))
        }
    }
}

impl std::str::FromStr for AppropriateInt {
    type Err = ParseIntError;

    /// Reads an integer in decimal, as `AppropriateInt::from_str` does: an
    /// optional sign followed by digits gives the number that they denote,
    /// `Normal` where it fits an `i64` and `Big` where it does not; any other
    /// text is refused, with the reason as std words it.
    fn from_str(s: &str) -> (r: Result<AppropriateInt, ParseIntError>)
        ensures
            match r {
                Ok(v) => integer_text(s@) && v@ == integer_text_value(s@) && v.canonical() && (v is Normal
                    <==> fits_i64(integer_text_value(s@))),
                Err(e) => !integer_text(s@) && e@ == ParseIntErrorView::General(
                    not_integer_text(s@),
                ),
            },
    {
        AppropriateInt::from_str(s)
    }
}

/// Whether integers beyond the range of `i64` can be represented.
pub fn supports_bigint() -> (r: bool)
    ensures
        r,
{
    true
}

} // verus!
