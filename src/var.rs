//! Parsing the build-time configuration values, such as the size hint of the
//! second stage, from their decimal text.
use vstd::prelude::*;

verus! {

/// Why a configuration value is not a valid number.
#[derive(Clone, Copy, Debug, PartialEq, Eq, Hash)]
pub enum VarError {
    /// A character is not a decimal digit, or a sign stands alone.
    InvalidDigit,
    /// The value is negative, which an unsigned number cannot be.
    Negative,
    /// The value does not fit in the number's type.
    Overflow,
}

pub open spec fn is_digit(c: u8) -> bool {
    48 <= c <= 57
}

/// The value of the first `n` digits of `s`, scanning left to right: the
/// first character that is not a digit, or the first digit that takes the
/// value past `max`, stops the scan with an error.
pub open spec fn scan_digits(s: Seq<u8>, n: nat, max: int) -> Result<int, VarError>
    decreases n,
{
    if n == 0 {
        Ok(0)
    } else {
        match scan_digits(s, (n - 1) as nat, max) {
            Err(e) => Err(e),
            Ok(v) => if !is_digit(s[n - 1]) {
                Err(VarError::InvalidDigit)
            } else if 10 * v + (s[n - 1] - 48) > max {
                Err(VarError::Overflow)
            } else {
                Ok(10 * v + (s[n - 1] - 48))
            },
        }
    }
}

/// What the text `s` is as an unsigned number of at most `max`: an optional
/// `+` followed by decimal digits; no digits at all read as zero.
pub open spec fn parse_unsigned(s: Seq<u8>, max: int) -> Result<int, VarError> {
    if s.len() == 1 && (s[0] == 43 || s[0] == 45) {
        Err(VarError::InvalidDigit)
    } else if s.len() >= 1 && s[0] == 45 {
        Err(VarError::Negative)
    } else if s.len() >= 1 && s[0] == 43 {
        scan_digits(s.drop_first(), (s.len() - 1) as nat, max)
    } else {
        scan_digits(s, s.len(), max)
    }
}

/// Parses decimal text as a `u16`.
pub fn parse_u16(s: &[u8]) -> (r: Result<u16, VarError>)
    ensures
        match parse_unsigned(s@, u16::MAX as int) {
            Ok(v) => r == Ok::<u16, VarError>(v as u16),
            Err(e) => r == Err::<u16, VarError>(e),
        },
{
    let n: usize = s.len();
    if n == 1 && (s[0] == 43 || s[0] == 45) {
        return Err(VarError::InvalidDigit);
    }
    if n >= 1 && s[0] == 45 {
        return Err(VarError::Negative);
    }
    let start: usize = if n >= 1 && s[0] == 43 { 1 } else { 0 };
    let ghost body = s@.subrange(start as int, n as int);
    proof {
        if start == 1 {
            assert(body =~= s@.drop_first());
        } else {
            assert(body =~= s@);
        }
        assert(parse_unsigned(s@, u16::MAX as int) == scan_digits(body, body.len(), u16::MAX as int));
    }
    let mut value: u16 = 0;
    let mut i: usize = start;
    while i < n
        invariant
            start <= i <= n,
            n == s@.len(),
            body == s@.subrange(start as int, n as int),
            body.len() == n - start,
            parse_unsigned(s@, u16::MAX as int) == scan_digits(body, body.len(), u16::MAX as int),
            scan_digits(body, (i - start) as nat, u16::MAX as int) == Ok::<int, VarError>(
                value as int,
            ),
        decreases n - i,
    {
        let c = s[i];
        let ghost k = (i - start) as nat;
        assert(body[k as int] == c);
        if c < 48 || c > 57 {
            assert(scan_digits(body, k + 1, u16::MAX as int) == Err::<int, VarError>(
                VarError::InvalidDigit,
            ));
            proof {
                lemma_scan_stops(body, k + 1, body.len(), u16::MAX as int);
            }
            return Err(VarError::InvalidDigit);
        }
        let d: u32 = (c - 48) as u32;
        let next: u32 = 10 * (value as u32) + d;
        if next > 65535 {
            assert(scan_digits(body, k + 1, u16::MAX as int) == Err::<int, VarError>(
                VarError::Overflow,
            ));
            proof {
                lemma_scan_stops(body, k + 1, body.len(), u16::MAX as int);
            }
            return Err(VarError::Overflow);
        }
        value = next as u16;
        i = i + 1;
    }
    Ok(value)
}

/// Once the scan has failed, it stays failed with the same error.
proof fn lemma_scan_stops(s: Seq<u8>, m: nat, n: nat, max: int)
    requires
        m <= n,
        scan_digits(s, m, max) is Err,
    ensures
        scan_digits(s, n, max) == scan_digits(s, m, max),
    decreases n - m,
{
    if m < n {
        lemma_scan_stops(s, m, (n - 1) as nat, max);
    }
}

/// The size hint of the second stage, in sectors: zero where the build sets
/// none, otherwise the value's text parsed as a `u16`.
pub fn stage_2_size_hint(value: Option<&[u8]>) -> (r: Result<u16, VarError>)
    ensures
        value is None ==> r == Ok::<u16, VarError>(0),
        value matches Some(s) ==> match parse_unsigned(s@, u16::MAX as int) {
            Ok(v) => r == Ok::<u16, VarError>(v as u16),
            Err(e) => r == Err::<u16, VarError>(e),
        },
{
    match value {
        Some(s) => parse_u16(s),
        None => Ok(0),
    }
}

} // verus!
