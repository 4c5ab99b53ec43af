//! Panic-free base-10 parsing of signed integers from ASCII bytes.

use vstd::prelude::*;

verus! {

/// A custom error type for integer parsing.
#[derive(Debug, PartialEq, Eq, Clone, Copy, Structural)]
pub enum ConstParseIntegerError {
    /// The input byte slice was empty.
    Empty,
    /// The input consisted only of a sign character (`+` or `-`).
    SignOnly,
    /// An invalid character was found that was not a base-10 digit.
    InvalidDigit,
    /// The number overflowed or underflowed the target integer type.
    Overflow,
}

pub open spec fn is_ascii_digit(b: u8) -> bool {
    0x30 <= b <= 0x39
}

/// Reads `digits` left to right, building the value towards negative
/// numbers when `neg`; every intermediate value must stay in `[min, max]`.
pub open spec fn spec_fold_digits(digits: Seq<u8>, neg: bool, min: int, max: int) -> Result<int, ConstParseIntegerError>
    decreases digits.len(),
{
    if digits.len() == 0 {
        Ok(0)
    } else {
        match spec_fold_digits(digits.drop_last(), neg, min, max) {
            Err(e) => Err(e),
            Ok(r) => {
                let c = digits.last();
                if !is_ascii_digit(c) {
                    Err(ConstParseIntegerError::InvalidDigit)
                } else if r * 10 < min || r * 10 > max {
                    Err(ConstParseIntegerError::Overflow)
                } else {
                    let n = if neg {
                        r * 10 - (c - 0x30)
                    } else {
                        r * 10 + (c - 0x30)
                    };
                    if n < min || n > max {
                        Err(ConstParseIntegerError::Overflow)
                    } else {
                        Ok(n)
                    }
                }
            },
        }
    }
}

/// The sign of the input and its digits.
pub open spec fn split_sign(src: Seq<u8>) -> (bool, Seq<u8>) {
    if src.len() > 0 && src[0] == 0x2b {
        (false, src.skip(1))
    } else if src.len() > 0 && src[0] == 0x2d {
        (true, src.skip(1))
    } else {
        (false, src)
    }
}

/// What parsing `src` as an integer in `[min, max]` gives.
pub open spec fn spec_parse_int(src: Seq<u8>, min: int, max: int) -> Result<int, ConstParseIntegerError> {
    if src.len() == 0 {
        Err(ConstParseIntegerError::Empty)
    } else {
        let (neg, digits) = split_sign(src);
        if digits.len() == 0 {
            Err(ConstParseIntegerError::SignOnly)
        } else {
            spec_fold_digits(digits, neg, min, max)
        }
    }
}

/// The decimal value of a sequence of ASCII digits.
pub open spec fn decimal_value(digits: Seq<u8>) -> nat
    decreases digits.len(),
{
    if digits.len() == 0 {
        0
    } else {
        decimal_value(digits.drop_last()) * 10 + (digits.last() - 0x30) as nat
    }
}

pub open spec fn all_digits(digits: Seq<u8>) -> bool {
    forall|i: int| 0 <= i < digits.len() ==> is_ascii_digit(#[trigger] digits[i])
}

/// For digits only, the fold gives the signed decimal value exactly when it
/// is in range, and `Overflow` otherwise (for ranges holding 0).
pub proof fn lemma_fold_digits_value(digits: Seq<u8>, neg: bool, min: int, max: int)
    requires
        all_digits(digits),
        min <= 0 <= max,
    ensures
        ({
            let v: int = if neg { -decimal_value(digits) } else { decimal_value(digits) as int };
            spec_fold_digits(digits, neg, min, max) == if min <= v <= max {
                Ok::<int, ConstParseIntegerError>(v)
            } else {
                Err::<int, ConstParseIntegerError>(ConstParseIntegerError::Overflow)
            }
        }),
    decreases digits.len(),
{
    if digits.len() > 0 {
        let pre = digits.drop_last();
        assert(all_digits(pre)) by {
            assert forall|i: int| 0 <= i < pre.len() implies is_ascii_digit(#[trigger] pre[i]) by {
                assert(pre[i] == digits[i]);
            }
        }
        assert(is_ascii_digit(digits[digits.len() - 1]));
        lemma_fold_digits_value(pre, neg, min, max);
        let pv = decimal_value(pre);
        let d = (digits.last() - 0x30) as nat;
        assert(decimal_value(digits) == pv * 10 + d);
        if neg {
            assert(-(pv * 10 + d) <= -pv * 10) by (nonlinear_arith)
                requires
                    d >= 0,
            ;
            assert(-pv <= 0 && (-pv) * 10 == -(pv * 10)) by (nonlinear_arith);
            assert(-pv * 10 <= -pv) by (nonlinear_arith)
                requires
                    pv >= 0,
            ;
        } else {
            assert(pv <= pv * 10) by (nonlinear_arith)
                requires
                    pv >= 0,
            ;
        }
    }
}

/// An input that is a sign followed by digits only parses to its decimal
/// value exactly when that value is in range.
pub proof fn lemma_parse_int_value(src: Seq<u8>, min: int, max: int)
    requires
        min <= 0 <= max,
        split_sign(src).1.len() > 0,
        all_digits(split_sign(src).1),
    ensures
        ({
            let (neg, digits) = split_sign(src);
            let v: int = if neg { -decimal_value(digits) } else { decimal_value(digits) as int };
            spec_parse_int(src, min, max) == if min <= v <= max {
                Ok::<int, ConstParseIntegerError>(v)
            } else {
                Err::<int, ConstParseIntegerError>(ConstParseIntegerError::Overflow)
            }
        }),
{
    let (neg, digits) = split_sign(src);
    lemma_fold_digits_value(digits, neg, min, max);
}

/// Parses a byte slice into an `i8`. This function never panics.
pub fn from_ascii_i8(src: &[u8]) -> (r: Result<i8, ConstParseIntegerError>)
    ensures
        match spec_parse_int(src@, i8::MIN as int, i8::MAX as int) {
            Ok(v) => r == Ok::<i8, ConstParseIntegerError>(v as i8),
            Err(e) => r == Err::<i8, ConstParseIntegerError>(e),
        },
{
    if src.len() == 0 {
        return Err(ConstParseIntegerError::Empty);
    }
    let (is_negative, start) = if src[0] == 0x2b {
        (false, 1usize)
    } else if src[0] == 0x2d {
        (true, 1usize)
    } else {
        (false, 0usize)
    };
    let ghost digits = src@.skip(start as int);
    proof {
        assert(split_sign(src@) == (is_negative, digits)) by {
            if start == 0 {
                assert(src@.skip(0) =~= src@);
            }
        }
    }
    if start == src.len() {
        return Err(ConstParseIntegerError::SignOnly);
    }
    let mut result: i8 = 0;
    let mut i: usize = start;
    proof {
        assert(digits.take(0) =~= Seq::<u8>::empty());
    }
    while i < src.len()
        invariant
            start <= i <= src@.len(),
            digits == src@.skip(start as int),
            split_sign(src@) == (is_negative, digits),
            src@.len() > 0,
            start < src@.len(),
            spec_fold_digits(digits.take(i - start), is_negative, i8::MIN as int, i8::MAX as int)
                == Ok::<int, ConstParseIntegerError>(result as int),
        decreases src@.len() - i,
    {
        let byte = src[i];
        let ghost pre = digits.take(i - start);
        let ghost next = digits.take(i - start + 1);
        proof {
            assert(next.drop_last() =~= pre);
            assert(next.last() == byte);
        }
        if !(0x30 <= byte && byte <= 0x39) {
            proof {
                lemma_fold_error_stable(digits, is_negative, i8::MIN as int, i8::MAX as int, i - start + 1);
            }
            return Err(ConstParseIntegerError::InvalidDigit);
        }
        let digit = (byte - 0x30) as i8;
        result = match result.checked_mul(10) {
            Some(val) => val,
            None => {
                proof {
                    lemma_fold_error_stable(digits, is_negative, i8::MIN as int, i8::MAX as int, i - start + 1);
                }
                return Err(ConstParseIntegerError::Overflow);
            },
        };
        // Building the number negatively from the start handles the minimum value.
        if is_negative {
            result = match result.checked_sub(digit) {
                Some(val) => val,
                None => {
                    proof {
                        lemma_fold_error_stable(digits, is_negative, i8::MIN as int, i8::MAX as int, i - start + 1);
                    }
                    return Err(ConstParseIntegerError::Overflow);
                },
            };
        } else {
            result = match result.checked_add(digit) {
                Some(val) => val,
                None => {
                    proof {
                        lemma_fold_error_stable(digits, is_negative, i8::MIN as int, i8::MAX as int, i - start + 1);
                    }
                    return Err(ConstParseIntegerError::Overflow);
                },
            };
        }
        i = i + 1;
    }
    proof {
        assert(digits.take(i - start) =~= digits);
    }
    Ok(result)
}

/// Parses a byte slice into an `i32`. This function never panics.
pub fn from_ascii_i32(src: &[u8]) -> (r: Result<i32, ConstParseIntegerError>)
    ensures
        match spec_parse_int(src@, i32::MIN as int, i32::MAX as int) {
            Ok(v) => r == Ok::<i32, ConstParseIntegerError>(v as i32),
            Err(e) => r == Err::<i32, ConstParseIntegerError>(e),
        },
{
    if src.len() == 0 {
        return Err(ConstParseIntegerError::Empty);
    }
    let (is_negative, start) = if src[0] == 0x2b {
        (false, 1usize)
    } else if src[0] == 0x2d {
        (true, 1usize)
    } else {
        (false, 0usize)
    };
    let ghost digits = src@.skip(start as int);
    proof {
        assert(split_sign(src@) == (is_negative, digits)) by {
            if start == 0 {
                assert(src@.skip(0) =~= src@);
            }
        }
    }
    if start == src.len() {
        return Err(ConstParseIntegerError::SignOnly);
    }
    let mut result: i32 = 0;
    let mut i: usize = start;
    proof {
        assert(digits.take(0) =~= Seq::<u8>::empty());
    }
    while i < src.len()
        invariant
            start <= i <= src@.len(),
            digits == src@.skip(start as int),
            split_sign(src@) == (is_negative, digits),
            src@.len() > 0,
            start < src@.len(),
            spec_fold_digits(digits.take(i - start), is_negative, i32::MIN as int, i32::MAX as int)
                == Ok::<int, ConstParseIntegerError>(result as int),
        decreases src@.len() - i,
    {
        let byte = src[i];
        let ghost pre = digits.take(i - start);
        let ghost next = digits.take(i - start + 1);
        proof {
            assert(next.drop_last() =~= pre);
            assert(next.last() == byte);
        }
        if !(0x30 <= byte && byte <= 0x39) {
            proof {
                lemma_fold_error_stable(digits, is_negative, i32::MIN as int, i32::MAX as int, i - start + 1);
            }
            return Err(ConstParseIntegerError::InvalidDigit);
        }
        let digit = (byte - 0x30) as i32;
        result = match result.checked_mul(10) {
            Some(val) => val,
            None => {
                proof {
                    lemma_fold_error_stable(digits, is_negative, i32::MIN as int, i32::MAX as int, i - start + 1);
                }
                return Err(ConstParseIntegerError::Overflow);
            },
        };
        // Building the number negatively from the start handles the minimum value.
        if is_negative {
            result = match result.checked_sub(digit) {
                Some(val) => val,
                None => {
                    proof {
                        lemma_fold_error_stable(digits, is_negative, i32::MIN as int, i32::MAX as int, i - start + 1);
                    }
                    return Err(ConstParseIntegerError::Overflow);
                },
            };
        } else {
            result = match result.checked_add(digit) {
                Some(val) => val,
                None => {
                    proof {
                        lemma_fold_error_stable(digits, is_negative, i32::MIN as int, i32::MAX as int, i - start + 1);
                    }
                    return Err(ConstParseIntegerError::Overflow);
                },
            };
        }
        i = i + 1;
    }
    proof {
        assert(digits.take(i - start) =~= digits);
    }
    Ok(result)
}

/// Parses a byte slice into an `i64`. This function never panics.
pub fn from_ascii_i64(src: &[u8]) -> (r: Result<i64, ConstParseIntegerError>)
    ensures
        match spec_parse_int(src@, i64::MIN as int, i64::MAX as int) {
            Ok(v) => r == Ok::<i64, ConstParseIntegerError>(v as i64),
            Err(e) => r == Err::<i64, ConstParseIntegerError>(e),
        },
{
    if src.len() == 0 {
        return Err(ConstParseIntegerError::Empty);
    }
    let (is_negative, start) = if src[0] == 0x2b {
        (false, 1usize)
    } else if src[0] == 0x2d {
        (true, 1usize)
    } else {
        (false, 0usize)
    };
    let ghost digits = src@.skip(start as int);
    proof {
        assert(split_sign(src@) == (is_negative, digits)) by {
            if start == 0 {
                assert(src@.skip(0) =~= src@);
            }
        }
    }
    if start == src.len() {
        return Err(ConstParseIntegerError::SignOnly);
    }
    let mut result: i64 = 0;
    let mut i: usize = start;
    proof {
        assert(digits.take(0) =~= Seq::<u8>::empty());
    }
    while i < src.len()
        invariant
            start <= i <= src@.len(),
            digits == src@.skip(start as int),
            split_sign(src@) == (is_negative, digits),
            src@.len() > 0,
            start < src@.len(),
            spec_fold_digits(digits.take(i - start), is_negative, i64::MIN as int, i64::MAX as int)
                == Ok::<int, ConstParseIntegerError>(result as int),
        decreases src@.len() - i,
    {
        let byte = src[i];
        let ghost pre = digits.take(i - start);
        let ghost next = digits.take(i - start + 1);
        proof {
            assert(next.drop_last() =~= pre);
            assert(next.last() == byte);
        }
        if !(0x30 <= byte && byte <= 0x39) {
            proof {
                lemma_fold_error_stable(digits, is_negative, i64::MIN as int, i64::MAX as int, i - start + 1);
            }
            return Err(ConstParseIntegerError::InvalidDigit);
        }
        let digit = (byte - 0x30) as i64;
        result = match result.checked_mul(10) {
            Some(val) => val,
            None => {
                proof {
                    lemma_fold_error_stable(digits, is_negative, i64::MIN as int, i64::MAX as int, i - start + 1);
                }
                return Err(ConstParseIntegerError::Overflow);
            },
        };
        // Building the number negatively from the start handles the minimum value.
        if is_negative {
            result = match result.checked_sub(digit) {
                Some(val) => val,
                None => {
                    proof {
                        lemma_fold_error_stable(digits, is_negative, i64::MIN as int, i64::MAX as int, i - start + 1);
                    }
                    return Err(ConstParseIntegerError::Overflow);
                },
            };
        } else {
            result = match result.checked_add(digit) {
                Some(val) => val,
                None => {
                    proof {
                        lemma_fold_error_stable(digits, is_negative, i64::MIN as int, i64::MAX as int, i - start + 1);
                    }
                    return Err(ConstParseIntegerError::Overflow);
                },
            };
        }
        i = i + 1;
    }
    proof {
        assert(digits.take(i - start) =~= digits);
    }
    Ok(result)
}

/// Once a prefix of the digits fails, the whole fails the same way.
proof fn lemma_fold_error_stable(digits: Seq<u8>, neg: bool, min: int, max: int, k: int)
    requires
        0 <= k <= digits.len(),
        spec_fold_digits(digits.take(k), neg, min, max) is Err,
    ensures
        spec_fold_digits(digits, neg, min, max) == spec_fold_digits(digits.take(k), neg, min, max),
    decreases digits.len() - k,
{
    if k < digits.len() {
        assert(digits.take(k + 1).drop_last() =~= digits.take(k));
        lemma_fold_error_stable(digits, neg, min, max, k + 1);
    } else {
        assert(digits.take(k) =~= digits);
    }
}

} // verus!
