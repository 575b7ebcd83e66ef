//! Conversions between machine integers, performed by the `try_from` crate.
use vstd::prelude::*;

verus! {

/// Why a conversion between integer types failed.
#[derive(Clone, Copy, Debug, PartialEq, Eq, Structural)]
pub enum IntConversionError {
    /// The value is greater than the largest value of the target type.
    Overflow,
    /// The value is less than the smallest value of the target type.
    Underflow,
}

/// Converts with `<u32 as try_from::TryFrom<usize>>::try_from`.
///
/// Claimed of it: the value is kept when it fits in a `u32`, and `Overflow` is the error
/// otherwise (a `usize` is never negative).
#[verifier::external_body]
pub(crate) fn u32_from_usize(n: usize) -> (r: Result<u32, IntConversionError>)
    ensures
        match r {
            Ok(v) => n <= u32::MAX && v == n,
            Err(e) => n > u32::MAX && e == IntConversionError::Overflow,
        },
{
    match <u32 as try_from::TryFrom<usize>>::try_from(n) {
        Ok(v) => Ok(v),
        Err(try_from::TryFromIntError::Overflow) => Err(IntConversionError::Overflow),
        Err(try_from::TryFromIntError::Underflow) => Err(IntConversionError::Underflow),
    }
}

/// Converts with `<u32 as try_from::TryFrom<i64>>::try_from`.
///
/// Claimed of it: negative values give `Underflow`, values above `u32::MAX` give `Overflow`,
/// and every other value is kept.
#[verifier::external_body]
pub(crate) fn u32_from_i64(n: i64) -> (r: Result<u32, IntConversionError>)
    ensures
        match r {
            Ok(v) => 0 <= n <= u32::MAX && v == n,
            Err(e) => (n < 0 && e == IntConversionError::Underflow) || (n > u32::MAX && e
                == IntConversionError::Overflow),
        },
{
    match <u32 as try_from::TryFrom<i64>>::try_from(n) {
        Ok(v) => Ok(v),
        Err(try_from::TryFromIntError::Overflow) => Err(IntConversionError::Overflow),
        Err(try_from::TryFromIntError::Underflow) => Err(IntConversionError::Underflow),
    }
}

/// Converts with `<i32 as try_from::TryFrom<usize>>::try_from`.
///
/// Claimed of it: the value is kept when it is at most `i32::MAX`, and `Overflow` is the
/// error otherwise.
#[verifier::external_body]
pub(crate) fn i32_from_usize(n: usize) -> (r: Result<i32, IntConversionError>)
    ensures
        match r {
            Ok(v) => n <= i32::MAX && v == n,
            Err(e) => n > i32::MAX && e == IntConversionError::Overflow,
        },
{
    match <i32 as try_from::TryFrom<usize>>::try_from(n) {
        Ok(v) => Ok(v),
        Err(try_from::TryFromIntError::Overflow) => Err(IntConversionError::Overflow),
        Err(try_from::TryFromIntError::Underflow) => Err(IntConversionError::Underflow),
    }
}

/// Converts with `<i32 as try_from::TryFrom<i64>>::try_from`.
///
/// Claimed of it: values above `i32::MAX` give `Overflow`, values below `i32::MIN` give
/// `Underflow`, and every other value is kept.
#[verifier::external_body]
pub(crate) fn i32_from_i64(n: i64) -> (r: Result<i32, IntConversionError>)
    ensures
        match r {
            Ok(v) => i32::MIN <= n <= i32::MAX && v == n,
            Err(e) => (n < i32::MIN && e == IntConversionError::Underflow) || (n > i32::MAX && e
                == IntConversionError::Overflow),
        },
{
    match <i32 as try_from::TryFrom<i64>>::try_from(n) {
        Ok(v) => Ok(v),
        Err(try_from::TryFromIntError::Overflow) => Err(IntConversionError::Overflow),
        Err(try_from::TryFromIntError::Underflow) => Err(IntConversionError::Underflow),
    }
}

/// Converts with `<usize as try_from::TryFrom<i32>>::try_from`.
///
/// Claimed of it: negative values give `Underflow`; every other value is kept (an `i32` that
/// is not negative always fits in a `usize`).
#[verifier::external_body]
pub(crate) fn usize_from_i32(n: i32) -> (r: Result<usize, IntConversionError>)
    ensures
        match r {
            Ok(v) => 0 <= n && v == n,
            Err(e) => n < 0 && e == IntConversionError::Underflow,
        },
{
    match <usize as try_from::TryFrom<i32>>::try_from(n) {
        Ok(v) => Ok(v),
        Err(try_from::TryFromIntError::Overflow) => Err(IntConversionError::Overflow),
        Err(try_from::TryFromIntError::Underflow) => Err(IntConversionError::Underflow),
    }
}

} // verus!
