//! Line numbers: line 1 is the first line of a text.
use crate::convert::{u32_from_i64, u32_from_usize, IntConversionError};
use crate::number::{parse_usize, spec_parse_usize, IntErrorKind};
use crate::ui::IndexType;
use vstd::prelude::*;

verus! {

/// The type of the value stored in a [`LineNumber`].
pub type LineNumberType = u32;

/// The number of a line; line 1 is the first line of a text.
#[derive(Copy, Clone, PartialEq, Eq, Ord, PartialOrd, Hash, Debug, Structural)]
pub struct LineNumber(LineNumberType);

impl View for LineNumber {
    type V = nat;

    closed spec fn view(&self) -> nat {
        self.0 as nat
    }
}

/// The value of `line + shift`, as [`LineNumber::add`] computes it: a sum below 0 gives
/// line 1, a sum above `u32::MAX` gives `u32::MAX`.
pub open spec fn spec_line_add(line: nat, shift: int) -> nat {
    let sum = line + shift;
    if sum < 0 {
        1
    } else if sum > u32::MAX {
        u32::MAX as nat
    } else {
        sum as nat
    }
}

/// Why a text does not name a line.
#[derive(Clone, Copy, Debug, PartialEq, Eq, Structural)]
pub enum ParseLineNumberError {
    /// The text is a number that is no line number (0, or a number above `u32::MAX`).
    InvalidValue,
    /// The text is not a number.
    ParseInt(IntErrorKind),
}

/// What [`LineNumber::from_chars`] gives for `s`.
pub open spec fn spec_line_from_chars(s: Seq<char>) -> Result<nat, ParseLineNumberError> {
    match spec_parse_usize(s) {
        Ok(v) => if v == 0 || v > u32::MAX {
            Err(ParseLineNumberError::InvalidValue)
        } else {
            Ok(v)
        },
        Err(e) => Err(ParseLineNumberError::ParseInt(e)),
    }
}

impl LineNumber {
    /// Creates the number of line `value`; there is none for 0 and for values above
    /// `u32::MAX`.
    pub fn new(value: usize) -> (r: Option<LineNumber>)
        ensures
            match r {
                Some(line) => 0 < value <= u32::MAX && line@ == value,
                None => value == 0 || value > u32::MAX,
            },
    {
        if value == 0 {
            None
        } else {
            match u32_from_usize(value) {
                Ok(v) => Some(LineNumber(v)),
                Err(_) => None,
            }
        }
    }

    /// The first line.
    pub fn first() -> (line: LineNumber)
        ensures
            line@ == 1,
    {
        LineNumber(1)
    }

    /// Returns the value of `self`.
    pub fn value(&self) -> (v: LineNumberType)
        ensures
            v == self@,
    {
        self.0
    }

    /// Converts `self` to the index of its row, line 1 being at row 0.
    pub fn row(self) -> (r: usize)
        requires
            self@ >= 1,
        ensures
            r == self@ - 1,
    {
        (self.0 - 1) as usize
    }

    /// Returns the line `other` lines after `self` (before it if `other` is negative); a
    /// result below 0 gives line 1 and a result above `u32::MAX` gives `u32::MAX`.
    pub fn add(self, other: IndexType) -> (r: LineNumber)
        ensures
            r@ == spec_line_add(self@, other as int),
    {
        match u32_from_i64(self.0 as i64 + other as i64) {
            Err(IntConversionError::Underflow) => LineNumber(1),
            Err(IntConversionError::Overflow) => LineNumber(u32::MAX),
            Ok(sum) => LineNumber(sum),
        }
    }

    /// Returns how many lines `self` is after `other`.
    pub fn sub(self, other: LineNumber) -> (r: i64)
        ensures
            r == self@ - other@,
    {
        self.0 as i64 - other.0 as i64
    }

    /// Reads a line number from its decimal text, as `str::parse` reads a `usize`.
    pub fn from_chars(s: &[char]) -> (r: Result<LineNumber, ParseLineNumberError>)
        ensures
            match spec_line_from_chars(s@) {
                Ok(v) => r matches Ok(line) && line@ == v,
                Err(e) => r == Err::<LineNumber, ParseLineNumberError>(e),
            },
    {
        match parse_usize(s) {
            Ok(v) => match LineNumber::new(v) {
                Some(line) => Ok(line),
                None => Err(ParseLineNumberError::InvalidValue),
            },
            Err(e) => Err(ParseLineNumberError::ParseInt(e)),
        }
    }

    /// Whether `self` comes before `other` or is `other`.
    pub fn is_at_most(self, other: LineNumber) -> (r: bool)
        ensures
            r == (self@ <= other@),
    {
        self.0 <= other.0
    }

    /// The earlier of two lines.
    pub fn earlier(self, other: LineNumber) -> (r: LineNumber)
        ensures
            r@ == if self@ <= other@ { self@ } else { other@ },
    {
        if self.0 <= other.0 {
            self
        } else {
            other
        }
    }

    /// The later of two lines.
    pub fn later(self, other: LineNumber) -> (r: LineNumber)
        ensures
            r@ == if self@ >= other@ { self@ } else { other@ },
    {
        if self.0 >= other.0 {
            self
        } else {
            other
        }
    }
}

impl Default for LineNumber {
    /// The first line.
    fn default() -> (line: LineNumber)
        ensures
            line@ == 1,
    {
        LineNumber(1)
    }
}

} // verus!
